use registry::codec::Codec;
use registry::configuration::{parse_str, serialize};
use registry::error::{ConfigError, Expected};
use registry::parameter::{Parameter, Parameters};
use registry::table::Table;
use registry::tree::Node;
use registry::yaml::{read_document, write_document};

fn parameter_of(text: &str) -> Parameter {
    Parameter::from_node(&read_document(text).unwrap()).unwrap()
}

#[test]
fn plain_integer_is_an_integer() {
    assert_eq!(parameter_of("42"), Parameter::Integer(42));
    assert_eq!(parameter_of("-7"), Parameter::Integer(-7));
    assert_eq!(parameter_of("9223372036854775807"), Parameter::Integer(i64::MAX));
    assert_eq!(parameter_of("-9223372036854775808"), Parameter::Integer(i64::MIN));
}

#[test]
fn quoted_integer_is_a_string() {
    assert_eq!(parameter_of("\"42\""), Parameter::String("42".to_string()));
    assert_eq!(parameter_of("'42'"), Parameter::String("42".to_string()));
}

#[test]
fn booleans_are_booleans() {
    assert_eq!(parameter_of("true"), Parameter::Boolean(true));
    assert_eq!(parameter_of("false"), Parameter::Boolean(false));
    assert_eq!(parameter_of("\"true\""), Parameter::String("true".to_string()));
}

#[test]
fn explicit_null_is_null() {
    assert_eq!(parameter_of("~"), Parameter::Null);
    assert_eq!(parameter_of("null"), Parameter::Null);
    assert_eq!(Parameter::default_value(), Parameter::Null);
}

#[test]
fn other_numbers_are_doubles_by_their_text() {
    assert_eq!(parameter_of("1.5"), Parameter::Double("1.5".to_string()));
    assert_eq!(parameter_of("1.50"), Parameter::Double("1.5".to_string()));
    assert_eq!(parameter_of("-0.25"), Parameter::Double("-0.25".to_string()));
    assert_eq!(parameter_of(".inf"), Parameter::Double(".inf".to_string()));
    assert_eq!(
        parameter_of("18446744073709551615"),
        Parameter::Double("18446744073709551615".to_string())
    );
    assert_eq!(parameter_of("1.5").model_as_float(), 1.5);
}

trait AsFloat {
    fn model_as_float(&self) -> f64;
}

impl AsFloat for Parameter {
    fn model_as_float(&self) -> f64 {
        match self {
            Parameter::Double(text) => text.parse().unwrap(),
            other => panic!("no double: {:?}", other),
        }
    }
}

#[test]
fn plain_text_is_a_string() {
    assert_eq!(parameter_of("hello"), Parameter::String("hello".to_string()));
    assert_eq!(parameter_of("us-east-1"), Parameter::String("us-east-1".to_string()));
}

#[test]
fn integer_and_double_are_never_equal() {
    assert_ne!(Parameter::Integer(1), Parameter::Double("1".to_string()));
    assert_ne!(Parameter::Integer(1), Parameter::Double("1.0".to_string()));
    assert_ne!(Parameter::String("1".to_string()), Parameter::Integer(1));
    assert_ne!(Parameter::Null, Parameter::Boolean(false));
}

#[test]
fn sequence_or_mapping_is_no_parameter() {
    assert_eq!(
        Parameter::from_node(&Node::List(vec![])),
        Err(ConfigError::TypeMismatch(Expected::Scalar))
    );
    assert_eq!(
        Parameter::from_node(&Node::Dict(vec![])),
        Err(ConfigError::TypeMismatch(Expected::Scalar))
    );
    assert_eq!(
        Parameter::from_node(&read_document("!tag 1").unwrap()),
        Err(ConfigError::TypeMismatch(Expected::Scalar))
    );
}

#[test]
fn each_parameter_is_written_as_its_own_kind() {
    assert_eq!(Parameter::Integer(42).to_node(), Node::Int(42));
    assert_eq!(Parameter::Double("1.5".to_string()).to_node(), Node::Real("1.5".to_string()));
    assert_eq!(Parameter::String("42".to_string()).to_node(), Node::Text("42".to_string()));
    assert_eq!(Parameter::Boolean(true).to_node(), Node::Bool(true));
    assert_eq!(Parameter::Null.to_node(), Node::Null);
}

#[test]
fn null_parameter_is_written_as_an_explicit_null() {
    let bag = Parameters::from_node(&read_document("host: ~").unwrap()).unwrap();
    let text = write_document(&bag.to_node()).unwrap();
    assert_eq!(text, "host: null\n");
    assert_eq!(Parameters::from_node(&read_document(&text).unwrap()).unwrap(), bag);
}

#[test]
fn bag_takes_every_key_in_key_order() {
    let bag = Parameters::from_node(
        &read_document("zeta: 1\nalpha: two\nmiddle: 3.5\nflag: true\nnothing: ~\n").unwrap(),
    )
    .unwrap();
    assert_eq!(
        bag.parameters.entries,
        vec![
            ("alpha".to_string(), Parameter::String("two".to_string())),
            ("flag".to_string(), Parameter::Boolean(true)),
            ("middle".to_string(), Parameter::Double("3.5".to_string())),
            ("nothing".to_string(), Parameter::Null),
            ("zeta".to_string(), Parameter::Integer(1)),
        ]
    );
}

#[test]
fn undeclared_key_survives_a_cycle() {
    let first = parse_str("auth:\n  token:\n    realm: r\n    nobodydeclaredthis: 17\n").unwrap();
    let text = serialize(&first).unwrap();
    let second = parse_str(&text).unwrap();
    assert_eq!(first, second);
    let bag = &second.auth.entries[0].1.parameters.entries;
    assert_eq!(
        *bag,
        vec![
            ("nobodydeclaredthis".to_string(), Parameter::Integer(17)),
            ("realm".to_string(), Parameter::String("r".to_string())),
        ]
    );
}

#[test]
fn scalar_keys_are_read_as_strings() {
    let bag =
        Parameters::from_node(&read_document("1: a\ntrue: b\n2.5: c\nplain: d\n").unwrap()).unwrap();
    let keys: Vec<&str> = bag.parameters.entries.iter().map(|e| e.0.as_str()).collect();
    assert_eq!(keys, vec!["1", "2.5", "plain", "true"]);
}

#[test]
fn key_that_is_no_scalar_is_refused() {
    assert_eq!(
        Parameters::from_node(&read_document("? [a, b]\n: 1\n").unwrap()),
        Err(ConfigError::TypeMismatch(Expected::Key))
    );
    assert_eq!(
        Parameters::from_node(&read_document("~: 1\n").unwrap()),
        Err(ConfigError::TypeMismatch(Expected::Key))
    );
}

#[test]
fn bag_from_something_else_than_a_mapping_is_refused() {
    assert_eq!(
        Parameters::from_node(&Node::Int(1)),
        Err(ConfigError::TypeMismatch(Expected::Dict))
    );
    assert_eq!(Parameters::from_node(&Node::Null), Ok(Parameters { parameters: Table::new() }));
}
