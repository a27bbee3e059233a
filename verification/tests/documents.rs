use registry::error::{ConfigError, Expected};
use registry::tree::Node;
use registry::yaml::{node_of_value, read_document, value_of_node, write_document};

fn text(s: &str) -> Node {
    Node::Text(s.to_string())
}

#[test]
fn document_is_read_into_a_tree() {
    let node = read_document("a: 1\nb: [x, 2.5, ~, true]\nc:\n  d: \"1\"\n").unwrap();
    assert_eq!(
        node,
        Node::Dict(vec![
            (text("a"), Node::Int(1)),
            (
                text("b"),
                Node::List(vec![text("x"), Node::Real("2.5".to_string()), Node::Null, Node::Bool(true)])
            ),
            (text("c"), Node::Dict(vec![(text("d"), text("1"))])),
        ])
    );
}

#[test]
fn entries_keep_the_order_of_the_document() {
    let node = read_document("z: 1\na: 2\nm: 3\n").unwrap();
    assert_eq!(
        node,
        Node::Dict(vec![
            (text("z"), Node::Int(1)),
            (text("a"), Node::Int(2)),
            (text("m"), Node::Int(3)),
        ])
    );
}

#[test]
fn empty_document_reads_as_null() {
    assert_eq!(read_document("").unwrap(), Node::Null);
    assert_eq!(read_document("# only a comment\n").unwrap(), Node::Null);
}

#[test]
fn tagged_value_keeps_its_tag() {
    assert_eq!(
        read_document("!thing 5").unwrap(),
        Node::Tagged("!thing".to_string(), Box::new(Node::Int(5)))
    );
}

#[test]
fn keys_that_are_no_strings_stay_what_they_are() {
    assert_eq!(
        read_document("1: a\ntrue: b\n").unwrap(),
        Node::Dict(vec![(Node::Int(1), text("a")), (Node::Bool(true), text("b"))])
    );
}

#[test]
fn value_and_node_hold_the_same() {
    let value: serde_yaml::Value =
        serde_yaml::from_str("a: [1, two, 3.5]\nb: ~\nc: {d: false}\n").unwrap();
    let node = node_of_value(&value);
    assert_eq!(
        node,
        Node::Dict(vec![
            (text("a"), Node::List(vec![Node::Int(1), text("two"), Node::Real("3.5".to_string())])),
            (text("b"), Node::Null),
            (text("c"), Node::Dict(vec![(text("d"), Node::Bool(false))])),
        ])
    );
    assert_eq!(value_of_node(&node), Some(value));
}

#[test]
fn each_kind_of_node_becomes_the_value_of_its_kind() {
    assert_eq!(value_of_node(&Node::Null), Some(serde_yaml::Value::Null));
    assert_eq!(value_of_node(&Node::Bool(true)), Some(serde_yaml::Value::Bool(true)));
    assert_eq!(value_of_node(&Node::Int(-3)), Some(serde_yaml::Value::Number((-3i64).into())));
    assert_eq!(value_of_node(&text("-3")), Some(serde_yaml::Value::String("-3".to_string())));
    assert_eq!(
        value_of_node(&Node::Real("2.5".to_string())),
        Some(serde_yaml::Value::Number(2.5f64.into()))
    );
    assert_eq!(
        value_of_node(&Node::List(vec![Node::Int(1), Node::Null])),
        Some(serde_yaml::Value::Sequence(vec![
            serde_yaml::Value::Number(1i64.into()),
            serde_yaml::Value::Null
        ]))
    );
}

#[test]
fn tree_is_written_as_text() {
    let node = Node::Dict(vec![
        (text("a"), Node::Int(1)),
        (text("b"), Node::List(vec![text("x"), Node::Bool(false)])),
        (text("c"), text("42")),
        (text("d"), Node::Real("0.5".to_string())),
    ]);
    let written = write_document(&node).unwrap();
    assert_eq!(written, "a: 1\nb:\n- x\n- false\nc: '42'\nd: 0.5\n");
    assert_eq!(read_document(&written).unwrap(), node);
}

#[test]
fn what_cannot_be_written_is_refused() {
    let refused = Err(ConfigError::TypeMismatch(Expected::Writable));
    // a tag
    assert_eq!(write_document(&Node::Tagged("!t".to_string(), Box::new(Node::Null))), refused);
    // a number that is not in the writer's spelling, or no number at all
    assert_eq!(write_document(&Node::Real("1.50".to_string())), refused);
    assert_eq!(write_document(&Node::Real("7".to_string())), refused);
    assert_eq!(write_document(&Node::Real("seven".to_string())), refused);
    // keys out of order, twice the same, or no strings
    assert_eq!(
        write_document(&Node::Dict(vec![(text("b"), Node::Null), (text("a"), Node::Null)])),
        refused
    );
    assert_eq!(
        write_document(&Node::Dict(vec![(text("a"), Node::Null), (text("a"), Node::Null)])),
        refused
    );
    assert_eq!(write_document(&Node::Dict(vec![(Node::Int(1), Node::Null)])), refused);
    // any of these further down
    assert_eq!(
        write_document(&Node::List(vec![Node::Int(1), Node::Real("x".to_string())])),
        refused
    );
    assert_eq!(
        write_document(&Node::Dict(vec![(text("a"), Node::Real("x".to_string()))])),
        refused
    );
    assert_eq!(value_of_node(&Node::Real("x".to_string())), None);
}

#[test]
fn numbers_in_the_writers_spelling_are_written() {
    for spelling in ["1.5", "-0.25", "1e100", ".inf", "-.inf", ".nan", "18446744073709551615"] {
        let node = Node::Real(spelling.to_string());
        let written = write_document(&node).unwrap();
        assert_eq!(written, format!("{}\n", spelling));
        assert_eq!(read_document(&written).unwrap(), node);
    }
}
