use registry::codec::{lookup, text_of_scalar, Codec};
use registry::table::Table;
use registry::text::{decimal_text, rank, same_text, signed_decimal_text, Rank};
use registry::tree::Node;

#[test]
fn keys_rank_byte_by_byte() {
    assert_eq!(rank("a", "b"), Rank::Before);
    assert_eq!(rank("b", "a"), Rank::After);
    assert_eq!(rank("a", "a"), Rank::Same);
    assert_eq!(rank("", ""), Rank::Same);
    assert_eq!(rank("", "a"), Rank::Before);
    assert_eq!(rank("ab", "abc"), Rank::Before);
    assert_eq!(rank("abc", "ab"), Rank::After);
    assert_eq!(rank("Z", "a"), Rank::Before);
    assert_eq!(rank("z", "\u{e9}"), Rank::Before);
    assert_eq!(rank("\u{e9}", "\u{4e2d}"), Rank::Before);
    assert_eq!(rank("10", "9"), Rank::Before);
    for (a, b) in [("a", "b"), ("ab", "abc"), ("", "x"), ("\u{e9}", "z"), ("same", "same")] {
        let expected = match a.cmp(b) {
            std::cmp::Ordering::Less => Rank::Before,
            std::cmp::Ordering::Equal => Rank::Same,
            std::cmp::Ordering::Greater => Rank::After,
        };
        assert_eq!(rank(a, b), expected);
    }
}

#[test]
fn same_text_is_equality() {
    assert!(same_text("abc", "abc"));
    assert!(!same_text("abc", "abd"));
    assert!(!same_text("abc", "ab"));
    assert!(same_text("", ""));
}

#[test]
fn integers_are_written_in_decimal() {
    assert_eq!(decimal_text(0), "0");
    assert_eq!(decimal_text(7), "7");
    assert_eq!(decimal_text(10), "10");
    assert_eq!(decimal_text(1234567890), "1234567890");
    assert_eq!(decimal_text(u64::MAX), "18446744073709551615");
    assert_eq!(signed_decimal_text(0), "0");
    assert_eq!(signed_decimal_text(-1), "-1");
    assert_eq!(signed_decimal_text(42), "42");
    assert_eq!(signed_decimal_text(i64::MAX), "9223372036854775807");
    assert_eq!(signed_decimal_text(i64::MIN), "-9223372036854775808");
}

#[test]
fn insert_keeps_the_keys_in_order() {
    let mut table: Table<u32> = Table::new();
    table.insert("m".to_string(), 1);
    table.insert("a".to_string(), 2);
    table.insert("z".to_string(), 3);
    table.insert("b".to_string(), 4);
    assert_eq!(
        table.entries,
        vec![
            ("a".to_string(), 2),
            ("b".to_string(), 4),
            ("m".to_string(), 1),
            ("z".to_string(), 3)
        ]
    );
}

#[test]
fn insert_keeps_the_value_of_a_key_that_is_there() {
    let mut table: Table<u32> = Table::new();
    table.insert("k".to_string(), 1);
    table.insert("k".to_string(), 2);
    assert_eq!(table.entries, vec![("k".to_string(), 1)]);
}

#[test]
fn table_is_read_from_a_mapping_and_written_in_key_order() {
    let node = Node::Dict(vec![
        (Node::Text("b".to_string()), Node::Int(2)),
        (Node::Text("a".to_string()), Node::Int(1)),
        (Node::Text("b".to_string()), Node::Int(3)),
    ]);
    let table = Table::<u32>::from_node(&node).unwrap();
    assert_eq!(table.entries, vec![("a".to_string(), 1), ("b".to_string(), 2)]);
    assert_eq!(
        table.to_node(),
        Node::Dict(vec![
            (Node::Text("a".to_string()), Node::Int(1)),
            (Node::Text("b".to_string()), Node::Int(2)),
        ])
    );
    assert_eq!(Table::<u32>::from_node(&table.to_node()).unwrap(), table);
}

#[test]
fn lists_keep_their_order() {
    let node = Node::List(vec![
        Node::Text("b".to_string()),
        Node::Text("a".to_string()),
        Node::Int(3),
        Node::Null,
    ]);
    let list = Vec::<String>::from_node(&node).unwrap();
    assert_eq!(list, vec!["b".to_string(), "a".to_string(), "3".to_string(), "".to_string()]);
    assert_eq!(
        list.to_node(),
        Node::List(vec![
            Node::Text("b".to_string()),
            Node::Text("a".to_string()),
            Node::Text("3".to_string()),
            Node::Text("".to_string()),
        ])
    );
}

#[test]
fn lookup_finds_the_first_string_key() {
    let entries = vec![
        (Node::Int(1), Node::Int(10)),
        (Node::Text("k".to_string()), Node::Int(20)),
        (Node::Text("k".to_string()), Node::Int(30)),
    ];
    assert_eq!(lookup(&entries, "k"), Some(&Node::Int(20)));
    assert_eq!(lookup(&entries, "1"), None);
    assert_eq!(lookup(&entries, "absent"), None);
}

#[test]
fn scalars_have_a_text_and_nothing_else_has() {
    assert_eq!(text_of_scalar(&Node::Text("t".to_string())), Some("t".to_string()));
    assert_eq!(text_of_scalar(&Node::Int(-5)), Some("-5".to_string()));
    assert_eq!(text_of_scalar(&Node::Real("0.5".to_string())), Some("0.5".to_string()));
    assert_eq!(text_of_scalar(&Node::Bool(true)), Some("true".to_string()));
    assert_eq!(text_of_scalar(&Node::Bool(false)), Some("false".to_string()));
    assert_eq!(text_of_scalar(&Node::Null), None);
    assert_eq!(text_of_scalar(&Node::List(vec![])), None);
    assert_eq!(text_of_scalar(&Node::Dict(vec![])), None);
}
