use music_quiz::document::{Kind, Node, Table};

fn leaf(i: i64) -> Node {
    Node { shown: i.to_string(), kind: Kind::Integer(i) }
}

fn held(node: Option<&Node>) -> Option<i64> {
    match node {
        Some(Node { kind: Kind::Integer(i), .. }) => Some(*i),
        _ => None,
    }
}

fn names(table: &Table) -> Vec<String> {
    table.entries().iter().map(|(name, _)| name.clone()).collect()
}

#[test]
fn a_new_table_is_empty() {
    let table = Table::new();
    assert_eq!(table.len(), 0);
    assert!(table.entries().is_empty());
    assert!(table.get(&"a".to_string()).is_none());
}

#[test]
fn a_table_keeps_the_order_of_declaration() {
    let mut table = Table::new();
    table.insert("b".to_string(), leaf(1));
    table.insert("a".to_string(), leaf(2));
    table.insert("c".to_string(), leaf(3));
    assert_eq!(table.len(), 3);
    assert_eq!(names(&table), vec!["b".to_string(), "a".to_string(), "c".to_string()]);
    assert_eq!(held(table.get(&"a".to_string())), Some(2));
    assert_eq!(held(table.get(&"b".to_string())), Some(1));
    assert_eq!(held(table.get(&"d".to_string())), None);
}

#[test]
fn a_name_that_is_declared_again_keeps_its_place() {
    let table = Table::new()
        .with("b".to_string(), leaf(1))
        .with("a".to_string(), leaf(2))
        .with("b".to_string(), leaf(3));
    assert_eq!(table.len(), 2);
    assert_eq!(names(&table), vec!["b".to_string(), "a".to_string()]);
    assert_eq!(held(table.get(&"b".to_string())), Some(3));
    let mut table = table;
    table.insert("a".to_string(), leaf(4));
    assert_eq!(table.len(), 2);
    assert_eq!(held(table.get(&"a".to_string())), Some(4));
}

#[test]
fn parsing_keeps_kinds_order_and_texts() {
    let document = Node::parse(
        "z = \"text\"\ny = 7\nx = 1.5\nw = true\nv = 1979-05-27T07:32:00Z\nu = [1, \"two\"]\n[t]\ninner = -3\n",
    )
    .unwrap();
    let table = match &document.kind {
        Kind::Table(table) => table,
        other => panic!("expected a table, got {:?}", other),
    };
    assert_eq!(names(table), vec!["z", "y", "x", "w", "v", "u", "t"]);
    let entries = table.entries();
    assert!(matches!(&entries[0].1.kind, Kind::String(s) if s == "text"));
    assert_eq!(entries[0].1.shown, "\"text\"");
    assert!(matches!(&entries[1].1.kind, Kind::Integer(7)));
    assert_eq!(entries[1].1.shown, "7");
    assert!(matches!(&entries[2].1.kind, Kind::Float));
    assert_eq!(entries[2].1.shown, "1.5");
    assert!(matches!(&entries[3].1.kind, Kind::Boolean(true)));
    assert_eq!(entries[3].1.shown, "true");
    assert!(matches!(&entries[4].1.kind, Kind::Datetime));
    assert_eq!(entries[4].1.shown, "1979-05-27T07:32:00Z");
    match &entries[5].1.kind {
        Kind::Array(items) => {
            assert_eq!(items.len(), 2);
            assert!(matches!(&items[0].kind, Kind::Integer(1)));
            assert!(matches!(&items[1].kind, Kind::String(s) if s == "two"));
            assert_eq!(items[1].shown, "\"two\"");
        }
        other => panic!("expected an array, got {:?}", other),
    }
    match &entries[6].1.kind {
        Kind::Table(inner) => {
            assert_eq!(inner.len(), 1);
            assert_eq!(held(inner.get(&"inner".to_string())), Some(-3));
        }
        other => panic!("expected a table, got {:?}", other),
    }
}

#[test]
fn parsing_rejects_what_is_no_document() {
    let error = Node::parse("a = ").unwrap_err();
    assert!(!error.message.is_empty());
    assert!(Node::parse("a = 1\na = 2\n").is_err());
    assert!(Node::parse("just words").is_err());
}

#[test]
fn an_empty_text_is_an_empty_document() {
    let document = Node::parse("").unwrap();
    match &document.kind {
        Kind::Table(table) => assert_eq!(table.len(), 0),
        other => panic!("expected a table, got {:?}", other),
    }
}
