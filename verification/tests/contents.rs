use snapshot_settings::content::Content;
use snapshot_settings::path::{ContentPath, PathItem};

fn sample() -> Content {
    Content::Dict(vec![
        (
            Content::from("id"),
            Content::List(vec![Content::from(1u64), Content::from(-2i64)]),
        ),
        (Content::from("ok"), Content::from(true)),
        (Content::Unit, Content::from(String::from("x"))),
    ])
}

#[test]
fn converts_scalars() {
    assert_eq!(Content::from(true), Content::Bool(true));
    assert_eq!(Content::from(7u64), Content::U64(7));
    assert_eq!(Content::from(-7i64), Content::I64(-7));
    assert_eq!(Content::from("abc"), Content::String("abc".to_string()));
    assert_eq!(
        Content::from(String::from("abc")),
        Content::String("abc".to_string())
    );
    assert_eq!(
        Content::from(vec![Content::U64(1), Content::Unit]),
        Content::List(vec![Content::U64(1), Content::Unit])
    );
}

#[test]
fn into_content_converts_too() {
    let c: Content = "[redacted]".into();
    assert_eq!(c, Content::String("[redacted]".to_string()));
}

#[test]
fn equal_trees_are_equal() {
    assert_eq!(sample(), sample());
}

#[test]
fn clone_is_deep_and_equal() {
    let a = sample();
    let b = a.clone();
    assert_eq!(a, b);
}

#[test]
fn different_scalars_differ() {
    assert_ne!(Content::U64(1), Content::U64(2));
    assert_ne!(Content::U64(1), Content::I64(1));
    assert_ne!(Content::Bool(false), Content::Unit);
    assert_ne!(Content::from("a"), Content::from("b"));
}

#[test]
fn lists_differ_by_length_and_items() {
    let a = Content::List(vec![Content::U64(1), Content::U64(2)]);
    let b = Content::List(vec![Content::U64(1)]);
    let c = Content::List(vec![Content::U64(1), Content::U64(3)]);
    let d = Content::List(vec![Content::U64(2), Content::U64(1)]);
    assert_ne!(a, b);
    assert_ne!(a, c);
    assert_ne!(a, d);
    assert_ne!(Content::List(vec![]), Content::Dict(vec![]));
}

#[test]
fn dicts_differ_by_keys_values_and_order() {
    let a = Content::Dict(vec![
        (Content::from("k"), Content::U64(1)),
        (Content::from("l"), Content::U64(2)),
    ]);
    let other_value = Content::Dict(vec![
        (Content::from("k"), Content::U64(1)),
        (Content::from("l"), Content::U64(3)),
    ]);
    let other_key = Content::Dict(vec![
        (Content::from("k"), Content::U64(1)),
        (Content::from("m"), Content::U64(2)),
    ]);
    let other_order = Content::Dict(vec![
        (Content::from("l"), Content::U64(2)),
        (Content::from("k"), Content::U64(1)),
    ]);
    assert_ne!(a, other_value);
    assert_ne!(a, other_key);
    assert_ne!(a, other_order);
}

#[test]
fn nested_difference_is_seen() {
    let a = Content::List(vec![Content::List(vec![Content::from("x")])]);
    let b = Content::List(vec![Content::List(vec![Content::from("y")])]);
    assert_ne!(a, b);
}

#[test]
fn path_keeps_its_items() {
    let path = ContentPath::new(vec![
        PathItem::Key("users".to_string()),
        PathItem::Index(0),
    ]);
    assert_eq!(path.items().len(), 2);
    assert!(matches!(&path.items()[0], PathItem::Key(k) if k == "users"));
    assert!(matches!(&path.items()[1], PathItem::Index(0)));
}
