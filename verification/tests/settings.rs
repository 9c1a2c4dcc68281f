use std::sync::atomic::{AtomicUsize, Ordering};
use std::sync::Arc;

use snapshot_settings::content::Content;
use snapshot_settings::path::{ContentPath, PathItem};
use snapshot_settings::redaction::{Redaction, Redactions};
use snapshot_settings::selector::{Segment, Selector};
use snapshot_settings::settings::Settings;

fn path_of(keys: &[&str]) -> ContentPath {
    ContentPath::new(keys.iter().map(|k| PathItem::Key(k.to_string())).collect())
}

fn selectors_of(settings: &Settings) -> Vec<Selector> {
    settings
        .iter_redactions()
        .into_iter()
        .map(|(selector, _)| selector.clone())
        .collect()
}

#[test]
fn fresh_settings_have_the_defaults() {
    let settings = Settings::new();
    assert_eq!(settings.snapshot_path(), "snapshots");
    assert!(!settings.sort_maps());
    assert!(settings.iter_redactions().is_empty());
}

#[test]
fn default_is_the_same_as_new() {
    let settings = Settings::default();
    assert_eq!(settings.snapshot_path(), "snapshots");
    assert!(!settings.sort_maps());
    assert!(settings.iter_redactions().is_empty());
    assert!(settings == Settings::new());
}

#[test]
fn set_sort_maps_is_read_back() {
    let mut settings = Settings::new();
    settings.set_sort_maps(true);
    assert!(settings.sort_maps());
    assert_eq!(settings.snapshot_path(), "snapshots");
    settings.set_sort_maps(false);
    assert!(!settings.sort_maps());
}

#[test]
fn set_snapshot_path_is_read_back() {
    let mut settings = Settings::new();
    settings.set_snapshot_path("../snaps");
    assert_eq!(settings.snapshot_path(), "../snaps");
    assert!(!settings.sort_maps());
}

#[test]
fn change_through_one_clone_is_not_seen_by_the_other() {
    let origin = Settings::new();
    let mut a = origin.clone();
    let b = origin.clone();
    a.set_sort_maps(true);
    assert!(a.sort_maps());
    assert!(!b.sort_maps());
    assert!(!origin.sort_maps());
}

#[test]
fn every_setter_copies_before_it_writes() {
    let mut origin = Settings::new();
    origin.add_redaction(".keep", 1u64).unwrap();
    let mut a = origin.clone();
    a.set_snapshot_path("elsewhere");
    a.add_redaction(".more", 2u64).unwrap();
    assert_eq!(origin.snapshot_path(), "snapshots");
    assert_eq!(origin.iter_redactions().len(), 1);
    assert_eq!(a.iter_redactions().len(), 2);
    let mut b = origin.clone();
    b.clear_redactions();
    assert_eq!(origin.iter_redactions().len(), 1);
    assert!(b.iter_redactions().is_empty());
    let mut c = origin.clone();
    c.set_redactions(Redactions::default());
    assert_eq!(origin.iter_redactions().len(), 1);
    assert!(c.iter_redactions().is_empty());
}

#[test]
fn change_through_inner_mut_stays_with_its_handle() {
    let origin = Settings::new();
    let mut a = origin.clone();
    {
        let inner = a._private_inner_mut();
        assert!(!inner.sort_maps);
        assert_eq!(inner.snapshot_path, "snapshots");
        inner.sort_maps = true;
        inner.snapshot_path = String::from("p");
    }
    assert!(a.sort_maps());
    assert_eq!(a.snapshot_path(), "p");
    assert!(!origin.sort_maps());
    assert_eq!(origin.snapshot_path(), "snapshots");
}

#[test]
fn unshared_handle_is_written_in_place() {
    let mut a = Settings::new();
    a.set_sort_maps(true);
    a.set_snapshot_path("x");
    a.set_sort_maps(true);
    assert!(a.sort_maps());
    assert_eq!(a.snapshot_path(), "x");
}

#[test]
fn add_redaction_appends_a_static_rule() {
    let mut settings = Settings::new();
    assert!(settings.add_redaction(".id", "[id]").is_ok());
    let rules = settings.iter_redactions();
    assert_eq!(rules.len(), 1);
    assert_eq!(
        rules[0].0.segments(),
        &vec![Segment::Key("id".to_string())]
    );
    match rules[0].1 {
        Redaction::Static(value) => assert_eq!(value, &Content::from("[id]")),
        _ => panic!("not a static rule"),
    }
}

#[test]
fn add_redaction_converts_the_replacement() {
    let mut settings = Settings::new();
    settings.add_redaction(".a", 5u64).unwrap();
    settings.add_redaction(".b", true).unwrap();
    settings.add_redaction(".c", Content::Unit).unwrap();
    let rules = settings.iter_redactions();
    assert!(matches!(rules[0].1, Redaction::Static(Content::U64(5))));
    assert!(matches!(rules[1].1, Redaction::Static(Content::Bool(true))));
    assert!(matches!(rules[2].1, Redaction::Static(Content::Unit)));
}

#[test]
fn rules_are_listed_in_the_order_of_registration() {
    let mut settings = Settings::new();
    settings.add_redaction(".a", 1u64).unwrap();
    settings
        .add_dynamic_redaction(".a.b", |value, _path| value)
        .unwrap();
    settings.add_assertion("[0]", |_value, _path| {}).unwrap();
    settings.add_redaction(".*", 2u64).unwrap();
    let listed = selectors_of(&settings);
    let expected: Vec<Selector> = [".a", ".a.b", "[0]", ".*"]
        .iter()
        .map(|text| Selector::parse(text).unwrap())
        .collect();
    assert_eq!(listed, expected);
    let rules = settings.iter_redactions();
    assert!(matches!(rules[0].1, Redaction::Static(_)));
    assert!(matches!(rules[1].1, Redaction::Replacement(_)));
    assert!(matches!(rules[2].1, Redaction::Assertion(_)));
    assert!(matches!(rules[3].1, Redaction::Static(_)));
}

#[test]
fn invalid_selector_is_reported_and_adds_nothing() {
    let mut settings = Settings::new();
    settings.add_redaction(".ok", 1u64).unwrap();
    let e = settings.add_redaction(".not ok", 2u64).unwrap_err();
    assert_eq!(e.pattern, ".not ok");
    let e = settings
        .add_dynamic_redaction("", |value, _path| value)
        .unwrap_err();
    assert_eq!(e.pattern, "");
    let e = settings.add_assertion("[x]", |_value, _path| {}).unwrap_err();
    assert_eq!(e.pattern, "[x]");
    assert_eq!(selectors_of(&settings), vec![Selector::parse(".ok").unwrap()]);
    assert!(!settings.sort_maps());
    assert_eq!(settings.snapshot_path(), "snapshots");
}

#[test]
fn invalid_selector_does_not_unshare_or_touch_clones() {
    let mut a = Settings::new();
    let b = a.clone();
    assert!(a.add_redaction("..", 1u64).is_err());
    assert!(a == b);
    assert!(a.iter_redactions().is_empty());
}

#[test]
fn dynamic_redaction_keeps_the_callback() {
    let mut settings = Settings::new();
    settings
        .add_dynamic_redaction(".id", |value, path| {
            assert_eq!(path.items().len(), 1);
            match value {
                Content::U64(n) => Content::U64(n + 1),
                other => other,
            }
        })
        .unwrap();
    let rules = settings.iter_redactions();
    match rules[0].1 {
        Redaction::Replacement(callback) => {
            assert_eq!(
                callback.replace(Content::U64(41), path_of(&["id"])),
                Content::U64(42)
            );
            assert_eq!(
                callback.replace(Content::Unit, path_of(&["id"])),
                Content::Unit
            );
        }
        _ => panic!("not a replacement"),
    }
}

#[test]
fn assertion_keeps_the_callback() {
    let calls = Arc::new(AtomicUsize::new(0));
    let seen = calls.clone();
    let mut settings = Settings::new();
    settings
        .add_assertion(".id", move |value, _path| {
            assert_eq!(value, &Content::from("x"));
            seen.fetch_add(1, Ordering::SeqCst);
        })
        .unwrap();
    let rules = settings.iter_redactions();
    match rules[0].1 {
        Redaction::Assertion(callback) => {
            callback.inspect(&Content::from("x"), path_of(&["id"]));
            callback.inspect(&Content::from("x"), path_of(&["id"]));
        }
        _ => panic!("not an assertion"),
    }
    assert_eq!(calls.load(Ordering::SeqCst), 2);
}

#[test]
fn callbacks_are_shared_by_clones_of_the_settings() {
    let calls = Arc::new(AtomicUsize::new(0));
    let seen = calls.clone();
    let mut a = Settings::new();
    a.add_dynamic_redaction(".x", move |value, _path| {
        seen.fetch_add(1, Ordering::SeqCst);
        value
    })
    .unwrap();
    let mut b = a.clone();
    b.set_sort_maps(true);
    for settings in [&a, &b] {
        match settings.iter_redactions()[0].1 {
            Redaction::Replacement(callback) => {
                callback.replace(Content::Unit, path_of(&["x"]));
            }
            _ => panic!("not a replacement"),
        }
    }
    assert_eq!(calls.load(Ordering::SeqCst), 2);
}

#[test]
fn from_pairs_makes_static_rules_in_order() {
    let redactions = Redactions::from_pairs(vec![
        (".a", Content::U64(1)),
        (".b[2]", Content::from("two")),
    ])
    .unwrap();
    assert_eq!(redactions.len(), 2);
    let (selector, redaction) = redactions.get(1).unwrap();
    assert_eq!(selector, &Selector::parse(".b[2]").unwrap());
    assert!(matches!(redaction, Redaction::Static(Content::String(s)) if s == "two"));
    let (selector, redaction) = redactions.get(0).unwrap();
    assert!(redactions.get(2).is_none());
    assert_eq!(selector, &Selector::parse(".a").unwrap());
    assert!(matches!(redaction, Redaction::Static(Content::U64(1))));
}

#[test]
fn from_pairs_of_nothing_is_empty() {
    let redactions = Redactions::from_pairs(vec![]).unwrap();
    assert_eq!(redactions.len(), 0);
    assert_eq!(Redactions::default().len(), 0);
}

#[test]
fn from_pairs_reports_the_first_invalid_selector() {
    let r = Redactions::from_pairs(vec![
        (".a", Content::U64(1)),
        ("b", Content::U64(2)),
        (".c", Content::U64(3)),
        ("d", Content::U64(4)),
    ]);
    match r {
        Ok(_) => panic!("accepted"),
        Err(e) => assert_eq!(e.pattern, "b"),
    }
}

#[test]
fn set_redactions_replaces_all_rules() {
    let mut settings = Settings::new();
    settings.add_redaction(".old", 0u64).unwrap();
    settings.add_assertion(".older", |_value, _path| {}).unwrap();
    settings.set_redactions(
        Redactions::from_pairs(vec![(".x", Content::U64(1)), (".y", Content::U64(2))]).unwrap(),
    );
    assert_eq!(
        selectors_of(&settings),
        vec![
            Selector::parse(".x").unwrap(),
            Selector::parse(".y").unwrap()
        ]
    );
    assert!(!settings.sort_maps());
    assert_eq!(settings.snapshot_path(), "snapshots");
}

#[test]
fn clear_redactions_leaves_none() {
    let mut settings = Settings::new();
    settings.set_sort_maps(true);
    settings.add_redaction(".a", 1u64).unwrap();
    settings.add_redaction(".b", 2u64).unwrap();
    settings.add_assertion(".c", |_value, _path| {}).unwrap();
    settings.clear_redactions();
    assert!(settings.iter_redactions().is_empty());
    assert!(settings.sort_maps());
    settings.clear_redactions();
    assert!(settings.iter_redactions().is_empty());
}

#[test]
fn clear_redactions_on_fresh_settings_leaves_none() {
    let mut settings = Settings::new();
    settings.clear_redactions();
    assert!(settings.iter_redactions().is_empty());
    assert!(settings == Settings::new());
}

#[test]
fn handles_are_equal_by_what_they_show() {
    let mut a = Settings::new();
    let mut b = Settings::new();
    assert!(a == b);
    a.set_sort_maps(true);
    assert!(a != b);
    b.set_sort_maps(true);
    assert!(a == b);
    a.set_snapshot_path("p");
    assert!(a != b);
    b.set_snapshot_path("p");
    assert!(a == b);
    a.add_redaction(".x", "v").unwrap();
    assert!(a != b);
    b.add_redaction(".x", "v").unwrap();
    assert!(a == b);
    a.add_redaction(".y", 1u64).unwrap();
    b.add_redaction(".y", 2u64).unwrap();
    assert!(a != b);
}

#[test]
fn handles_differ_by_selector_and_order_of_rules() {
    let mut a = Settings::new();
    let mut b = Settings::new();
    a.add_redaction(".x", 1u64).unwrap();
    a.add_redaction(".y", 1u64).unwrap();
    b.add_redaction(".y", 1u64).unwrap();
    b.add_redaction(".x", 1u64).unwrap();
    assert!(a != b);
}

#[test]
fn clone_with_callbacks_is_equal_to_its_origin() {
    let mut a = Settings::new();
    a.add_dynamic_redaction(".x", |value, _path| value).unwrap();
    a.add_assertion(".y", |_value, _path| {}).unwrap();
    let mut b = a.clone();
    assert!(a == b);
    b.set_sort_maps(true);
    assert!(a != b);
    b.set_sort_maps(false);
    assert!(a == b);
}

#[test]
fn callbacks_registered_apart_are_not_the_same() {
    let mut a = Settings::new();
    let mut b = Settings::new();
    a.add_assertion(".y", |_value, _path| {}).unwrap();
    b.add_assertion(".y", |_value, _path| {}).unwrap();
    assert!(a != b);
}

#[test]
fn redactions_are_the_same_by_value_or_by_shared_callback() {
    let fixed = Redaction::Static(Content::from("v"));
    assert!(fixed.same_as(&Redaction::Static(Content::from("v"))));
    assert!(!fixed.same_as(&Redaction::Static(Content::from("w"))));
    let dynamic = Redaction::replacement(|value, _path| value);
    assert!(dynamic.same_as(&dynamic.clone()));
    assert!(!dynamic.same_as(&Redaction::replacement(|value, _path| value)));
    assert!(!dynamic.same_as(&fixed));
    assert!(!fixed.same_as(&dynamic));
    let assertion = Redaction::assertion(|_value, _path| {});
    assert!(assertion.same_as(&assertion.clone()));
    assert!(!assertion.same_as(&dynamic));
    assert!(!assertion.same_as(&Redaction::assertion(|_value, _path| {})));
}

fn child<'a>(tree: &'a mut Content, segment: &Segment) -> Option<&'a mut Content> {
    match (tree, segment) {
        (Content::Dict(entries), Segment::Key(name)) => entries
            .iter_mut()
            .find(|(k, _)| *k == Content::from(name.as_str()))
            .map(|(_, v)| v),
        (Content::List(items), Segment::Index(i)) => items.get_mut(*i as usize),
        _ => None,
    }
}

fn apply(mut tree: Content, selector: &Selector, redaction: &Redaction) -> Content {
    let mut place = &mut tree;
    let mut path = Vec::new();
    for segment in selector.segments() {
        match segment {
            Segment::Key(name) => path.push(PathItem::Key(name.clone())),
            Segment::Index(i) => path.push(PathItem::Index(*i)),
            _ => return tree,
        }
        match child(place, segment) {
            Some(next) => place = next,
            None => return tree,
        }
    }
    let path = ContentPath::new(path);
    assert!(selector.is_match(&path));
    *place = redaction.apply(place.clone(), path);
    tree
}

#[test]
fn static_redaction_gives_its_value() {
    let redaction = Redaction::Static(Content::from("[x]"));
    assert_eq!(
        redaction.apply(Content::U64(1), path_of(&["x"])),
        Content::from("[x]")
    );
}

#[test]
fn replacement_gives_what_the_callback_computes() {
    let redaction = Redaction::replacement(|value, path| {
        Content::List(vec![value, Content::from(path.to_string())])
    });
    assert_eq!(
        redaction.apply(Content::U64(1), path_of(&["a", "b"])),
        Content::List(vec![Content::U64(1), Content::from(".a.b")])
    );
}

#[test]
fn assertion_leaves_the_value_as_it_is() {
    let calls = Arc::new(AtomicUsize::new(0));
    let seen = calls.clone();
    let redaction = Redaction::assertion(move |value, path| {
        assert_eq!(value, &Content::U64(1));
        assert_eq!(path.to_string(), ".x");
        seen.fetch_add(1, Ordering::SeqCst);
    });
    assert_eq!(
        redaction.apply(Content::U64(1), path_of(&["x"])),
        Content::U64(1)
    );
    assert_eq!(calls.load(Ordering::SeqCst), 1);
}

fn nested() -> Content {
    Content::Dict(vec![(
        Content::from("a"),
        Content::Dict(vec![(Content::from("b"), Content::U64(1))]),
    )])
}

#[test]
fn later_rule_sees_the_tree_that_earlier_rules_left() {
    let calls = Arc::new(AtomicUsize::new(0));
    let seen = calls.clone();
    let mut settings = Settings::new();
    settings.add_redaction(".a", "[a]").unwrap();
    settings
        .add_dynamic_redaction(".a.b", move |_value, _path| {
            seen.fetch_add(1, Ordering::SeqCst);
            Content::from("[b]")
        })
        .unwrap();
    let tree = settings.apply_redactions(nested(), apply);
    assert_eq!(
        tree,
        Content::Dict(vec![(Content::from("a"), Content::from("[a]"))])
    );
    assert_eq!(calls.load(Ordering::SeqCst), 0);
}

#[test]
fn rules_in_the_other_order_give_the_later_rule_the_inner_value() {
    let calls = Arc::new(AtomicUsize::new(0));
    let seen = calls.clone();
    let mut settings = Settings::new();
    settings
        .add_dynamic_redaction(".a.b", move |value, path| {
            assert_eq!(value, Content::U64(1));
            assert_eq!(path.to_string(), ".a.b");
            seen.fetch_add(1, Ordering::SeqCst);
            Content::from("[b]")
        })
        .unwrap();
    settings
        .add_assertion(".a", |value, path| {
            assert_eq!(path.to_string(), ".a");
            assert_eq!(
                value,
                &Content::Dict(vec![(Content::from("b"), Content::from("[b]"))])
            );
        })
        .unwrap();
    let tree = settings.apply_redactions(nested(), apply);
    assert_eq!(calls.load(Ordering::SeqCst), 1);
    assert_eq!(
        tree,
        Content::Dict(vec![(
            Content::from("a"),
            Content::Dict(vec![(Content::from("b"), Content::from("[b]"))]),
        )])
    );
}

#[test]
fn apply_redactions_calls_the_step_once_for_each_rule_in_order() {
    let mut settings = Settings::new();
    settings.add_redaction(".x", 1u64).unwrap();
    settings.add_assertion("[3]", |_value, _path| {}).unwrap();
    settings.add_redaction(".*", 2u64).unwrap();
    let seen = settings.apply_redactions(String::new(), |mut seen: String, selector, _redaction| {
        seen.push_str(&selector.to_string());
        seen.push(' ');
        seen
    });
    assert_eq!(seen, ".x [3] .* ");
}

#[test]
fn apply_redactions_without_rules_returns_the_value() {
    let settings = Settings::new();
    let tree = settings.apply_redactions(nested(), |_tree, _selector, _redaction| Content::Unit);
    assert_eq!(tree, nested());
}

fn shareable<T: Send + Sync + 'static>() {}

#[test]
fn settings_can_be_handed_to_other_threads() {
    shareable::<Settings>();
    shareable::<Redactions>();
    shareable::<Redaction>();
    shareable::<snapshot_settings::binding::ThreadBinding>();
}
