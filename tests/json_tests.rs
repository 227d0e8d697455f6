use digger::Dig;
use serde_json::{Number, Value};

fn object(entries: Vec<(&str, Value)>) -> Value {
    let mut map = serde_json::Map::new();
    for (key, value) in entries {
        map.insert(String::from(key), value);
    }
    Value::Object(map)
}

/// `{"foo": {"bar": {"baz": true}}}`
fn sample() -> Value {
    object(vec![(
        "foo",
        object(vec![("bar", object(vec![("baz", Value::Bool(true))]))]),
    )])
}

fn numbers() -> Value {
    let items = vec![
        Value::Number(Number::from(1)),
        Value::Number(Number::from(2)),
        Value::Number(Number::from(3)),
    ];
    object(vec![("foo", Value::Array(items))])
}

#[test]
fn not_found_at_end() {
    let value = sample();

    let result = value.dig("foo.bar.quux");

    assert_eq!(None, result);
}

#[test]
fn not_found_at_start() {
    let value = sample();

    let result = value.dig("rust.bar.baz");

    assert_eq!(None, result);
}

#[test]
fn empty_selector_is_identity() {
    let value = sample();

    let result = value.dig("");

    assert_eq!(Some(&value), result);
}

#[test]
fn sigil_alone_is_identity() {
    let value = sample();

    let result = value.dig("$");

    assert_eq!(Some(&value), result);
}

#[test]
fn sigil_prefix_is_ignored() {
    let value = sample();

    let result = value.dig("$.foo.bar.baz");
    let expected = Value::Bool(true);

    assert_eq!(Some(&expected), result);
}

#[test]
fn full_path_is_found() {
    let value = sample();
    assert_eq!(value.dig("foo.bar.baz"), Some(&Value::Bool(true)));
}

#[test]
fn result_borrows_from_the_tree() {
    let value = sample();
    let inner = value.dig("foo.bar").unwrap();
    let expected = object(vec![("baz", Value::Bool(true))]);
    assert_eq!(inner, &expected);
    assert!(std::ptr::eq(inner, value.dig("foo").unwrap().dig("bar").unwrap()));
}

#[test]
fn arrays_are_not_indexed() {
    let value = numbers();
    assert_eq!(value.dig("foo.0"), None);
    assert_eq!(value.dig("foo").map(|v| v.is_array()), Some(true));
}

#[test]
fn sigil_then_dot_is_identity() {
    let value = sample();
    assert_eq!(value.dig("$."), Some(&value));
    assert_eq!(value.dig("."), Some(&value));
    assert_eq!(value.dig(".."), Some(&value));
    assert_eq!(value.dig("$.$"), Some(&value));
}

#[test]
fn repeated_sigils_are_skipped() {
    let value = sample();
    let foo = value.dig("foo");
    assert!(foo.is_some());
    assert_eq!(value.dig("$.$.foo"), foo);
    assert_eq!(value.dig("$.foo.bar.baz"), value.dig("$.$.foo.bar.baz"));
}

#[test]
fn sigil_inside_the_path_is_a_name() {
    let value = object(vec![(
        "foo",
        object(vec![("$", object(vec![("bar", Value::from(7))]))]),
    )]);
    assert_eq!(value.dig("foo.$.bar"), Some(&Value::from(7)));
    assert_eq!(value.dig("$.foo.$.bar"), Some(&Value::from(7)));
    assert_eq!(value.dig("foo.bar"), None);
}

#[test]
fn sigil_after_empty_segment_is_a_name() {
    let value = object(vec![
        ("$", object(vec![("foo", Value::from(1))])),
        ("foo", Value::from(2)),
    ]);
    assert_eq!(value.dig("$.foo"), Some(&Value::from(2)));
    assert_eq!(value.dig(".$.foo"), Some(&Value::from(1)));
}

#[test]
fn sigil_prefix_changes_nothing() {
    let value = sample();
    for s in ["foo", "foo.bar", "foo.bar.baz", "rust", "foo.quux", ""] {
        let plain = value.dig(s);
        assert_eq!(plain, value.dig(format!("$.{}", s).as_str()));
        assert_eq!(plain, value.dig(format!("$.$.{}", s).as_str()));
    }
}

#[test]
fn extra_dots_change_nothing() {
    let value = sample();
    let expected = value.dig("foo.bar");
    assert!(expected.is_some());
    assert_eq!(value.dig(".foo..bar."), expected);
    assert_eq!(value.dig("foo...bar"), expected);
    assert_eq!(value.dig("..foo.bar"), expected);
    assert_eq!(value.dig("$.foo..bar..."), expected);
}

#[test]
fn single_name_is_one_lookup() {
    let value = sample();
    assert_eq!(value.dig("foo"), value.value_for_name("foo"));
    assert_eq!(value.dig("bar"), value.value_for_name("bar"));
    assert_eq!(value.dig("bar"), None);
}

#[test]
fn two_names_compose() {
    let value = sample();
    let stepped = value.dig("foo").and_then(|c| c.value_for_name("bar"));
    assert!(stepped.is_some());
    assert_eq!(value.dig("foo.bar"), stepped);
    let missing = value.dig("quux").and_then(|c| c.value_for_name("bar"));
    assert_eq!(value.dig("quux.bar"), missing);
}

#[test]
fn missing_prefix_short_circuits() {
    let value = sample();
    assert_eq!(value.dig("quux"), None);
    assert_eq!(value.dig("quux.foo"), None);
    assert_eq!(value.dig("quux.foo.bar.baz"), None);
    assert_eq!(value.dig("foo.bar.baz.anything"), None);
}

#[test]
fn repeated_calls_agree_and_leave_the_tree_alone() {
    let value = sample();
    let before = value.clone();
    let first = value.dig("foo.bar.baz");
    let second = value.dig("foo.bar.baz");
    assert_eq!(first, second);
    assert_eq!(value, before);
}

#[test]
fn scalars_have_no_children() {
    let scalars = vec![
        Value::Null,
        Value::Bool(false),
        Value::from(12),
        Value::String(String::from("foo")),
        Value::Array(vec![Value::from(1)]),
    ];
    for x in scalars.iter() {
        assert_eq!(x.value_for_name("foo"), None);
        assert_eq!(x.value_for_name("0"), None);
        assert_eq!(x.dig("foo"), None);
        assert_eq!(x.dig(""), Some(x));
    }
}

#[test]
fn lookup_is_exact_on_keys() {
    let value = object(vec![("Foo", Value::from(1)), ("foo", Value::from(2))]);
    assert_eq!(value.value_for_name("foo"), Some(&Value::from(2)));
    assert_eq!(value.value_for_name("Foo"), Some(&Value::from(1)));
    assert_eq!(value.value_for_name("FOO"), None);
    assert_eq!(value.value_for_name("fo"), None);
}

#[test]
fn empty_key_is_reachable_only_by_lookup() {
    let value = object(vec![("", Value::from(5))]);
    assert_eq!(value.value_for_name(""), Some(&Value::from(5)));
    assert_eq!(value.dig(""), Some(&value));
}

#[test]
fn non_ascii_names_are_found() {
    let value = object(vec![("é", object(vec![("ü", Value::from(3))]))]);
    assert_eq!(value.dig("é.ü"), Some(&Value::from(3)));
    assert_eq!(value.dig("$.é..ü"), Some(&Value::from(3)));
}
