use common::{SensitiveData, ValueTree};

fn obj(entries: Vec<(&str, ValueTree)>) -> ValueTree {
    ValueTree::Object(entries.into_iter().map(|(k, v)| (k.to_string(), v)).collect())
}

fn entries(entries: Vec<(&str, ValueTree)>) -> Vec<(String, ValueTree)> {
    entries.into_iter().map(|(k, v)| (k.to_string(), v)).collect()
}

fn num(n: &str) -> ValueTree {
    ValueTree::Number(n.to_string())
}

fn text(t: &str) -> ValueTree {
    ValueTree::Text(t.to_string())
}

/// Key-order-insensitive equality of two values.
fn equiv(a: &ValueTree, b: &ValueTree) -> bool {
    match (a, b) {
        (ValueTree::Object(x), ValueTree::Object(y)) => equiv_entries(x, y),
        (ValueTree::Array(x), ValueTree::Array(y)) => {
            x.len() == y.len() && x.iter().zip(y.iter()).all(|(v, w)| equiv(v, w))
        },
        (x, y) => x == y,
    }
}

/// Key-order-insensitive equality of two object levels.
fn equiv_entries(x: &[(String, ValueTree)], y: &[(String, ValueTree)]) -> bool {
    x.len() == y.len()
        && x.iter().all(|(k, v)| {
            y.iter().filter(|(k2, _)| k2 == k).count() == 1
                && y.iter().any(|(k2, v2)| k2 == k && equiv(v, v2))
        })
}

fn worked_example_input() -> Vec<(String, ValueTree)> {
    entries(vec![
        ("a", num("1")),
        ("password", text("p@ss")),
        ("nested", obj(vec![("token", text("t")), ("b", num("2"))])),
    ])
}

#[test]
fn worked_example_no_extras() {
    let mut engine = SensitiveData::new(worked_example_input(), vec![]);
    engine.conceal();
    // expected: Shown = {"a":1,"nested":{"token":"t","b":2}}
    let expected_shown = entries(vec![
        ("a", num("1")),
        ("nested", obj(vec![("token", text("t")), ("b", num("2"))])),
    ]);
    assert!(equiv_entries(engine.get(), &expected_shown));
    engine.show();
    let restored = ValueTree::Object(engine.into_data());
    assert!(equiv(&restored, &ValueTree::Object(worked_example_input())));
}

#[test]
fn worked_example_with_extra_token() {
    let mut engine = SensitiveData::new(worked_example_input(), vec!["token".to_string()]);
    engine.conceal();
    // expected: Shown = {"a":1,"nested":{"b":2}}
    let expected_shown = entries(vec![("a", num("1")), ("nested", obj(vec![("b", num("2"))]))]);
    assert!(equiv_entries(engine.get(), &expected_shown));
    engine.show();
    let restored = ValueTree::Object(engine.into_data());
    assert!(equiv(&restored, &ValueTree::Object(worked_example_input())));
}

#[test]
fn baseline_keys_redacted_at_top_level() {
    let mut engine = SensitiveData::new(
        entries(vec![
            ("x-api-key", text("k")),
            ("Authorization", text("Bearer t")),
            ("token", text("not-baseline")),
            ("kept", num("7")),
        ]),
        vec![],
    );
    engine.conceal();
    let expected = entries(vec![("token", text("not-baseline")), ("kept", num("7"))]);
    assert!(equiv_entries(engine.get(), &expected));
}

fn array_input() -> Vec<(String, ValueTree)> {
    entries(vec![(
        "list",
        ValueTree::Array(vec![obj(vec![("password", text("x"))]), num("3")]),
    )])
}

#[test]
fn array_elements_are_opaque() {
    // a sensitive key nested inside an array element is not redacted:
    // a deliberate scope limit
    let mut engine = SensitiveData::new(array_input(), vec![]);
    engine.conceal();
    assert_eq!(engine.get(), &array_input());
    engine.show();
    assert_eq!(engine.into_data(), array_input());
}

#[test]
fn empty_object_is_a_no_op() {
    let mut engine = SensitiveData::new(vec![], vec![]);
    engine.conceal();
    assert!(engine.get().is_empty());
    engine.show();
    assert!(engine.get().is_empty());
    assert!(engine.into_data().is_empty());
}

#[test]
fn show_twice_changes_nothing() {
    let mut engine = SensitiveData::new(worked_example_input(), vec![]);
    engine.conceal();
    engine.show();
    let once = format!("{:?}", engine.get());
    engine.show();
    assert_eq!(format!("{:?}", engine.get()), once);
}

#[test]
fn show_without_conceal_is_a_no_op() {
    let mut engine = SensitiveData::new(worked_example_input(), vec![]);
    engine.show();
    let restored = ValueTree::Object(engine.into_data());
    assert!(equiv(&restored, &ValueTree::Object(worked_example_input())));
}

fn deep_input() -> Vec<(String, ValueTree)> {
    entries(vec![(
        "l1",
        obj(vec![(
            "l2",
            obj(vec![("l3", obj(vec![("password", text("deep")), ("keep", num("1"))]))]),
        )]),
    )])
}

#[test]
fn deep_nesting_is_traversed() {
    let mut engine = SensitiveData::new(deep_input(), vec![]);
    engine.conceal();
    let expected = entries(vec![(
        "l1",
        obj(vec![("l2", obj(vec![("l3", obj(vec![("keep", num("1"))]))]))]),
    )]);
    assert!(equiv_entries(engine.get(), &expected));
    engine.show();
    let restored = ValueTree::Object(engine.into_data());
    assert!(equiv(&restored, &ValueTree::Object(deep_input())));
}

#[test]
fn conceal_twice_then_show_restores() {
    let mut engine = SensitiveData::new(worked_example_input(), vec![]);
    engine.conceal();
    engine.conceal();
    engine.show();
    let restored = ValueTree::Object(engine.into_data());
    assert!(equiv(&restored, &ValueTree::Object(worked_example_input())));
}

#[test]
fn scalars_of_every_kind_survive_the_round_trip() {
    let input = entries(vec![
        ("n", ValueTree::Null),
        ("b", ValueTree::Bool(true)),
        ("x", num("2.5")),
        ("s", text("hello")),
        ("password", ValueTree::Bool(false)),
    ]);
    let mut engine = SensitiveData::new(input, vec![]);
    engine.conceal();
    let expected = entries(vec![
        ("n", ValueTree::Null),
        ("b", ValueTree::Bool(true)),
        ("x", num("2.5")),
        ("s", text("hello")),
    ]);
    assert!(equiv_entries(engine.get(), &expected));
    engine.show();
    let restored = engine.into_data();
    let original = entries(vec![
        ("n", ValueTree::Null),
        ("b", ValueTree::Bool(true)),
        ("x", num("2.5")),
        ("s", text("hello")),
        ("password", ValueTree::Bool(false)),
    ]);
    assert!(equiv(&ValueTree::Object(restored), &ValueTree::Object(original)));
}
