use envlt::json::{json_pointer, Json};
use envlt::vars::Vars;

fn s(x: &str) -> String {
    x.to_owned()
}

fn num(x: &str) -> Json {
    Json::Num(s(x))
}

fn text(x: &str) -> Json {
    Json::Text(s(x))
}

/// `{ "dict": {"key1": "val1", "key2": "val2", "key3": [1, 2, 3, 4]} }`
fn tree() -> Json {
    Json::Obj(vec![(
        s("dict"),
        Json::Obj(vec![
            (s("key1"), text("val1")),
            (s("key2"), text("val2")),
            (
                s("key3"),
                Json::Arr(vec![num("1"), num("2"), num("3"), num("4")]),
            ),
        ]),
    )])
}

fn expect(vars: &Vars, name: &str, value: &str) {
    match vars.get(name) {
        Some(v) => assert_eq!(v.as_str(), value),
        None => panic!("missing key {}", name),
    }
}

#[test]
fn insert_tree() {
    let value = tree();
    let mut vars = Vars::default();
    let _ = vars.insert_value("VAR", &value).unwrap();
    assert_eq!(vars.len(), 6);
    expect(&vars, "VAR_DICT_KEY1", "val1");
    expect(&vars, "VAR_DICT_KEY2", "val2");
    expect(&vars, "VAR_DICT_KEY3_0", "1");
    expect(&vars, "VAR_DICT_KEY3_1", "2");
    expect(&vars, "VAR_DICT_KEY3_2", "3");
    expect(&vars, "VAR_DICT_KEY3_3", "4");
}

/// `{ "data": {...}, "metadata": {"key4": "val4"} }` narrowed to `/data`.
#[test]
fn insert_subtree() {
    let value = Json::Obj(vec![
        (
            s("data"),
            Json::Obj(vec![
                (s("key1"), text("val1")),
                (s("key2"), text("val2")),
                (
                    s("key3"),
                    Json::Arr(vec![num("1"), num("2"), num("3"), num("4")]),
                ),
            ]),
        ),
        (s("metadata"), Json::Obj(vec![(s("key4"), text("val4"))])),
    ]);
    let value = json_pointer(&value, "/data").unwrap();
    let mut vars = Vars::default();
    let _ = vars.insert_value("VAR", value).unwrap();
    assert_eq!(vars.len(), 6);
    expect(&vars, "VAR_KEY1", "val1");
    expect(&vars, "VAR_KEY2", "val2");
    expect(&vars, "VAR_KEY3_0", "1");
    expect(&vars, "VAR_KEY3_1", "2");
    expect(&vars, "VAR_KEY3_2", "3");
    expect(&vars, "VAR_KEY3_3", "4");
}

#[test]
fn insert_leaf() {
    let value = Json::Obj(vec![
        (s("data"), text("val1")),
        (s("metadata"), Json::Obj(vec![(s("key4"), text("val4"))])),
    ]);
    let value = json_pointer(&value, "/data").unwrap();
    let mut vars = Vars::default();
    let _ = vars.insert_value("VAR", value).unwrap();
    assert_eq!(vars.len(), 1);
    expect(&vars, "VAR", "val1");
}

#[test]
fn flatten_scalars_render_canonically() {
    let mut vars = Vars::default();
    vars.insert_value("A", &Json::Null).unwrap();
    vars.insert_value("B", &Json::Bool(true)).unwrap();
    vars.insert_value("C", &Json::Bool(false)).unwrap();
    vars.insert_value("D", &num("42")).unwrap();
    vars.insert_value("E", &text("plain")).unwrap();
    assert_eq!(vars.len(), 5);
    expect(&vars, "A", "null");
    expect(&vars, "B", "true");
    expect(&vars, "C", "false");
    expect(&vars, "D", "42");
    expect(&vars, "E", "plain");
}

#[test]
fn flatten_array_indices_and_upper_keys() {
    let value = Json::Obj(vec![(
        s("mixedCase"),
        Json::Arr(vec![text("x"), Json::Arr(vec![text("y")])]),
    )]);
    let mut vars = Vars::default();
    vars.insert_value("P", &value).unwrap();
    assert_eq!(vars.len(), 2);
    expect(&vars, "P_MIXEDCASE_0", "x");
    expect(&vars, "P_MIXEDCASE_1_0", "y");
}

#[test]
fn flatten_collision_last_wins() {
    // The field `k_0` collides with index 0 of the field `k`: the later
    // leaf overwrites the earlier one.
    let value = Json::Obj(vec![
        (s("k_0"), text("first")),
        (s("k"), Json::Arr(vec![text("second")])),
    ]);
    let mut vars = Vars::default();
    vars.insert_value("X", &value).unwrap();
    assert_eq!(vars.len(), 1);
    expect(&vars, "X_K_0", "second");
}

#[test]
fn pointer_empty_escapes_and_indices() {
    let doc = Json::Obj(vec![
        (s("a/b"), text("slash")),
        (s("m~n"), text("tilde")),
        (s("arr"), Json::Arr(vec![text("zero"), text("one")])),
    ]);
    assert_eq!(json_pointer(&doc, ""), Some(&doc));
    assert_eq!(json_pointer(&doc, "/a~1b"), Some(&text("slash")));
    assert_eq!(json_pointer(&doc, "/m~0n"), Some(&text("tilde")));
    assert_eq!(json_pointer(&doc, "/arr/1"), Some(&text("one")));
    assert_eq!(json_pointer(&doc, "/arr/01"), None);
    assert_eq!(json_pointer(&doc, "/arr/2"), None);
    assert_eq!(json_pointer(&doc, "missing-slash"), None);
    assert_eq!(json_pointer(&doc, "/nope"), None);
}
