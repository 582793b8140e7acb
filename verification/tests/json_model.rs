use jsondoc::builder::{build, rebuild, to_expr, JsonExpr};
use jsondoc::coerce::ToJson;
use jsondoc::eq::json_eq;
use jsondoc::json::Json;

fn num(x: f64) -> Json {
    Json::Number(x.to_bits())
}

fn obj(pairs: Vec<(&str, Json)>) -> Json {
    Json::Object(pairs.into_iter().map(|(k, v)| (k.to_string(), v)).collect())
}

fn expr_obj(pairs: Vec<(&str, JsonExpr)>) -> JsonExpr {
    JsonExpr::Object(pairs.into_iter().map(|(k, v)| (k.to_string(), v)).collect())
}

#[test]
fn json_null() {
    assert!(json_eq(&build(&JsonExpr::Null), &Json::Null));
}

#[test]
fn json_array_with_json_element() {
    let macro_generated_value = build(&JsonExpr::Array(vec![expr_obj(vec![(
        "pitch",
        JsonExpr::Leaf(Json::from_f64_bits(440.0f64.to_bits())),
    )])]));
    let hand_coded_value = Json::Array(vec![obj(vec![("pitch", num(440.0))])]);
    assert!(json_eq(&macro_generated_value, &hand_coded_value));
}

#[test]
fn scalar_boolean_builds_boolean_leaf() {
    let v = build(&JsonExpr::scalar(true));
    assert!(json_eq(&v, &Json::Boolean(true)));
    let w = build(&JsonExpr::scalar(false));
    assert!(json_eq(&w, &Json::Boolean(false)));
}

#[test]
fn scalar_integers_build_number_leaves() {
    let v = build(&JsonExpr::scalar(42u8));
    assert!(json_eq(&v, &num(42.0)));
    let v = build(&JsonExpr::scalar(42i32));
    assert!(json_eq(&v, &num(42.0)));
    let v = build(&JsonExpr::scalar(-7i64));
    assert!(json_eq(&v, &num(-7.0)));
    let v = build(&JsonExpr::scalar(3000000000u64));
    assert!(json_eq(&v, &num(3000000000.0)));
    let v = build(&JsonExpr::scalar(5usize));
    assert!(json_eq(&v, &num(5.0)));
}

#[test]
fn scalar_strings_build_string_leaves() {
    let v = build(&JsonExpr::scalar("hello"));
    assert!(json_eq(&v, &Json::String("hello".to_string())));
    let v = build(&JsonExpr::scalar("owned".to_string()));
    assert!(json_eq(&v, &Json::String("owned".to_string())));
}

#[test]
fn empty_array_builds_empty_array() {
    let v = build(&JsonExpr::Array(vec![]));
    assert!(json_eq(&v, &Json::Array(vec![])));
    match v {
        Json::Array(items) => assert_eq!(items.len(), 0),
        _ => panic!("expected an array"),
    }
}

#[test]
fn array_keeps_source_order() {
    let v = build(&JsonExpr::Array(vec![
        JsonExpr::scalar(1u32),
        JsonExpr::scalar(2u32),
        JsonExpr::scalar(3u32),
    ]));
    let w = Json::Array(vec![num(1.0), num(2.0), num(3.0)]);
    assert!(json_eq(&v, &w));
    let reversed = Json::Array(vec![num(3.0), num(2.0), num(1.0)]);
    assert!(!json_eq(&v, &reversed));
}

#[test]
fn empty_object_builds_empty_object() {
    let v = build(&expr_obj(vec![]));
    assert!(json_eq(&v, &obj(vec![])));
    match v {
        Json::Object(pairs) => assert_eq!(pairs.len(), 0),
        _ => panic!("expected an object"),
    }
}

#[test]
fn object_is_order_insensitive() {
    let v = build(&expr_obj(vec![
        ("a", JsonExpr::scalar(1u32)),
        ("b", JsonExpr::scalar(2u32)),
    ]));
    let same_other_order = obj(vec![("b", num(2.0)), ("a", num(1.0))]);
    assert!(json_eq(&v, &same_other_order));
    let different_value = obj(vec![("a", num(1.0)), ("b", num(3.0))]);
    assert!(!json_eq(&v, &different_value));
    let missing_key = obj(vec![("a", num(1.0))]);
    assert!(!json_eq(&v, &missing_key));
}

#[test]
fn rebuild_round_trips() {
    let v = build(&JsonExpr::Array(vec![
        expr_obj(vec![
            ("name", JsonExpr::scalar("pitch")),
            ("value", JsonExpr::scalar(440u32)),
        ]),
        JsonExpr::Null,
        JsonExpr::scalar(true),
        JsonExpr::Array(vec![JsonExpr::scalar(-1i8)]),
    ]));
    let w = rebuild(&v);
    assert!(json_eq(&v, &w));
}

#[test]
fn to_expr_then_build_preserves_value() {
    let v = obj(vec![
        ("xs", Json::Array(vec![num(1.0), Json::Null])),
        ("s", Json::String("t".to_string())),
    ]);
    let e = to_expr(&v);
    let w = build(&e);
    assert!(json_eq(&v, &w));
}

#[test]
fn nested_computed_values() {
    let width = 4.0f64;
    let v = build(&expr_obj(vec![
        ("width", JsonExpr::Leaf(Json::from_f64_bits(width.to_bits()))),
        (
            "height",
            JsonExpr::Leaf(Json::from_f64_bits((width * 9.0 / 4.0).to_bits())),
        ),
    ]));
    let w = obj(vec![("width", num(4.0)), ("height", num(9.0))]);
    assert!(json_eq(&v, &w));
}

#[test]
fn duplicate_key_last_write_wins() {
    let v = build(&expr_obj(vec![
        ("a", JsonExpr::scalar(1u32)),
        ("a", JsonExpr::scalar(2u32)),
    ]));
    let w = obj(vec![("a", num(2.0))]);
    assert!(json_eq(&v, &w));
}

#[test]
fn array_of_objects() {
    let v = build(&JsonExpr::Array(vec![expr_obj(vec![(
        "pitch",
        JsonExpr::Leaf(Json::from_f64_bits(440.0f64.to_bits())),
    )])]));
    let w = Json::Array(vec![obj(vec![("pitch", num(440.0))])]);
    assert!(json_eq(&v, &w));
}

#[test]
fn equality_is_reflexive_symmetric_structural() {
    let e = JsonExpr::Array(vec![
        expr_obj(vec![
            ("k", JsonExpr::scalar("v")),
            ("n", JsonExpr::scalar(1u16)),
        ]),
        JsonExpr::scalar(false),
    ]);
    let a = build(&e);
    let e2 = JsonExpr::Array(vec![
        expr_obj(vec![
            ("n", JsonExpr::scalar(1u16)),
            ("k", JsonExpr::scalar("v")),
        ]),
        JsonExpr::scalar(false),
    ]);
    let b = build(&e2);
    assert!(json_eq(&a, &a));
    assert!(json_eq(&a, &b));
    assert!(json_eq(&b, &a));
    let c = build(&JsonExpr::scalar(0u8));
    assert_eq!(json_eq(&a, &c), json_eq(&c, &a));
    assert!(!json_eq(&a, &c));
}

#[test]
fn embedded_prebuilt_value_passes_through() {
    let inner = build(&expr_obj(vec![("x", JsonExpr::scalar(1u32))]));
    let v = build(&JsonExpr::Array(vec![JsonExpr::Leaf(inner)]));
    let w = Json::Array(vec![obj(vec![("x", num(1.0))])]);
    assert!(json_eq(&v, &w));
}

#[test]
fn duplicate_of_tree_equals_tree() {
    let v = obj(vec![
        ("a", Json::Array(vec![num(1.0), Json::Boolean(true)])),
        ("b", Json::Null),
    ]);
    let w = v.duplicate();
    assert!(json_eq(&v, &w));
}

#[test]
fn deeply_nested_literal_round_trips() {
    let mut e = JsonExpr::scalar(0u32);
    for i in 1..200u32 {
        e = JsonExpr::Array(vec![JsonExpr::scalar(i), e]);
    }
    let v = build(&e);
    let w = rebuild(&v);
    assert!(json_eq(&v, &w));

    let mut expected = num(0.0);
    for i in 1..200u32 {
        expected = Json::Array(vec![num(i as f64), expected]);
    }
    assert!(json_eq(&v, &expected));
}
