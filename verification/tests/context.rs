use bracket::parser::ast::Call;
use bracket::render::context::{Context, HelperError, MissingValue};
use bracket::render::type_assert::Type;
use serde_json::Value;

fn json(text: &str) -> Value {
    serde_json::from_str(text).unwrap()
}

#[test]
fn context_arguments_and_parameters() {
    let call = Call::new("", 0..0, 0..1);
    let mut params = serde_json::Map::new();
    params.insert("a".to_string(), json("1"));
    params.insert("b".to_string(), Value::Null);
    let ctx = Context::new(
        &call,
        "h".to_string(),
        vec![json("\"x\""), Value::Null],
        params,
        None,
        None,
        vec![
            MissingValue::Argument(1, json("\"foo\"")),
            MissingValue::Parameter("b".to_string(), json("\"bar\"")),
        ],
    );
    assert_eq!("h", ctx.name());
    assert_eq!(2, ctx.arguments().len());
    assert_eq!(Some(&json("\"x\"")), ctx.get(0));
    assert_eq!(None, ctx.get(2));
    assert_eq!(Some(&json("1")), ctx.param("a"));
    assert_eq!(None, ctx.param("c"));
    assert_eq!(Some(&Value::Null), ctx.get(1));
    assert_eq!(Some(&json("\"foo\"")), ctx.get_fallback(1));
    assert_eq!(Some(&json("\"x\"")), ctx.get_fallback(0));
    assert_eq!(Some(&json("\"bar\"")), ctx.param_fallback("b"));
    assert_eq!(Some(&json("\"foo\"")), ctx.missing(1));
    assert_eq!(None, ctx.missing(0));
    assert_eq!(Some(&json("\"bar\"")), ctx.missing_param("b"));
    assert_eq!(None, ctx.missing_param("a"));
    assert!(ctx.text().is_none());
    assert!(ctx.property().is_none());
}

#[test]
fn context_arity() {
    let call = Call::new("", 0..0, 0..1);
    let ctx = Context::new(&call, "h".to_string(), vec![Value::Null, Value::Null], serde_json::Map::new(), None, None, vec![]);
    assert!(ctx.arity(2..2).is_ok());
    assert!(ctx.arity(1..3).is_ok());
    assert!(matches!(ctx.arity(1..1), Err(HelperError::ArityExact(ref n, 1)) if n == "h"));
    assert!(matches!(ctx.arity(3..5), Err(HelperError::ArityRange(ref n, 3, 5)) if n == "h"));
    assert!(matches!(ctx.arity(0..2), Err(HelperError::ArityRange(_, 0, 2))));
}

#[test]
fn context_type_assertions() {
    let call = Call::new("", 0..0, 0..1);
    let ctx = Context::new(&call, "h".to_string(), vec![json("1")], serde_json::Map::new(), Some("raw"), None, vec![]);
    assert_eq!(&json("1"), ctx.try_get(0, &[Type::Number]).unwrap());
    assert!(matches!(
        ctx.try_get(0, &[Type::String]),
        Err(HelperError::TypeAssert(ref n, ref a, ref b)) if n == "h" && a == "number" && b == "number"
    ));
    assert_eq!(&Value::Null, ctx.try_get(5, &[Type::Null]).unwrap());
    assert!(ctx.try_param("x", &[Type::Bool]).is_err());
    assert_eq!(&Value::Null, ctx.try_param("x", &[Type::Null]).unwrap());
    assert_eq!(&Some("raw"), ctx.text());
    assert!(matches!(ctx.assert_block(None), Err(HelperError::BlockTemplate(ref n)) if n == "h"));
    assert_eq!(Some(&json("2")), ctx.lookup(&json("[1, 2]"), "1"));
}
