use bracket::render::scope::Scope;
use serde_json::Value;

#[test]
fn scope_locals_take_the_at_prefix() {
    let mut scope = Scope::new();
    assert!(scope.local("@foo").is_none());
    scope.set_local("foo", Value::String("bar".to_string()));
    assert_eq!(Some(&Value::String("bar".to_string())), scope.local("@foo"));
    assert!(scope.local("foo").is_none());
    scope.set_local("foo", Value::Bool(true));
    assert_eq!(Some(&Value::Bool(true)), scope.local("@foo"));
    assert_eq!(Some(&Value::Bool(true)), scope.locals().get("@foo"));
}

#[test]
fn scope_base_value() {
    let mut scope = Scope::new();
    assert!(scope.base_value().is_none());
    scope.set_base_value(Value::Null);
    assert_eq!(&Some(Value::Null), scope.base_value());
    scope.set_local("x", Value::Null);
    assert_eq!(&Some(Value::Null), scope.base_value());
}

#[test]
fn scope_from_map_and_clone() {
    let mut map = serde_json::Map::new();
    map.insert("@index".to_string(), Value::from(1));
    let scope = Scope::from(map);
    assert_eq!(Some(&Value::from(1)), scope.local("@index"));
    let copy = scope.clone();
    assert_eq!(Some(&Value::from(1)), copy.local("@index"));
    assert!(copy.base_value().is_none());
}
