use rlox::environment::Environment;
use rlox::number::Number;
use rlox::value::Value;

fn number(n: i64) -> Value {
    Value::Number(Number { units: n * 1_000_000 })
}

#[test]
fn new_environment_has_no_scope() {
    let env = Environment::new();
    assert_eq!(env.len(), 0);
    assert_eq!(env.get(0, "x").unwrap_err().name, "x");
}

#[test]
fn scopes_are_numbered_in_order() {
    let mut env = Environment::new();
    assert_eq!(env.new_scope(None), 0);
    assert_eq!(env.new_scope(Some(0)), 1);
    assert_eq!(env.new_scope(Some(0)), 2);
    assert_eq!(env.len(), 3);
}

#[test]
fn define_in_child_then_get_in_child() {
    let mut env = Environment::new();
    let parent = env.new_scope(None);
    let child = env.new_scope(Some(parent));
    env.define(child, "x".to_string(), number(1));
    assert_eq!(env.get(child, "x").unwrap(), number(1));
}

#[test]
fn define_in_child_is_undefined_in_parent() {
    let mut env = Environment::new();
    let parent = env.new_scope(None);
    let child = env.new_scope(Some(parent));
    env.define(child, "x".to_string(), number(1));
    let err = env.get(parent, "x").unwrap_err();
    assert_eq!(err.name, "x");
}

#[test]
fn assign_in_child_updates_parent_and_sibling_sees_it() {
    let mut env = Environment::new();
    let parent = env.new_scope(None);
    let child = env.new_scope(Some(parent));
    let sibling = env.new_scope(Some(parent));
    env.define(parent, "x".to_string(), number(1));
    assert_eq!(env.assign(child, "x", number(2)), Ok(()));
    assert_eq!(env.get(parent, "x").unwrap(), number(2));
    assert_eq!(env.get(sibling, "x").unwrap(), number(2));
    assert_eq!(env.get(child, "x").unwrap(), number(2));
}

#[test]
fn get_walks_the_whole_chain() {
    let mut env = Environment::new();
    let a = env.new_scope(None);
    let b = env.new_scope(Some(a));
    let c = env.new_scope(Some(b));
    env.define(a, "x".to_string(), Value::Str("outer".to_string()));
    assert_eq!(env.get(c, "x").unwrap(), Value::Str("outer".to_string()));
}

#[test]
fn inner_definition_shadows_outer() {
    let mut env = Environment::new();
    let outer = env.new_scope(None);
    let inner = env.new_scope(Some(outer));
    env.define(outer, "x".to_string(), number(1));
    env.define(inner, "x".to_string(), number(2));
    assert_eq!(env.get(inner, "x").unwrap(), number(2));
    assert_eq!(env.get(outer, "x").unwrap(), number(1));
    assert_eq!(env.assign(inner, "x", number(3)), Ok(()));
    assert_eq!(env.get(inner, "x").unwrap(), number(3));
    assert_eq!(env.get(outer, "x").unwrap(), number(1));
}

#[test]
fn define_overwrites_in_the_same_scope() {
    let mut env = Environment::new();
    let s = env.new_scope(None);
    env.define(s, "x".to_string(), number(1));
    env.define(s, "y".to_string(), Value::Nil);
    env.define(s, "x".to_string(), Value::Bool(true));
    assert_eq!(env.get(s, "x").unwrap(), Value::Bool(true));
    assert_eq!(env.get(s, "y").unwrap(), Value::Nil);
    assert_eq!(env.assign(s, "x", number(7)), Ok(()));
    assert_eq!(env.get(s, "x").unwrap(), number(7));
}

#[test]
fn assign_to_undefined_name_fails_and_creates_nothing() {
    let mut env = Environment::new();
    let s = env.new_scope(None);
    let err = env.assign(s, "x", number(1)).unwrap_err();
    assert_eq!(err.name, "x");
    assert!(env.get(s, "x").is_err());
}

#[test]
fn siblings_do_not_see_each_other() {
    let mut env = Environment::new();
    let parent = env.new_scope(None);
    let one = env.new_scope(Some(parent));
    let two = env.new_scope(Some(parent));
    env.define(one, "x".to_string(), number(1));
    assert!(env.get(two, "x").is_err());
    assert!(env.assign(two, "x", number(2)).is_err());
    assert_eq!(env.get(one, "x").unwrap(), number(1));
}

#[test]
fn separate_top_level_scopes_are_independent() {
    let mut env = Environment::new();
    let a = env.new_scope(None);
    let b = env.new_scope(None);
    env.define(a, "x".to_string(), number(1));
    assert!(env.get(b, "x").is_err());
}

#[test]
fn discard_removes_the_newest_scope_only() {
    let mut env = Environment::new();
    let parent = env.new_scope(None);
    let child = env.new_scope(Some(parent));
    env.define(parent, "x".to_string(), number(1));
    env.define(child, "y".to_string(), number(2));
    assert!(!env.discard(parent));
    assert_eq!(env.len(), 2);
    assert!(env.discard(child));
    assert_eq!(env.len(), 1);
    assert_eq!(env.get(parent, "x").unwrap(), number(1));
    assert!(env.get(child, "y").is_err());
    assert!(!env.discard(5));
}

#[test]
fn a_handle_that_names_no_scope_changes_nothing() {
    let mut env = Environment::new();
    let s = env.new_scope(None);
    env.define(9, "x".to_string(), number(1));
    assert_eq!(env.len(), 1);
    assert!(env.get(s, "x").is_err());
    assert!(env.get(9, "x").is_err());
}

#[test]
fn a_parent_that_is_not_older_ends_the_chain() {
    let mut env = Environment::new();
    let a = env.new_scope(Some(3));
    let b = env.new_scope(None);
    env.define(b, "x".to_string(), number(1));
    assert_eq!(a, 0);
    assert!(env.get(a, "x").is_err());
}
