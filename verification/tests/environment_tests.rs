use monkey_lang::environment::Environment;
use monkey_lang::object::Object;

fn name(text: &str) -> String {
    text.to_string()
}

#[test]
fn a_new_environment_holds_the_empty_root() {
    let env = Environment::new_rc();
    assert_eq!(env.size(), 1);
    assert_eq!(env.get(0, &name("a")), None);
}

#[test]
fn set_then_get() {
    let mut env = Environment::new_rc();
    assert_eq!(env.set(0, name("a"), Object::Integer(1)), Object::Integer(1));
    assert_eq!(env.get(0, &name("a")), Some(Object::Integer(1)));
    assert_eq!(env.get(0, &name("b")), None);
}

#[test]
fn set_again_replaces() {
    let mut env = Environment::new_rc();
    env.set(0, name("a"), Object::Integer(1));
    env.set(0, name("b"), Object::Integer(2));
    env.set(0, name("a"), Object::Integer(3));
    assert_eq!(env.get(0, &name("a")), Some(Object::Integer(3)));
    assert_eq!(env.get(0, &name("b")), Some(Object::Integer(2)));
}

#[test]
fn lookup_goes_to_the_nearest_enclosing_scope() {
    let mut env = Environment::new_rc();
    env.set(0, name("a"), Object::Integer(1));
    env.set(0, name("b"), Object::Integer(2));
    let middle = env.with_outer(0);
    env.set(middle, name("a"), Object::Integer(10));
    let inner = env.with_outer(middle);
    assert_eq!(middle, 1);
    assert_eq!(inner, 2);
    assert_eq!(env.size(), 3);
    assert_eq!(env.get(inner, &name("a")), Some(Object::Integer(10)));
    assert_eq!(env.get(inner, &name("b")), Some(Object::Integer(2)));
    assert_eq!(env.get(inner, &name("c")), None);
    assert_eq!(env.get(0, &name("a")), Some(Object::Integer(1)));
}

#[test]
fn set_never_writes_to_an_enclosing_scope() {
    let mut env = Environment::new_rc();
    env.set(0, name("a"), Object::Integer(1));
    let inner = env.with_outer(0);
    env.set(inner, name("a"), Object::Integer(2));
    env.set(inner, name("b"), Object::Integer(3));
    assert_eq!(env.get(0, &name("a")), Some(Object::Integer(1)));
    assert_eq!(env.get(0, &name("b")), None);
    assert_eq!(env.get(inner, &name("a")), Some(Object::Integer(2)));
}

#[test]
fn a_later_binding_in_the_outer_scope_is_seen_from_inside() {
    let mut env = Environment::new_rc();
    let first = env.with_outer(0);
    let second = env.with_outer(0);
    env.set(0, name("shared"), Object::Integer(5));
    assert_eq!(env.get(first, &name("shared")), Some(Object::Integer(5)));
    assert_eq!(env.get(second, &name("shared")), Some(Object::Integer(5)));
    env.set(0, name("shared"), Object::Integer(6));
    assert_eq!(env.get(first, &name("shared")), Some(Object::Integer(6)));
    assert_eq!(env.get(second, &name("shared")), Some(Object::Integer(6)));
}

#[test]
fn a_scope_that_does_not_exist_binds_nothing() {
    let mut env = Environment::new_rc();
    assert_eq!(env.get(7, &name("a")), None);
    assert_eq!(env.set(7, name("a"), Object::Integer(1)), Object::Integer(1));
    assert_eq!(env.get(7, &name("a")), None);
    assert_eq!(env, Environment::new_rc());
}

#[test]
fn a_scope_is_enclosed_only_by_an_older_scope() {
    let mut env = Environment::new_rc();
    let dangling = env.with_outer(5);
    assert_eq!(dangling, 1);
    env.set(0, name("a"), Object::Integer(1));
    assert_eq!(env.get(dangling, &name("a")), None);
}

#[test]
fn a_bound_null_is_not_absent() {
    let mut env = Environment::new_rc();
    env.set(0, name("a"), Object::Null);
    assert_eq!(env.get(0, &name("a")), Some(Object::Null));
}
