use lox_rs::environment::Environment;

fn s(x: &str) -> String {
    x.to_string()
}

#[test]
fn read_after_define() {
    let mut env: Environment<i32> = Environment::new();
    env.define(0, &s("a"), 1);
    assert_eq!(env.get(0, &s("a")), Some(&1));
    env.define(0, &s("a"), 2);
    assert_eq!(env.get(0, &s("a")), Some(&2));
    assert_eq!(env.get(0, &s("b")), None);
}

#[test]
fn inner_shadows_outer_and_outer_is_untouched() {
    let mut env: Environment<i32> = Environment::new();
    env.define(0, &s("x"), 1);
    let inner = env.new_enclosed(0).unwrap();
    assert_eq!(inner, 1);
    assert_eq!(env.get(inner, &s("x")), Some(&1));
    env.define(inner, &s("x"), 2);
    assert_eq!(env.get(inner, &s("x")), Some(&2));
    assert_eq!(env.get(0, &s("x")), Some(&1));
}

#[test]
fn assignment_reaches_the_defining_environment() {
    let mut env: Environment<i32> = Environment::new();
    env.define(0, &s("x"), 1);
    let a = env.new_enclosed(0).unwrap();
    let b = env.new_enclosed(a).unwrap();
    assert!(env.set(b, &s("x"), 5));
    assert_eq!(env.get(0, &s("x")), Some(&5));
    assert_eq!(env.get(a, &s("x")), Some(&5));
    assert!(!env.set(b, &s("y"), 5));
    assert_eq!(env.get(b, &s("y")), None);
}

#[test]
fn reads_and_writes_at_a_depth() {
    let mut env: Environment<i32> = Environment::new();
    env.define(0, &s("x"), 1);
    let a = env.new_enclosed(0).unwrap();
    env.define(a, &s("x"), 2);
    assert_eq!(env.get_at(a, &s("x"), 0), Some(&2));
    assert_eq!(env.get_at(a, &s("x"), 1), Some(&1));
    assert_eq!(env.get_at(a, &s("x"), 2), None);
    assert!(env.set_at(a, &s("x"), 7, 1));
    assert_eq!(env.get_at(a, &s("x"), 1), Some(&7));
    assert_eq!(env.get_at(a, &s("x"), 0), Some(&2));
    assert!(!env.set_at(a, &s("y"), 7, 1));
    assert!(!env.set_at(a, &s("x"), 7, 5));
    assert_eq!(env.ancestor_of(a, 1), Some(0));
    assert_eq!(env.ancestor_of(a, 2), None);
    assert_eq!(env.get_local(a, &s("x")), Some(&2));
}
