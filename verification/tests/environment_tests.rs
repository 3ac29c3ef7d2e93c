use monkey::arithmetic::{
    wrapping_difference, wrapping_power, wrapping_product, wrapping_quotient, wrapping_sum,
};
use monkey::object::{
    decimal_string, find_binding, Bool, Environment, Integer, MonkeyObject, Null, ObjectInterface,
};

fn integer(v: i64) -> MonkeyObject {
    MonkeyObject::INTEGER(Integer { value: v })
}

#[test]
fn new_environment_has_the_global_scope() {
    let env = Environment::new();
    assert_eq!(env.scopes.len(), 1);
    assert_eq!(env.scopes[0].outer, None);
    assert!(env.scopes[0].store.is_empty());
    assert_eq!(env.get(0, &"x".to_string()), None);
}

#[test]
fn set_then_get() {
    let mut env = Environment::new();
    env.set(0, "x".to_string(), integer(1));
    env.set(0, "y".to_string(), integer(2));
    assert_eq!(env.get(0, &"x".to_string()), Some(integer(1)));
    assert_eq!(env.get(0, &"y".to_string()), Some(integer(2)));
    assert_eq!(env.get(0, &"z".to_string()), None);
}

#[test]
fn set_again_replaces() {
    let mut env = Environment::new();
    env.set(0, "x".to_string(), integer(1));
    env.set(0, "y".to_string(), integer(2));
    env.set(0, "x".to_string(), integer(3));
    assert_eq!(env.get(0, &"x".to_string()), Some(integer(3)));
    assert_eq!(env.get(0, &"y".to_string()), Some(integer(2)));
    assert_eq!(env.scopes[0].store.len(), 2);
}

#[test]
fn lookup_walks_outward() {
    let mut env = Environment::new();
    env.set(0, "x".to_string(), integer(1));
    let child = env.new_enclosed_evironment(vec![("y".to_string(), integer(2))], 0);
    let grandchild = env.new_enclosed_evironment(vec![], child);
    assert_eq!(child, 1);
    assert_eq!(grandchild, 2);
    assert_eq!(env.get(grandchild, &"x".to_string()), Some(integer(1)));
    assert_eq!(env.get(grandchild, &"y".to_string()), Some(integer(2)));
    assert_eq!(env.get(child, &"y".to_string()), Some(integer(2)));
    assert_eq!(env.get(0, &"y".to_string()), None);
}

#[test]
fn innermost_binding_wins() {
    let mut env = Environment::new();
    env.set(0, "x".to_string(), integer(1));
    let child = env.new_enclosed_evironment(vec![("x".to_string(), integer(2))], 0);
    assert_eq!(env.get(child, &"x".to_string()), Some(integer(2)));
    assert_eq!(env.get(0, &"x".to_string()), Some(integer(1)));
}

#[test]
fn set_writes_the_innermost_scope_only() {
    let mut env = Environment::new();
    env.set(0, "x".to_string(), integer(1));
    let child = env.new_enclosed_evironment(vec![], 0);
    env.set(child, "x".to_string(), integer(5));
    assert_eq!(env.get(child, &"x".to_string()), Some(integer(5)));
    assert_eq!(env.get(0, &"x".to_string()), Some(integer(1)));
}

#[test]
fn later_binding_in_outer_scope_is_seen() {
    let mut env = Environment::new();
    let child = env.new_enclosed_evironment(vec![], 0);
    env.set(0, "late".to_string(), integer(9));
    assert_eq!(env.get(child, &"late".to_string()), Some(integer(9)));
}

#[test]
fn last_of_equal_names_counts() {
    let mut env = Environment::new();
    let child = env.new_enclosed_evironment(
        vec![("x".to_string(), integer(1)), ("x".to_string(), integer(2))],
        0,
    );
    assert_eq!(env.get(child, &"x".to_string()), Some(integer(2)));
    env.set(child, "x".to_string(), integer(3));
    assert_eq!(env.get(child, &"x".to_string()), Some(integer(3)));
}

#[test]
fn handles_that_name_no_scope() {
    let mut env = Environment::new();
    env.set(7, "x".to_string(), integer(1));
    assert_eq!(env.scopes.len(), 1);
    assert_eq!(env.get(7, &"x".to_string()), None);
    assert_eq!(env.get(0, &"x".to_string()), None);
}

#[test]
fn link_to_a_younger_scope_is_not_followed() {
    let mut env = Environment::new();
    let a = env.new_enclosed_evironment(vec![], 5);
    env.set(0, "x".to_string(), integer(1));
    assert_eq!(env.get(a, &"x".to_string()), None);
    let b = env.new_enclosed_evironment(vec![("y".to_string(), integer(2))], 2);
    assert_eq!(b, 2);
    assert_eq!(env.get(b, &"y".to_string()), Some(integer(2)));
    assert_eq!(env.get(b, &"x".to_string()), None);
}

#[test]
fn find_binding_gives_the_last_index() {
    let store = vec![
        ("a".to_string(), integer(1)),
        ("b".to_string(), integer(2)),
        ("a".to_string(), integer(3)),
    ];
    assert_eq!(find_binding(&store, &"a".to_string()), Some(2));
    assert_eq!(find_binding(&store, &"b".to_string()), Some(1));
    assert_eq!(find_binding(&store, &"c".to_string()), None);
    assert_eq!(find_binding(&vec![], &"a".to_string()), None);
}

#[test]
fn value_constructors() {
    assert_eq!(Integer::new(5), Integer { value: 5 });
    assert_eq!(Bool::new(true), Bool { value: true });
    assert_eq!(MonkeyObject::integer(5), integer(5));
    assert_eq!(MonkeyObject::boolean(false), MonkeyObject::BOOLEAN(Bool { value: false }));
    assert_eq!(MonkeyObject::null(), MonkeyObject::NULL(Null {}));
    assert_eq!(MonkeyObject::integer(5).clone(), integer(5));
}

#[test]
fn wrapping_arithmetic() {
    assert_eq!(wrapping_sum(1, 2), 3);
    assert_eq!(wrapping_sum(i64::MAX, 1), i64::MIN);
    assert_eq!(wrapping_difference(1, 2), -1);
    assert_eq!(wrapping_difference(i64::MIN, 1), i64::MAX);
    assert_eq!(wrapping_product(6, 7), 42);
    assert_eq!(wrapping_product(i64::MAX, 2), -2);
    assert_eq!(wrapping_quotient(7, 2), 3);
    assert_eq!(wrapping_quotient(-7, 2), -3);
    assert_eq!(wrapping_quotient(7, -2), -3);
    assert_eq!(wrapping_quotient(-7, -2), 3);
    assert_eq!(wrapping_quotient(i64::MIN, -1), i64::MIN);
    assert_eq!(wrapping_quotient(i64::MIN, 1), i64::MIN);
    assert_eq!(wrapping_power(2, 10), 1024);
    assert_eq!(wrapping_power(-3, 3), -27);
    assert_eq!(wrapping_power(5, 0), 1);
    assert_eq!(wrapping_power(2, 64), 0);
    assert_eq!(wrapping_power(3, 100), 3i64.wrapping_pow(100));
    assert_eq!(wrapping_power(-1, i64::MAX), -1);
}

#[test]
fn integers_are_written_in_decimal() {
    assert_eq!(decimal_string(0), "0");
    assert_eq!(decimal_string(9), "9");
    assert_eq!(decimal_string(10), "10");
    assert_eq!(decimal_string(-1), "-1");
    assert_eq!(decimal_string(1234567890), "1234567890");
    assert_eq!(decimal_string(i64::MIN), "-9223372036854775808");
    assert_eq!(Integer { value: 12 }.inspect(), "12");
    assert_eq!(Bool { value: true }.inspect(), "true");
    assert_eq!(Null {}.inspect(), "Null");
}
