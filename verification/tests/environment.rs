use std::collections::HashMap;

use selene::expr::next_id;
use selene::interpreter::environment::{Environment, Fields, Property};
use selene::interpreter::values::{ClockFn, RuntimeError};

fn undefined(line: u64, name: &str) -> String {
    format!("line {}: Variável '{}' não definida.", line, name)
}

fn describe<T: std::fmt::Debug>(r: Result<T, RuntimeError<i32>>) -> String {
    match r {
        Ok(v) => format!("ok {:?}", v),
        Err(RuntimeError::Error { line, message }) => format!("line {}: {}", line, message),
        Err(RuntimeError::Return(v)) => format!("return {}", v),
    }
}

#[test]
fn read_after_define() {
    let mut env: Environment<i32> = Environment::new();
    env.define(0, "a".to_string(), 1);
    assert_eq!(env.get(0, &"a".to_string(), 1).ok(), Some(&1));
}

#[test]
fn defining_again_replaces_the_value() {
    let mut env: Environment<i32> = Environment::new();
    env.define(0, "a".to_string(), 1);
    env.define(0, "a".to_string(), 2);
    assert_eq!(env.get(0, &"a".to_string(), 1).ok(), Some(&2));
}

#[test]
fn reading_an_undefined_name_fails() {
    let env: Environment<i32> = Environment::new();
    assert_eq!(describe(env.get(0, &"x".to_string(), 9)), undefined(9, "x"));
}

#[test]
fn inner_scope_reads_outer_and_shadows_it() {
    let mut env: Environment<i32> = Environment::new();
    env.define(0, "a".to_string(), 1);
    let inner = env.new_enclosed(0);
    assert_eq!(inner, 1);
    assert_eq!(env.get(inner, &"a".to_string(), 1).ok(), Some(&1));
    env.define(inner, "a".to_string(), 5);
    assert_eq!(env.get(inner, &"a".to_string(), 1).ok(), Some(&5));
    assert_eq!(env.get(0, &"a".to_string(), 1).ok(), Some(&1));
}

#[test]
fn assignment_changes_the_defining_scope() {
    let mut env: Environment<i32> = Environment::new();
    env.define(0, "a".to_string(), 1);
    let inner = env.new_enclosed(0);
    assert_eq!(env.assign(inner, "a".to_string(), 1, 7).ok(), Some(&7));
    assert_eq!(env.get(0, &"a".to_string(), 1).ok(), Some(&7));
    assert_eq!(env.get(inner, &"a".to_string(), 1).ok(), Some(&7));
}

#[test]
fn assigning_an_undefined_name_fails_and_changes_nothing() {
    let mut env: Environment<i32> = Environment::new();
    let inner = env.new_enclosed(0);
    assert_eq!(describe(env.assign(inner, "b".to_string(), 3, 7)), undefined(3, "b"));
    assert!(env.get(inner, &"b".to_string(), 1).is_err());
}

#[test]
fn ancestors_and_depths() {
    let mut env: Environment<i32> = Environment::new();
    let a = env.new_enclosed(0);
    let b = env.new_enclosed(a);
    assert_eq!(env.ancestor(b, 0), b);
    assert_eq!(env.ancestor(b, 1), a);
    assert_eq!(env.ancestor(b, 2), 0);
    assert!(env.reaches(b, 2));
    assert!(!env.reaches(b, 3));
    assert!(!env.reaches(7, 0));
    env.define(a, "x".to_string(), 4);
    assert_eq!(env.get_at(b, 1, &"x".to_string(), 1).ok(), Some(&4));
    assert_eq!(env.assign_at(b, 1, "x".to_string(), 8, 1).ok(), Some(&8));
    assert_eq!(env.get(b, &"x".to_string(), 1).ok(), Some(&8));
    assert_eq!(env.len(), 3);
}

#[test]
fn get_at_reads_only_from_the_ancestor_outwards() {
    let mut env: Environment<i32> = Environment::new();
    let a = env.new_enclosed(0);
    env.define(a, "x".to_string(), 4);
    assert_eq!(describe(env.get_at(a, 1, &"x".to_string(), 2)), undefined(2, "x"));
}

#[test]
fn resolved_reads_and_writes() {
    let mut env: Environment<i32> = Environment::new();
    env.define(0, "g".to_string(), 1);
    let a = env.new_enclosed(0);
    env.define(a, "g".to_string(), 2);
    let b = env.new_enclosed(a);
    let locals: HashMap<usize, usize> = HashMap::from([(10, 1)]);
    assert_eq!(env.get_resolved(&locals, b, 10, &"g".to_string(), 1).ok(), Some(&2));
    assert_eq!(env.get_resolved(&locals, b, 11, &"g".to_string(), 1).ok(), Some(&1));
    assert_eq!(env.assign_resolved(&locals, b, 11, "g".to_string(), 9, 1).ok(), Some(&9));
    assert_eq!(env.get(0, &"g".to_string(), 1).ok(), Some(&9));
    assert_eq!(env.get(a, &"g".to_string(), 1).ok(), Some(&2));
}

#[test]
fn runtime_error_messages() {
    assert_eq!(describe::<i32>(Err(RuntimeError::arity_mismatch(2, 3, 5))), "line 5: Esperava 2 argumento(s), mas recebeu 3.");
    assert_eq!(
        describe::<i32>(Err(RuntimeError::not_callable(")", 4))),
        "line 4: Expressão ')' não é uma função e não pode ser chamada."
    );
    assert_eq!(describe::<i32>(Err(RuntimeError::undefined("z", 1))), undefined(1, "z"));
}

#[test]
fn clock_takes_no_arguments() {
    assert_eq!(ClockFn.arity(), 0);
    assert_eq!(ClockFn.name(), "clock");
}

#[test]
fn next_id_counts_up_and_wraps() {
    let mut counter: usize = 41;
    assert_eq!(next_id(&mut counter), 41);
    assert_eq!(counter, 42);
    let mut last = usize::MAX;
    assert_eq!(next_id(&mut last), usize::MAX);
    assert_eq!(last, 0);
}

#[test]
fn fields_keep_the_last_value_set() {
    let mut fields: Fields<i32> = Fields::new();
    assert_eq!(fields.get(&"x".to_string()), None);
    fields.set("x".to_string(), 1);
    fields.set("y".to_string(), 2);
    fields.set("x".to_string(), 3);
    assert_eq!(fields.get(&"x".to_string()), Some(&3));
    assert_eq!(fields.get(&"y".to_string()), Some(&2));
}

#[test]
fn arity_is_checked() {
    assert!(RuntimeError::<i32>::check_arity(2, 2, 1).is_ok());
    assert_eq!(
        describe::<()>(RuntimeError::check_arity(1, 0, 6)),
        "line 6: Esperava 1 argumento(s), mas recebeu 0."
    );
    assert_eq!(
        describe::<i32>(Err(RuntimeError::not_instance("x", 2))),
        "line 2: Expressão 'x' não é uma instancia válida: "
    );
}

#[test]
fn fields_come_before_methods() {
    let mut fields: Fields<i32> = Fields::new();
    fields.set("m".to_string(), 4);
    match fields.property(Some("method"), &"m".to_string(), 1) {
        Ok(Property::Field(v)) => assert_eq!(*v, 4),
        _ => panic!("the field was not found"),
    }
    match fields.property(Some("method"), &"n".to_string(), 1) {
        Ok(Property::Method(m)) => assert_eq!(m, "method"),
        _ => panic!("the method was not found"),
    }
    match fields.property::<&str>(None, &"n".to_string(), 3) {
        Err(RuntimeError::Error { line, message }) => {
            assert_eq!(line, 3);
            assert_eq!(message, "Expressão 'n' não é uma função e não pode ser chamada.");
        }
        _ => panic!("an error was expected"),
    }
}
