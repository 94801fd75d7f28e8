use laminax_kpl::ast_nodes::{ASTNode, BlockNode, NullNode};
use laminax_kpl::environment::{duplicate_values, Environment, Value};
use laminax_kpl::errors::{ErrorKind, RuntimeKind};

fn numeral(bits: u64) -> String {
    format!("{}", f64::from_bits(bits))
}

fn number(value: f64) -> Value {
    Value::Number(value.to_bits())
}

fn text(value: &Value) -> String {
    value.to_string(&numeral)
}

fn function(name: &str, scope: usize) -> Value {
    Value::Function {
        name: name.to_string(),
        parameters: vec!["a".to_string()],
        body: ASTNode::Block(BlockNode::new(vec![ASTNode::Null(NullNode::new())])),
        scope,
    }
}

#[test]
fn get_after_define_returns_the_value() {
    let mut env = Environment::new();
    env.define("x".to_string(), number(7.0));
    assert_eq!(text(&env.get("x").unwrap()), "7");
    env.define("s".to_string(), Value::String("hi".to_string()));
    assert_eq!(text(&env.get("s").unwrap()), "hi");
    assert_eq!(text(&env.get("x").unwrap()), "7");
}

#[test]
fn define_overwrites_in_the_same_scope() {
    let mut env = Environment::new();
    env.define("x".to_string(), number(1.0));
    env.define("x".to_string(), number(2.0));
    assert_eq!(text(&env.get("x").unwrap()), "2");
}

#[test]
fn get_of_an_unbound_name_fails() {
    let env = Environment::new();
    let e = env.get("nothing").unwrap_err();
    assert_eq!(e.kind(), ErrorKind::Runtime(RuntimeKind::UnboundName));
    assert_eq!(e.to_string(), "Runtime error at line 0, column 0: Undefined variable 'nothing'");
    assert!(env.lookup("nothing").is_none());
}

#[test]
fn lookup_walks_to_the_scopes_around() {
    let mut env = Environment::new();
    env.define("outer".to_string(), number(1.0));
    env.define("both".to_string(), number(2.0));
    let mut env = Environment::with_parent(env);
    assert_eq!((env.current(), env.count()), (1, 2));
    env.define("both".to_string(), number(3.0));
    env.define("inner".to_string(), number(4.0));
    assert_eq!(text(&env.get("outer").unwrap()), "1");
    assert_eq!(text(&env.get("both").unwrap()), "3");
    assert_eq!(text(&env.get("inner").unwrap()), "4");
    env.switch_to(0);
    assert_eq!(text(&env.get("both").unwrap()), "2");
    assert!(env.get("inner").is_err());
}

#[test]
fn define_in_an_inner_scope_shadows_and_leaves_the_outer_one() {
    let mut env = Environment::new();
    env.define("x".to_string(), number(1.0));
    env.enter(0);
    env.define("x".to_string(), number(2.0));
    assert_eq!(text(&env.get("x").unwrap()), "2");
    env.switch_to(0);
    assert_eq!(text(&env.get("x").unwrap()), "1");
}

#[test]
fn set_writes_where_the_name_is_bound() {
    let mut env = Environment::new();
    env.define("x".to_string(), number(1.0));
    env.enter(0);
    env.enter(1);
    env.set("x", number(5.0)).unwrap();
    assert_eq!(text(&env.get("x").unwrap()), "5");
    env.switch_to(0);
    assert_eq!(text(&env.get("x").unwrap()), "5");
    env.switch_to(2);
    env.define("x".to_string(), number(9.0));
    env.set("x", number(10.0)).unwrap();
    assert_eq!(text(&env.get("x").unwrap()), "10");
    env.switch_to(1);
    assert_eq!(text(&env.get("x").unwrap()), "5");
}

#[test]
fn set_of_an_unbound_name_fails_and_binds_nothing() {
    let mut env = Environment::new();
    env.enter(0);
    let e = env.set("y", number(1.0)).unwrap_err();
    assert_eq!(e.kind(), ErrorKind::Runtime(RuntimeKind::UnboundName));
    assert_eq!(e.message(), "Undefined variable 'y'");
    assert!(env.lookup("y").is_none());
}

#[test]
fn scopes_next_to_each_other_do_not_see_each_other() {
    let mut env = Environment::new();
    env.enter(0);
    env.define("a".to_string(), number(1.0));
    env.enter(0);
    env.define("b".to_string(), number(2.0));
    assert!(env.lookup("a").is_none());
    assert!(env.lookup("b").is_some());
    env.switch_to(1);
    assert!(env.lookup("a").is_some());
    assert!(env.lookup("b").is_none());
    assert_eq!(env.count(), 3);
}

#[test]
fn truthiness_follows_the_value() {
    assert!(!Value::Boolean(false).is_truthy());
    assert!(Value::Boolean(true).is_truthy());
    assert!(!Value::Null.is_truthy());
    assert!(!number(0.0).is_truthy());
    assert!(!number(-0.0).is_truthy());
    assert!(number(0.5).is_truthy());
    assert!(number(f64::NAN).is_truthy());
    assert!(!Value::String(String::new()).is_truthy());
    assert!(Value::String(" ".to_string()).is_truthy());
    assert!(!Value::List(vec![]).is_truthy());
    assert!(Value::List(vec![Value::Null]).is_truthy());
    assert!(function("f", 0).is_truthy());
    assert!(Value::Native("print".to_string()).is_truthy());
}

#[test]
fn type_names_follow_the_value() {
    assert_eq!(number(1.0).type_of(), "number");
    assert_eq!(Value::String(String::new()).type_of(), "string");
    assert_eq!(Value::Boolean(true).type_of(), "boolean");
    assert_eq!(Value::Null.type_of(), "null");
    assert_eq!(Value::List(vec![]).type_of(), "list");
    assert_eq!(function("f", 0).type_of(), "function");
    assert_eq!(Value::Native("len".to_string()).type_of(), "function");
}

#[test]
fn values_are_written_as_the_language_shows_them() {
    assert_eq!(text(&number(7.0)), "7");
    assert_eq!(text(&number(-120.0)), "-120");
    assert_eq!(text(&number(0.0)), "0");
    assert_eq!(text(&number(-0.0)), "0");
    assert_eq!(text(&number(2.5)), "2.5");
    assert_eq!(text(&number(-0.1)), "-0.1");
    assert_eq!(text(&number(1e15)), "1000000000000000");
    assert_eq!(text(&number(9007199254740993.0)), "9007199254740992");
    assert_eq!(text(&number(1e21)), "1000000000000000000000");
    assert_eq!(text(&number(f64::INFINITY)), "inf");
    assert_eq!(text(&number(f64::NAN)), "NaN");
    assert_eq!(text(&Value::String("a b".to_string())), "a b");
    assert_eq!(text(&Value::Boolean(true)), "True");
    assert_eq!(text(&Value::Boolean(false)), "False");
    assert_eq!(text(&Value::Null), "None");
    assert_eq!(text(&function("fact", 0)), "<function fact>");
    assert_eq!(text(&Value::Native("print".to_string())), "<function print>");
}

#[test]
fn lists_are_written_in_brackets_with_strings_quoted() {
    assert_eq!(text(&Value::List(vec![])), "[]");
    assert_eq!(text(&Value::List(vec![number(1.0)])), "[1]");
    let list = Value::List(vec![
        number(1.0),
        Value::String("a".to_string()),
        Value::List(vec![number(2.5), Value::Boolean(false), Value::String("b".to_string())]),
        Value::Null,
    ]);
    assert_eq!(text(&list), "[1, 'a', [2.5, False, 'b'], None]");
    assert_eq!(Value::String("a".to_string()).to_item_string(&numeral), "'a'");
    assert_eq!(number(3.0).to_item_string(&numeral), "3");
}

#[test]
fn copy_of_a_value_is_the_same_value() {
    let value = Value::List(vec![
        number(1.5),
        Value::String("s".to_string()),
        function("f", 0),
        Value::List(vec![Value::Null, Value::Boolean(true), Value::Native("len".to_string())]),
    ]);
    assert_eq!(format!("{:?}", value.duplicate()), format!("{:?}", value));
    let copies = duplicate_values(&vec![value.duplicate(), Value::Null]);
    assert_eq!(copies.len(), 2);
    assert_eq!(format!("{:?}", copies[0]), format!("{:?}", value));
}

#[test]
fn functions_fit_the_scopes_that_exist() {
    assert!(function("f", 0).fits_in(1));
    assert!(!function("f", 1).fits_in(1));
    assert!(Value::List(vec![number(1.0), function("f", 2)]).fits_in(3));
    assert!(!Value::List(vec![number(1.0), Value::List(vec![function("f", 3)])]).fits_in(3));
    assert!(Value::Null.fits_in(0));
}
