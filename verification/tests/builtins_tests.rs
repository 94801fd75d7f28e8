use laminax_kpl::ai_ml_functions::get_ai_ml_functions;
use laminax_kpl::builtins::{
    builtin_abs, builtin_append, builtin_choice, builtin_len, builtin_max, builtin_min,
    builtin_pop, builtin_push, builtin_str, builtin_type, chosen, gcd_helper,
    get_builtin_functions, print_line, randint_between,
};
use laminax_kpl::environment::Value;
use laminax_kpl::errors::{ErrorKind, KyaroError, RuntimeKind};

fn numeral(bits: u64) -> String {
    format!("{}", f64::from_bits(bits))
}

fn number(value: f64) -> Value {
    Value::Number(value.to_bits())
}

fn string(text: &str) -> Value {
    Value::String(text.to_string())
}

fn numbers(values: &[f64]) -> Vec<Value> {
    values.iter().map(|v| number(*v)).collect()
}

fn text(result: Result<Value, KyaroError>) -> String {
    result.unwrap().to_string(&numeral)
}

fn failure(result: Result<Value, KyaroError>) -> (RuntimeKind, String) {
    let e = result.unwrap_err();
    let ErrorKind::Runtime(kind) = e.kind() else { panic!("no runtime error: {:?}", e) };
    (kind, e.message().clone())
}

#[test]
fn registry_names_the_native_functions() {
    let names = get_builtin_functions();
    assert_eq!(names.len(), 57);
    for name in ["print", "input", "str", "int", "float", "type", "len", "range", "abs", "min",
        "max", "sum", "sqrt", "pow", "exp", "log", "floor", "round", "sin", "hypot", "factorial",
        "gcd", "random", "randint", "uniform", "choice", "mean", "median", "stdev", "variance",
        "pi", "e", "exit", "time", "sleep"]
    {
        assert!(names.iter().any(|n| n == name), "{}", name);
    }
    let mut sorted = names.clone();
    sorted.sort();
    sorted.dedup();
    assert_eq!(sorted.len(), names.len());
    let more = get_ai_ml_functions();
    assert_eq!(more.len(), 35);
    assert!(more.iter().any(|n| n == "ml_train_test_split"));
    assert!(more.iter().any(|n| n == "adam_step"));
    assert!(more.iter().all(|n| !names.contains(n)));
}

#[test]
fn print_joins_its_arguments_with_one_space() {
    assert_eq!(print_line(&vec![], &numeral), "");
    assert_eq!(print_line(&vec![number(7.0)], &numeral), "7");
    let arguments = vec![
        number(1.0),
        string("a b"),
        Value::List(vec![string("x"), number(0.5)]),
        Value::Boolean(true),
        Value::Null,
    ];
    assert_eq!(print_line(&arguments, &numeral), "1 a b ['x', 0.5] True None");
}

#[test]
fn str_gives_the_text_of_its_argument() {
    assert_eq!(text(builtin_str(&vec![number(12.0)], &numeral)), "12");
    assert_eq!(text(builtin_str(&vec![number(1.25)], &numeral)), "1.25");
    assert_eq!(text(builtin_str(&vec![Value::List(vec![string("a")])], &numeral)), "['a']");
    assert!(matches!(builtin_str(&vec![Value::Null], &numeral), Ok(Value::String(s)) if s == "None"));
    assert_eq!(
        failure(builtin_str(&vec![], &numeral)),
        (RuntimeKind::ArityError, "str() takes exactly one argument".to_string())
    );
    assert_eq!(failure(builtin_str(&numbers(&[1.0, 2.0]), &numeral)).0, RuntimeKind::ArityError);
}

#[test]
fn type_names_the_type_of_its_argument() {
    assert_eq!(text(builtin_type(&vec![number(1.0)])), "number");
    assert_eq!(text(builtin_type(&vec![string("")])), "string");
    assert_eq!(text(builtin_type(&vec![Value::Boolean(false)])), "boolean");
    assert_eq!(text(builtin_type(&vec![Value::Null])), "null");
    assert_eq!(text(builtin_type(&vec![Value::List(vec![])])), "list");
    assert_eq!(text(builtin_type(&vec![Value::Native("len".to_string())])), "function");
    assert_eq!(
        failure(builtin_type(&vec![])),
        (RuntimeKind::ArityError, "type() takes exactly one argument".to_string())
    );
}

#[test]
fn len_counts_bytes_of_strings_and_items_of_lists() {
    assert_eq!(text(builtin_len(&vec![string("")])), "0");
    assert_eq!(text(builtin_len(&vec![string("abc")])), "3");
    assert_eq!(text(builtin_len(&vec![string("héllo")])), "6");
    assert_eq!(text(builtin_len(&vec![Value::List(numbers(&[1.0, 2.0, 3.0, 4.0]))])), "4");
    assert_eq!(text(builtin_len(&vec![Value::List(vec![])])), "0");
    assert!(matches!(builtin_len(&vec![string("ab")]), Ok(Value::Number(b)) if b == 2.0_f64.to_bits()));
    assert_eq!(
        failure(builtin_len(&vec![number(1.0)])),
        (RuntimeKind::TypeError, "len() not supported for this type".to_string())
    );
    assert_eq!(
        failure(builtin_len(&vec![])),
        (RuntimeKind::ArityError, "len() takes exactly one argument".to_string())
    );
}

#[test]
fn abs_drops_the_sign() {
    assert_eq!(text(builtin_abs(&numbers(&[-2.5]))), "2.5");
    assert_eq!(text(builtin_abs(&numbers(&[3.0]))), "3");
    assert!(matches!(builtin_abs(&numbers(&[-0.0])), Ok(Value::Number(0))));
    assert_eq!(text(builtin_abs(&numbers(&[f64::NEG_INFINITY]))), "inf");
    assert_eq!(
        failure(builtin_abs(&vec![string("x")])),
        (RuntimeKind::TypeError, "abs() requires a number".to_string())
    );
    assert_eq!(failure(builtin_abs(&vec![])).0, RuntimeKind::ArityError);
}

#[test]
fn min_and_max_pick_among_arguments_or_the_items_of_one_list() {
    assert_eq!(text(builtin_min(&numbers(&[3.0, 1.0, 2.0]))), "1");
    assert_eq!(text(builtin_max(&numbers(&[3.0, 1.0, 5.5, 2.0]))), "5.5");
    assert_eq!(text(builtin_min(&vec![Value::List(numbers(&[4.0, -1.0, 9.0]))])), "-1");
    assert_eq!(text(builtin_max(&vec![Value::List(numbers(&[4.0, -1.0, 9.0]))])), "9");
    assert_eq!(text(builtin_min(&numbers(&[7.0]))), "7");
    assert_eq!(text(builtin_max(&vec![string("only")])), "only");
}

#[test]
fn min_and_max_keep_the_first_of_equal_numbers_and_pass_over_other_values() {
    assert!(matches!(builtin_min(&numbers(&[0.0, -0.0])), Ok(Value::Number(0))));
    assert!(matches!(builtin_max(&numbers(&[-0.0, 0.0])), Ok(Value::Number(b)) if b == (-0.0_f64).to_bits()));
    assert_eq!(text(builtin_min(&vec![number(2.0), string("a"), number(1.0)])), "1");
    assert_eq!(text(builtin_min(&vec![string("a"), number(1.0)])), "a");
    assert_eq!(text(builtin_max(&vec![number(1.0), number(f64::NAN), number(3.0)])), "3");
    assert_eq!(text(builtin_max(&vec![number(f64::NAN), number(3.0)])), "NaN");
}

#[test]
fn min_and_max_of_nothing_fail() {
    assert_eq!(
        failure(builtin_min(&vec![])),
        (RuntimeKind::ArityError, "min() requires at least one argument".to_string())
    );
    assert_eq!(
        failure(builtin_max(&vec![])),
        (RuntimeKind::ArityError, "max() requires at least one argument".to_string())
    );
    assert_eq!(
        failure(builtin_min(&vec![Value::List(vec![])])),
        (RuntimeKind::DomainError, "min() of empty list".to_string())
    );
    assert_eq!(
        failure(builtin_max(&vec![Value::List(vec![])])),
        (RuntimeKind::DomainError, "max() of empty list".to_string())
    );
}

#[test]
fn lists_cannot_be_changed_by_native_functions() {
    assert_eq!(
        failure(builtin_append(&vec![Value::List(vec![]), number(1.0)])),
        (RuntimeKind::NotImplemented, "append() requires mutable list reference".to_string())
    );
    assert_eq!(
        failure(builtin_append(&vec![Value::List(vec![])])),
        (RuntimeKind::ArityError, "append() takes exactly two arguments".to_string())
    );
    assert_eq!(
        failure(builtin_pop(&vec![Value::List(vec![])])),
        (RuntimeKind::NotImplemented, "pop() requires mutable list reference".to_string())
    );
    assert_eq!(
        failure(builtin_push(&vec![])),
        (RuntimeKind::NotImplemented, "push() requires mutable list reference".to_string())
    );
}

#[test]
fn choice_draws_an_item_of_the_list() {
    let items = numbers(&[10.0, 20.0, 30.0]);
    let mut seen = [false; 3];
    for _ in 0..200 {
        let drawn = text(builtin_choice(&vec![Value::List(numbers(&[10.0, 20.0, 30.0]))]));
        let index = ["10", "20", "30"].iter().position(|t| *t == drawn).unwrap();
        seen[index] = true;
    }
    assert_eq!(seen, [true, true, true]);
    assert_eq!(text(builtin_choice(&vec![Value::List(vec![string("only")])])), "only");
    assert_eq!(chosen(&items, 1).to_string(&numeral), "20");
}

#[test]
fn choice_of_nothing_fails() {
    assert_eq!(
        failure(builtin_choice(&vec![Value::List(vec![])])),
        (RuntimeKind::DomainError, "choice() from empty list".to_string())
    );
    assert_eq!(
        failure(builtin_choice(&vec![number(1.0)])),
        (RuntimeKind::TypeError, "choice() requires a list".to_string())
    );
    assert_eq!(
        failure(builtin_choice(&vec![])),
        (RuntimeKind::ArityError, "choice() takes exactly one argument".to_string())
    );
}

#[test]
fn randint_draws_between_its_bounds() {
    let mut seen = [false; 4];
    for _ in 0..400 {
        let n = randint_between(3, 6);
        assert!((3..=6).contains(&n));
        seen[(n - 3) as usize] = true;
        let m = randint_between(6, 3);
        assert!((3..=6).contains(&m));
    }
    assert_eq!(seen, [true; 4]);
    assert_eq!(randint_between(-2, -2), -2);
    let wide = randint_between(i64::MIN, i64::MAX);
    assert!(wide >= i64::MIN);
}

#[test]
fn gcd_is_the_greatest_common_divisor() {
    assert_eq!(gcd_helper(12, 18), 6);
    assert_eq!(gcd_helper(18, 12), 6);
    assert_eq!(gcd_helper(17, 5), 1);
    assert_eq!(gcd_helper(0, 9), 9);
    assert_eq!(gcd_helper(9, 0), 9);
    assert_eq!(gcd_helper(0, 0), 0);
    assert_eq!(gcd_helper(1 << 40, 1 << 20), 1 << 20);
    assert_eq!(gcd_helper(u64::MAX, u64::MAX - 1), 1);
    for a in 1..40_u64 {
        for b in 1..40_u64 {
            let g = gcd_helper(a, b);
            assert!(a % g == 0 && b % g == 0);
            assert!((g + 1..=a.min(b)).all(|d| a % d != 0 || b % d != 0));
        }
    }
}
