use laminax_kpl::environment::Value;
use laminax_kpl::errors::{ErrorKind, KyaroError, RuntimeKind};
use laminax_kpl::signatures::{
    check_against, check_arguments, check_list, check_lists, check_numbers, find_signature,
    is_in_domain, not_yet_implemented, numbers_of, signature_table, Admitted, Domain, Signature,
};

fn numbers(values: &[f64]) -> Vec<Value> {
    values.iter().map(|v| Value::Number(v.to_bits())).collect()
}

fn bits(values: &[f64]) -> Vec<u64> {
    values.iter().map(|v| v.to_bits()).collect()
}

fn failure(e: KyaroError) -> (RuntimeKind, String) {
    let ErrorKind::Runtime(kind) = e.kind() else { panic!("no runtime error: {:?}", e) };
    (kind, e.message().clone())
}

fn refused(name: &str, arguments: Vec<Value>) -> (RuntimeKind, String) {
    match check_arguments(name, &arguments) {
        Some(Err(e)) => failure(e),
        other => panic!("{} was not refused: {:?}", name, other),
    }
}

fn passed(name: &str, arguments: Vec<Value>) -> Vec<u64> {
    match check_arguments(name, &arguments) {
        Some(Ok(Admitted::Numbers(n))) => n,
        other => panic!("{} did not pass: {:?}", name, other),
    }
}

#[test]
fn domains_follow_the_numbers() {
    let samples = [-2.0, -1.0, -0.5, -0.0, 0.0, 0.5, 1.0, 1.5, f64::INFINITY, f64::NEG_INFINITY, f64::NAN];
    for x in samples {
        let b = x.to_bits();
        assert!(is_in_domain(Domain::Any, b));
        assert_eq!(is_in_domain(Domain::NotNegative, b), !(x < 0.0), "{}", x);
        assert_eq!(is_in_domain(Domain::Positive, b), !(x <= 0.0), "{}", x);
        assert_eq!(is_in_domain(Domain::Unit, b), !(x < -1.0 || x > 1.0), "{}", x);
        assert_eq!(is_in_domain(Domain::OpenUnit, b), !(x <= -1.0 || x >= 1.0), "{}", x);
        assert_eq!(is_in_domain(Domain::AtLeastOne, b), !(x < 1.0), "{}", x);
        assert_eq!(is_in_domain(Domain::Logarithm, b), !(x <= 0.0), "{}", x);
    }
}

#[test]
fn numbers_pass_as_they_are() {
    assert_eq!(passed("sqrt", numbers(&[4.0])), bits(&[4.0]));
    assert_eq!(passed("pow", numbers(&[2.0, 0.5])), bits(&[2.0, 0.5]));
    assert_eq!(passed("pi", vec![]), bits(&[]));
    assert_eq!(passed("log", numbers(&[8.0])), bits(&[8.0]));
    assert_eq!(passed("log", numbers(&[8.0, 2.0])), bits(&[8.0, 2.0]));
    assert_eq!(passed("hypot", numbers(&[3.0, 4.0, 12.0])), bits(&[3.0, 4.0, 12.0]));
    assert_eq!(passed("range", numbers(&[1.0, 9.0, 2.0])), bits(&[1.0, 9.0, 2.0]));
    assert_eq!(passed("sqrt", numbers(&[f64::NAN])).len(), 1);
    assert_eq!(passed("asin", numbers(&[-1.0])), bits(&[-1.0]));
    assert_eq!(passed("acosh", numbers(&[1.0])), bits(&[1.0]));
}

#[test]
fn wrong_counts_are_refused_first() {
    assert_eq!(refused("sqrt", vec![]), (RuntimeKind::ArityError, "sqrt() takes exactly one argument".to_string()));
    assert_eq!(
        refused("pow", numbers(&[1.0])),
        (RuntimeKind::ArityError, "pow() takes exactly two arguments".to_string())
    );
    assert_eq!(
        refused("pi", numbers(&[1.0])),
        (RuntimeKind::ArityError, "pi() takes no arguments".to_string())
    );
    assert_eq!(
        refused("log", vec![]),
        (RuntimeKind::ArityError, "log() takes 1 to 2 arguments".to_string())
    );
    assert_eq!(
        refused("range", numbers(&[1.0, 2.0, 3.0, 4.0])),
        (RuntimeKind::ArityError, "range() takes 1 to 3 arguments".to_string())
    );
    assert_eq!(
        refused("hypot", numbers(&[1.0])),
        (RuntimeKind::ArityError, "hypot() requires at least 2 arguments".to_string())
    );
    assert_eq!(
        refused("sqrt", vec![Value::Null, Value::Null]).0,
        RuntimeKind::ArityError
    );
}

#[test]
fn values_that_are_no_numbers_are_refused() {
    assert_eq!(
        refused("sqrt", vec![Value::String("4".to_string())]),
        (RuntimeKind::TypeError, "sqrt() requires a number".to_string())
    );
    assert_eq!(
        refused("pow", vec![Value::Number(0), Value::Null]),
        (RuntimeKind::TypeError, "pow() requires numbers".to_string())
    );
    assert_eq!(
        refused("sqrt", vec![Value::List(numbers(&[-1.0]))]).0,
        RuntimeKind::TypeError
    );
}

#[test]
fn numbers_outside_the_domain_are_refused() {
    assert_eq!(
        refused("sqrt", numbers(&[-1.0])),
        (RuntimeKind::DomainError, "sqrt() of negative number".to_string())
    );
    assert_eq!(passed("sqrt", numbers(&[-0.0])).len(), 1);
    for name in ["log10", "log2", "ln"] {
        assert_eq!(
            refused(name, numbers(&[0.0])),
            (RuntimeKind::DomainError, format!("{}() of non-positive number", name))
        );
    }
    for (name, value) in [("asin", 1.5), ("acos", -1.5), ("acosh", 0.5), ("atanh", 1.0), ("atanh", -1.0)] {
        assert_eq!(
            refused(name, numbers(&[value])),
            (RuntimeKind::DomainError, format!("{}() domain error", name))
        );
    }
    assert_eq!(refused("log", numbers(&[0.0])).0, RuntimeKind::DomainError);
    assert_eq!(refused("log", numbers(&[8.0, 1.0])).0, RuntimeKind::DomainError);
    assert_eq!(refused("log", numbers(&[8.0, -2.0])).0, RuntimeKind::DomainError);
    assert_eq!(refused("sleep", numbers(&[-1.0])).0, RuntimeKind::DomainError);
}

#[test]
fn lists_of_numbers_pass_as_their_numbers() {
    assert_eq!(passed("sum", vec![Value::List(vec![])]), bits(&[]));
    assert_eq!(passed("mean", vec![Value::List(numbers(&[1.0, 2.5]))]), bits(&[1.0, 2.5]));
    assert_eq!(
        refused("mean", vec![Value::List(vec![])]),
        (RuntimeKind::DomainError, "mean() of empty list".to_string())
    );
    assert_eq!(
        refused("stdev", vec![Value::List(numbers(&[1.0]))]),
        (RuntimeKind::DomainError, "stdev() requires at least 2 values".to_string())
    );
    assert_eq!(
        refused("sum", vec![Value::List(vec![Value::Number(0), Value::Null])]),
        (RuntimeKind::TypeError, "sum() requires a list of numbers".to_string())
    );
    assert_eq!(
        refused("sum", numbers(&[1.0])),
        (RuntimeKind::TypeError, "sum() requires a list".to_string())
    );
    assert_eq!(
        refused("sum", vec![]),
        (RuntimeKind::ArityError, "sum() takes exactly one argument".to_string())
    );
}

#[test]
fn two_lists_must_be_of_one_length() {
    let pair = |a: &[f64], b: &[f64]| vec![Value::List(numbers(a)), Value::List(numbers(b))];
    match check_arguments("ml_mse", &pair(&[1.0, 2.0], &[3.0, 4.0])) {
        Some(Ok(Admitted::Lists(a, b))) => {
            assert_eq!((a, b), (bits(&[1.0, 2.0]), bits(&[3.0, 4.0])))
        }
        other => panic!("{:?}", other),
    }
    assert_eq!(
        refused("ml_mse", pair(&[1.0], &[1.0, 2.0])),
        (RuntimeKind::DomainError, "ml_mse() requires lists of one length".to_string())
    );
    assert_eq!(
        refused("ml_mae", vec![Value::List(vec![Value::Null]), Value::List(numbers(&[1.0]))]),
        (RuntimeKind::TypeError, "ml_mae() requires lists of numbers".to_string())
    );
    assert_eq!(
        refused("ml_rmse", vec![Value::Null, Value::List(vec![])]),
        (RuntimeKind::TypeError, "ml_rmse() requires two lists".to_string())
    );
    assert_eq!(
        refused("ml_cosine_similarity", vec![Value::List(vec![])]),
        (RuntimeKind::ArityError, "ml_cosine_similarity() takes exactly two arguments".to_string())
    );
}

#[test]
fn functions_that_do_nothing_yet_say_so() {
    assert_eq!(
        refused("ml_kmeans", vec![]),
        (RuntimeKind::NotImplemented, "ml_kmeans() not yet implemented".to_string())
    );
    assert_eq!(refused("adam_step", numbers(&[1.0])).0, RuntimeKind::NotImplemented);
    assert_eq!(failure(not_yet_implemented("x")).1, "x() not yet implemented");
}

#[test]
fn functions_without_a_signature_are_not_checked() {
    for name in ["print", "input", "str", "len", "min", "choice", "exit", "ml_one_hot_encode", "nothing", ""] {
        assert!(check_arguments(name, &vec![]).is_none(), "{}", name);
    }
}

#[test]
fn table_holds_each_name_once() {
    let table = signature_table();
    let mut names: Vec<&String> = table.iter().map(|entry| &entry.0).collect();
    let count = names.len();
    names.sort();
    names.dedup();
    assert_eq!(names.len(), count);
    assert_eq!(
        find_signature(&table, "atanh"),
        Some(Signature::Numbers { least: 1, most: 1, domain: Domain::OpenUnit })
    );
    assert_eq!(find_signature(&table, "variance"), Some(Signature::NumberList { least: 2 }));
    assert_eq!(find_signature(&table, "nn_mse_loss"), Some(Signature::TwoLists));
    assert_eq!(find_signature(&table, "matrix_add"), Some(Signature::NotYet));
    assert_eq!(find_signature(&table, "print"), None);
}

#[test]
fn checks_can_be_made_one_by_one() {
    assert_eq!(numbers_of(&numbers(&[1.0, 2.0])), Some(bits(&[1.0, 2.0])));
    assert_eq!(numbers_of(&vec![Value::Number(1), Value::Boolean(true)]), None);
    assert_eq!(check_numbers("f", &numbers(&[1.0]), 1, 1, Domain::Any).unwrap(), bits(&[1.0]));
    assert_eq!(check_list("f", &vec![Value::List(numbers(&[1.0]))], 1).unwrap(), bits(&[1.0]));
    let (a, b) = check_lists("f", &vec![Value::List(vec![]), Value::List(vec![])]).unwrap();
    assert!(a.is_empty() && b.is_empty());
    assert!(matches!(
        check_against(Signature::NumberList { least: 0 }, "f", &vec![Value::List(vec![])]),
        Ok(Admitted::Numbers(n)) if n.is_empty()
    ));
    assert!(check_against(Signature::NotYet, "f", &vec![]).is_err());
}
