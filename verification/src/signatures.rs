// What the native functions take: how many arguments, of which types, and
// within which bounds. The check of the arguments is the library's; what a
// function computes from arguments that pass it is mostly arithmetic on
// floating-point numbers, and is left to the program that embeds the library.

use crate::environment::{vals, Val, Value};
use crate::errors::{ErrorView, KyaroError, RuntimeKind};
use crate::machine::failure;
use crate::number::{
    equal, is_zero, less, less_or_equal, negate, negated, number_less, number_less_or_equal,
    numbers_equal, zero, ONE, ZERO,
};
use crate::text::{decimal, push_decimal, push_str};
use vstd::prelude::*;
use vstd::string::StringExecFns;

verus! {

/// The numbers that a function of numbers takes.
#[derive(Debug, Clone, Copy, PartialEq, Eq, Structural)]
pub enum Domain {
    /// Every number.
    Any,
    /// What is not below zero, as the square root takes it.
    NotNegative,
    /// What is not zero or below, as a logarithm takes it.
    Positive,
    /// What is not outside the range from minus one to one, as the inverse
    /// sine takes it.
    Unit,
    /// What is not outside that range nor on its border, as the inverse
    /// hyperbolic tangent takes it.
    OpenUnit,
    /// What is not below one, as the inverse hyperbolic cosine takes it.
    AtLeastOne,
    /// A number as a logarithm takes it and, where a second one follows, a
    /// base: a number that is not zero or below, and not one.
    Logarithm,
}

/// What a native function takes.
#[derive(Debug, Clone, Copy, PartialEq, Eq, Structural)]
pub enum Signature {
    /// From `least` to `most` numbers, each in `domain`. A `most` of
    /// `usize::MAX` is no bound.
    Numbers { least: usize, most: usize, domain: Domain },
    /// One list of at least `least` numbers.
    NumberList { least: usize },
    /// Two lists of numbers, of one length.
    TwoLists,
    /// A function that is declared and does nothing yet.
    NotYet,
}

/// Whether the number `n` is in `domain`. What is not a number is in every
/// domain: it is below nothing and above nothing.
pub open spec fn in_domain(domain: Domain, n: u64) -> bool {
    match domain {
        Domain::Any => true,
        Domain::NotNegative => !less(n, ZERO),
        Domain::Positive => !less_or_equal(n, ZERO),
        Domain::Unit => !less(n, negated(ONE)) && !less(ONE, n),
        Domain::OpenUnit => !less_or_equal(n, negated(ONE)) && !less_or_equal(ONE, n),
        Domain::AtLeastOne => !less(n, ONE),
        Domain::Logarithm => !less_or_equal(n, ZERO),
    }
}

/// Whether the numbers are what a function with `domain` takes: each is in
/// the domain and, for a logarithm with a base, the base is not one.
pub open spec fn all_in_domain(domain: Domain, numbers: Seq<u64>) -> bool {
    &&& forall|i: int| 0 <= i < numbers.len() ==> in_domain(domain, #[trigger] numbers[i])
    &&& domain == Domain::Logarithm && numbers.len() >= 2 ==> !equal(numbers[1], ONE)
}

/// The error for a call with the wrong number of arguments.
pub open spec fn arity_message(name: Seq<char>, least: nat, most: nat) -> Seq<char> {
    if most == 0 {
        name + "() takes no arguments"@
    } else if least == most && most == 1 {
        name + "() takes exactly one argument"@
    } else if least == most && most == 2 {
        name + "() takes exactly two arguments"@
    } else if most >= usize::MAX {
        name + "() requires at least "@ + decimal(least) + " arguments"@
    } else {
        name + "() takes "@ + decimal(least) + " to "@ + decimal(most) + " arguments"@
    }
}

/// The error for an argument that is no number.
pub open spec fn type_message(name: Seq<char>, most: nat) -> Seq<char> {
    if most == 1 {
        name + "() requires a number"@
    } else {
        name + "() requires numbers"@
    }
}

/// The error for a number outside the domain.
pub open spec fn domain_message(name: Seq<char>, domain: Domain) -> Seq<char> {
    match domain {
        Domain::NotNegative => name + "() of negative number"@,
        Domain::Positive => name + "() of non-positive number"@,
        _ => name + "() domain error"@,
    }
}

/// Whether every one of `arguments` is a number.
pub open spec fn all_numbers(arguments: Seq<Val>) -> bool {
    forall|i: int| 0 <= i < arguments.len() ==> (#[trigger] arguments[i]) is Number
}

/// The bits of `arguments`, which are numbers, in order.
pub open spec fn number_bits(arguments: Seq<Val>) -> Seq<u64> {
    Seq::new(arguments.len(), |i: int| arguments[i]->Number_0)
}

/// What the check of `arguments` against a signature of numbers gives: the
/// numbers, or the error of the first rule that they break. The rules are,
/// in order: the count of the arguments, their type, their domain.
pub open spec fn admitted_numbers(
    name: Seq<char>,
    arguments: Seq<Val>,
    least: nat,
    most: nat,
    domain: Domain,
) -> Result<Seq<u64>, ErrorView> {
    if arguments.len() < least || arguments.len() > most {
        Err(failure(RuntimeKind::ArityError, arity_message(name, least, most), 0, 0))
    } else if !all_numbers(arguments) {
        Err(failure(RuntimeKind::TypeError, type_message(name, most), 0, 0))
    } else if !all_in_domain(domain, number_bits(arguments)) {
        Err(failure(RuntimeKind::DomainError, domain_message(name, domain), 0, 0))
    } else {
        Ok(number_bits(arguments))
    }
}

/// The error for a list that is too short.
pub open spec fn short_message(name: Seq<char>, least: nat) -> Seq<char> {
    if least == 1 {
        name + "() of empty list"@
    } else {
        name + "() requires at least "@ + decimal(least) + " values"@
    }
}

/// What the check of `arguments` against a signature of one list of numbers
/// gives: the numbers, or the error of the first rule that they break. The
/// rules are, in order: one argument, a list, long enough, of numbers.
pub open spec fn admitted_list(name: Seq<char>, arguments: Seq<Val>, least: nat) -> Result<
    Seq<u64>,
    ErrorView,
> {
    if arguments.len() != 1 {
        Err(failure(RuntimeKind::ArityError, arity_message(name, 1, 1), 0, 0))
    } else {
        match arguments[0] {
            Val::List(items) => if items.len() < least {
                Err(failure(RuntimeKind::DomainError, short_message(name, least), 0, 0))
            } else if !all_numbers(items) {
                Err(failure(RuntimeKind::TypeError, name + "() requires a list of numbers"@, 0, 0))
            } else {
                Ok(number_bits(items))
            },
            _ => Err(failure(RuntimeKind::TypeError, name + "() requires a list"@, 0, 0)),
        }
    }
}

/// What the check of `arguments` against a signature of two lists of
/// numbers gives: the numbers of the two, or the error of the first rule
/// that they break. The rules are, in order: two arguments, lists, of one
/// length, of numbers.
pub open spec fn admitted_lists(name: Seq<char>, arguments: Seq<Val>) -> Result<
    (Seq<u64>, Seq<u64>),
    ErrorView,
> {
    if arguments.len() != 2 {
        Err(failure(RuntimeKind::ArityError, arity_message(name, 2, 2), 0, 0))
    } else {
        match (arguments[0], arguments[1]) {
            (Val::List(first), Val::List(second)) => if first.len() != second.len() {
                Err(
                    failure(
                        RuntimeKind::DomainError,
                        name + "() requires lists of one length"@,
                        0,
                        0,
                    ),
                )
            } else if !all_numbers(first) || !all_numbers(second) {
                Err(
                    failure(RuntimeKind::TypeError, name + "() requires lists of numbers"@, 0, 0),
                )
            } else {
                Ok((number_bits(first), number_bits(second)))
            },
            _ => Err(failure(RuntimeKind::TypeError, name + "() requires two lists"@, 0, 0)),
        }
    }
}

/// The error of a function that does nothing yet.
pub open spec fn not_yet(name: Seq<char>) -> ErrorView {
    failure(RuntimeKind::NotImplemented, name + "() not yet implemented"@, 0, 0)
}

fn fail(kind: RuntimeKind, name: &str, rest: &str) -> (e: KyaroError)
    ensures
        e@ == failure(kind, name@ + rest@, 0, 0),
{
    let mut message = String::from_str(name);
    push_str(&mut message, rest);
    KyaroError::runtime(kind, message, 0, 0)
}

fn arity_failure(name: &str, least: usize, most: usize) -> (e: KyaroError)
    ensures
        e@ == failure(
            RuntimeKind::ArityError,
            arity_message(name@, least as nat, most as nat),
            0,
            0,
        ),
{
    if most == 0 {
        fail(RuntimeKind::ArityError, name, "() takes no arguments")
    } else if least == most && most == 1 {
        fail(RuntimeKind::ArityError, name, "() takes exactly one argument")
    } else if least == most && most == 2 {
        fail(RuntimeKind::ArityError, name, "() takes exactly two arguments")
    } else if most == usize::MAX {
        let mut message = String::from_str(name);
        push_str(&mut message, "() requires at least ");
        push_decimal(&mut message, least as u64);
        push_str(&mut message, " arguments");
        KyaroError::runtime(RuntimeKind::ArityError, message, 0, 0)
    } else {
        let mut message = String::from_str(name);
        push_str(&mut message, "() takes ");
        push_decimal(&mut message, least as u64);
        push_str(&mut message, " to ");
        push_decimal(&mut message, most as u64);
        push_str(&mut message, " arguments");
        KyaroError::runtime(RuntimeKind::ArityError, message, 0, 0)
    }
}

/// Whether the number `n` is in `domain`.
pub fn is_in_domain(domain: Domain, n: u64) -> (r: bool)
    ensures
        r == in_domain(domain, n),
{
    match domain {
        Domain::Any => true,
        Domain::NotNegative => !number_less(n, ZERO),
        Domain::Positive => !number_less_or_equal(n, ZERO),
        Domain::Unit => !number_less(n, negate(ONE)) && !number_less(ONE, n),
        Domain::OpenUnit => !number_less_or_equal(n, negate(ONE)) && !number_less_or_equal(ONE, n),
        Domain::AtLeastOne => !number_less(n, ONE),
        Domain::Logarithm => !number_less_or_equal(n, ZERO),
    }
}

/// The numbers that `values` are, or `None` where one of them is no number.
pub fn numbers_of(values: &Vec<Value>) -> (r: Option<Vec<u64>>)
    ensures
        match r {
            Some(numbers) => all_numbers(vals(values@)) && numbers@ == number_bits(vals(values@)),
            None => !all_numbers(vals(values@)),
        },
{
    let mut numbers: Vec<u64> = Vec::new();
    let mut i: usize = 0;
    while i < values.len()
        invariant
            i <= values.len(),
            numbers@.len() == i,
            forall|j: int|
                0 <= j < i ==> (#[trigger] vals(values@)[j]) == Val::Number(numbers@[j]),
        decreases values.len() - i,
    {
        match &values[i] {
            Value::Number(bits) => numbers.push(*bits),
            _ => {
                assert(!(vals(values@)[i as int] is Number));
                return None;
            },
        }
        i += 1;
    }
    assert(numbers@ =~= number_bits(vals(values@)));
    Some(numbers)
}

fn check_domain(domain: Domain, numbers: &Vec<u64>) -> (r: bool)
    ensures
        r == all_in_domain(domain, numbers@),
{
    let mut i: usize = 0;
    while i < numbers.len()
        invariant
            i <= numbers.len(),
            forall|j: int| 0 <= j < i ==> in_domain(domain, #[trigger] numbers@[j]),
        decreases numbers.len() - i,
    {
        if !is_in_domain(domain, numbers[i]) {
            return false;
        }
        i += 1;
    }
    if domain == Domain::Logarithm && numbers.len() >= 2 {
        !numbers_equal(numbers[1], ONE)
    } else {
        true
    }
}

/// Checks `arguments` against a signature of `least` to `most` numbers in
/// `domain`, for the function `name`.
pub fn check_numbers(
    name: &str,
    arguments: &Vec<Value>,
    least: usize,
    most: usize,
    domain: Domain,
) -> (r: Result<Vec<u64>, KyaroError>)
    ensures
        match r {
            Ok(numbers) => admitted_numbers(
                name@,
                vals(arguments@),
                least as nat,
                most as nat,
                domain,
            ) == Ok::<Seq<u64>, ErrorView>(numbers@),
            Err(e) => admitted_numbers(name@, vals(arguments@), least as nat, most as nat, domain)
                == Err::<Seq<u64>, ErrorView>(e@),
        },
{
    if arguments.len() < least || arguments.len() > most {
        return Err(arity_failure(name, least, most));
    }
    let numbers = match numbers_of(arguments) {
        Some(numbers) => numbers,
        None => {
            return Err(
                if most == 1 {
                    fail(RuntimeKind::TypeError, name, "() requires a number")
                } else {
                    fail(RuntimeKind::TypeError, name, "() requires numbers")
                },
            );
        },
    };
    if !check_domain(domain, &numbers) {
        return Err(
            match domain {
                Domain::NotNegative => fail(RuntimeKind::DomainError, name, "() of negative number"),
                Domain::Positive => fail(
                    RuntimeKind::DomainError,
                    name,
                    "() of non-positive number",
                ),
                _ => fail(RuntimeKind::DomainError, name, "() domain error"),
            },
        );
    }
    Ok(numbers)
}

fn short_failure(name: &str, least: usize) -> (e: KyaroError)
    ensures
        e@ == failure(RuntimeKind::DomainError, short_message(name@, least as nat), 0, 0),
{
    if least == 1 {
        fail(RuntimeKind::DomainError, name, "() of empty list")
    } else {
        let mut message = String::from_str(name);
        push_str(&mut message, "() requires at least ");
        push_decimal(&mut message, least as u64);
        push_str(&mut message, " values");
        KyaroError::runtime(RuntimeKind::DomainError, message, 0, 0)
    }
}

/// Checks `arguments` against a signature of one list of at least `least`
/// numbers, for the function `name`.
pub fn check_list(name: &str, arguments: &Vec<Value>, least: usize) -> (r: Result<
    Vec<u64>,
    KyaroError,
>)
    ensures
        match r {
            Ok(numbers) => admitted_list(name@, vals(arguments@), least as nat) == Ok::<
                Seq<u64>,
                ErrorView,
            >(numbers@),
            Err(e) => admitted_list(name@, vals(arguments@), least as nat) == Err::<
                Seq<u64>,
                ErrorView,
            >(e@),
        },
{
    if arguments.len() != 1 {
        return Err(arity_failure(name, 1, 1));
    }
    proof {
        arguments@[0].lemma_list();
    }
    match &arguments[0] {
        Value::List(items) => {
            if items.len() < least {
                return Err(short_failure(name, least));
            }
            match numbers_of(items) {
                Some(numbers) => Ok(numbers),
                None => Err(fail(RuntimeKind::TypeError, name, "() requires a list of numbers")),
            }
        },
        _ => Err(fail(RuntimeKind::TypeError, name, "() requires a list")),
    }
}

/// Checks `arguments` against a signature of two lists of numbers of one
/// length, for the function `name`.
pub fn check_lists(name: &str, arguments: &Vec<Value>) -> (r: Result<
    (Vec<u64>, Vec<u64>),
    KyaroError,
>)
    ensures
        match r {
            Ok((first, second)) => admitted_lists(name@, vals(arguments@)) == Ok::<
                (Seq<u64>, Seq<u64>),
                ErrorView,
            >((first@, second@)),
            Err(e) => admitted_lists(name@, vals(arguments@)) == Err::<
                (Seq<u64>, Seq<u64>),
                ErrorView,
            >(e@),
        },
{
    if arguments.len() != 2 {
        return Err(arity_failure(name, 2, 2));
    }
    proof {
        arguments@[0].lemma_list();
        arguments@[1].lemma_list();
    }
    match (&arguments[0], &arguments[1]) {
        (Value::List(first), Value::List(second)) => {
            if first.len() != second.len() {
                return Err(fail(RuntimeKind::DomainError, name, "() requires lists of one length"));
            }
            match (numbers_of(first), numbers_of(second)) {
                (Some(a), Some(b)) => Ok((a, b)),
                _ => Err(fail(RuntimeKind::TypeError, name, "() requires lists of numbers")),
            }
        },
        _ => Err(fail(RuntimeKind::TypeError, name, "() requires two lists")),
    }
}

/// The error of the function `name`, which does nothing yet.
pub fn not_yet_implemented(name: &str) -> (e: KyaroError)
    ensures
        e@ == not_yet(name@),
{
    fail(RuntimeKind::NotImplemented, name, "() not yet implemented")
}

/// The signatures of the native functions that take numbers, lists of
/// numbers or nothing, and of those that do nothing yet, by name.
pub open spec fn signatures() -> Seq<(Seq<char>, Signature)> {
    seq![
        ("sqrt"@, Signature::Numbers { least: 1, most: 1, domain: Domain::NotNegative }),
        ("pow"@, Signature::Numbers { least: 2, most: 2, domain: Domain::Any }),
        ("exp"@, Signature::Numbers { least: 1, most: 1, domain: Domain::Any }),
        ("log"@, Signature::Numbers { least: 1, most: 2, domain: Domain::Logarithm }),
        ("log10"@, Signature::Numbers { least: 1, most: 1, domain: Domain::Positive }),
        ("log2"@, Signature::Numbers { least: 1, most: 1, domain: Domain::Positive }),
        ("ln"@, Signature::Numbers { least: 1, most: 1, domain: Domain::Positive }),
        ("floor"@, Signature::Numbers { least: 1, most: 1, domain: Domain::Any }),
        ("ceil"@, Signature::Numbers { least: 1, most: 1, domain: Domain::Any }),
        ("round"@, Signature::Numbers { least: 1, most: 2, domain: Domain::Any }),
        ("trunc"@, Signature::Numbers { least: 1, most: 1, domain: Domain::Any }),
        ("sin"@, Signature::Numbers { least: 1, most: 1, domain: Domain::Any }),
        ("cos"@, Signature::Numbers { least: 1, most: 1, domain: Domain::Any }),
        ("tan"@, Signature::Numbers { least: 1, most: 1, domain: Domain::Any }),
        ("asin"@, Signature::Numbers { least: 1, most: 1, domain: Domain::Unit }),
        ("acos"@, Signature::Numbers { least: 1, most: 1, domain: Domain::Unit }),
        ("atan"@, Signature::Numbers { least: 1, most: 1, domain: Domain::Any }),
        ("atan2"@, Signature::Numbers { least: 2, most: 2, domain: Domain::Any }),
        ("sinh"@, Signature::Numbers { least: 1, most: 1, domain: Domain::Any }),
        ("cosh"@, Signature::Numbers { least: 1, most: 1, domain: Domain::Any }),
        ("tanh"@, Signature::Numbers { least: 1, most: 1, domain: Domain::Any }),
        ("asinh"@, Signature::Numbers { least: 1, most: 1, domain: Domain::Any }),
        ("acosh"@, Signature::Numbers { least: 1, most: 1, domain: Domain::AtLeastOne }),
        ("atanh"@, Signature::Numbers { least: 1, most: 1, domain: Domain::OpenUnit }),
        ("degrees"@, Signature::Numbers { least: 1, most: 1, domain: Domain::Any }),
        ("radians"@, Signature::Numbers { least: 1, most: 1, domain: Domain::Any }),
        ("hypot"@, Signature::Numbers { least: 2, most: usize::MAX, domain: Domain::Any }),
        ("factorial"@, Signature::Numbers { least: 1, most: 1, domain: Domain::Any }),
        ("gcd"@, Signature::Numbers { least: 2, most: usize::MAX, domain: Domain::Any }),
        ("random"@, Signature::Numbers { least: 0, most: 0, domain: Domain::Any }),
        ("randint"@, Signature::Numbers { least: 2, most: 2, domain: Domain::Any }),
        ("uniform"@, Signature::Numbers { least: 2, most: 2, domain: Domain::Any }),
        ("range"@, Signature::Numbers { least: 1, most: 3, domain: Domain::Any }),
        ("pi"@, Signature::Numbers { least: 0, most: 0, domain: Domain::Any }),
        ("e"@, Signature::Numbers { least: 0, most: 0, domain: Domain::Any }),
        ("time"@, Signature::Numbers { least: 0, most: 0, domain: Domain::Any }),
        ("sleep"@, Signature::Numbers { least: 1, most: 1, domain: Domain::NotNegative }),
        ("nn_tanh"@, Signature::Numbers { least: 1, most: 1, domain: Domain::Any }),
        ("nn_softplus"@, Signature::Numbers { least: 1, most: 1, domain: Domain::Any }),
        ("nn_leaky_relu"@, Signature::Numbers { least: 1, most: 2, domain: Domain::Any }),
        ("nn_elu"@, Signature::Numbers { least: 1, most: 2, domain: Domain::Any }),
        ("sum"@, Signature::NumberList { least: 0 }),
        ("mean"@, Signature::NumberList { least: 1 }),
        ("median"@, Signature::NumberList { least: 1 }),
        ("stdev"@, Signature::NumberList { least: 2 }),
        ("variance"@, Signature::NumberList { least: 2 }),
        ("ml_standardize"@, Signature::NumberList { least: 0 }),
        ("ml_euclidean_distance"@, Signature::TwoLists),
        ("ml_manhattan_distance"@, Signature::TwoLists),
        ("ml_cosine_similarity"@, Signature::TwoLists),
        ("ml_mse"@, Signature::TwoLists),
        ("ml_mae"@, Signature::TwoLists),
        ("ml_rmse"@, Signature::TwoLists),
        ("nn_mse_loss"@, Signature::TwoLists),
        ("ml_knn_predict"@, Signature::NotYet),
        ("ml_kmeans"@, Signature::NotYet),
        ("ml_r2_score"@, Signature::NotYet),
        ("ml_accuracy"@, Signature::NotYet),
        ("ml_precision"@, Signature::NotYet),
        ("ml_recall"@, Signature::NotYet),
        ("ml_f1_score"@, Signature::NotYet),
        ("ml_confusion_matrix"@, Signature::NotYet),
        ("nn_binary_crossentropy"@, Signature::NotYet),
        ("nn_categorical_crossentropy"@, Signature::NotYet),
        ("nn_dropout"@, Signature::NotYet),
        ("nn_batch_norm"@, Signature::NotYet),
        ("matrix_multiply"@, Signature::NotYet),
        ("matrix_transpose"@, Signature::NotYet),
        ("matrix_add"@, Signature::NotYet),
        ("matrix_subtract"@, Signature::NotYet),
        ("matrix_identity"@, Signature::NotYet),
        ("matrix_determinant"@, Signature::NotYet),
        ("gradient_descent_step"@, Signature::NotYet),
        ("adam_step"@, Signature::NotYet),
    ]
}

/// A table of signatures as a mathematical value.
pub open spec fn signature_views(table: Seq<(String, Signature)>) -> Seq<(Seq<char>, Signature)> {
    Seq::new(table.len(), |i: int| (table[i].0@, table[i].1))
}

/// The signature that the first entry for `name` in `table` gives, if any.
pub open spec fn signature_in(table: Seq<(Seq<char>, Signature)>, name: Seq<char>) -> Option<
    Signature,
>
    decreases table.len(),
{
    if table.len() == 0 {
        None
    } else if table[0].0 == name {
        Some(table[0].1)
    } else {
        signature_in(table.drop_first(), name)
    }
}

/// The signature of the native function `name`, where it has one.
pub open spec fn signature_of(name: Seq<char>) -> Option<Signature> {
    signature_in(signatures(), name)
}

/// The signatures of the native functions, by name.
pub fn signature_table() -> (table: Vec<(String, Signature)>)
    ensures
        signature_views(table@) == signatures(),
{
    let mut table: Vec<(String, Signature)> = Vec::new();
    table.push((String::from_str("sqrt"), Signature::Numbers { least: 1, most: 1, domain: Domain::NotNegative }));
    table.push((String::from_str("pow"), Signature::Numbers { least: 2, most: 2, domain: Domain::Any }));
    table.push((String::from_str("exp"), Signature::Numbers { least: 1, most: 1, domain: Domain::Any }));
    table.push((String::from_str("log"), Signature::Numbers { least: 1, most: 2, domain: Domain::Logarithm }));
    table.push((String::from_str("log10"), Signature::Numbers { least: 1, most: 1, domain: Domain::Positive }));
    table.push((String::from_str("log2"), Signature::Numbers { least: 1, most: 1, domain: Domain::Positive }));
    table.push((String::from_str("ln"), Signature::Numbers { least: 1, most: 1, domain: Domain::Positive }));
    table.push((String::from_str("floor"), Signature::Numbers { least: 1, most: 1, domain: Domain::Any }));
    table.push((String::from_str("ceil"), Signature::Numbers { least: 1, most: 1, domain: Domain::Any }));
    table.push((String::from_str("round"), Signature::Numbers { least: 1, most: 2, domain: Domain::Any }));
    table.push((String::from_str("trunc"), Signature::Numbers { least: 1, most: 1, domain: Domain::Any }));
    table.push((String::from_str("sin"), Signature::Numbers { least: 1, most: 1, domain: Domain::Any }));
    table.push((String::from_str("cos"), Signature::Numbers { least: 1, most: 1, domain: Domain::Any }));
    table.push((String::from_str("tan"), Signature::Numbers { least: 1, most: 1, domain: Domain::Any }));
    table.push((String::from_str("asin"), Signature::Numbers { least: 1, most: 1, domain: Domain::Unit }));
    table.push((String::from_str("acos"), Signature::Numbers { least: 1, most: 1, domain: Domain::Unit }));
    table.push((String::from_str("atan"), Signature::Numbers { least: 1, most: 1, domain: Domain::Any }));
    table.push((String::from_str("atan2"), Signature::Numbers { least: 2, most: 2, domain: Domain::Any }));
    table.push((String::from_str("sinh"), Signature::Numbers { least: 1, most: 1, domain: Domain::Any }));
    table.push((String::from_str("cosh"), Signature::Numbers { least: 1, most: 1, domain: Domain::Any }));
    table.push((String::from_str("tanh"), Signature::Numbers { least: 1, most: 1, domain: Domain::Any }));
    table.push((String::from_str("asinh"), Signature::Numbers { least: 1, most: 1, domain: Domain::Any }));
    table.push((String::from_str("acosh"), Signature::Numbers { least: 1, most: 1, domain: Domain::AtLeastOne }));
    table.push((String::from_str("atanh"), Signature::Numbers { least: 1, most: 1, domain: Domain::OpenUnit }));
    table.push((String::from_str("degrees"), Signature::Numbers { least: 1, most: 1, domain: Domain::Any }));
    table.push((String::from_str("radians"), Signature::Numbers { least: 1, most: 1, domain: Domain::Any }));
    table.push((String::from_str("hypot"), Signature::Numbers { least: 2, most: usize::MAX, domain: Domain::Any }));
    table.push((String::from_str("factorial"), Signature::Numbers { least: 1, most: 1, domain: Domain::Any }));
    table.push((String::from_str("gcd"), Signature::Numbers { least: 2, most: usize::MAX, domain: Domain::Any }));
    table.push((String::from_str("random"), Signature::Numbers { least: 0, most: 0, domain: Domain::Any }));
    table.push((String::from_str("randint"), Signature::Numbers { least: 2, most: 2, domain: Domain::Any }));
    table.push((String::from_str("uniform"), Signature::Numbers { least: 2, most: 2, domain: Domain::Any }));
    table.push((String::from_str("range"), Signature::Numbers { least: 1, most: 3, domain: Domain::Any }));
    table.push((String::from_str("pi"), Signature::Numbers { least: 0, most: 0, domain: Domain::Any }));
    table.push((String::from_str("e"), Signature::Numbers { least: 0, most: 0, domain: Domain::Any }));
    table.push((String::from_str("time"), Signature::Numbers { least: 0, most: 0, domain: Domain::Any }));
    table.push((String::from_str("sleep"), Signature::Numbers { least: 1, most: 1, domain: Domain::NotNegative }));
    table.push((String::from_str("nn_tanh"), Signature::Numbers { least: 1, most: 1, domain: Domain::Any }));
    table.push((String::from_str("nn_softplus"), Signature::Numbers { least: 1, most: 1, domain: Domain::Any }));
    table.push((String::from_str("nn_leaky_relu"), Signature::Numbers { least: 1, most: 2, domain: Domain::Any }));
    table.push((String::from_str("nn_elu"), Signature::Numbers { least: 1, most: 2, domain: Domain::Any }));
    table.push((String::from_str("sum"), Signature::NumberList { least: 0 }));
    table.push((String::from_str("mean"), Signature::NumberList { least: 1 }));
    table.push((String::from_str("median"), Signature::NumberList { least: 1 }));
    table.push((String::from_str("stdev"), Signature::NumberList { least: 2 }));
    table.push((String::from_str("variance"), Signature::NumberList { least: 2 }));
    table.push((String::from_str("ml_standardize"), Signature::NumberList { least: 0 }));
    table.push((String::from_str("ml_euclidean_distance"), Signature::TwoLists));
    table.push((String::from_str("ml_manhattan_distance"), Signature::TwoLists));
    table.push((String::from_str("ml_cosine_similarity"), Signature::TwoLists));
    table.push((String::from_str("ml_mse"), Signature::TwoLists));
    table.push((String::from_str("ml_mae"), Signature::TwoLists));
    table.push((String::from_str("ml_rmse"), Signature::TwoLists));
    table.push((String::from_str("nn_mse_loss"), Signature::TwoLists));
    table.push((String::from_str("ml_knn_predict"), Signature::NotYet));
    table.push((String::from_str("ml_kmeans"), Signature::NotYet));
    table.push((String::from_str("ml_r2_score"), Signature::NotYet));
    table.push((String::from_str("ml_accuracy"), Signature::NotYet));
    table.push((String::from_str("ml_precision"), Signature::NotYet));
    table.push((String::from_str("ml_recall"), Signature::NotYet));
    table.push((String::from_str("ml_f1_score"), Signature::NotYet));
    table.push((String::from_str("ml_confusion_matrix"), Signature::NotYet));
    table.push((String::from_str("nn_binary_crossentropy"), Signature::NotYet));
    table.push((String::from_str("nn_categorical_crossentropy"), Signature::NotYet));
    table.push((String::from_str("nn_dropout"), Signature::NotYet));
    table.push((String::from_str("nn_batch_norm"), Signature::NotYet));
    table.push((String::from_str("matrix_multiply"), Signature::NotYet));
    table.push((String::from_str("matrix_transpose"), Signature::NotYet));
    table.push((String::from_str("matrix_add"), Signature::NotYet));
    table.push((String::from_str("matrix_subtract"), Signature::NotYet));
    table.push((String::from_str("matrix_identity"), Signature::NotYet));
    table.push((String::from_str("matrix_determinant"), Signature::NotYet));
    table.push((String::from_str("gradient_descent_step"), Signature::NotYet));
    table.push((String::from_str("adam_step"), Signature::NotYet));
    assert(signature_views(table@) =~= signatures());
    table
}

/// Looks `name` up in a table of signatures.
pub fn find_signature(table: &Vec<(String, Signature)>, name: &str) -> (found: Option<Signature>)
    ensures
        found == signature_in(signature_views(table@), name@),
{
    let key = String::from_str(name);
    let mut i: usize = 0;
    assert(signature_views(table@).subrange(0, table.len() as int) =~= signature_views(table@));
    while i < table.len()
        invariant
            i <= table.len(),
            key@ == name@,
            signature_in(signature_views(table@), name@) == signature_in(
                signature_views(table@).subrange(i as int, table.len() as int),
                name@,
            ),
        decreases table.len() - i,
    {
        let ghost rest = signature_views(table@).subrange(i as int, table.len() as int);
        assert(rest[0] == (table@[i as int].0@, table@[i as int].1));
        if table[i].0 == key {
            return Some(table[i].1);
        }
        assert(rest.drop_first() =~= signature_views(table@).subrange(
            i as int + 1,
            table.len() as int,
        ));
        i += 1;
    }
    assert(signature_views(table@).subrange(i as int, table.len() as int).len() == 0);
    None
}

/// The arguments of a native function that passed the check.
#[derive(Debug)]
pub enum Admitted {
    /// The numbers that the function was called with.
    Numbers(Vec<u64>),
    /// The numbers of the two lists that the function was called with.
    Lists(Vec<u64>, Vec<u64>),
}

/// Arguments that passed the check, as a mathematical value.
pub enum AdmittedView {
    Numbers(Seq<u64>),
    Lists(Seq<u64>, Seq<u64>),
}

impl View for Admitted {
    type V = AdmittedView;

    open spec fn view(&self) -> AdmittedView {
        match self {
            Admitted::Numbers(numbers) => AdmittedView::Numbers(numbers@),
            Admitted::Lists(first, second) => AdmittedView::Lists(first@, second@),
        }
    }
}

/// What the check of `arguments` against `signature` gives, for the
/// function `name`.
pub open spec fn admitted_by(signature: Signature, name: Seq<char>, arguments: Seq<Val>) -> Result<
    AdmittedView,
    ErrorView,
> {
    match signature {
        Signature::Numbers { least, most, domain } => match admitted_numbers(
            name,
            arguments,
            least as nat,
            most as nat,
            domain,
        ) {
            Ok(numbers) => Ok(AdmittedView::Numbers(numbers)),
            Err(e) => Err(e),
        },
        Signature::NumberList { least } => match admitted_list(name, arguments, least as nat) {
            Ok(numbers) => Ok(AdmittedView::Numbers(numbers)),
            Err(e) => Err(e),
        },
        Signature::TwoLists => match admitted_lists(name, arguments) {
            Ok((first, second)) => Ok(AdmittedView::Lists(first, second)),
            Err(e) => Err(e),
        },
        Signature::NotYet => Err(not_yet(name)),
    }
}

/// What the check of the arguments of the native function `name` gives,
/// where the function has a signature.
pub open spec fn admitted(name: Seq<char>, arguments: Seq<Val>) -> Option<
    Result<AdmittedView, ErrorView>,
> {
    match signature_of(name) {
        Some(signature) => Some(admitted_by(signature, name, arguments)),
        None => None,
    }
}

/// Whether what a check returned is what the rules give.
pub open spec fn agrees(
    r: Result<Admitted, KyaroError>,
    wanted: Result<AdmittedView, ErrorView>,
) -> bool {
    match r {
        Ok(a) => wanted == Ok::<AdmittedView, ErrorView>(a@),
        Err(e) => wanted == Err::<AdmittedView, ErrorView>(e@),
    }
}

/// Checks `arguments` against `signature`, for the function `name`.
pub fn check_against(signature: Signature, name: &str, arguments: &Vec<Value>) -> (r: Result<
    Admitted,
    KyaroError,
>)
    ensures
        agrees(r, admitted_by(signature, name@, vals(arguments@))),
{
    match signature {
        Signature::Numbers { least, most, domain } => match check_numbers(
            name,
            arguments,
            least,
            most,
            domain,
        ) {
            Ok(numbers) => Ok(Admitted::Numbers(numbers)),
            Err(e) => Err(e),
        },
        Signature::NumberList { least } => match check_list(name, arguments, least) {
            Ok(numbers) => Ok(Admitted::Numbers(numbers)),
            Err(e) => Err(e),
        },
        Signature::TwoLists => match check_lists(name, arguments) {
            Ok((first, second)) => Ok(Admitted::Lists(first, second)),
            Err(e) => Err(e),
        },
        Signature::NotYet => Err(not_yet_implemented(name)),
    }
}

/// Checks the arguments of a call of the native function `name`: gives the
/// arguments that passed, or the error of the first rule that they break, or
/// `None` for a function without a signature.
pub fn check_arguments(name: &str, arguments: &Vec<Value>) -> (r: Option<Result<Admitted, KyaroError>>)
    ensures
        match r {
            Some(checked) => admitted(name@, vals(arguments@)) matches Some(wanted) && agrees(
                checked,
                wanted,
            ),
            None => admitted(name@, vals(arguments@)) is None,
        },
{
    let table = signature_table();
    match find_signature(&table, name) {
        Some(signature) => Some(check_against(signature, name, arguments)),
        None => None,
    }
}

} // verus!
