// The native functions of the language: their names, and those of them that
// only look at values, compare numbers, compute with whole numbers or draw
// at random. The others compute with floating-point numbers, read the clock
// or the console, or end the process; the program that embeds the library
// provides them.

use crate::environment::{join, renders, type_of, vals, Val, Value};
use crate::errors::{ErrorView, KyaroError, RuntimeKind};
use crate::machine::failure;
use crate::number::{abs, absolute, from_whole, integer_of, is_negative, less, number_less, EXACT};
use crate::text::{push_str, texts};
use rand::Rng;
use vstd::prelude::*;
use vstd::string::StringSliceAdditionalSpecFns;
use vstd::string::StringExecFns;

verus! {

/// The names of the native functions of the language.
pub open spec fn builtin_names() -> Seq<Seq<char>> {
    seq![
        "print"@,
        "input"@,
        "str"@,
        "int"@,
        "float"@,
        "type"@,
        "len"@,
        "range"@,
        "append"@,
        "pop"@,
        "push"@,
        "abs"@,
        "min"@,
        "max"@,
        "sum"@,
        "sqrt"@,
        "pow"@,
        "exp"@,
        "log"@,
        "log10"@,
        "log2"@,
        "ln"@,
        "floor"@,
        "ceil"@,
        "round"@,
        "trunc"@,
        "sin"@,
        "cos"@,
        "tan"@,
        "asin"@,
        "acos"@,
        "atan"@,
        "atan2"@,
        "sinh"@,
        "cosh"@,
        "tanh"@,
        "asinh"@,
        "acosh"@,
        "atanh"@,
        "degrees"@,
        "radians"@,
        "hypot"@,
        "factorial"@,
        "gcd"@,
        "random"@,
        "randint"@,
        "uniform"@,
        "choice"@,
        "mean"@,
        "median"@,
        "stdev"@,
        "variance"@,
        "pi"@,
        "e"@,
        "exit"@,
        "time"@,
        "sleep"@,
    ]
}

/// The names of the native functions of the language: input and output, conversions, collections, mathematics, randomness, statistics, constants and process utilities.
pub fn get_builtin_functions() -> (names: Vec<String>)
    ensures
        texts(names@) == builtin_names(),
{
    let mut names: Vec<String> = Vec::new();
    names.push(String::from_str("print"));
    names.push(String::from_str("input"));
    names.push(String::from_str("str"));
    names.push(String::from_str("int"));
    names.push(String::from_str("float"));
    names.push(String::from_str("type"));
    names.push(String::from_str("len"));
    names.push(String::from_str("range"));
    names.push(String::from_str("append"));
    names.push(String::from_str("pop"));
    names.push(String::from_str("push"));
    names.push(String::from_str("abs"));
    names.push(String::from_str("min"));
    names.push(String::from_str("max"));
    names.push(String::from_str("sum"));
    names.push(String::from_str("sqrt"));
    names.push(String::from_str("pow"));
    names.push(String::from_str("exp"));
    names.push(String::from_str("log"));
    names.push(String::from_str("log10"));
    names.push(String::from_str("log2"));
    names.push(String::from_str("ln"));
    names.push(String::from_str("floor"));
    names.push(String::from_str("ceil"));
    names.push(String::from_str("round"));
    names.push(String::from_str("trunc"));
    names.push(String::from_str("sin"));
    names.push(String::from_str("cos"));
    names.push(String::from_str("tan"));
    names.push(String::from_str("asin"));
    names.push(String::from_str("acos"));
    names.push(String::from_str("atan"));
    names.push(String::from_str("atan2"));
    names.push(String::from_str("sinh"));
    names.push(String::from_str("cosh"));
    names.push(String::from_str("tanh"));
    names.push(String::from_str("asinh"));
    names.push(String::from_str("acosh"));
    names.push(String::from_str("atanh"));
    names.push(String::from_str("degrees"));
    names.push(String::from_str("radians"));
    names.push(String::from_str("hypot"));
    names.push(String::from_str("factorial"));
    names.push(String::from_str("gcd"));
    names.push(String::from_str("random"));
    names.push(String::from_str("randint"));
    names.push(String::from_str("uniform"));
    names.push(String::from_str("choice"));
    names.push(String::from_str("mean"));
    names.push(String::from_str("median"));
    names.push(String::from_str("stdev"));
    names.push(String::from_str("variance"));
    names.push(String::from_str("pi"));
    names.push(String::from_str("e"));
    names.push(String::from_str("exit"));
    names.push(String::from_str("time"));
    names.push(String::from_str("sleep"));
    assert(texts(names@) =~= builtin_names());
    names
}

/// Whether `s` is the line that `print` writes for the values `arguments`:
/// their texts, separated by one space.
pub open spec fn prints<F: Fn(u64) -> String>(arguments: Seq<Val>, numeral: F, s: Seq<char>) -> bool {
    exists|parts: Seq<Seq<char>>|
        {
            &&& #[trigger] parts.len() == arguments.len()
            &&& forall|i: int|
                0 <= i < arguments.len() ==> renders(arguments[i], numeral, #[trigger] parts[i])
            &&& s == join(parts, " "@)
        }
}

/// The line that `print` writes for `arguments`, without the newline that
/// ends it. `numeral` is asked for the text of every number that is no whole
/// number of a size below two to the power 63.
pub fn print_line<F: Fn(u64) -> String>(arguments: &Vec<Value>, numeral: &F) -> (line: String)
    requires
        forall|bits: u64| call_requires(*numeral, (bits,)),
    ensures
        prints(vals(arguments@), *numeral, line@),
{
    let mut line = String::new();
    let ghost mut parts: Seq<Seq<char>> = Seq::empty();
    let mut i: usize = 0;
    while i < arguments.len()
        invariant
            i <= arguments.len(),
            parts.len() == i,
            forall|bits: u64| call_requires(*numeral, (bits,)),
            forall|j: int|
                0 <= j < i ==> renders(vals(arguments@)[j], *numeral, #[trigger] parts[j]),
            line@ == join(parts, " "@),
        decreases arguments.len() - i,
    {
        if i > 0 {
            push_str(&mut line, " ");
        }
        let part = arguments[i].to_string(numeral);
        push_str(&mut line, part.as_str());
        proof {
            let longer = parts.push(part@);
            assert(longer.drop_last() =~= parts);
            assert(line@ =~= join(longer, " "@));
            parts = longer;
        }
        i += 1;
    }
    line
}

/// `rand::thread_rng().gen_range(0..len)` draws an index for `len` items
/// from the generator of the thread: a number from zero up to, and not
/// including, `len`. It must not be asked for an index where there are no
/// items.
#[verifier::external_body]
fn random_index(len: usize) -> (index: usize)
    requires
        len > 0,
    ensures
        index < len,
{
    rand::thread_rng().gen_range(0..len)
}

fn fail(kind: RuntimeKind, message: &str) -> (e: KyaroError)
    ensures
        e@ == failure(kind, message@, 0, 0),
{
    KyaroError::runtime(kind, String::from_str(message), 0, 0)
}

/// What `str` gives for `arguments`: the text of its one argument.
pub fn builtin_str<F: Fn(u64) -> String>(arguments: &Vec<Value>, numeral: &F) -> (r: Result<
    Value,
    KyaroError,
>)
    requires
        forall|bits: u64| call_requires(*numeral, (bits,)),
    ensures
        match r {
            Ok(v) => {
                &&& arguments@.len() == 1
                &&& v@ matches Val::String(text) && renders(arguments@[0]@, *numeral, text)
            },
            Err(e) => arguments@.len() != 1 && e@ == failure(
                RuntimeKind::ArityError,
                "str() takes exactly one argument"@,
                0,
                0,
            ),
        },
{
    if arguments.len() != 1 {
        return Err(fail(RuntimeKind::ArityError, "str() takes exactly one argument"));
    }
    Ok(Value::String(arguments[0].to_string(numeral)))
}

/// What `type` gives for `arguments`: the name of the type of its one
/// argument.
pub fn builtin_type(arguments: &Vec<Value>) -> (r: Result<Value, KyaroError>)
    ensures
        match r {
            Ok(v) => arguments@.len() == 1 && v@ == Val::String(type_of(arguments@[0]@)),
            Err(e) => arguments@.len() != 1 && e@ == failure(
                RuntimeKind::ArityError,
                "type() takes exactly one argument"@,
                0,
                0,
            ),
        },
{
    if arguments.len() != 1 {
        return Err(fail(RuntimeKind::ArityError, "type() takes exactly one argument"));
    }
    Ok(Value::String(String::from_str(arguments[0].type_of())))
}

/// What `len` measures of a value: the bytes of a string in UTF-8, the
/// items of a list; nothing of any other value.
pub open spec fn length_of(v: Val) -> Option<nat> {
    match v {
        Val::String(text) => Some(vstd::utf8::encode_utf8(text).len()),
        Val::List(items) => Some(items.len()),
        _ => None,
    }
}

/// What `len` gives for `arguments`: the length of its one argument, a
/// string or a list, as a number. A length above two to the power 53, which
/// not every number can stand for, is refused.
pub fn builtin_len(arguments: &Vec<Value>) -> (r: Result<Value, KyaroError>)
    ensures
        match r {
            Ok(v) => {
                &&& arguments@.len() == 1
                &&& length_of(arguments@[0]@) matches Some(n) && n <= EXACT && (v@ matches Val::Number(
                    bits,
                ) && integer_of(bits) == Some(n as int) && !is_negative(bits))
            },
            Err(e) => if arguments@.len() != 1 {
                e@ == failure(RuntimeKind::ArityError, "len() takes exactly one argument"@, 0, 0)
            } else {
                match length_of(arguments@[0]@) {
                    None => e@ == failure(
                        RuntimeKind::TypeError,
                        "len() not supported for this type"@,
                        0,
                        0,
                    ),
                    Some(n) => n > EXACT && e@ == failure(
                        RuntimeKind::DomainError,
                        "len() of a value this long is no number"@,
                        0,
                        0,
                    ),
                }
            },
        },
{
    if arguments.len() != 1 {
        return Err(fail(RuntimeKind::ArityError, "len() takes exactly one argument"));
    }
    proof {
        arguments@[0].lemma_list();
    }
    let length = match &arguments[0] {
        Value::String(text) => text.as_str().as_bytes().len(),
        Value::List(items) => items.len(),
        _ => {
            return Err(fail(RuntimeKind::TypeError, "len() not supported for this type"));
        },
    };
    match from_whole(length as u64) {
        Some(bits) => Ok(Value::Number(bits)),
        None => Err(fail(RuntimeKind::DomainError, "len() of a value this long is no number")),
    }
}

/// What `abs` gives for `arguments`: its one argument, a number, without
/// its sign.
pub fn builtin_abs(arguments: &Vec<Value>) -> (r: Result<Value, KyaroError>)
    ensures
        match r {
            Ok(v) => {
                &&& arguments@.len() == 1
                &&& arguments@[0]@ matches Val::Number(bits) && v@ == Val::Number(absolute(bits))
            },
            Err(e) => if arguments@.len() != 1 {
                e@ == failure(RuntimeKind::ArityError, "abs() takes exactly one argument"@, 0, 0)
            } else {
                !(arguments@[0]@ is Number) && e@ == failure(
                    RuntimeKind::TypeError,
                    "abs() requires a number"@,
                    0,
                    0,
                )
            },
        },
{
    if arguments.len() != 1 {
        return Err(fail(RuntimeKind::ArityError, "abs() takes exactly one argument"));
    }
    match &arguments[0] {
        Value::Number(bits) => Ok(Value::Number(abs(*bits))),
        _ => Err(fail(RuntimeKind::TypeError, "abs() requires a number")),
    }
}

/// Whether `a` comes before `b` in the search for the least value, or,
/// where `largest` is set, for the greatest: both are numbers, and `a` is
/// the smaller, or the larger, of the two.
pub open spec fn beats(a: Val, b: Val, largest: bool) -> bool {
    match (a, b) {
        (Val::Number(x), Val::Number(y)) => if largest {
            less(y, x)
        } else {
            less(x, y)
        },
        _ => false,
    }
}

/// The index of the value that `min` or, where `largest` is set, `max`
/// picks among the first `count` of `items`: the first item, unless a later
/// one beats what was picked before it.
pub open spec fn pick(items: Seq<Val>, count: nat, largest: bool) -> int
    decreases count,
{
    if count <= 1 {
        0
    } else {
        let before = pick(items, (count - 1) as nat, largest);
        if beats(items[count - 1], items[before], largest) {
            count - 1
        } else {
            before
        }
    }
}

/// The values that `min` and `max` choose among: the items of a list that
/// is the only argument, else the arguments themselves.
pub open spec fn candidates(arguments: Seq<Val>) -> Seq<Val> {
    if arguments.len() == 1 && arguments[0] is List {
        arguments[0]->List_0
    } else {
        arguments
    }
}

fn extreme_index(items: &Vec<Value>, largest: bool) -> (index: usize)
    requires
        items@.len() > 0,
    ensures
        index == pick(vals(items@), items@.len(), largest),
        index < items@.len(),
{
    let mut best: usize = 0;
    let mut i: usize = 1;
    while i < items.len()
        invariant
            1 <= i <= items.len(),
            best < i,
            best == pick(vals(items@), i as nat, largest),
        decreases items.len() - i,
    {
        let wins = match (&items[i], &items[best]) {
            (Value::Number(x), Value::Number(y)) => if largest {
                number_less(*y, *x)
            } else {
                number_less(*x, *y)
            },
            _ => false,
        };
        if wins {
            best = i;
        }
        i += 1;
    }
    best
}

fn extreme(arguments: &Vec<Value>, largest: bool, none: &str, empty: &str) -> (r: Result<
    Value,
    KyaroError,
>)
    ensures
        match r {
            Ok(v) => candidates(vals(arguments@)).len() > 0 && v@ == candidates(
                vals(arguments@),
            )[pick(candidates(vals(arguments@)), candidates(vals(arguments@)).len(), largest)],
            Err(e) => if arguments@.len() == 0 {
                e@ == failure(RuntimeKind::ArityError, none@, 0, 0)
            } else {
                candidates(vals(arguments@)).len() == 0 && e@ == failure(
                    RuntimeKind::DomainError,
                    empty@,
                    0,
                    0,
                )
            },
        },
{
    if arguments.len() == 0 {
        return Err(fail(RuntimeKind::ArityError, none));
    }
    proof {
        arguments@[0].lemma_list();
    }
    if arguments.len() == 1 {
        if let Value::List(items) = &arguments[0] {
            if items.len() == 0 {
                return Err(fail(RuntimeKind::DomainError, empty));
            }
            return Ok(items[extreme_index(items, largest)].duplicate());
        }
    }
    Ok(arguments[extreme_index(arguments, largest)].duplicate())
}

/// What `min` gives for `arguments`: the least of the items of a list that
/// is its only argument, else the least of its arguments. The search keeps
/// the first value unless a later number is less than a number kept.
pub fn builtin_min(arguments: &Vec<Value>) -> (r: Result<Value, KyaroError>)
    ensures
        match r {
            Ok(v) => candidates(vals(arguments@)).len() > 0 && v@ == candidates(
                vals(arguments@),
            )[pick(candidates(vals(arguments@)), candidates(vals(arguments@)).len(), false)],
            Err(e) => if arguments@.len() == 0 {
                e@ == failure(
                    RuntimeKind::ArityError,
                    "min() requires at least one argument"@,
                    0,
                    0,
                )
            } else {
                candidates(vals(arguments@)).len() == 0 && e@ == failure(
                    RuntimeKind::DomainError,
                    "min() of empty list"@,
                    0,
                    0,
                )
            },
        },
{
    extreme(arguments, false, "min() requires at least one argument", "min() of empty list")
}

/// What `max` gives for `arguments`: the greatest of the items of a list
/// that is its only argument, else the greatest of its arguments. The
/// search keeps the first value unless a later number is greater than a
/// number kept.
pub fn builtin_max(arguments: &Vec<Value>) -> (r: Result<Value, KyaroError>)
    ensures
        match r {
            Ok(v) => candidates(vals(arguments@)).len() > 0 && v@ == candidates(
                vals(arguments@),
            )[pick(candidates(vals(arguments@)), candidates(vals(arguments@)).len(), true)],
            Err(e) => if arguments@.len() == 0 {
                e@ == failure(
                    RuntimeKind::ArityError,
                    "max() requires at least one argument"@,
                    0,
                    0,
                )
            } else {
                candidates(vals(arguments@)).len() == 0 && e@ == failure(
                    RuntimeKind::DomainError,
                    "max() of empty list"@,
                    0,
                    0,
                )
            },
        },
{
    extreme(arguments, true, "max() requires at least one argument", "max() of empty list")
}

/// Among numbers, what `min` picks is less than or equal to every item, and
/// what `max` picks is greater than or equal to every item.
pub proof fn lemma_pick_is_extreme(items: Seq<Val>, count: nat, largest: bool, i: int)
    requires
        0 <= i < count <= items.len(),
        forall|j: int|
            0 <= j < count ==> ((#[trigger] items[j]) matches Val::Number(bits)
                && !crate::number::is_nan(bits)),
    ensures
        0 <= pick(items, count, largest) < count,
        !beats(items[i], items[pick(items, count, largest)], largest),
    decreases count,
{
    if count > 1 {
        let before = pick(items, (count - 1) as nat, largest);
        if i < count - 1 {
            lemma_pick_is_extreme(items, (count - 1) as nat, largest, i);
        } else {
            lemma_pick_is_extreme(items, (count - 1) as nat, largest, 0);
        }
        assert(items[count - 1] is Number);
        assert(items[before] is Number);
        assert(items[i] is Number);
    }
}

/// What `append` gives: it cannot change a list, and says so.
pub fn builtin_append(arguments: &Vec<Value>) -> (r: Result<Value, KyaroError>)
    ensures
        r matches Err(e) && e@ == (if arguments@.len() != 2 {
            failure(RuntimeKind::ArityError, "append() takes exactly two arguments"@, 0, 0)
        } else {
            failure(RuntimeKind::NotImplemented, "append() requires mutable list reference"@, 0, 0)
        }),
{
    if arguments.len() != 2 {
        return Err(fail(RuntimeKind::ArityError, "append() takes exactly two arguments"));
    }
    Err(fail(RuntimeKind::NotImplemented, "append() requires mutable list reference"))
}

/// What `pop` gives: it cannot change a list, and says so.
pub fn builtin_pop(arguments: &Vec<Value>) -> (r: Result<Value, KyaroError>)
    ensures
        r matches Err(e) && e@ == failure(
            RuntimeKind::NotImplemented,
            "pop() requires mutable list reference"@,
            0,
            0,
        ),
{
    Err(fail(RuntimeKind::NotImplemented, "pop() requires mutable list reference"))
}

/// What `push` gives: it cannot change a list, and says so.
pub fn builtin_push(arguments: &Vec<Value>) -> (r: Result<Value, KyaroError>)
    ensures
        r matches Err(e) && e@ == failure(
            RuntimeKind::NotImplemented,
            "push() requires mutable list reference"@,
            0,
            0,
        ),
{
    Err(fail(RuntimeKind::NotImplemented, "push() requires mutable list reference"))
}

/// The item of `items` at `index`, which was drawn at random.
pub fn chosen(items: &Vec<Value>, index: usize) -> (v: Value)
    requires
        index < items@.len(),
    ensures
        v@ == vals(items@)[index as int],
{
    items[index].duplicate()
}

/// What `choice` gives for `arguments`: one of the items of the list that
/// is its one argument, drawn at random.
pub fn builtin_choice(arguments: &Vec<Value>) -> (r: Result<Value, KyaroError>)
    ensures
        match r {
            Ok(v) => {
                &&& arguments@.len() == 1
                &&& arguments@[0]@ matches Val::List(items) && items.contains(v@)
            },
            Err(e) => if arguments@.len() != 1 {
                e@ == failure(
                    RuntimeKind::ArityError,
                    "choice() takes exactly one argument"@,
                    0,
                    0,
                )
            } else {
                match arguments@[0]@ {
                    Val::List(items) => items.len() == 0 && e@ == failure(
                        RuntimeKind::DomainError,
                        "choice() from empty list"@,
                        0,
                        0,
                    ),
                    _ => e@ == failure(RuntimeKind::TypeError, "choice() requires a list"@, 0, 0),
                }
            },
        },
{
    if arguments.len() != 1 {
        return Err(fail(RuntimeKind::ArityError, "choice() takes exactly one argument"));
    }
    proof {
        arguments@[0].lemma_list();
    }
    match &arguments[0] {
        Value::List(items) => {
            if items.len() == 0 {
                return Err(fail(RuntimeKind::DomainError, "choice() from empty list"));
            }
            let index = random_index(items.len());
            let v = chosen(items, index);
            assert(vals(items@).contains(v@));
            Ok(v)
        },
        _ => Err(fail(RuntimeKind::TypeError, "choice() requires a list")),
    }
}

/// `rand::thread_rng().gen_range(low..=high)` draws a whole number from the
/// generator of the thread: one from `low` to `high`, both included. It must
/// not be asked for a number where `low` is above `high`.
#[verifier::external_body]
fn random_between(low: i64, high: i64) -> (n: i64)
    requires
        low <= high,
    ensures
        low <= n <= high,
{
    rand::thread_rng().gen_range(low..=high)
}

/// What `randint` draws for the whole numbers `a` and `b`: a whole number
/// from the smaller of the two to the larger, both included.
pub fn randint_between(a: i64, b: i64) -> (n: i64)
    ensures
        a <= n <= b || b <= n <= a,
{
    if a <= b {
        random_between(a, b)
    } else {
        random_between(b, a)
    }
}

/// The greatest common divisor of `a` and `b`, as Euclid finds it; that of
/// a number and zero is the number.
pub open spec fn gcd(a: nat, b: nat) -> nat
    decreases b,
{
    if b == 0 {
        a
    } else {
        gcd(b, a % b)
    }
}

/// Whether `n` is a multiple of `d`.
pub open spec fn divides(d: nat, n: nat) -> bool {
    exists|k: nat| n == #[trigger] (d * k)
}

/// The greatest common divisor of `a` and `b`.
pub fn gcd_helper(a: u64, b: u64) -> (r: u64)
    ensures
        r == gcd(a as nat, b as nat),
    decreases b,
{
    if b == 0 {
        a
    } else {
        gcd_helper(b, a % b)
    }
}

proof fn lemma_divides_sum(d: nat, q: nat, b: nat, r: nat)
    requires
        divides(d, b),
        divides(d, r),
    ensures
        divides(d, q * b + r),
{
    let kb = choose|k: nat| b == #[trigger] (d * k);
    let kr = choose|k: nat| r == #[trigger] (d * k);
    assert(q * b + r == d * (q * kb + kr)) by (nonlinear_arith)
        requires
            b == d * kb,
            r == d * kr,
    ;
}

proof fn lemma_divides_remainder(d: nat, a: nat, b: nat)
    requires
        b > 0,
        divides(d, a),
        divides(d, b),
    ensures
        divides(d, a % b),
{
    let ka = choose|k: nat| a == #[trigger] (d * k);
    let kb = choose|k: nat| b == #[trigger] (d * k);
    let q = a / b;
    assert(a == q * b + a % b) by (nonlinear_arith)
        requires
            b > 0,
            q == a / b,
    ;
    assert(d > 0) by {
        if d == 0 {
            assert(d * kb == 0) by (nonlinear_arith)
                requires
                    d == 0,
            ;
        }
    }
    assert(ka >= q * kb) by (nonlinear_arith)
        requires
            d * ka == q * (d * kb) + a % b,
            a % b >= 0,
            d > 0,
    ;
    let k = (ka - q * kb) as nat;
    let r = a % b;
    assert(d * ka == q * (d * kb) + r);
    assert(r == d * (ka - q * kb)) by (nonlinear_arith)
        requires
            d * ka == q * (d * kb) + r,
    ;
    assert(r == d * k);
}

/// The greatest common divisor of two numbers divides both of them.
pub proof fn lemma_gcd_divides(a: nat, b: nat)
    ensures
        divides(gcd(a, b), a),
        divides(gcd(a, b), b),
    decreases b,
{
    if b == 0 {
        assert(a == a * 1) by (nonlinear_arith);
        assert(b == a * 0) by (nonlinear_arith)
            requires
                b == 0,
        ;
    } else {
        lemma_gcd_divides(b, a % b);
        let g = gcd(a, b);
        let q = a / b;
        assert(a == q * b + a % b) by (nonlinear_arith)
            requires
                b > 0,
                q == a / b,
        ;
        lemma_divides_sum(g, q, b, a % b);
    }
}

/// Every number that divides two numbers divides their greatest common
/// divisor.
pub proof fn lemma_gcd_is_greatest(a: nat, b: nat, d: nat)
    requires
        divides(d, a),
        divides(d, b),
    ensures
        divides(d, gcd(a, b)),
    decreases b,
{
    if b > 0 {
        lemma_divides_remainder(d, a, b);
        lemma_gcd_is_greatest(b, a % b, d);
    }
}

} // verus!
