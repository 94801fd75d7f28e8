use vstd::prelude::*;

verus! {

// A number of the language is a double-precision value of IEEE 754. The
// library holds it as its 64 bits, written as a `u64`: the sign in the highest
// bit, then eleven bits of exponent, then fifty-two bits of fraction. What it
// decides of a number it reads from these bits; it never computes with them.

/// Two to the power 63: the weight of the sign bit.
pub const SIGN: u64 = 0x8000_0000_0000_0000;

/// The bits of positive infinity. Every larger magnitude is not a number.
pub const INFINITY: u64 = 0x7ff0_0000_0000_0000;

/// The bits of positive zero.
pub const ZERO: u64 = 0;

/// The bits of one.
pub const ONE: u64 = 0x3ff0_0000_0000_0000;

/// Whether the sign bit is set.
pub open spec fn is_negative(bits: u64) -> bool {
    bits >= SIGN
}

/// The bits without the sign bit.
pub open spec fn magnitude(bits: u64) -> int {
    if bits >= SIGN {
        bits - SIGN
    } else {
        bits as int
    }
}

/// Whether the bits stand for no number at all.
pub open spec fn is_nan(bits: u64) -> bool {
    magnitude(bits) > INFINITY
}

/// Whether the bits stand for zero, positive or negative.
pub open spec fn is_zero(bits: u64) -> bool {
    magnitude(bits) == 0
}

/// An integer that orders the numbers as their values do: of two numbers,
/// neither of them not-a-number, the smaller has the smaller rank, and equal
/// numbers, the two zeros among them, have the same rank.
pub open spec fn rank(bits: u64) -> int {
    if is_negative(bits) {
        -magnitude(bits)
    } else {
        magnitude(bits)
    }
}

/// Equality of two numbers. Not-a-number equals nothing, itself included.
pub open spec fn equal(a: u64, b: u64) -> bool {
    !is_nan(a) && !is_nan(b) && rank(a) == rank(b)
}

/// Whether `a` is less than `b`. Not-a-number is in no order with anything.
pub open spec fn less(a: u64, b: u64) -> bool {
    !is_nan(a) && !is_nan(b) && rank(a) < rank(b)
}

/// Whether `a` is less than or equal to `b`.
pub open spec fn less_or_equal(a: u64, b: u64) -> bool {
    !is_nan(a) && !is_nan(b) && rank(a) <= rank(b)
}

/// The number without its sign.
pub open spec fn absolute(bits: u64) -> u64 {
    magnitude(bits) as u64
}

/// The number with the other sign.
pub open spec fn negated(bits: u64) -> u64 {
    if bits >= SIGN {
        (bits - SIGN) as u64
    } else {
        (bits + SIGN) as u64
    }
}

fn magnitude_of(bits: u64) -> (m: u64)
    ensures
        m == magnitude(bits),
{
    if bits >= SIGN {
        bits - SIGN
    } else {
        bits
    }
}

/// Whether the bits stand for no number at all.
pub fn not_a_number(bits: u64) -> (r: bool)
    ensures
        r == is_nan(bits),
{
    magnitude_of(bits) > INFINITY
}

/// Whether the bits stand for zero, positive or negative.
pub fn zero(bits: u64) -> (r: bool)
    ensures
        r == is_zero(bits),
{
    magnitude_of(bits) == 0
}

fn rank_of(bits: u64) -> (r: i128)
    ensures
        r == rank(bits),
{
    let m: i128 = magnitude_of(bits) as i128;
    if bits >= SIGN {
        -m
    } else {
        m
    }
}

/// Equality of two numbers.
pub fn numbers_equal(a: u64, b: u64) -> (r: bool)
    ensures
        r == equal(a, b),
{
    !not_a_number(a) && !not_a_number(b) && rank_of(a) == rank_of(b)
}

/// Whether `a` is less than `b`.
pub fn number_less(a: u64, b: u64) -> (r: bool)
    ensures
        r == less(a, b),
{
    !not_a_number(a) && !not_a_number(b) && rank_of(a) < rank_of(b)
}

/// Whether `a` is less than or equal to `b`.
pub fn number_less_or_equal(a: u64, b: u64) -> (r: bool)
    ensures
        r == less_or_equal(a, b),
{
    !not_a_number(a) && !not_a_number(b) && rank_of(a) <= rank_of(b)
}

/// The number without its sign.
pub fn abs(bits: u64) -> (r: u64)
    ensures
        r == absolute(bits),
{
    magnitude_of(bits)
}

/// The number with the other sign.
pub fn negate(bits: u64) -> (r: u64)
    ensures
        r == negated(bits),
{
    if bits >= SIGN {
        bits - SIGN
    } else {
        bits + SIGN
    }
}

/// Negating twice gives the number back, and negating changes neither
/// whether a number is zero nor whether it is a number at all.
pub proof fn lemma_negation(bits: u64)
    ensures
        negated(negated(bits)) == bits,
        is_zero(negated(bits)) == is_zero(bits),
        is_nan(negated(bits)) == is_nan(bits),
        !is_nan(bits) ==> rank(negated(bits)) == -rank(bits),
{
}

/// On the numbers, `less` is a strict order that agrees with `equal`: of two
/// numbers exactly one of less, equal and greater holds.
pub proof fn lemma_order(a: u64, b: u64, c: u64)
    ensures
        !less(a, a),
        less(a, b) && less(b, c) ==> less(a, c),
        !is_nan(a) && !is_nan(b) ==> (less(a, b) || equal(a, b) || less(b, a)),
        !(less(a, b) && equal(a, b)),
        !(less(a, b) && less(b, a)),
        less_or_equal(a, b) == (less(a, b) || equal(a, b)),
{
}


/// Two to the power 52: the weight of the lowest bit of the exponent.
pub const HIDDEN: u64 = 0x0010_0000_0000_0000;

/// Two to the power `k`.
pub open spec fn two_to(k: nat) -> nat
    decreases k,
{
    if k == 0 {
        1
    } else {
        2 * two_to((k - 1) as nat)
    }
}

/// The exponent field of the bits.
pub open spec fn exponent(bits: u64) -> int {
    magnitude(bits) / (HIDDEN as int)
}

/// The significand of a number whose exponent field is not zero: the
/// fraction field with the hidden bit before it. The number's size is the
/// significand times two to the power of the exponent field less 1075.
pub open spec fn significand(bits: u64) -> int {
    HIDDEN + magnitude(bits) % (HIDDEN as int)
}

/// `size` with the sign of the number `bits`.
pub open spec fn with_sign(bits: u64, size: int) -> int {
    if is_negative(bits) {
        -size
    } else {
        size
    }
}

/// The value of a number that is a whole number of a size below two to the
/// power 63, and `None` for every other number: one with a fraction, one of
/// a larger size, an infinity, and what is not a number. Both zeros are the
/// whole number zero.
pub open spec fn integer_of(bits: u64) -> Option<int> {
    let e = exponent(bits);
    if magnitude(bits) == 0 {
        Some(0)
    } else if e < 1023 || e >= 1086 {
        None
    } else if e >= 1075 {
        Some(with_sign(bits, significand(bits) * two_to((e - 1075) as nat)))
    } else if significand(bits) % (two_to((1075 - e) as nat) as int) == 0 {
        Some(with_sign(bits, significand(bits) / (two_to((1075 - e) as nat) as int)))
    } else {
        None
    }
}

/// Powers of two are above zero and grow with the exponent.
pub proof fn lemma_two_to_grows(k: nat, j: nat)
    requires
        k <= j,
    ensures
        0 < two_to(k) <= two_to(j),
    decreases j,
{
    if k < j {
        lemma_two_to_grows(k, (j - 1) as nat);
    } else if k > 0 {
        lemma_two_to_grows((k - 1) as nat, (k - 1) as nat);
    }
}

/// Two to the power 10 is 1024, and two to the power 52 is the weight of
/// the lowest bit of the exponent.
pub proof fn lemma_two_to_52()
    ensures
        two_to(10) == 1024,
        two_to(52) == HIDDEN,
{
    reveal_with_fuel(two_to, 11);
    assert(two_to(10) == 1024);
    assert(two_to(20) == 1024 * 1024) by {
        lemma_two_to_adds(10, 10);
    }
    assert(two_to(40) == 1024 * 1024 * 1024 * 1024) by {
        lemma_two_to_adds(20, 20);
    }
    assert(two_to(50) == 1024 * 1024 * 1024 * 1024 * 1024) by {
        lemma_two_to_adds(40, 10);
    }
    assert(two_to(2) == 4);
    lemma_two_to_adds(50, 2);
}

/// The power of two of a sum is the product of the powers.
pub proof fn lemma_two_to_adds(a: nat, b: nat)
    ensures
        two_to(a + b) == two_to(a) * two_to(b),
    decreases b,
{
    if b == 0 {
        assert(two_to(a) * 1 == two_to(a));
    } else {
        lemma_two_to_adds(a, (b - 1) as nat);
        assert(two_to(a + b) == 2 * two_to((a + b - 1) as nat));
        assert(2 * (two_to(a) * two_to((b - 1) as nat)) == two_to(a) * (2 * two_to((b - 1) as nat)))
            by (nonlinear_arith);
    }
}

/// Two to the power `k`, for `k` up to 52.
fn power_of_two(k: u64) -> (p: u64)
    requires
        k <= 52,
    ensures
        p == two_to(k as nat),
        1 <= p <= HIDDEN,
{
    let mut p: u64 = 1;
    let mut i: u64 = 0;
    proof {
        lemma_two_to_52();
    }
    while i < k
        invariant
            i <= k <= 52,
            p == two_to(i as nat),
            two_to(52) == HIDDEN,
        decreases k - i,
    {
        proof {
            lemma_two_to_grows((i + 1) as nat, 52);
        }
        p = p * 2;
        i += 1;
    }
    proof {
        lemma_two_to_grows(k as nat, 52);
    }
    p
}

/// The value of a number that is a whole number of a size below two to the
/// power 63, and `None` for every other number.
pub fn small_integer(bits: u64) -> (r: Option<i64>)
    ensures
        match r {
            Some(n) => integer_of(bits) == Some(n as int),
            None => integer_of(bits) is None,
        },
{
    let m = magnitude_of(bits);
    if m == 0 {
        return Some(0);
    }
    let e = m / HIDDEN;
    let sig = HIDDEN + m % HIDDEN;
    if e < 1023 || e >= 1086 {
        return None;
    }
    let size: u64 = if e >= 1075 {
        let p = power_of_two(e - 1075);
        proof {
            lemma_two_to_52();
            lemma_two_to_grows((e - 1075) as nat, 10);
            assert(sig * p < 0x8000_0000_0000_0000) by (nonlinear_arith)
                requires
                    sig < 0x0020_0000_0000_0000,
                    p <= 1024,
            ;
        }
        sig * p
    } else {
        let p = power_of_two(1075 - e);
        if sig % p != 0 {
            return None;
        }
        sig / p
    };
    proof {
        if e < 1075 {
            assert(size <= sig);
        }
    }
    if bits >= SIGN {
        Some(-(size as i64))
    } else {
        Some(size as i64)
    }
}


/// The largest whole number up to which every whole number is a number of
/// the language: two to the power 53.
pub const EXACT: u64 = 0x0020_0000_0000_0000;

/// The place of the highest bit of `n` that is set, counted from zero; zero
/// for zero.
pub open spec fn top_bit(n: nat) -> nat
    decreases n,
{
    if n <= 1 {
        0
    } else {
        1 + top_bit(n / 2)
    }
}

/// The bits of the number that is the whole number `n`, for `n` up to two
/// to the power 53: zero for zero; else the exponent field is 1023 more than
/// the place of the highest bit of `n`, and the fraction field holds the bits
/// of `n` below that bit, moved up to the top of the field.
pub open spec fn small_bits(n: nat) -> u64 {
    let k = top_bit(n);
    if n == 0 {
        0
    } else if k >= 53 {
        (1076 * HIDDEN) as u64
    } else {
        ((1023 + k) * HIDDEN + (n * two_to((52 - k) as nat) - HIDDEN)) as u64
    }
}

/// The place of the highest bit of a number between two powers of two that
/// follow each other is the exponent of the smaller.
pub proof fn lemma_top_bit(n: nat, k: nat)
    requires
        two_to(k) <= n < two_to(k + 1),
    ensures
        top_bit(n) == k,
    decreases k,
{
    if k == 0 {
        assert(two_to(1) == 2) by {
            reveal_with_fuel(two_to, 2);
        }
    } else {
        assert(two_to(k) == 2 * two_to((k - 1) as nat));
        assert(two_to(k + 1) == 2 * two_to(k));
        lemma_two_to_grows(0, (k - 1) as nat);
        lemma_top_bit(n / 2, (k - 1) as nat);
    }
}

/// The bits of a small whole number are those of a number that is not
/// negative and has that whole number as its value.
pub proof fn lemma_small_bits(n: nat)
    requires
        n <= EXACT,
    ensures
        integer_of(small_bits(n)) == Some(n as int),
        !is_negative(small_bits(n)),
        !is_nan(small_bits(n)),
{
    if n == 0 {
        return ;
    }
    lemma_two_to_52();
    lemma_two_to_adds(52, 1);
    assert(two_to(1) == 2) by {
        reveal_with_fuel(two_to, 2);
    }
    let k = top_bit(n);
    lemma_top_bit_bounds(n);
    assert(k <= 53) by {
        if k > 53 {
            lemma_two_to_grows(54, k);
            lemma_two_to_adds(53, 1);
        }
    }
    let bits = small_bits(n);
    if k == 53 {
        // Two to the power 53 itself: the fraction field is empty.
        lemma_two_to_adds(53, 1);
        assert(n == EXACT);
        assert(bits == 1076 * HIDDEN);
        assert(magnitude(bits) == 1076 * HIDDEN);
        assert(exponent(bits) == 1076);
        assert(significand(bits) == HIDDEN);
        assert(HIDDEN * two_to(1) == n) by (nonlinear_arith)
            requires
                two_to(1) == 2,
                n == 2 * HIDDEN,
        ;
    } else {
        let shift = (52 - k) as nat;
        let scale = two_to(shift);
        let p = two_to(k);
        lemma_two_to_adds(k, shift);
        lemma_two_to_grows(0, shift);
        assert(p * scale == HIDDEN);
        assert(two_to(k + 1) == 2 * p);
        assert(n * scale < 2 * HIDDEN) by (nonlinear_arith)
            requires
                n < 2 * p,
                p * scale == HIDDEN,
                scale >= 1,
        ;
        assert(n * scale >= HIDDEN) by (nonlinear_arith)
            requires
                n >= p,
                p * scale == HIDDEN,
                scale >= 1,
        ;
        let sig = n * scale;
        let e = 1023 + k;
        assert(e * HIDDEN + (sig - HIDDEN) < SIGN) by (nonlinear_arith)
            requires
                e <= 1075,
                HIDDEN <= sig < 2 * HIDDEN,
                HIDDEN == 0x0010_0000_0000_0000,
                SIGN == 0x8000_0000_0000_0000,
        ;
        assert(bits == e * HIDDEN + (sig - HIDDEN));
        assert(magnitude(bits) == e * HIDDEN + (sig - HIDDEN));
        assert(exponent(bits) == e && magnitude(bits) % (HIDDEN as int) == sig - HIDDEN)
            by (nonlinear_arith)
            requires
                magnitude(bits) == e * HIDDEN + (sig - HIDDEN),
                0 <= sig - HIDDEN < HIDDEN,
                HIDDEN == 0x0010_0000_0000_0000,
                e >= 0,
                exponent(bits) == magnitude(bits) / (HIDDEN as int),
        ;
        assert(significand(bits) == sig);
        assert(magnitude(bits) != 0);
        if shift == 0 {
            assert(scale == 1);
            assert(e == 1075);
            assert(sig * two_to((e - 1075) as nat) == n) by (nonlinear_arith)
                requires
                    sig == n * scale,
                    scale == 1,
                    two_to((e - 1075) as nat) == 1,
            ;
        } else {
            assert(1075 - e == shift);
            assert((sig as int) % (scale as int) == 0 && (sig as int) / (scale as int) == n)
                by (nonlinear_arith)
                requires
                    sig == n * scale,
                    scale >= 1,
            ;
        }
    }
}

/// A whole number above zero lies between two to the power of the place of
/// its highest bit and two to the power of the place after it.
pub proof fn lemma_top_bit_bounds(n: nat)
    requires
        n >= 1,
    ensures
        two_to(top_bit(n)) <= n < two_to(top_bit(n) + 1),
    decreases n,
{
    assert(two_to(1) == 2) by {
        reveal_with_fuel(two_to, 2);
    }
    if n > 1 {
        lemma_top_bit_bounds(n / 2);
        let k = top_bit(n / 2);
        assert(two_to(k + 1) == 2 * two_to(k));
        assert(two_to(k + 2) == 2 * two_to(k + 1));
    }
}

/// The bits of the number that is the whole number `n`, for `n` up to two
/// to the power 53, and `None` for a larger `n`: not every whole number above
/// it is a number of the language.
pub fn from_whole(n: u64) -> (r: Option<u64>)
    ensures
        match r {
            Some(bits) => n <= EXACT && bits == small_bits(n as nat) && integer_of(bits) == Some(
                n as int,
            ) && !is_negative(bits) && !is_nan(bits),
            None => n > EXACT,
        },
{
    if n > EXACT {
        return None;
    }
    proof {
        lemma_small_bits(n as nat);
    }
    if n == 0 {
        return Some(0);
    }
    proof {
        lemma_two_to_52();
        lemma_two_to_adds(52, 1);
        assert(two_to(1) == 2) by {
            reveal_with_fuel(two_to, 2);
        }
    }
    // The place of the highest bit of `n`.
    let mut k: u64 = 0;
    let mut p: u64 = 1;
    while k < 53 && p * 2 <= n
        invariant
            k <= 53,
            p == two_to(k as nat),
            p <= n <= EXACT,
            two_to(52) == HIDDEN,
            two_to(53) == EXACT,
        decreases 53 - k,
    {
        proof {
            assert(two_to((k + 1) as nat) == 2 * two_to(k as nat));
        }
        p = p * 2;
        k += 1;
    }
    proof {
        assert(two_to((k + 1) as nat) == 2 * two_to(k as nat));
        if k == 53 {
            assert(n == EXACT);
        }
        lemma_top_bit(n as nat, k as nat);
    }
    if k == 53 {
        return Some(1076 * HIDDEN);
    }
    let scale = power_of_two(52 - k);
    proof {
        lemma_two_to_adds(k as nat, (52 - k) as nat);
        assert(p * scale == HIDDEN);
        assert(n * scale < 2 * HIDDEN) by (nonlinear_arith)
            requires
                n < 2 * p,
                p * scale == HIDDEN,
                scale >= 1,
        ;
        assert(n * scale >= HIDDEN) by (nonlinear_arith)
            requires
                n >= p,
                p * scale == HIDDEN,
                scale >= 1,
        ;
    }
    let sig = n * scale;
    let e = 1023 + k;
    assert(e * HIDDEN + (sig - HIDDEN) < SIGN) by (nonlinear_arith)
        requires
            e <= 1075,
            HIDDEN <= sig < 2 * HIDDEN,
            HIDDEN == 0x0010_0000_0000_0000,
            SIGN == 0x8000_0000_0000_0000,
    ;
    Some(e * HIDDEN + (sig - HIDDEN))
}


// Arithmetic on numbers is left to the embedding program, with one
// exception: where both operands are whole numbers and the result is a whole
// number of a size up to two to the power 53, the result is that whole number,
// and the library finds it with whole-number arithmetic. A result that is
// zero is the negative zero where the rules of the numbers say so.

/// The size of a number that is a whole number of a size below two to the
/// power 63, and `None` for every other number.
pub open spec fn whole_size(bits: u64) -> Option<nat> {
    match integer_of(bits) {
        Some(n) => Some(
            if n < 0 {
                (-n) as nat
            } else {
                n as nat
            },
        ),
        None => None,
    }
}

/// The bits of the whole number of size `size`, up to two to the power 53,
/// with the sign bit set where `negative` is.
pub open spec fn signed_bits(negative: bool, size: nat) -> u64 {
    if negative {
        (small_bits(size) + SIGN) as u64
    } else {
        small_bits(size)
    }
}

/// A whole number that a number stands for is of a size below two to the
/// power 63, and its sign is that of the number.
pub proof fn lemma_integer_bound(bits: u64)
    ensures
        integer_of(bits) matches Some(n) ==> -0x7fff_ffff_ffff_ffff <= n <= 0x7fff_ffff_ffff_ffff
            && (n < 0 ==> is_negative(bits)) && (n > 0 ==> !is_negative(bits)),
{
    if let Some(n) = integer_of(bits) {
        let e = exponent(bits);
        let sig = significand(bits);
        if magnitude(bits) != 0 {
            lemma_two_to_52();
            assert(HIDDEN <= sig < 2 * HIDDEN);
            if e >= 1075 {
                lemma_two_to_grows((e - 1075) as nat, 10);
                let p = two_to((e - 1075) as nat);
                assert(0 < sig * p < 0x8000_0000_0000_0000) by (nonlinear_arith)
                    requires
                        0 < sig < 0x0020_0000_0000_0000,
                        1 <= p <= 1024,
                ;
            } else {
                lemma_two_to_grows(0, (1075 - e) as nat);
                lemma_two_to_grows((1075 - e) as nat, 52);
                let p = two_to((1075 - e) as nat) as int;
                assert(0 < sig / p <= sig) by (nonlinear_arith)
                    requires
                        sig >= p,
                        p >= 1,
                ;
            }
        }
    }
}

/// The bits of a whole number with a sign are those of the number that has
/// that sign and that size.
pub proof fn lemma_signed_bits(negative: bool, size: nat)
    requires
        size <= EXACT,
    ensures
        integer_of(signed_bits(negative, size)) == Some(
            if negative {
                -(size as int)
            } else {
                size as int
            },
        ),
        whole_size(signed_bits(negative, size)) == Some(size),
        is_negative(signed_bits(negative, size)) == negative,
        !is_nan(signed_bits(negative, size)),
{
    lemma_small_bits(size);
    let plain = small_bits(size);
    assert(plain < SIGN);
    if negative {
        let bits = signed_bits(negative, size);
        assert(bits == plain + SIGN);
        assert(magnitude(bits) == magnitude(plain));
        assert(exponent(bits) == exponent(plain));
        assert(significand(bits) == significand(plain));
    }
}

/// The size of a number that is a whole number of a size below two to the
/// power 63.
pub fn whole_size_of(bits: u64) -> (r: Option<u64>)
    ensures
        match r {
            Some(size) => whole_size(bits) == Some(size as nat),
            None => whole_size(bits) is None,
        },
{
    proof {
        lemma_integer_bound(bits);
    }
    match small_integer(bits) {
        Some(n) => if n < 0 {
            Some((-n) as u64)
        } else {
            Some(n as u64)
        },
        None => None,
    }
}

/// The bits of the whole number of size `size` with the sign bit set where
/// `negative` is, and `None` for a size above two to the power 53.
pub fn signed_number(negative: bool, size: u64) -> (r: Option<u64>)
    ensures
        match r {
            Some(bits) => size <= EXACT && bits == signed_bits(negative, size as nat),
            None => size > EXACT,
        },
{
    match from_whole(size) {
        Some(bits) => if negative {
            Some(bits + SIGN)
        } else {
            Some(bits)
        },
        None => None,
    }
}

fn sign_of(bits: u64) -> (negative: bool)
    ensures
        negative == is_negative(bits),
{
    bits >= SIGN
}

/// The sum of two whole numbers, where it is of a size up to two to the
/// power 53. The sum of two zeros of one sign has that sign; every other sum
/// that is zero is the positive zero.
pub open spec fn exact_sum(a: u64, b: u64) -> Option<u64> {
    match (whole_size(a), whole_size(b)) {
        (Some(x), Some(y)) => if is_negative(a) == is_negative(b) {
            if x + y <= EXACT {
                Some(signed_bits(is_negative(a), x + y))
            } else {
                None
            }
        } else if x > y {
            if x - y <= EXACT {
                Some(signed_bits(is_negative(a), (x - y) as nat))
            } else {
                None
            }
        } else if y > x {
            if y - x <= EXACT {
                Some(signed_bits(is_negative(b), (y - x) as nat))
            } else {
                None
            }
        } else {
            Some(0)
        },
        _ => None,
    }
}

/// The difference of two whole numbers: the sum of the first and the second
/// with the other sign.
pub open spec fn exact_difference(a: u64, b: u64) -> Option<u64> {
    exact_sum(a, negated(b))
}

/// The product of two whole numbers, where it is of a size up to two to the
/// power 53. It is negative where exactly one of the two is, also where it
/// is zero.
pub open spec fn exact_product(a: u64, b: u64) -> Option<u64> {
    match (whole_size(a), whole_size(b)) {
        (Some(x), Some(y)) => if x * y <= EXACT {
            Some(signed_bits(is_negative(a) != is_negative(b), x * y))
        } else {
            None
        },
        _ => None,
    }
}

/// The quotient of two whole numbers, where the second is not zero and
/// divides the first, and the quotient is of a size up to two to the power
/// 53. It is negative where exactly one of the two is, also where it is zero.
pub open spec fn exact_quotient(a: u64, b: u64) -> Option<u64> {
    match (whole_size(a), whole_size(b)) {
        (Some(x), Some(y)) => if y > 0 && x % y == 0 && x / y <= EXACT {
            Some(signed_bits(is_negative(a) != is_negative(b), x / y))
        } else {
            None
        },
        _ => None,
    }
}

/// The remainder of the division of a whole number by one that is not zero,
/// where it is of a size up to two to the power 53. Its size is the
/// remainder of the sizes, and its sign is that of the first number.
pub open spec fn exact_remainder(a: u64, b: u64) -> Option<u64> {
    match (whole_size(a), whole_size(b)) {
        (Some(x), Some(y)) => if y > 0 && x % y <= EXACT {
            Some(signed_bits(is_negative(a), x % y))
        } else {
            None
        },
        _ => None,
    }
}

/// The sum of two whole numbers, where it is of a size up to two to the
/// power 53.
pub fn exact_add(a: u64, b: u64) -> (r: Option<u64>)
    ensures
        r == exact_sum(a, b),
{
    let (x, y) = match (whole_size_of(a), whole_size_of(b)) {
        (Some(x), Some(y)) => (x, y),
        _ => {
            return None;
        },
    };
    proof {
        lemma_integer_bound(a);
        lemma_integer_bound(b);
    }
    if sign_of(a) == sign_of(b) {
        signed_number(sign_of(a), x + y)
    } else if x > y {
        signed_number(sign_of(a), x - y)
    } else if y > x {
        signed_number(sign_of(b), y - x)
    } else {
        Some(0)
    }
}

/// The difference of two whole numbers, where it is of a size up to two to
/// the power 53.
pub fn exact_subtract(a: u64, b: u64) -> (r: Option<u64>)
    ensures
        r == exact_difference(a, b),
{
    exact_add(a, negate(b))
}

/// The product of two whole numbers, where it is of a size up to two to the
/// power 53.
pub fn exact_multiply(a: u64, b: u64) -> (r: Option<u64>)
    ensures
        r == exact_product(a, b),
{
    let (x, y) = match (whole_size_of(a), whole_size_of(b)) {
        (Some(x), Some(y)) => (x, y),
        _ => {
            return None;
        },
    };
    proof {
        lemma_integer_bound(a);
        lemma_integer_bound(b);
        assert(x * y <= 0x7fff_ffff_ffff_ffff * 0x7fff_ffff_ffff_ffff) by (nonlinear_arith)
            requires
                x <= 0x7fff_ffff_ffff_ffff,
                y <= 0x7fff_ffff_ffff_ffff,
        ;
    }
    let product: u128 = (x as u128) * (y as u128);
    if product > EXACT as u128 {
        return None;
    }
    signed_number(sign_of(a) != sign_of(b), product as u64)
}

/// The quotient of two whole numbers, where the second is not zero and
/// divides the first, and the quotient is of a size up to two to the power
/// 53.
pub fn exact_divide(a: u64, b: u64) -> (r: Option<u64>)
    ensures
        r == exact_quotient(a, b),
{
    let (x, y) = match (whole_size_of(a), whole_size_of(b)) {
        (Some(x), Some(y)) => (x, y),
        _ => {
            return None;
        },
    };
    if y == 0 || x % y != 0 {
        return None;
    }
    signed_number(sign_of(a) != sign_of(b), x / y)
}

/// The remainder of the division of a whole number by one that is not zero,
/// where it is of a size up to two to the power 53.
pub fn exact_modulo(a: u64, b: u64) -> (r: Option<u64>)
    ensures
        r == exact_remainder(a, b),
{
    let (x, y) = match (whole_size_of(a), whole_size_of(b)) {
        (Some(x), Some(y)) => (x, y),
        _ => {
            return None;
        },
    };
    if y == 0 {
        return None;
    }
    signed_number(sign_of(a), x % y)
}

/// The whole number that a number stands for is its size with its sign.
pub proof fn lemma_whole_size(bits: u64)
    ensures
        integer_of(bits) matches Some(n) ==> whole_size(bits) matches Some(size) && n == (
        if is_negative(bits) {
            -(size as int)
        } else {
            size as int
        }),
{
    lemma_integer_bound(bits);
}

/// Where the library adds two whole numbers, the result is their sum.
pub proof fn lemma_exact_sum(a: u64, b: u64)
    requires
        exact_sum(a, b) is Some,
    ensures
        integer_of(exact_sum(a, b)->0) == Some(integer_of(a)->0 + integer_of(b)->0),
{
    lemma_whole_size(a);
    lemma_whole_size(b);
    let x = whole_size(a)->0;
    let y = whole_size(b)->0;
    if is_negative(a) == is_negative(b) {
        lemma_signed_bits(is_negative(a), x + y);
    } else if x > y {
        lemma_signed_bits(is_negative(a), (x - y) as nat);
    } else if y > x {
        lemma_signed_bits(is_negative(b), (y - x) as nat);
    }
}

/// Where the library subtracts two whole numbers, the result is their
/// difference.
pub proof fn lemma_exact_difference(a: u64, b: u64)
    requires
        exact_difference(a, b) is Some,
    ensures
        integer_of(exact_difference(a, b)->0) == Some(integer_of(a)->0 - integer_of(b)->0),
{
    lemma_negated_integer(b);
    lemma_exact_sum(a, negated(b));
}

/// The number with the other sign stands for the whole number with the
/// other sign.
pub proof fn lemma_negated_integer(bits: u64)
    ensures
        integer_of(negated(bits)) == match integer_of(bits) {
            Some(n) => Some(-n),
            None => None,
        },
{
    assert(magnitude(negated(bits)) == magnitude(bits));
    assert(exponent(negated(bits)) == exponent(bits));
    assert(significand(negated(bits)) == significand(bits));
    lemma_integer_bound(bits);
}

/// Where the library multiplies two whole numbers, the result is their
/// product.
pub proof fn lemma_exact_product(a: u64, b: u64)
    requires
        exact_product(a, b) is Some,
    ensures
        integer_of(exact_product(a, b)->0) == Some(integer_of(a)->0 * integer_of(b)->0),
{
    lemma_whole_size(a);
    lemma_whole_size(b);
    let x = whole_size(a)->0;
    let y = whole_size(b)->0;
    lemma_signed_bits(is_negative(a) != is_negative(b), x * y);
    let p = integer_of(a)->0;
    let q = integer_of(b)->0;
    assert(p * q == (if is_negative(a) != is_negative(b) {
        -((x * y) as int)
    } else {
        (x * y) as int
    })) by (nonlinear_arith)
        requires
            p == (if is_negative(a) {
                -(x as int)
            } else {
                x as int
            }),
            q == (if is_negative(b) {
                -(y as int)
            } else {
                y as int
            }),
    ;
}

/// Where the library divides two whole numbers, the result times the
/// divisor is the dividend.
pub proof fn lemma_exact_quotient(a: u64, b: u64)
    requires
        exact_quotient(a, b) is Some,
    ensures
        integer_of(exact_quotient(a, b)->0) matches Some(q) && q * integer_of(b)->0 == integer_of(
            a,
        )->0,
{
    lemma_whole_size(a);
    lemma_whole_size(b);
    let x = whole_size(a)->0;
    let y = whole_size(b)->0;
    let size = x / y;
    lemma_signed_bits(is_negative(a) != is_negative(b), size);
    assert(size * y == x) by (nonlinear_arith)
        requires
            y > 0,
            x % y == 0,
            size == x / y,
    ;
    let p = integer_of(a)->0;
    let d = integer_of(b)->0;
    let q = integer_of(exact_quotient(a, b)->0)->0;
    assert(q * d == p) by (nonlinear_arith)
        requires
            size * y == x,
            p == (if is_negative(a) {
                -(x as int)
            } else {
                x as int
            }),
            d == (if is_negative(b) {
                -(y as int)
            } else {
                y as int
            }),
            q == (if is_negative(a) != is_negative(b) {
                -(size as int)
            } else {
                size as int
            }),
    ;
}

/// Where the library finds the remainder of two whole numbers, it is
/// smaller in size than the divisor, it is not of the other sign than the
/// dividend, and the dividend less the remainder is a multiple of the
/// divisor.
pub proof fn lemma_exact_remainder(a: u64, b: u64)
    requires
        exact_remainder(a, b) is Some,
    ensures
        integer_of(exact_remainder(a, b)->0) matches Some(r) && (exists|k: int|
            integer_of(a)->0 - r == #[trigger] (k * integer_of(b)->0)) && whole_size(
            exact_remainder(a, b)->0,
        )->0 < whole_size(b)->0 && is_negative(exact_remainder(a, b)->0) == is_negative(a),
{
    lemma_whole_size(a);
    lemma_whole_size(b);
    let x = whole_size(a)->0;
    let y = whole_size(b)->0;
    let size = x % y;
    lemma_signed_bits(is_negative(a), size);
    let p = integer_of(a)->0;
    let d = integer_of(b)->0;
    let r = integer_of(exact_remainder(a, b)->0)->0;
    let count = (x / y) as int;
    assert(x == count * y + size) by (nonlinear_arith)
        requires
            y > 0,
            count == x / y,
            size == x % y,
    ;
    let k = if is_negative(a) == is_negative(b) {
        count
    } else {
        -count
    };
    assert(p - r == k * d) by (nonlinear_arith)
        requires
            x == count * y + size,
            p == (if is_negative(a) {
                -(x as int)
            } else {
                x as int
            }),
            d == (if is_negative(b) {
                -(y as int)
            } else {
                y as int
            }),
            r == (if is_negative(a) {
                -(size as int)
            } else {
                size as int
            }),
            k == (if is_negative(a) == is_negative(b) {
                count
            } else {
                -count
            }),
    ;
}

} // verus!
