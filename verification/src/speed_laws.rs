//! Laws of reading speed levels.

use vstd::arithmetic::power::pow;
use vstd::arithmetic::power2::*;
use vstd::prelude::*;

use crate::speed::{
    all_digits, behind_digits, behind_whole, decimal_number, digit_run, digits_value, exponent,
    fraction_digits, has_minus, has_point, has_sign, is_digit, lemma_digit_run, lemma_pow10_adds,
    lemma_pow10_positive, lemma_zero_reaches, pow10, speed_level, unsigned, whole_digits,
    zero_speed, Decimal,
};
use crate::mqtt_laws::lemma_run_is_digits;
use crate::text::{digit_char, numeral};
use crate::text_laws::{digit_value, digits_in, value_in};

verus! {

/// A numeral is made of digits that stand for its number.
pub proof fn lemma_numeral(n: nat)
    ensures
        all_digits(numeral(n, 10)),
        numeral(n, 10).len() > 0,
        digits_value(numeral(n, 10)) == n,
    decreases n,
{
    let text = numeral(n, 10);
    if n < 10 {
        assert(text.drop_last() =~= Seq::empty());
        assert(digits_value(text.drop_last()) == 0);
        assert(text.last() == digit_char(n));
    } else {
        lemma_numeral(n / 10);
        assert(text.drop_last() =~= numeral(n / 10, 10));
        assert(text.last() == digit_char(n % 10));
        assert forall|i: int| 0 <= i < text.len() implies is_digit(#[trigger] text[i]) by {
            if i < text.len() - 1 {
                assert(text[i] == numeral(n / 10, 10)[i]);
            }
        }
    }
}

proof fn lemma_all_run(text: Seq<char>)
    requires
        all_digits(text),
    ensures
        digit_run(text) == text.len(),
    decreases text.len(),
{
    if text.len() > 0 {
        assert(is_digit(text[0]));
        let rest = text.drop_first();
        assert forall|i: int| 0 <= i < rest.len() implies is_digit(#[trigger] rest[i]) by {
            assert(rest[i] == text[i + 1]);
        }
        lemma_all_run(rest);
    }
}

/// Digits alone are read as their number.
pub proof fn law_digits_are_read(text: Seq<char>)
    requires
        all_digits(text),
        text.len() > 0,
    ensures
        decimal_number(text) == Some(
            Decimal { negative: false, digits: digits_value(text), scale: 0 },
        ),
{
    assert(is_digit(text[0]));
    assert(unsigned(text) == text);
    lemma_all_run(text);
    assert(whole_digits(text) =~= text);
    assert(behind_whole(text) =~= Seq::empty());
    assert(fraction_digits(text) =~= Seq::empty());
    assert(behind_digits(text) =~= Seq::empty());
    assert(exponent(behind_digits(text)) == Some(0int));
    assert(whole_digits(text) + fraction_digits(text) =~= text);
}

/// A whole number asks for the level of that number, brought within 1 to 6; so
/// a level that the bridge publishes is read back as that level.
pub proof fn law_whole_numbers(n: nat)
    requires
        n < 340282356779733661637539395458142568448,
    ensures
        speed_level(numeral(n, 10)) == Some(
            if n < 1 {
                1u8
            } else if n > 6 {
                6u8
            } else {
                n as u8
            },
        ),
        zero_speed(numeral(n, 10)) == (n == 0),
{
    lemma_numeral(n);
    law_digits_are_read(numeral(n, 10));
    let number = Decimal { negative: false, digits: n, scale: 0 };
    assert(pow10(0) == 1);
    assert(n * pow10(0) == n);
    assert(!number.reaches(340282356779733661637539395458142568448, 1));
}

/// A number that reaches a bound reaches every smaller one.
proof fn lemma_reaches_less(number: Decimal, a: nat, b: nat, c: nat, d: nat)
    requires
        number.reaches(a, b),
        b > 0,
        d > 0,
        c * b <= a * d,
    ensures
        number.reaches(c, d),
{
    let v = number.digits;
    if number.scale >= 0 {
        let w = v * pow10(number.scale as nat);
        assert(w * d >= c) by (nonlinear_arith)
            requires
                w * b >= a,
                c * b <= a * d,
                b > 0,
        {
            assert((w * d) * b == (w * b) * d);
            assert((w * b) * d >= a * d);
            assert((w * d) * b >= c * b);
        }
    } else {
        let w = pow10((-number.scale) as nat);
        assert(v * d >= c * w) by (nonlinear_arith)
            requires
                v * b >= a * w,
                c * b <= a * d,
                b > 0,
                d > 0,
                w >= 0,
        {
            assert((v * d) * b == (v * b) * d);
            assert((v * b) * d >= (a * w) * d);
            assert((a * w) * d == (a * d) * w);
            assert((a * d) * w >= (c * b) * w);
            assert((c * b) * w == (c * w) * b);
        }
    }
}

/// The level is the nearest one, up to rounding: level `l` means that the number
/// lies between `l - 1/2`, less 2^-22, and `l + 1/2`, with no bound below at
/// level 1 and none above at level 6.
pub proof fn law_level_is_nearest(number: Decimal)
    requires
        !number.negative,
    ensures
        1 <= number.level() <= 6,
        number.level() >= 2 ==> number.reaches(
            ((2 * number.level() - 1) * 0x20_0000 - 1) as nat,
            0x40_0000,
        ),
        number.level() <= 5 ==> !number.reaches((2 * number.level() + 1) as nat, 2),
{
    let level = number.level();
    let low = ((2 * level - 1) * 0x20_0000 - 1) as nat;
    let high = (2 * level + 1) as nat;
    if level == 6 {
        lemma_reaches_less(number, 23068671, 4194304, low, 0x40_0000);
    } else if level == 5 {
        lemma_reaches_less(number, 18874367, 4194304, low, 0x40_0000);
        if number.reaches(high, 2) {
            lemma_reaches_less(number, high, 2, 23068671, 4194304);
        }
    } else if level == 4 {
        lemma_reaches_less(number, 29360127, 8388608, low, 0x40_0000);
        if number.reaches(high, 2) {
            lemma_reaches_less(number, high, 2, 18874367, 4194304);
        }
    } else if level == 3 {
        lemma_reaches_less(number, 20971519, 8388608, low, 0x40_0000);
        if number.reaches(high, 2) {
            lemma_reaches_less(number, high, 2, 29360127, 8388608);
        }
    } else if level == 2 {
        lemma_reaches_less(number, 25165823, 16777216, low, 0x40_0000);
        if number.reaches(high, 2) {
            lemma_reaches_less(number, high, 2, 20971519, 8388608);
        }
    } else {
        if number.reaches(high, 2) {
            lemma_reaches_less(number, high, 2, 25165823, 16777216);
        }
    }
}

/// Whether a number reaches a bound, in units of any power of ten that divides
/// both.
proof fn lemma_reaches_in_units(number: Decimal, base: int, numerator: nat, denominator: nat)
    requires
        base <= number.scale,
        base <= 0,
    ensures
        number.reaches(numerator, denominator) == (number.digits * pow10(
            (number.scale - base) as nat,
        ) * denominator >= numerator * pow10((-base) as nat)),
{
    let v = number.digits;
    let whole = pow10((number.scale - base) as nat);
    let unit = pow10((-base) as nat);
    if number.scale >= 0 {
        let up = pow10(number.scale as nat);
        lemma_pow10_adds(number.scale as nat, (-base) as nat);
        lemma_pow10_positive((-base) as nat);
        assert((number.scale - base) as nat == number.scale as nat + (-base) as nat);
        assert((v * up * denominator >= numerator) == (v * whole * denominator >= numerator * unit))
            by (nonlinear_arith)
            requires
                whole == up * unit,
                unit >= 1,
        {
            assert(v * (up * unit) * denominator == (v * up * denominator) * unit);
        }
    } else {
        let down = pow10((-number.scale) as nat);
        lemma_pow10_adds((-number.scale) as nat, (number.scale - base) as nat);
        lemma_pow10_positive((number.scale - base) as nat);
        assert((-base) as nat == (-number.scale) as nat + (number.scale - base) as nat);
        assert((v * denominator >= numerator * down) == (v * whole * denominator >= numerator
            * unit)) by (nonlinear_arith)
            requires
                unit == down * whole,
                whole >= 1,
        {
            assert(v * whole * denominator == (v * denominator) * whole);
            assert(numerator * (down * whole) == (numerator * down) * whole);
        }
    }
}

/// A number in smaller units.
proof fn lemma_smaller_units(number: Decimal, base: int, smaller: int)
    requires
        smaller <= base <= number.scale,
    ensures
        number.digits * pow10((number.scale - smaller) as nat) == number.digits * pow10(
            (number.scale - base) as nat,
        ) * pow10((base - smaller) as nat),
{
    lemma_pow10_adds((number.scale - base) as nat, (base - smaller) as nat);
    assert((number.scale - smaller) as nat == (number.scale - base) as nat + (base
        - smaller) as nat);
    let (v, x, y) = (
        number.digits,
        pow10((number.scale - base) as nat),
        pow10((base - smaller) as nat),
    );
    assert(v * (x * y) == v * x * y) by (nonlinear_arith);
}

/// What a number reaches that is not negative, a larger one reaches.
proof fn lemma_reaches_more(low: Decimal, high: Decimal, numerator: nat, denominator: nat)
    requires
        !low.negative,
        !high.negative,
        low.at_most(high),
        low.reaches(numerator, denominator),
    ensures
        high.reaches(numerator, denominator),
{
    let base = if low.scale <= high.scale {
        low.scale
    } else {
        high.scale
    };
    let smaller = if base <= 0 {
        base
    } else {
        0
    };
    lemma_reaches_in_units(low, smaller, numerator, denominator);
    lemma_reaches_in_units(high, smaller, numerator, denominator);
    lemma_smaller_units(low, base, smaller);
    lemma_smaller_units(high, base, smaller);
    let a = low.digits * pow10((low.scale - base) as nat);
    let b = high.digits * pow10((high.scale - base) as nat);
    let unit = pow10((base - smaller) as nat);
    assert(a * unit * denominator <= b * unit * denominator) by (nonlinear_arith)
        requires
            a <= b,
    ;
}

/// A larger number never has a lower level.
pub proof fn law_level_is_monotone(low: Decimal, high: Decimal)
    requires
        low.at_most(high),
    ensures
        low.level() <= high.level(),
{
    if !low.negative && !high.negative {
        if low.reaches(23068671, 4194304) {
            lemma_reaches_more(low, high, 23068671, 4194304);
        }
        if low.reaches(18874367, 4194304) {
            lemma_reaches_more(low, high, 18874367, 4194304);
        }
        if low.reaches(29360127, 8388608) {
            lemma_reaches_more(low, high, 29360127, 8388608);
        }
        if low.reaches(20971519, 8388608) {
            lemma_reaches_more(low, high, 20971519, 8388608);
        }
        if low.reaches(25165823, 16777216) {
            lemma_reaches_more(low, high, 25165823, 16777216);
        }
    } else if !low.negative {
        // At most a number that is negative or zero, so zero.
        let base = if low.scale <= high.scale {
            low.scale
        } else {
            high.scale
        };
        let (v, w) = (low.digits, pow10((low.scale - base) as nat));
        lemma_pow10_positive((low.scale - base) as nat);
        assert(v == 0) by (nonlinear_arith)
            requires
                v * w <= 0,
                w >= 1,
        ;
        lemma_zero_reaches(low, 23068671, 4194304);
        lemma_zero_reaches(low, 18874367, 4194304);
        lemma_zero_reaches(low, 29360127, 8388608);
        lemma_zero_reaches(low, 20971519, 8388608);
        lemma_zero_reaches(low, 25165823, 16777216);
    }
}

/// Of two payloads with finite numbers in order, the second asks for no lower
/// level than the first.
pub proof fn law_larger_payloads_ask_for_no_less(low: Seq<char>, high: Seq<char>)
    requires
        decimal_number(low) is Some,
        decimal_number(high) is Some,
        decimal_number(low)->0.finite(),
        decimal_number(high)->0.finite(),
        decimal_number(low)->0.at_most(decimal_number(high)->0),
    ensures
        speed_level(low) is Some,
        speed_level(high) is Some,
        speed_level(low)->0 <= speed_level(high)->0,
{
    law_level_is_monotone(decimal_number(low)->0, decimal_number(high)->0);
}

/// Whether `text` is a sign or nothing.
pub open spec fn is_sign(text: Seq<char>) -> bool {
    text.len() == 0 || text == seq!['+'] || text == seq!['-']
}

/// The text of a power of ten: a marker, a sign and digits, or nothing.
pub open spec fn power_text(power: Option<(char, Seq<char>, Seq<char>)>) -> Seq<char> {
    match power {
        Some((marker, sign, digits)) => seq![marker] + sign + digits,
        None => Seq::empty(),
    }
}

/// The exponent of a power of ten.
pub open spec fn power_value(power: Option<(char, Seq<char>, Seq<char>)>) -> int {
    match power {
        Some((marker, sign, digits)) => if sign == seq!['-'] {
            -value_in(digits, 10)
        } else {
            value_in(digits, 10) as int
        },
        None => 0,
    }
}

/// Whether `text` is a sign or none, digits, a point with digits behind it or none,
/// and a power of ten or none: `e` or `E`, a sign or none and digits. There are
/// digits before the point or behind it.
pub open spec fn is_number(
    text: Seq<char>,
    sign: Seq<char>,
    whole: Seq<char>,
    point: bool,
    fraction: Seq<char>,
    power: Option<(char, Seq<char>, Seq<char>)>,
) -> bool {
    &&& text == sign + whole + (if point {
        seq!['.']
    } else {
        Seq::empty()
    }) + fraction + power_text(power)
    &&& is_sign(sign)
    &&& digits_in(whole, 10)
    &&& digits_in(fraction, 10)
    &&& point || fraction.len() == 0
    &&& whole.len() + fraction.len() > 0
    &&& power matches Some((marker, sign, digits)) ==> (marker == 'e' || marker == 'E') && is_sign(
        sign,
    ) && digits.len() > 0 && digits_in(digits, 10)
}

proof fn lemma_decimal_digits(text: Seq<char>)
    ensures
        digits_in(text, 10) <==> all_digits(text),
        all_digits(text) ==> value_in(text, 10) == digits_value(text),
    decreases text.len(),
{
    if digits_in(text, 10) {
        assert forall|i: int| 0 <= i < text.len() implies is_digit(#[trigger] text[i]) by {}
    }
    if all_digits(text) {
        assert forall|i: int| 0 <= i < text.len() implies ('0' <= #[trigger] text[i] <= '9' || 'A'
            <= text[i] <= 'F') && digit_value(text[i]) < 10 by {
            assert(is_digit(text[i]));
        }
        if text.len() > 0 {
            assert(is_digit(text[text.len() - 1]));
            assert forall|i: int| 0 <= i < text.len() - 1 implies is_digit(
                #[trigger] text.drop_last()[i],
            ) by {
                assert(is_digit(text[i]));
            }
            lemma_decimal_digits(text.drop_last());
        }
    }
}

proof fn lemma_signed(text: Seq<char>, sign: Seq<char>, body: Seq<char>)
    requires
        is_sign(sign),
        body.len() > 0,
        body[0] != '+',
        body[0] != '-',
        text == sign + body,
    ensures
        unsigned(text) == body,
        has_minus(text) == (sign == seq!['-']),
{
    assert(seq!['-'].len() == 1 && seq!['-'][0] == '-');
    assert(seq!['+'].len() == 1 && seq!['+'][0] == '+');
    if sign.len() == 0 {
        assert(text =~= body);
    } else {
        assert(text[0] == sign[0]);
        assert(text.drop_first() =~= body);
    }
}

/// A text with a sign or none in front.
proof fn lemma_sign_of(text: Seq<char>) -> (sign: Seq<char>)
    ensures
        is_sign(sign),
        text == sign + unsigned(text),
{
    if has_sign(text) {
        let sign = seq![text.first()];
        assert(text =~= sign + unsigned(text));
        sign
    } else {
        assert(text =~= Seq::<char>::empty() + unsigned(text));
        Seq::empty()
    }
}

proof fn lemma_power(power: Option<(char, Seq<char>, Seq<char>)>)
    requires
        power matches Some((marker, sign, digits)) ==> (marker == 'e' || marker == 'E') && is_sign(
            sign,
        ) && digits.len() > 0 && digits_in(digits, 10),
    ensures
        exponent(power_text(power)) == Some(power_value(power)),
{
    if let Some((marker, sign, digits)) = power {
        let tail = power_text(power);
        lemma_decimal_digits(digits);
        assert(is_digit(digits[0]));
        assert(tail.first() == marker);
        assert(tail.drop_first() =~= sign + digits);
        lemma_signed(sign + digits, sign, digits);
    }
}

/// Digits with something else behind them.
proof fn lemma_run(text: Seq<char>, digits: Seq<char>, behind: Seq<char>)
    requires
        text == digits + behind,
        all_digits(digits),
        behind.len() > 0 ==> !is_digit(behind[0]),
    ensures
        digit_run(text) == digits.len(),
        text.take(digits.len() as int) == digits,
        text.skip(digits.len() as int) == behind,
{
    assert forall|i: int| 0 <= i < digits.len() implies is_digit(#[trigger] text[i]) by {
        assert(text[i] == digits[i]);
    }
    if behind.len() > 0 {
        assert(text[digits.len() as int] == behind[0]);
    }
    lemma_digit_run(text, digits.len());
    assert(text.take(digits.len() as int) =~= digits);
    assert(text.skip(digits.len() as int) =~= behind);
}

proof fn lemma_digits_of_both(first: Seq<char>, second: Seq<char>)
    requires
        all_digits(first),
        all_digits(second),
    ensures
        all_digits(first + second),
{
    assert forall|i: int| 0 <= i < (first + second).len() implies is_digit(
        #[trigger] (first + second)[i],
    ) by {
        if i < first.len() {
            assert(is_digit(first[i]));
        } else {
            assert(is_digit(second[i - first.len()]));
        }
    }
}

/// A number is read as what it writes: its digits before and behind the point as
/// one number, times ten to the power that it gives, less the digits behind the
/// point; and it is negative where it has a minus sign.
pub proof fn law_numbers_are_read(
    text: Seq<char>,
    sign: Seq<char>,
    whole: Seq<char>,
    point: bool,
    fraction: Seq<char>,
    power: Option<(char, Seq<char>, Seq<char>)>,
)
    requires
        is_number(text, sign, whole, point, fraction, power),
    ensures
        decimal_number(text) == Some(
            Decimal {
                negative: sign == seq!['-'],
                digits: value_in(whole + fraction, 10),
                scale: power_value(power) - fraction.len(),
            },
        ),
{
    let tail = power_text(power);
    let rest = fraction + tail;
    let behind = if point {
        seq!['.'] + rest
    } else {
        rest
    };
    let body = whole + behind;
    assert(tail.len() > 0 ==> tail[0] == 'e' || tail[0] == 'E');
    lemma_decimal_digits(whole);
    lemma_decimal_digits(fraction);
    let dot = if point {
        seq!['.']
    } else {
        Seq::empty()
    };
    assert(behind =~= dot + fraction + tail);
    lemma_joined_parts(sign, whole, dot, fraction, tail);
    if !point {
        assert(rest =~= tail);
    } else {
        assert(behind[0] == '.');
        assert(behind.drop_first() =~= rest);
    }
    if whole.len() > 0 {
        assert(body[0] == whole[0]);
        assert(is_digit(whole[0]));
    } else {
        assert(body[0] == behind[0]);
    }
    lemma_signed(text, sign, body);
    lemma_run(body, whole, behind);
    assert(whole_digits(text) == whole && behind_whole(text) == behind);
    if point {
        lemma_run(rest, fraction, tail);
        assert(fraction_digits(text) == fraction && behind_digits(text) == tail);
    } else {
        assert(fraction_digits(text) =~= fraction);
        assert(behind_digits(text) == tail);
    }
    lemma_digits_of_both(whole, fraction);
    lemma_decimal_digits(whole + fraction);
    lemma_power(power);
}

/// Nothing but such a number is read as one.
pub proof fn law_only_numbers_are_read(text: Seq<char>)
    requires
        decimal_number(text) is Some,
    ensures
        exists|
            sign: Seq<char>,
            whole: Seq<char>,
            point: bool,
            fraction: Seq<char>,
            power: Option<(char, Seq<char>, Seq<char>)>,
        |
            #[trigger] is_number(text, sign, whole, point, fraction, power),
{
    let sign = lemma_sign_of(text);
    let whole = whole_digits(text);
    let point = has_point(text);
    let fraction = fraction_digits(text);
    let tail = behind_digits(text);
    let dot = if point {
        seq!['.']
    } else {
        Seq::empty()
    };
    lemma_parts(text, dot);
    let power = lemma_power_of(tail);
    lemma_joined_parts(sign, whole, dot, fraction, tail);
    assert(is_number(text, sign, whole, point, fraction, power));
}

/// A number without its sign is its digits, with the point between them, and what
/// comes behind them.
proof fn lemma_parts(text: Seq<char>, dot: Seq<char>)
    requires
        dot == (if has_point(text) {
            seq!['.']
        } else {
            Seq::empty()
        }),
    ensures
        unsigned(text) == whole_digits(text) + (dot + fraction_digits(text) + behind_digits(text)),
        digits_in(whole_digits(text), 10),
        digits_in(fraction_digits(text), 10),
        has_point(text) || fraction_digits(text).len() == 0,
{
    let body = unsigned(text);
    let behind = behind_whole(text);
    let rest = behind.drop_first();
    lemma_run_is_digits(body);
    lemma_run_is_digits(rest);
    assert(body =~= whole_digits(text) + behind);
    assert(behind =~= dot + fraction_digits(text) + behind_digits(text)) by {
        if has_point(text) {
            assert(rest =~= fraction_digits(text) + behind_digits(text));
            assert(behind =~= seq![behind.first()] + rest);
        }
    }
    assert(all_digits(whole_digits(text)));
    assert(all_digits(fraction_digits(text)));
    lemma_decimal_digits(whole_digits(text));
    lemma_decimal_digits(fraction_digits(text));
}

proof fn lemma_joined_parts(
    a: Seq<char>,
    b: Seq<char>,
    c: Seq<char>,
    d: Seq<char>,
    e: Seq<char>,
)
    ensures
        a + (b + (c + d + e)) == a + b + c + d + e,
{
    assert(a + (b + (c + d + e)) =~= a + b + c + d + e);
}

proof fn lemma_power_of(tail: Seq<char>) -> (power: Option<(char, Seq<char>, Seq<char>)>)
    requires
        exponent(tail) is Some,
    ensures
        power_text(power) == tail,
        power matches Some((marker, sign, digits)) ==> (marker == 'e' || marker == 'E') && is_sign(
            sign,
        ) && digits.len() > 0 && digits_in(digits, 10),
{
    if tail.len() == 0 {
        assert(tail =~= Seq::empty());
        None
    } else {
        let signed = tail.drop_first();
        let sign = lemma_sign_of(signed);
        lemma_decimal_digits(unsigned(signed));
        assert(tail =~= seq![tail.first()] + sign + unsigned(signed));
        Some((tail.first(), sign, unsigned(signed)))
    }
}

/// Whether `digits`, times ten to the power of `scale`, is at least
/// `numerator / denominator`.
pub open spec fn at_least(digits: nat, scale: int, numerator: int, denominator: int) -> bool {
    let up = if scale >= 0 {
        pow(10, scale as nat)
    } else {
        1
    };
    let down = if scale >= 0 {
        1
    } else {
        pow(10, (-scale) as nat)
    };
    digits * up * denominator >= numerator * down
}

proof fn lemma_pow10_is_pow(n: nat)
    ensures
        pow10(n) == pow(10, n),
    decreases n,
{
    reveal(pow);
    if n > 0 {
        lemma_pow10_is_pow((n - 1) as nat);
    }
}

/// What a number reaches is what it is at least, its sign left aside.
pub proof fn law_reaches(number: Decimal, numerator: nat, denominator: nat)
    ensures
        number.reaches(numerator, denominator) <==> at_least(
            number.digits,
            number.scale,
            numerator as int,
            denominator as int,
        ),
{
    if number.scale >= 0 {
        lemma_pow10_is_pow(number.scale as nat);
        assert(numerator * 1 == numerator);
    } else {
        lemma_pow10_is_pow((-number.scale) as nat);
        assert(number.digits * 1 == number.digits);
    }
}

/// Where the levels begin: each from the middle between a half and the
/// single-precision number below it on, so 2^-24 below 3/2, 2^-23 below 5/2 and 7/2,
/// and 2^-22 below 9/2 and 11/2. Negative numbers are at level 1.
pub proof fn law_levels_begin(number: Decimal)
    ensures
        ({
            let (v, s) = (number.digits, number.scale);
            let level = number.level();
            &&& 1 <= level <= 6
            &&& number.negative ==> level == 1
            &&& !number.negative ==> {
                &&& level >= 2 <==> at_least(v, s, 3 * 0x80_0000 - 1, 0x100_0000)
                &&& level >= 3 <==> at_least(v, s, 5 * 0x40_0000 - 1, 0x80_0000)
                &&& level >= 4 <==> at_least(v, s, 7 * 0x40_0000 - 1, 0x80_0000)
                &&& level >= 5 <==> at_least(v, s, 9 * 0x20_0000 - 1, 0x40_0000)
                &&& level >= 6 <==> at_least(v, s, 11 * 0x20_0000 - 1, 0x40_0000)
            }
        }),
{
    law_reaches(number, 25165823, 16777216);
    law_reaches(number, 20971519, 8388608);
    law_reaches(number, 29360127, 8388608);
    law_reaches(number, 18874367, 4194304);
    law_reaches(number, 23068671, 4194304);
    if number.reaches(23068671, 4194304) {
        lemma_reaches_less(number, 23068671, 4194304, 18874367, 4194304);
    }
    if number.reaches(18874367, 4194304) {
        lemma_reaches_less(number, 18874367, 4194304, 29360127, 8388608);
    }
    if number.reaches(29360127, 8388608) {
        lemma_reaches_less(number, 29360127, 8388608, 20971519, 8388608);
    }
    if number.reaches(20971519, 8388608) {
        lemma_reaches_less(number, 20971519, 8388608, 25165823, 16777216);
    }
}

/// A payload asks for a speed exactly where it is a number below 2^128 - 2^103, its
/// sign left aside: for the level of that number. It asks for speed zero exactly
/// where it is a number whose digits are zero.
pub proof fn law_payloads(text: Seq<char>)
    ensures
        speed_level(text) is Some <==> decimal_number(text) is Some && !at_least(
            decimal_number(text)->0.digits,
            decimal_number(text)->0.scale,
            pow2(128) - pow2(103),
            1,
        ),
        speed_level(text) is Some ==> speed_level(text) == Some(decimal_number(text)->0.level()),
        zero_speed(text) <==> decimal_number(text) is Some && decimal_number(text)->0.digits == 0,
{
    assert(pow2(128) - pow2(103) == 340282356779733661637539395458142568448) by {
        lemma2_to64();
        lemma2_to64_rest();
        lemma_pow2_adds(64, 64);
        lemma_pow2_adds(64, 39);
    }
    if let Some(number) = decimal_number(text) {
        law_reaches(number, 340282356779733661637539395458142568448, 1);
    }
}

} // verus!
