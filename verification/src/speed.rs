//! Decimal numbers as text, and the fan speed that one asks for.
//!
//! A number of any length is read exactly: `12.5e-1`, `.5`, `+3` or `5.`.

use vstd::prelude::*;

use crate::text::chars_of;

verus! {

/// Ten to the power of `n`.
pub open spec fn pow10(n: nat) -> nat
    decreases n,
{
    if n == 0 {
        1
    } else {
        10 * pow10((n - 1) as nat)
    }
}

/// Whether `c` is a decimal digit.
pub open spec fn is_digit(c: char) -> bool {
    '0' <= c <= '9'
}

/// Whether `text` is made of digits alone.
pub open spec fn all_digits(text: Seq<char>) -> bool {
    forall|i: int| 0 <= i < text.len() ==> is_digit(#[trigger] text[i])
}

/// The number that the digits `text` stand for.
pub open spec fn digits_value(text: Seq<char>) -> nat
    decreases text.len(),
{
    if text.len() == 0 {
        0
    } else {
        10 * digits_value(text.drop_last()) + (text.last() as int - '0' as int) as nat
    }
}

/// How many digits `text` starts with.
pub open spec fn digit_run(text: Seq<char>) -> nat
    decreases text.len(),
{
    if text.len() > 0 && is_digit(text.first()) {
        1 + digit_run(text.drop_first())
    } else {
        0
    }
}

/// Whether `text` starts with a sign.
pub open spec fn has_sign(text: Seq<char>) -> bool {
    text.len() > 0 && (text.first() == '+' || text.first() == '-')
}

/// Whether `text` starts with a minus sign.
pub open spec fn has_minus(text: Seq<char>) -> bool {
    text.len() > 0 && text.first() == '-'
}

/// `text` without a sign in front.
pub open spec fn unsigned(text: Seq<char>) -> Seq<char> {
    if has_sign(text) {
        text.drop_first()
    } else {
        text
    }
}

/// The exponent that `text` gives behind the digits of a number: nothing, or
/// `e` or `E`, an optional sign and digits.
pub open spec fn exponent(text: Seq<char>) -> Option<int> {
    if text.len() == 0 {
        Some(0)
    } else if text.first() == 'e' || text.first() == 'E' {
        let signed = text.drop_first();
        let digits = unsigned(signed);
        if digits.len() > 0 && all_digits(digits) {
            Some(
                if has_minus(signed) {
                    -digits_value(digits)
                } else {
                    digits_value(digits) as int
                },
            )
        } else {
            None
        }
    } else {
        None
    }
}

/// A decimal number: `digits`, times ten to the power of `scale`, with a sign.
pub struct Decimal {
    pub negative: bool,
    pub digits: nat,
    pub scale: int,
}

/// The digits of the number `text` before the point.
pub open spec fn whole_digits(text: Seq<char>) -> Seq<char> {
    let body = unsigned(text);
    body.take(digit_run(body) as int)
}

/// What comes behind the digits of the number `text` before the point.
pub open spec fn behind_whole(text: Seq<char>) -> Seq<char> {
    let body = unsigned(text);
    body.skip(digit_run(body) as int)
}

/// Whether the number `text` has a point.
pub open spec fn has_point(text: Seq<char>) -> bool {
    behind_whole(text).len() > 0 && behind_whole(text).first() == '.'
}

/// The digits of the number `text` behind the point.
pub open spec fn fraction_digits(text: Seq<char>) -> Seq<char> {
    let behind = behind_whole(text).drop_first();
    if has_point(text) {
        behind.take(digit_run(behind) as int)
    } else {
        Seq::empty()
    }
}

/// What comes behind all these digits of the number `text`.
pub open spec fn behind_digits(text: Seq<char>) -> Seq<char> {
    let behind = behind_whole(text).drop_first();
    if has_point(text) {
        behind.skip(digit_run(behind) as int)
    } else {
        behind_whole(text)
    }
}

/// The number that `text` writes: an optional sign, digits with at most one
/// point among or around them, and an optional exponent.
pub open spec fn decimal_number(text: Seq<char>) -> Option<Decimal> {
    let digits = whole_digits(text) + fraction_digits(text);
    if digits.len() == 0 {
        None
    } else {
        match exponent(behind_digits(text)) {
            Some(exponent) => Some(
                Decimal {
                    negative: has_minus(text),
                    digits: digits_value(digits),
                    scale: exponent - fraction_digits(text).len(),
                },
            ),
            None => None,
        }
    }
}

impl Decimal {
    /// Whether the number, leaving aside its sign, is at least
    /// `numerator / denominator`.
    pub open spec fn reaches(self, numerator: nat, denominator: nat) -> bool {
        if self.scale >= 0 {
            self.digits * pow10(self.scale as nat) * denominator >= numerator
        } else {
            self.digits * denominator >= numerator * pow10((-self.scale) as nat)
        }
    }

    /// The number in units of ten to the power of `base`, which is at most its
    /// scale.
    pub open spec fn in_units(self, base: int) -> int {
        let units = self.digits * pow10((self.scale - base) as nat);
        if self.negative {
            -units
        } else {
            units as int
        }
    }

    /// Whether the number is at most the other.
    pub open spec fn at_most(self, other: Decimal) -> bool {
        let base = if self.scale <= other.scale {
            self.scale
        } else {
            other.scale
        };
        self.in_units(base) <= other.in_units(base)
    }

    /// Whether the number has a finite nearest single-precision number: it is
    /// below the middle between the largest of these, 2^128 - 2^104, and 2^128.
    pub open spec fn finite(self) -> bool {
        !self.reaches(340282356779733661637539395458142568448, 1)
    }

    /// The speed level nearest to the number. The number counts as its nearest
    /// single-precision number, so a half is reached from the middle between
    /// it and the single-precision number below: that is 2^-24 below 3/2, 2^-23
    /// below 5/2 and 7/2, and 2^-22 below 9/2 and 11/2.
    pub open spec fn level(self) -> u8 {
        if self.negative {
            1
        } else if self.reaches(23068671, 4194304) {
            6
        } else if self.reaches(18874367, 4194304) {
            5
        } else if self.reaches(29360127, 8388608) {
            4
        } else if self.reaches(20971519, 8388608) {
            3
        } else if self.reaches(25165823, 16777216) {
            2
        } else {
            1
        }
    }
}

/// The speed level that a payload asks for: none where it is no number, or too
/// large for a single-precision number.
pub open spec fn speed_level(text: Seq<char>) -> Option<u8> {
    match decimal_number(text) {
        Some(number) if number.finite() => Some(number.level()),
        _ => None,
    }
}

/// Whether a payload asks for speed zero.
pub open spec fn zero_speed(text: Seq<char>) -> bool {
    match decimal_number(text) {
        Some(number) => number.digits == 0,
        None => false,
    }
}

/// A power of ten is at least one.
pub proof fn lemma_pow10_positive(n: nat)
    ensures
        pow10(n) >= 1,
    decreases n,
{
    if n > 0 {
        lemma_pow10_positive((n - 1) as nat);
    }
}

/// Powers of ten multiply by adding their exponents.
pub proof fn lemma_pow10_adds(a: nat, b: nat)
    ensures
        pow10(a + b) == pow10(a) * pow10(b),
    decreases b,
{
    if b == 0 {
        assert(pow10(a) * 1 == pow10(a)) by (nonlinear_arith);
    } else {
        assert((a + b - 1) as nat == a + (b - 1) as nat);
        lemma_pow10_adds(a, (b - 1) as nat);
        let (x, y) = (pow10(a), pow10((b - 1) as nat));
        assert(10 * (x * y) == x * (10 * y)) by (nonlinear_arith);
    }
}

proof fn lemma_pow10_increases(a: nat, b: nat)
    requires
        a <= b,
    ensures
        pow10(a) <= pow10(b),
{
    lemma_pow10_adds(a, (b - a) as nat);
    lemma_pow10_positive(a);
    lemma_pow10_positive((b - a) as nat);
    let (x, y) = (pow10(a), pow10((b - a) as nat));
    assert(x <= x * y) by (nonlinear_arith)
        requires
            x >= 1,
            y >= 1,
    ;
}

pub(crate) proof fn lemma_digit_run(text: Seq<char>, count: nat)
    requires
        count <= text.len(),
        forall|i: int| 0 <= i < count ==> is_digit(#[trigger] text[i]),
        count < text.len() ==> !is_digit(text[count as int]),
    ensures
        digit_run(text) == count,
    decreases count,
{
    if count > 0 {
        assert(is_digit(text[0]));
        let rest = text.drop_first();
        assert forall|i: int| 0 <= i < count - 1 implies is_digit(#[trigger] rest[i]) by {
            assert(rest[i] == text[i + 1]);
        }
        lemma_digit_run(rest, (count - 1) as nat);
    }
}

proof fn lemma_all_digits_join(first: Seq<char>, second: Seq<char>)
    requires
        all_digits(first),
        all_digits(second),
    ensures
        all_digits(first + second),
{
    assert forall|i: int| 0 <= i < (first + second).len() implies is_digit(
        #[trigger] (first + second)[i],
    ) by {
        if i < first.len() {
            assert(is_digit(first[i]));
        } else {
            assert(is_digit(second[i - first.len()]));
        }
    }
}

proof fn lemma_digits_join(first: Seq<char>, second: Seq<char>)
    ensures
        digits_value(first + second) == digits_value(first) * pow10(second.len()) + digits_value(
            second,
        ),
    decreases second.len(),
{
    if second.len() == 0 {
        assert(first + second =~= first);
        assert(digits_value(first) * 1 == digits_value(first)) by (nonlinear_arith);
    } else {
        lemma_digits_join(first, second.drop_last());
        assert((first + second).drop_last() =~= first + second.drop_last());
        let (x, y) = (digits_value(first), pow10((second.len() - 1) as nat));
        assert(10 * (x * y) == x * (10 * y)) by (nonlinear_arith);
    }
}

proof fn lemma_digits_bound(text: Seq<char>)
    requires
        all_digits(text),
    ensures
        digits_value(text) < pow10(text.len()),
    decreases text.len(),
{
    if text.len() > 0 {
        assert(is_digit(text[text.len() - 1]));
        assert(all_digits(text.drop_last()));
        lemma_digits_bound(text.drop_last());
    }
}

/// Zeros in front change no number.
proof fn lemma_leading_zeros(text: Seq<char>, zeros: nat)
    requires
        zeros <= text.len(),
        forall|i: int| 0 <= i < zeros ==> #[trigger] text[i] == '0',
    ensures
        digits_value(text) == digits_value(text.skip(zeros as int)),
{
    assert(text.take(zeros as int) + text.skip(zeros as int) =~= text);
    lemma_digits_join(text.take(zeros as int), text.skip(zeros as int));
    lemma_zeros(text.take(zeros as int));
}

proof fn lemma_zeros(text: Seq<char>)
    requires
        forall|i: int| 0 <= i < text.len() ==> #[trigger] text[i] == '0',
    ensures
        digits_value(text) == 0,
    decreases text.len(),
{
    if text.len() > 0 {
        assert(text[text.len() - 1] == '0');
        assert forall|i: int| 0 <= i < text.len() - 1 implies #[trigger] text.drop_last()[i]
            == '0' by {
            assert(text[i] == '0');
        }
        lemma_zeros(text.drop_last());
    }
}

/// Digits that start with no zero.
proof fn lemma_digits_at_least(text: Seq<char>)
    requires
        all_digits(text),
        text.len() > 0,
        text.first() != '0',
    ensures
        digits_value(text) >= pow10((text.len() - 1) as nat),
{
    let head = text.take(1);
    assert(head + text.skip(1) =~= text);
    lemma_digits_join(head, text.skip(1));
    assert(is_digit(text[0]));
    assert(head.drop_last() =~= Seq::empty());
    assert(digits_value(head) >= 1) by {
        assert(digits_value(head.drop_last()) == 0);
        assert(head.last() == text[0]);
    }
    let (x, y) = (digits_value(head), pow10((text.len() - 1) as nat));
    assert(x * y >= y) by (nonlinear_arith)
        requires
            x >= 1,
    ;
}


/// The first `count` digits of `text`, with zeros behind it where it is shorter.
spec fn leading(text: Seq<char>, count: nat) -> nat {
    if count <= text.len() {
        digits_value(text.take(count as int))
    } else {
        digits_value(text) * pow10((count - text.len()) as nat)
    }
}

/// One more leading digit.
proof fn lemma_leading_step(text: Seq<char>, count: nat)
    ensures
        leading(text, count + 1) == 10 * leading(text, count) + (if count < text.len() {
            text[count as int] as int - '0' as int
        } else {
            0
        }) as nat,
{
    if count < text.len() {
        assert(text.take(count as int + 1).drop_last() =~= text.take(count as int));
    } else {
        let more = (count - text.len()) as nat;
        let (x, y) = (digits_value(text), pow10(more));
        assert((count + 1 - text.len()) as nat == more + 1);
        assert(pow10(more + 1) == 10 * y);
        assert(x * (10 * y) == 10 * (x * y)) by (nonlinear_arith);
        if count == text.len() {
            assert(text.take(count as int) =~= text);
            assert(x * 1 == x) by (nonlinear_arith);
        }
    }
}

/// A number with `place` digits before the point is at least a bound exactly
/// where its leading `count` digits are, as digits of the bound.
proof fn lemma_reaches_leading(
    number: Decimal,
    text: Seq<char>,
    place: nat,
    count: nat,
    bound: nat,
    numerator: nat,
    denominator: nat,
)
    requires
        all_digits(text),
        number.digits == digits_value(text),
        number.scale == place - text.len(),
        place <= count,
        denominator > 0,
        numerator * pow10((count - place) as nat) == bound * denominator,
    ensures
        number.reaches(numerator, denominator) == (leading(text, count) >= bound),
{
    let v = number.digits;
    let len = text.len();
    let shift = pow10((count - place) as nat);
    lemma_pow10_positive((count - place) as nat);
    if number.scale >= 0 {
        // The digits with zeros behind them are the leading digits.
        let up = pow10(number.scale as nat);
        assert(count - len == number.scale + (count - place));
        lemma_pow10_adds(number.scale as nat, (count - place) as nat);
        let lead = v * (up * shift);
        assert(leading(text, count) == lead) by {
            if count == len {
                assert(text.take(count as int) =~= text);
                assert(up * shift == 1);
            }
            assert(pow10((count - len) as nat) == up * shift);
        }
        assert((v * up * denominator >= numerator) == (v * (up * shift) >= bound)) by (nonlinear_arith)
            requires
                numerator * shift == bound * denominator,
                denominator > 0,
                shift >= 1,
        {
            assert((v * up * denominator) * shift == (v * (up * shift)) * denominator);
        }
    } else {
        let down = pow10((-number.scale) as nat);
        lemma_pow10_positive((-number.scale) as nat);
        if count >= len {
            let up = pow10((count - len) as nat);
            lemma_pow10_adds((count - len) as nat, (-number.scale) as nat);
            assert((count - len) + (-number.scale) == count - place);
            assert(shift == up * down);
            assert(leading(text, count) == v * up) by {
                if count == len {
                    assert(text.take(count as int) =~= text);
                    assert(v * 1 == v) by (nonlinear_arith);
                }
            }
            lemma_pow10_positive((count - len) as nat);
            assert((v * denominator >= numerator * down) == (v * up >= bound)) by (nonlinear_arith)
                requires
                    numerator * (up * down) == bound * denominator,
                    denominator > 0,
                    up >= 1,
            {
                assert((v * denominator) * up == (v * up) * denominator);
                assert((numerator * down) * up == numerator * (up * down));
            }
        } else {
            let cut = (len - count) as nat;
            let low = pow10(cut);
            let head = text.take(count as int);
            let tail = text.skip(count as int);
            let lead = digits_value(head);
            assert(head + tail =~= text);
            lemma_digits_join(head, tail);
            assert(all_digits(tail));
            lemma_digits_bound(tail);
            lemma_pow10_adds((count - place) as nat, cut);
            assert((count - place) + cut == -number.scale);
            assert(down == shift * low);
            let rest = digits_value(tail);
            assert((v * denominator >= numerator * down) == (lead >= bound)) by (nonlinear_arith)
                requires
                    numerator * shift == bound * denominator,
                    down == shift * low,
                    v == lead * low + rest,
                    rest < low,
                    denominator > 0,
            {
                assert(numerator * down == (numerator * shift) * low);
                assert(numerator * down == (bound * low) * denominator);
                if lead >= bound {
                    assert(lead * low >= bound * low);
                } else {
                    assert((lead + 1) * low <= bound * low);
                    assert(v < bound * low);
                }
            }
        }
    }
}

/// A number with more than `q` digits before the point is at least what ten to
/// the power of `q` is at least.
proof fn lemma_reaches(
    number: Decimal,
    text: Seq<char>,
    q: nat,
    numerator: nat,
    denominator: nat,
)
    requires
        all_digits(text),
        text.len() > 0,
        text.first() != '0',
        number.digits == digits_value(text),
        text.len() - 1 + number.scale >= q,
        pow10(q) * denominator >= numerator,
    ensures
        number.reaches(numerator, denominator),
{
    let v = number.digits;
    let len = (text.len() - 1) as nat;
    let least = pow10(q);
    lemma_digits_at_least(text);
    if number.scale >= 0 {
        let up = pow10(number.scale as nat);
        lemma_pow10_adds(len, number.scale as nat);
        lemma_pow10_increases(q, (len + number.scale) as nat);
        let floor = pow10(len);
        assert(v * up * denominator >= numerator) by (nonlinear_arith)
            requires
                v >= floor,
                floor * up >= least,
                least * denominator >= numerator,
                denominator >= 0,
                up >= 0,
        {
            assert(v * up >= floor * up);
            assert(v * up * denominator >= least * denominator);
        }
    } else {
        let down = pow10((-number.scale) as nat);
        let high = pow10((len + number.scale) as nat);
        lemma_pow10_adds((len + number.scale) as nat, (-number.scale) as nat);
        lemma_pow10_increases(q, (len + number.scale) as nat);
        assert(v * denominator >= numerator * down) by (nonlinear_arith)
            requires
                v >= high * down,
                high >= least,
                least * denominator >= numerator,
                denominator >= 0,
                down >= 0,
        {
            assert(high * down >= least * down);
            assert(v * denominator >= (least * down) * denominator);
            assert((least * down) * denominator == (least * denominator) * down);
            assert((least * denominator) * down >= numerator * down);
        }
    }
}

/// A number with at most `q` digits before the point is below what ten to the
/// power of `q` is at most.
proof fn lemma_stays_below(
    number: Decimal,
    text: Seq<char>,
    q: nat,
    numerator: nat,
    denominator: nat,
)
    requires
        all_digits(text),
        number.digits == digits_value(text),
        text.len() + number.scale <= q,
        pow10(q) * denominator <= numerator,
        denominator > 0,
    ensures
        !number.reaches(numerator, denominator),
{
    let v = number.digits;
    let most = pow10(q);
    lemma_digits_bound(text);
    if number.scale >= 0 {
        let up = pow10(number.scale as nat);
        lemma_pow10_positive(number.scale as nat);
        lemma_pow10_adds(text.len(), number.scale as nat);
        lemma_pow10_increases((text.len() + number.scale) as nat, q);
        let ceiling = pow10(text.len());
        assert(v * up * denominator < numerator) by (nonlinear_arith)
            requires
                v < ceiling,
                ceiling * up <= most,
                most * denominator <= numerator,
                denominator > 0,
                up >= 1,
        {
            assert(v * up < ceiling * up);
            assert(v * up * denominator < most * denominator);
        }
    } else {
        let down = pow10((-number.scale) as nat);
        lemma_pow10_positive((-number.scale) as nat);
        lemma_pow10_increases(text.len(), (q - number.scale) as nat);
        lemma_pow10_adds(q, (-number.scale) as nat);
        assert(v * denominator < numerator * down) by (nonlinear_arith)
            requires
                v < most * down,
                most * denominator <= numerator,
                denominator > 0,
                down >= 1,
        {
            assert(v * denominator < (most * down) * denominator);
            assert((most * down) * denominator == (most * denominator) * down);
            assert((most * denominator) * down <= numerator * down);
        }
    }
}

/// A bound on exponents beyond which no number of a length that a machine can
/// hold is anywhere near a speed.
const FAR: i128 = 1_000_000_000_000_000_000_000_000;

/// `exponent`, or the bound in its direction where it is farther out.
spec fn bounded(exponent: int) -> int {
    if exponent > FAR {
        FAR as int
    } else if exponent < -FAR {
        -FAR
    } else {
        exponent
    }
}

/// The parts of a decimal number.
struct Scanned {
    negative: bool,
    /// The digits before and behind the point.
    digits: Vec<char>,
    /// How many of them stand before the point.
    whole: usize,
    /// The exponent, within bounds.
    exponent: i128,
}

impl Scanned {
    spec fn stands_for(self, number: Decimal) -> bool {
        &&& all_digits(self.digits@)
        &&& self.digits@.len() > 0
        &&& self.whole <= self.digits@.len()
        &&& number.negative == self.negative
        &&& number.digits == digits_value(self.digits@)
        &&& self.exponent == bounded(number.scale + (self.digits@.len() - self.whole))
    }
}

/// The end of the digits in `chars` from `start` on.
fn digits_end(chars: &Vec<char>, start: usize) -> (end: usize)
    requires
        start <= chars@.len(),
    ensures
        start <= end <= chars@.len(),
        end - start == digit_run(chars@.skip(start as int)),
        all_digits(chars@.subrange(start as int, end as int)),
        end < chars@.len() ==> !is_digit(chars@[end as int]),
{
    let mut end: usize = start;
    while end < chars.len() && '0' <= chars[end] && chars[end] <= '9'
        invariant
            start <= end <= chars@.len(),
            forall|i: int| start <= i < end ==> is_digit(#[trigger] chars@[i]),
        decreases chars@.len() - end,
    {
        end = end + 1;
    }
    proof {
        let rest = chars@.skip(start as int);
        assert forall|i: int| 0 <= i < end - start implies is_digit(#[trigger] rest[i]) by {
            assert(rest[i] == chars@[start + i]);
        }
        lemma_digit_run(rest, (end - start) as nat);
    }
    end
}

/// The exponent in `chars` from `start` on, within bounds.
fn scan_exponent(chars: &Vec<char>, start: usize) -> (found: Option<i128>)
    requires
        start <= chars@.len(),
    ensures
        match exponent(chars@.skip(start as int)) {
            Some(exponent) => found == Some(bounded(exponent) as i128),
            None => found is None,
        },
{
    let ghost text = chars@.skip(start as int);
    if start == chars.len() {
        return Some(0);
    }
    if chars[start] != 'e' && chars[start] != 'E' {
        return None;
    }
    let signed: usize = start + 1;
    assert(text.drop_first() =~= chars@.skip(signed as int));
    let sign: bool = signed < chars.len() && (chars[signed] == '+' || chars[signed] == '-');
    let minus: bool = signed < chars.len() && chars[signed] == '-';
    let first: usize = if sign {
        signed + 1
    } else {
        signed
    };
    let ghost digits = unsigned(chars@.skip(signed as int));
    assert(digits =~= chars@.skip(first as int));
    if first == chars.len() {
        return None;
    }
    let mut value: i128 = 0;
    let mut i: usize = first;
    assert(digits.take(0) =~= Seq::empty());
    while i < chars.len()
        invariant
            first <= i <= chars@.len(),
            digits == chars@.skip(first as int),
            text == chars@.skip(start as int),
            text.len() > 0,
            text.first() == 'e' || text.first() == 'E',
            digits == unsigned(text.drop_first()),
            all_digits(digits.take(i - first)),
            0 <= value <= FAR,
            value == bounded(digits_value(digits.take(i - first)) as int),
        decreases chars@.len() - i,
    {
        let c: char = chars[i];
        let ghost taken = digits.take(i - first);
        let ghost more = digits.take(i - first + 1);
        assert(more.drop_last() =~= taken);
        assert(more.last() == c);
        if c < '0' || '9' < c {
            assert(!is_digit(digits[i - first]));
            return None;
        }
        assert(all_digits(more)) by {
            assert forall|j: int| 0 <= j < more.len() implies is_digit(#[trigger] more[j]) by {
                if j < taken.len() {
                    assert(more[j] == taken[j]);
                }
            }
        }
        let next: i128 = 10 * value + (c as u8 - 48) as i128;
        value = if next > FAR {
            FAR
        } else {
            next
        };
        i = i + 1;
    }
    assert(digits.take(i - first) =~= digits);
    if minus {
        Some(-value)
    } else {
        Some(value)
    }
}

/// Appends the characters of `chars` from `start` to `end`.
fn append_range(to: &mut Vec<char>, chars: &Vec<char>, start: usize, end: usize)
    requires
        start <= end <= chars@.len(),
    ensures
        final(to)@ == old(to)@ + chars@.subrange(start as int, end as int),
{
    let mut i: usize = start;
    assert(to@ =~= old(to)@ + chars@.subrange(start as int, i as int));
    while i < end
        invariant
            start <= i <= end <= chars@.len(),
            to@ == old(to)@ + chars@.subrange(start as int, i as int),
        decreases end - i,
    {
        to.push(chars[i]);
        i = i + 1;
        assert(to@ =~= old(to)@ + chars@.subrange(start as int, i as int));
    }
}

/// The digits of the number `chars`, how many of them stand before the point,
/// and where they end.
fn scan_digits(chars: &Vec<char>) -> (found: (Vec<char>, usize, usize))
    ensures
        found.0@ == whole_digits(chars@) + fraction_digits(chars@),
        all_digits(found.0@),
        found.1 == whole_digits(chars@).len(),
        found.2 <= chars@.len(),
        chars@.skip(found.2 as int) == behind_digits(chars@),
{
    let sign: bool = chars.len() > 0 && (chars[0] == '+' || chars[0] == '-');
    let start: usize = if sign {
        1
    } else {
        0
    };
    assert(unsigned(chars@) =~= chars@.skip(start as int));
    let point: usize = digits_end(chars, start);
    assert(whole_digits(chars@) =~= chars@.subrange(start as int, point as int));
    assert(behind_whole(chars@) =~= chars@.skip(point as int));
    let mut digits: Vec<char> = Vec::new();
    append_range(&mut digits, chars, start, point);
    assert(digits@ =~= whole_digits(chars@));
    if point < chars.len() && chars[point] == '.' {
        let behind: usize = point + 1;
        assert(behind_whole(chars@).drop_first() =~= chars@.skip(behind as int));
        let end: usize = digits_end(chars, behind);
        assert(fraction_digits(chars@) =~= chars@.subrange(behind as int, end as int));
        assert(behind_digits(chars@) =~= chars@.skip(end as int));
        append_range(&mut digits, chars, behind, end);
        proof {
            lemma_all_digits_join(whole_digits(chars@), fraction_digits(chars@));
        }
        (digits, point - start, end)
    } else {
        assert(digits@ =~= whole_digits(chars@) + fraction_digits(chars@));
        (digits, point - start, point)
    }
}

/// The parts of the number that `text` writes.
fn scan(text: &str) -> (found: Option<Scanned>)
    ensures
        match decimal_number(text@) {
            Some(number) => found is Some && found->0.stands_for(number),
            None => found is None,
        },
{
    let chars: Vec<char> = chars_of(text);
    let negative: bool = chars.len() > 0 && chars[0] == '-';
    let (digits, whole, end): (Vec<char>, usize, usize) = scan_digits(&chars);
    if digits.len() == 0 {
        return None;
    }
    match scan_exponent(&chars, end) {
        Some(exponent) => Some(Scanned { negative, digits, whole, exponent }),
        None => None,
    }
}

/// The first `count` digits behind the leading zeros, with zeros behind them
/// where they are fewer.
fn leading_digits(digits: &Vec<char>, zeros: usize, count: usize) -> (value: u128)
    requires
        all_digits(digits@),
        zeros <= digits@.len(),
        count <= 38,
    ensures
        value == leading(digits@.skip(zeros as int), count as nat),
{
    let ghost text = digits@.skip(zeros as int);
    let mut value: u128 = 0;
    let mut i: usize = 0;
    assert(text.take(0) =~= Seq::empty());
    assert(pow10(38) == 100_000_000_000_000_000_000_000_000_000_000_000_000) by {
        reveal_with_fuel(pow10, 39);
    }
    while i < count
        invariant
            i <= count <= 38,
            zeros <= digits@.len(),
            all_digits(digits@),
            text == digits@.skip(zeros as int),
            value == leading(text, i as nat),
            value < pow10(i as nat),
            pow10(38) == 100_000_000_000_000_000_000_000_000_000_000_000_000,
        decreases count - i,
    {
        proof {
            lemma_leading_step(text, i as nat);
            lemma_pow10_increases(i as nat + 1, 38);
        }
        let next: u128 = if i < digits.len() - zeros {
            assert(text[i as int] == digits@[zeros + i]);
            assert(is_digit(digits@[zeros + i]));
            (digits[zeros + i] as u8 - 48) as u128
        } else {
            0
        };
        assert(pow10(i as nat + 1) == 10 * pow10(i as nat));
        value = 10 * value + next;
        i = i + 1;
    }
    value
}

/// Zero reaches no bound above zero.
pub proof fn lemma_zero_reaches(number: Decimal, numerator: nat, denominator: nat)
    requires
        number.digits == 0,
        numerator > 0,
    ensures
        !number.reaches(numerator, denominator),
{
    if number.scale >= 0 {
        let up = pow10(number.scale as nat);
        assert(0 * up * denominator == 0) by (nonlinear_arith);
    } else {
        let down = pow10((-number.scale) as nat);
        lemma_pow10_positive((-number.scale) as nat);
        assert(0 * denominator == 0) by (nonlinear_arith);
        assert(numerator * down > 0) by (nonlinear_arith)
            requires
                numerator > 0,
                down >= 1,
        ;
    }
}

/// Which numbers have a finite nearest single-precision number, by the digits
/// before the point.
proof fn lemma_finite(number: Decimal, text: Seq<char>)
    requires
        all_digits(text),
        text.len() > 0,
        text.first() != '0',
        number.digits == digits_value(text),
    ensures
        ({
            let place = text.len() + number.scale;
            &&& place >= 40 ==> !number.finite()
            &&& place == 39 ==> (number.finite() <==> leading(text, 39)
                < 340282356779733661637539395458142568448)
            &&& place <= 38 ==> number.finite()
        }),
{
    let place = text.len() + number.scale;
    let bound: nat = 340282356779733661637539395458142568448;
    assert(pow10(39) == 1_000_000_000_000_000_000_000_000_000_000_000_000_000
        && pow10(38) == 100_000_000_000_000_000_000_000_000_000_000_000_000) by {
        reveal_with_fuel(pow10, 40);
    }
    if place >= 40 {
        lemma_reaches(number, text, 39, bound, 1);
    } else if place == 39 {
        assert(bound * pow10(0) == bound * 1);
        lemma_reaches_leading(number, text, 39, 39, bound, bound, 1);
    } else {
        lemma_stays_below(number, text, 38, bound, 1);
    }
}

/// The level of a number that is not negative, by the digits before the point
/// and the leading digits.
proof fn lemma_level(number: Decimal, text: Seq<char>)
    requires
        all_digits(text),
        text.len() > 0,
        text.first() != '0',
        number.digits == digits_value(text),
        !number.negative,
    ensures
        ({
            let place = text.len() + number.scale;
            let lead = leading(text, 25);
            &&& place >= 2 ==> number.level() == 6
            &&& place <= 0 ==> number.level() == 1
            &&& place == 1 ==> number.level() == (if lead >= 5499999761581420898437500 {
                6u8
            } else if lead >= 4499999761581420898437500 {
                5
            } else if lead >= 3499999880790710449218750 {
                4
            } else if lead >= 2499999880790710449218750 {
                3
            } else if lead >= 1499999940395355224609375 {
                2
            } else {
                1
            })
        }),
{
    let place = text.len() + number.scale;
    assert(pow10(0) == 1 && pow10(1) == 10 && pow10(24) == 1_000_000_000_000_000_000_000_000) by {
        reveal_with_fuel(pow10, 25);
    }
    if place >= 2 {
        lemma_reaches(number, text, 1, 23068671, 4194304);
    } else if place <= 0 {
        lemma_stays_below(number, text, 0, 23068671, 4194304);
        lemma_stays_below(number, text, 0, 18874367, 4194304);
        lemma_stays_below(number, text, 0, 29360127, 8388608);
        lemma_stays_below(number, text, 0, 20971519, 8388608);
        lemma_stays_below(number, text, 0, 25165823, 16777216);
    } else {
        lemma_reaches_leading(number, text, 1, 25, 5499999761581420898437500, 23068671, 4194304);
        lemma_reaches_leading(number, text, 1, 25, 4499999761581420898437500, 18874367, 4194304);
        lemma_reaches_leading(number, text, 1, 25, 3499999880790710449218750, 29360127, 8388608);
        lemma_reaches_leading(number, text, 1, 25, 2499999880790710449218750, 20971519, 8388608);
        lemma_reaches_leading(number, text, 1, 25, 1499999940395355224609375, 25165823, 16777216);
    }
}

/// How many zeros `digits` starts with.
fn leading_zeros(digits: &Vec<char>) -> (zeros: usize)
    ensures
        zeros <= digits@.len(),
        forall|i: int| 0 <= i < zeros ==> #[trigger] digits@[i] == '0',
        zeros < digits@.len() ==> digits@[zeros as int] != '0',
{
    let mut zeros: usize = 0;
    while zeros < digits.len() && digits[zeros] == '0'
        invariant
            zeros <= digits@.len(),
            forall|i: int| 0 <= i < zeros ==> #[trigger] digits@[i] == '0',
        decreases digits@.len() - zeros,
    {
        zeros = zeros + 1;
    }
    zeros
}

/// The speed level that a payload asks for, from 1 to 6: the one nearest to the
/// number that it writes.
pub fn parse_speed_level(payload: &str) -> (level: Option<u8>)
    ensures
        level == speed_level(payload@),
        level matches Some(level) ==> 1 <= level <= 6,
{
    let scanned: Scanned = match scan(payload) {
        Some(scanned) => scanned,
        None => {
            return None;
        },
    };
    let digits: &Vec<char> = &scanned.digits;
    let zeros: usize = leading_zeros(digits);
    let ghost number = decimal_number(payload@)->0;
    let ghost text = digits@.skip(zeros as int);
    proof {
        lemma_leading_zeros(digits@, zeros as nat);
    }
    if zeros == digits.len() {
        proof {
            assert(text =~= Seq::empty());
            lemma_zero_reaches(number, 340282356779733661637539395458142568448, 1);
            lemma_zero_reaches(number, 23068671, 4194304);
            lemma_zero_reaches(number, 18874367, 4194304);
            lemma_zero_reaches(number, 29360127, 8388608);
            lemma_zero_reaches(number, 20971519, 8388608);
            lemma_zero_reaches(number, 25165823, 16777216);
        }
        return Some(1);
    }
    assert(text.first() == digits@[zeros as int]);
    assert(all_digits(text));
    // How many digits the number has before the point, leaving aside zeros.
    let place: i128 = scanned.whole as i128 - zeros as i128 + scanned.exponent;
    proof {
        lemma_finite(number, text);
        if !number.negative {
            lemma_level(number, text);
        }
        lemma_leading_step(text, 38);
    }
    if place >= 40 {
        return None;
    }
    if place == 39 {
        let high: u128 = leading_digits(digits, zeros, 38);
        let low: u128 = if digits.len() - zeros > 38 {
            assert(text[38] == digits@[zeros + 38]);
            assert(is_digit(digits@[zeros + 38]));
            (digits[zeros + 38] as u8 - 48) as u128
        } else {
            0
        };
        if high > 34028235677973366163753939545814256844 || (high
            == 34028235677973366163753939545814256844 && low >= 8) {
            return None;
        }
    }
    if scanned.negative || place <= 0 {
        return Some(1);
    }
    if place >= 2 {
        return Some(6);
    }
    let lead: u128 = leading_digits(digits, zeros, 25);
    if lead >= 5499999761581420898437500 {
        Some(6)
    } else if lead >= 4499999761581420898437500 {
        Some(5)
    } else if lead >= 3499999880790710449218750 {
        Some(4)
    } else if lead >= 2499999880790710449218750 {
        Some(3)
    } else if lead >= 1499999940395355224609375 {
        Some(2)
    } else {
        Some(1)
    }
}

/// Whether a payload asks for speed zero: it writes the number zero.
pub fn is_zero_speed(payload: &str) -> (zero: bool)
    ensures
        zero == zero_speed(payload@),
{
    match scan(payload) {
        Some(scanned) => {
            let zeros: usize = leading_zeros(&scanned.digits);
            proof {
                let digits = scanned.digits@;
                lemma_leading_zeros(digits, zeros as nat);
                let text = digits.skip(zeros as int);
                if zeros < digits.len() {
                    assert(all_digits(text));
                    lemma_digits_at_least(text);
                    lemma_pow10_positive((text.len() - 1) as nat);
                } else {
                    assert(text =~= Seq::empty());
                }
            }
            zeros == scanned.digits.len()
        },
        None => false,
    }
}

} // verus!
