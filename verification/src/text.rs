//! Text: numerals, trimming, splitting and comparing.
//!
//! Texts are modelled as the sequence of their characters.

use vstd::prelude::*;
use vstd::string::*;

verus! {

/// `String::push` appends one character at the end of the text.
pub assume_specification[ String::push ](text: &mut String, c: char)
    ensures
        final(text)@ == old(text)@.push(c),
;

/// The characters of `text`, in order.
pub fn chars_of(text: &str) -> (chars: Vec<char>)
    ensures
        chars@ == text@,
{
    let mut chars: Vec<char> = Vec::new();
    for c in it: text.chars()
        invariant
            it.seq() == text@,
            chars@ == text@.take(it.index() as int),
    {
        chars.push(c);
        assert(text@.take(it.index() + 1) =~= text@.take(it.index() as int).push(c));
    }
    assert(text@.take(text@.len() as int) =~= text@);
    chars
}

/// The text made of the characters of `chars`, in order.
pub fn text_of(chars: &[char]) -> (text: String)
    ensures
        text@ == chars@,
{
    let mut text: String = String::new();
    let mut i: usize = 0;
    while i < chars.len()
        invariant
            i <= chars@.len(),
            text@ == chars@.take(i as int),
        decreases chars@.len() - i,
    {
        text.push(chars[i]);
        assert(chars@.take(i + 1) =~= chars@.take(i as int).push(chars@[i as int]));
        i = i + 1;
    }
    assert(chars@.take(i as int) =~= chars@);
    text
}


/// Whether `chars` spell `text`.
pub fn spells(chars: &[char], text: &str) -> (same: bool)
    ensures
        same == (chars@ == text@),
{
    let other: Vec<char> = chars_of(text);
    if chars.len() != other.len() {
        return false;
    }
    let mut i: usize = 0;
    while i < chars.len()
        invariant
            i <= chars@.len(),
            chars@.len() == other@.len(),
            other@ == text@,
            forall|j: int| 0 <= j < i ==> chars@[j] == text@[j],
        decreases chars@.len() - i,
    {
        if chars[i] != other[i] {
            return false;
        }
        i = i + 1;
    }
    assert(chars@ =~= text@);
    true
}

/// `c` with an ASCII capital letter made small.
pub open spec fn ascii_lower(c: char) -> char {
    if 'A' <= c <= 'Z' {
        (c as int + 32) as char
    } else {
        c
    }
}

/// Whether two texts differ at most in the case of ASCII letters.
pub open spec fn same_but_case(a: Seq<char>, b: Seq<char>) -> bool {
    &&& a.len() == b.len()
    &&& forall|i: int| 0 <= i < a.len() ==> ascii_lower(#[trigger] a[i]) == ascii_lower(b[i])
}

/// `c` with an ASCII capital letter made small.
pub fn to_ascii_lower(c: char) -> (lower: char)
    ensures
        lower == ascii_lower(c),
{
    if 'A' <= c && c <= 'Z' {
        (c as u8 + 32) as char
    } else {
        c
    }
}

/// Whether `chars` spell `text`, leaving aside the case of ASCII letters.
pub fn spells_in_any_case(chars: &[char], text: &str) -> (same: bool)
    ensures
        same == same_but_case(chars@, text@),
{
    let other: Vec<char> = chars_of(text);
    if chars.len() != other.len() {
        return false;
    }
    let mut i: usize = 0;
    while i < chars.len()
        invariant
            i <= chars@.len(),
            chars@.len() == other@.len(),
            other@ == text@,
            forall|j: int| 0 <= j < i ==> ascii_lower(#[trigger] chars@[j]) == ascii_lower(text@[j]),
        decreases chars@.len() - i,
    {
        if to_ascii_lower(chars[i]) != to_ascii_lower(other[i]) {
            return false;
        }
        i = i + 1;
    }
    true
}

/// The characters with the Unicode property `White_Space`.
pub open spec fn white_space(c: char) -> bool {
    ||| 0x09 <= c as u32 <= 0x0d
    ||| c as u32 == 0x20
    ||| c as u32 == 0x85
    ||| c as u32 == 0xa0
    ||| c as u32 == 0x1680
    ||| 0x2000 <= c as u32 <= 0x200a
    ||| c as u32 == 0x2028
    ||| c as u32 == 0x2029
    ||| c as u32 == 0x202f
    ||| c as u32 == 0x205f
    ||| c as u32 == 0x3000
}

/// Whether `c` has the Unicode property `White_Space`.
pub fn is_white_space(c: char) -> (white: bool)
    ensures
        white == white_space(c),
{
    let code: u32 = c as u32;
    (0x09 <= code && code <= 0x0d) || code == 0x20 || code == 0x85 || code == 0xa0 || code == 0x1680
        || (0x2000 <= code && code <= 0x200a) || code == 0x2028 || code == 0x2029 || code == 0x202f
        || code == 0x205f || code == 0x3000
}

/// `text` without the white space at its start.
pub open spec fn trimmed_start(text: Seq<char>) -> Seq<char>
    decreases text.len(),
{
    if text.len() > 0 && white_space(text.first()) {
        trimmed_start(text.drop_first())
    } else {
        text
    }
}

/// `text` without the white space at its end.
pub open spec fn trimmed_end(text: Seq<char>) -> Seq<char>
    decreases text.len(),
{
    if text.len() > 0 && white_space(text.last()) {
        trimmed_end(text.drop_last())
    } else {
        text
    }
}

/// `text` without the white space around it.
pub open spec fn trimmed(text: Seq<char>) -> Seq<char> {
    trimmed_end(trimmed_start(text))
}

/// `text` without the white space around it.
pub fn trim(text: &str) -> (inner: Vec<char>)
    ensures
        inner@ == trimmed(text@),
{
    let chars: Vec<char> = chars_of(text);
    let mut start: usize = 0;
    assert(chars@.skip(0) =~= chars@);
    while start < chars.len() && is_white_space(chars[start])
        invariant
            start <= chars@.len(),
            chars@ == text@,
            trimmed_start(text@) == trimmed_start(chars@.skip(start as int)),
        decreases chars@.len() - start,
    {
        assert(chars@.skip(start as int).drop_first() =~= chars@.skip(start + 1));
        start = start + 1;
    }
    let ghost body = chars@.skip(start as int);
    let mut end: usize = chars.len();
    assert(chars@.subrange(start as int, end as int) =~= body);
    while start < end && is_white_space(chars[end - 1])
        invariant
            start <= end <= chars@.len(),
            trimmed_end(body) == trimmed_end(chars@.subrange(start as int, end as int)),
        decreases end,
    {
        assert(chars@.subrange(start as int, end as int).drop_last() =~= chars@.subrange(
            start as int,
            end - 1,
        ));
        end = end - 1;
    }
    let mut inner: Vec<char> = Vec::new();
    let mut i: usize = start;
    while i < end
        invariant
            start <= i <= end <= chars@.len(),
            inner@ == chars@.subrange(start as int, i as int),
        decreases end - i,
    {
        inner.push(chars[i]);
        assert(chars@.subrange(start as int, i + 1) =~= chars@.subrange(start as int, i as int).push(
            chars@[i as int],
        ));
        i = i + 1;
    }
    inner
}

/// The pieces of `text` between the separators in it, one more than there are
/// separators.
pub open spec fn split(text: Seq<char>, separator: char) -> Seq<Seq<char>>
    decreases text.len(),
{
    if text.len() == 0 {
        seq![Seq::empty()]
    } else {
        let pieces = split(text.drop_last(), separator);
        if text.last() == separator {
            pieces.push(Seq::empty())
        } else {
            pieces.drop_last().push(pieces.last().push(text.last()))
        }
    }
}

/// The texts of `pieces`.
pub open spec fn views(pieces: Seq<Vec<char>>) -> Seq<Seq<char>> {
    pieces.map_values(|piece: Vec<char>| piece@)
}

/// The pieces of `text` between the separators in it.
pub fn split_at_each(text: &str, separator: char) -> (pieces: Vec<Vec<char>>)
    ensures
        views(pieces@) == split(text@, separator),
{
    let chars: Vec<char> = chars_of(text);
    let mut pieces: Vec<Vec<char>> = Vec::new();
    let mut last: Vec<char> = Vec::new();
    let mut i: usize = 0;
    assert(chars@.take(0) =~= Seq::empty());
    assert(views(pieces@).push(last@) =~= split(chars@.take(0), separator));
    while i < chars.len()
        invariant
            i <= chars@.len(),
            views(pieces@).push(last@) == split(chars@.take(i as int), separator),
        decreases chars@.len() - i,
    {
        let c: char = chars[i];
        let ghost before = views(pieces@).push(last@);
        assert(chars@.take(i + 1).drop_last() =~= chars@.take(i as int));
        if c == separator {
            let ghost closed = pieces@.push(last);
            pieces.push(last);
            last = Vec::new();
            assert(views(closed) =~= before);
        } else {
            last.push(c);
            assert(before.drop_last() =~= views(pieces@));
        }
        i = i + 1;
    }
    assert(chars@.take(i as int) =~= chars@);
    let ghost closed = views(pieces@).push(last@);
    pieces.push(last);
    assert(views(pieces@) =~= closed);
    pieces
}

/// A piece without separators, set behind a separator, is the last piece.
pub proof fn lemma_split_behind(head: Seq<char>, separator: char, piece: Seq<char>)
    requires
        !piece.contains(separator),
    ensures
        split(head.push(separator) + piece, separator) == split(head, separator).push(piece),
    decreases piece.len(),
{
    let text = head.push(separator) + piece;
    if piece.len() == 0 {
        assert(text.drop_last() =~= head);
        assert(piece =~= Seq::empty());
    } else {
        assert(text.drop_last() =~= head.push(separator) + piece.drop_last());
        assert forall|c: char| piece.drop_last().contains(c) implies piece.contains(c) by {
            let i = piece.drop_last().index_of(c);
            assert(piece[i] == c);
        }
        lemma_split_behind(head, separator, piece.drop_last());
        assert(piece.contains(piece.last())) by {
            assert(piece[piece.len() - 1] == piece.last());
        }
        assert(split(head, separator).push(piece.drop_last()).drop_last() =~= split(
            head,
            separator,
        ));
        assert(piece.drop_last().push(piece.last()) =~= piece);
    }
}

/// A text without separators is its own only piece.
pub proof fn lemma_split_single(piece: Seq<char>, separator: char)
    requires
        !piece.contains(separator),
    ensures
        split(piece, separator) == seq![piece],
    decreases piece.len(),
{
    if piece.len() > 0 {
        assert forall|c: char| piece.drop_last().contains(c) implies piece.contains(c) by {
            let i = piece.drop_last().index_of(c);
            assert(piece[i] == c);
        }
        lemma_split_single(piece.drop_last(), separator);
        assert(piece.contains(piece.last())) by {
            assert(piece[piece.len() - 1] == piece.last());
        }
        assert(piece.drop_last().push(piece.last()) =~= piece);
        assert(split(piece, separator) =~= seq![piece]);
    } else {
        assert(piece =~= Seq::empty());
    }
}

/// The digit for `value`, below 16, with capital letters for the digits from ten.
pub open spec fn digit_char(value: nat) -> char {
    if value < 10 {
        ('0' as int + value) as char
    } else {
        ('A' as int + (value - 10)) as char
    }
}

/// `n` written in base `radix`, without leading zeros.
pub open spec fn numeral(n: nat, radix: nat) -> Seq<char>
    decreases n,
    when radix >= 2
{
    if n < radix {
        seq![digit_char(n)]
    } else {
        proof {
            assert(n / radix < n) by (nonlinear_arith)
                requires
                    2 <= radix <= n,
            ;
        }
        numeral(n / radix, radix).push(digit_char(n % radix))
    }
}

/// `text` with zeros in front of it up to `width` characters.
pub open spec fn zero_padded(text: Seq<char>, width: nat) -> Seq<char> {
    if text.len() < width {
        Seq::new((width - text.len()) as nat, |i: int| '0') + text
    } else {
        text
    }
}

fn digit(value: u64) -> (c: char)
    requires
        value < 16,
    ensures
        c == digit_char(value as nat),
{
    if value < 10 {
        (48 + value as u8) as char
    } else {
        (55 + value as u8) as char
    }
}

pub(crate) fn numeral_chars(n: u64, radix: u64) -> (chars: Vec<char>)
    requires
        2 <= radix <= 16,
    ensures
        chars@ == numeral(n as nat, radix as nat),
    decreases n,
{
    if n < radix {
        let mut chars: Vec<char> = Vec::new();
        chars.push(digit(n));
        chars
    } else {
        assert(n / radix < n) by (nonlinear_arith)
            requires
                2 <= radix <= n,
        ;
        let mut chars: Vec<char> = numeral_chars(n / radix, radix);
        chars.push(digit(n % radix));
        chars
    }
}

/// `n` in decimal.
pub fn decimal(n: u64) -> (text: String)
    ensures
        text@ == numeral(n as nat, 10),
{
    let chars: Vec<char> = numeral_chars(n, 10);
    text_of(chars.as_slice())
}

/// `n` in hexadecimal with capital letters, zeros in front up to `width` digits.
pub fn padded_hex(n: u64, width: usize) -> (text: String)
    ensures
        text@ == zero_padded(numeral(n as nat, 16), width as nat),
{
    let chars: Vec<char> = numeral_chars(n, 16);
    let digits: String = text_of(chars.as_slice());
    if chars.len() >= width {
        return digits;
    }
    let mut text: String = String::new();
    let count: usize = width - chars.len();
    let mut i: usize = 0;
    while i < count
        invariant
            i <= count,
            text@ == Seq::new(i as nat, |j: int| '0'),
        decreases count - i,
    {
        text.push('0');
        assert(Seq::new((i + 1) as nat, |j: int| '0') =~= Seq::new(i as nat, |j: int| '0').push('0'));
        i = i + 1;
    }
    text.append(digits.as_str());
    text
}

/// `n` takes at most `digits` hexadecimal digits where it is below 16 to that power.
pub proof fn lemma_hex_len(n: nat, digits: nat)
    requires
        digits >= 1,
        n < vstd::arithmetic::power::pow(16, digits),
    ensures
        numeral(n, 16).len() <= digits,
    decreases digits,
{
    reveal(vstd::arithmetic::power::pow);
    if n >= 16 {
        if digits == 1 {
            assert(vstd::arithmetic::power::pow(16, 1) == 16 * vstd::arithmetic::power::pow(16, 0));
        } else {
            lemma_hex_len(n / 16, (digits - 1) as nat);
        }
    }
}

} // verus!
