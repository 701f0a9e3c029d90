//! Laws of text: what numerals, trimming, splitting and comparing do to any text.

use vstd::prelude::*;

use crate::text::{
    ascii_lower, digit_char, numeral, same_but_case, split, trimmed, trimmed_end, trimmed_start,
    views, white_space, zero_padded,
};

verus! {

/// What a digit stands for, in bases up to sixteen.
pub open spec fn digit_value(c: char) -> nat {
    if '0' <= c <= '9' {
        (c as int - '0' as int) as nat
    } else {
        (c as int - 'A' as int + 10) as nat
    }
}

/// The number that `text` writes in that base, the most significant digit first.
pub open spec fn value_in(text: Seq<char>, base: nat) -> nat
    decreases text.len(),
{
    if text.len() == 0 {
        0
    } else {
        base * value_in(text.drop_last(), base) + digit_value(text.last())
    }
}

/// Whether `text` holds nothing but digits of that base, up to sixteen, with
/// capital letters for those from ten.
pub open spec fn digits_in(text: Seq<char>, base: nat) -> bool {
    forall|i: int|
        0 <= i < text.len() ==> ('0' <= #[trigger] text[i] <= '9' || 'A' <= text[i] <= 'F')
            && digit_value(text[i]) < base
}

/// A numeral is read back as its number, has digits of its base alone, and has no
/// zero in front but where it is that digit alone.
pub proof fn law_numeral_reads_back(n: nat, base: nat)
    requires
        2 <= base <= 16,
    ensures
        value_in(numeral(n, base), base) == n,
        digits_in(numeral(n, base), base),
        numeral(n, base).len() > 0,
        numeral(n, base)[0] == '0' ==> numeral(n, base).len() == 1,
    decreases n,
{
    let text = numeral(n, base);
    if n < base {
        assert(text.drop_last() =~= Seq::empty());
        assert(value_in(text.drop_last(), base) == 0);
        assert(text.last() == digit_char(n));
        assert(base * 0 == 0) by (nonlinear_arith);
    } else {
        assert(n / base < n && n % base < base && base * (n / base) + n % base == n && n / base
            >= 1) by (nonlinear_arith)
            requires
                2 <= base <= n,
        ;
        law_numeral_reads_back(n / base, base);
        let head = numeral(n / base, base);
        assert(text.drop_last() =~= head);
        assert(text.last() == digit_char(n % base));
        assert(text[0] == head[0]);
        assert forall|i: int| 0 <= i < text.len() implies ('0' <= #[trigger] text[i] <= '9' || 'A'
            <= text[i] <= 'F') && digit_value(text[i]) < base by {
            if i < text.len() - 1 {
                assert(text[i] == head[i]);
            }
        }
        if head[0] == '0' {
            assert(head.drop_last() =~= Seq::empty());
            assert(value_in(head.drop_last(), base) == 0);
            assert(base * 0 == 0) by (nonlinear_arith);
            assert(head.last() == '0');
            assert(value_in(head, base) == 0);
        }
    }
}

/// Texts of as many digits that write the same number are the same.
pub proof fn law_digits_are_unique(a: Seq<char>, b: Seq<char>, base: nat)
    requires
        2 <= base <= 16,
        digits_in(a, base),
        digits_in(b, base),
        a.len() == b.len(),
        value_in(a, base) == value_in(b, base),
    ensures
        a == b,
    decreases a.len(),
{
    if a.len() > 0 {
        let n = a.len() - 1;
        let (x, y) = (value_in(a.drop_last(), base), value_in(b.drop_last(), base));
        let (c, d) = (digit_value(a[n]), digit_value(b[n]));
        assert(x == y && c == d) by (nonlinear_arith)
            requires
                base * x + c == base * y + d,
                c < base,
                d < base,
        ;
        assert forall|i: int| 0 <= i < n implies ('0' <= #[trigger] a.drop_last()[i] <= '9' || 'A'
            <= a.drop_last()[i] <= 'F') && digit_value(a.drop_last()[i]) < base by {
            assert(a.drop_last()[i] == a[i]);
        }
        assert forall|i: int| 0 <= i < n implies ('0' <= #[trigger] b.drop_last()[i] <= '9' || 'A'
            <= b.drop_last()[i] <= 'F') && digit_value(b.drop_last()[i]) < base by {
            assert(b.drop_last()[i] == b[i]);
        }
        law_digits_are_unique(a.drop_last(), b.drop_last(), base);
        assert(a.drop_last().push(a[n]) =~= a);
        assert(b.drop_last().push(b[n]) =~= b);
    } else {
        assert(a =~= b);
    }
}

/// Padding brings a text to a width with zeros in front of it, and leaves a text
/// as it is that has that width.
pub proof fn law_padding(text: Seq<char>, width: nat)
    ensures
        ({
            let padded = zero_padded(text, width);
            let zeros = padded.len() - text.len();
            &&& padded.len() == (if text.len() < width {
                width
            } else {
                text.len()
            })
            &&& padded.skip(zeros) == text
            &&& forall|i: int| 0 <= i < zeros ==> #[trigger] padded[i] == '0'
        }),
{
    let padded = zero_padded(text, width);
    assert(padded.skip(padded.len() - text.len()) =~= text);
}

/// Padding changes no number.
pub proof fn law_padding_keeps_the_number(text: Seq<char>, width: nat, base: nat)
    requires
        1 <= base,
        digits_in(text, base),
    ensures
        value_in(zero_padded(text, width), base) == value_in(text, base),
        digits_in(zero_padded(text, width), base),
    decreases text.len(),
{
    let padded = zero_padded(text, width);
    if text.len() == 0 {
        lemma_zeros_are_nothing(padded, base);
    } else {
        let head = text.drop_last();
        assert forall|i: int| 0 <= i < head.len() implies ('0' <= #[trigger] head[i] <= '9' || 'A'
            <= head[i] <= 'F') && digit_value(head[i]) < base by {
            assert(head[i] == text[i]);
        }
        let shorter: nat = if width > 0 {
            (width - 1) as nat
        } else {
            0
        };
        law_padding_keeps_the_number(head, shorter, base);
        assert(padded.drop_last() =~= zero_padded(head, shorter));
        assert(padded.last() == text.last());
    }
    law_padding(text, width);
    assert forall|i: int| 0 <= i < padded.len() implies ('0' <= #[trigger] padded[i] <= '9' || 'A'
        <= padded[i] <= 'F') && digit_value(padded[i]) < base by {
        let zeros = padded.len() - text.len();
        if i >= zeros {
            assert(padded[i] == padded.skip(zeros)[i - zeros]);
            assert(padded[i] == text[i - zeros]);
        }
    }
}

proof fn lemma_zeros_are_nothing(text: Seq<char>, base: nat)
    requires
        forall|i: int| 0 <= i < text.len() ==> #[trigger] text[i] == '0',
    ensures
        value_in(text, base) == 0,
    decreases text.len(),
{
    if text.len() > 0 {
        assert forall|i: int| 0 <= i < text.len() - 1 implies #[trigger] text.drop_last()[i]
            == '0' by {
            assert(text[i] == '0');
        }
        lemma_zeros_are_nothing(text.drop_last(), base);
        assert(base * 0 == 0) by (nonlinear_arith);
        assert(text[text.len() - 1] == '0');
    }
}

/// White space is the blank and the tabs, line ends and spaces of Unicode.
pub proof fn law_white_space(c: char)
    ensures
        white_space(c) <==> {
            ||| c == '\t' || c == '\n' || c == '\u{b}' || c == '\u{c}' || c == '\r' || c == ' '
            ||| c == '\u{85}' || c == '\u{a0}' || c == '\u{1680}'
            ||| '\u{2000}' <= c <= '\u{200a}'
            ||| c == '\u{2028}' || c == '\u{2029}' || c == '\u{202f}' || c == '\u{205f}'
            ||| c == '\u{3000}'
        },
{
}

/// Whether `text` holds nothing but white space.
pub open spec fn blank(text: Seq<char>) -> bool {
    forall|i: int| 0 <= i < text.len() ==> white_space(#[trigger] text[i])
}

/// Trimming takes away nothing but white space around the text, and all of that:
/// what is left begins and ends with none.
pub proof fn law_trimmed(text: Seq<char>)
    ensures
        exists|before: Seq<char>, after: Seq<char>|
            #![trigger blank(before), blank(after)]
            blank(before) && blank(after) && text == before + trimmed(text) + after,
        trimmed(text).len() > 0 ==> !white_space(trimmed(text)[0]) && !white_space(
            trimmed(text)[trimmed(text).len() - 1],
        ),
{
    let before = lemma_trimmed_start(text);
    let after = lemma_trimmed_end(trimmed_start(text));
    assert(text =~= before + trimmed(text) + after);
    assert(blank(before) && blank(after));
    if trimmed(text).len() > 0 {
        assert(trimmed(text)[0] == trimmed_start(text)[0]);
    }
}

proof fn lemma_trimmed_start(text: Seq<char>) -> (before: Seq<char>)
    ensures
        blank(before),
        text == before + trimmed_start(text),
        trimmed_start(text).len() > 0 ==> !white_space(trimmed_start(text)[0]),
    decreases text.len(),
{
    if text.len() > 0 && white_space(text.first()) {
        let rest = lemma_trimmed_start(text.drop_first());
        let before = seq![text.first()] + rest;
        assert forall|i: int| 0 <= i < before.len() implies white_space(#[trigger] before[i]) by {
            if i > 0 {
                assert(white_space(rest[i - 1]));
            }
        }
        assert(text =~= seq![text.first()] + text.drop_first());
        assert(text =~= before + trimmed_start(text));
        before
    } else {
        assert(text =~= Seq::empty() + trimmed_start(text));
        Seq::empty()
    }
}

proof fn lemma_trimmed_end(text: Seq<char>) -> (after: Seq<char>)
    ensures
        blank(after),
        text == trimmed_end(text) + after,
        trimmed_end(text).len() > 0 ==> !white_space(
            trimmed_end(text)[trimmed_end(text).len() - 1],
        ),
    decreases text.len(),
{
    if text.len() > 0 && white_space(text.last()) {
        let rest = lemma_trimmed_end(text.drop_last());
        let after = rest.push(text.last());
        assert forall|i: int| 0 <= i < after.len() implies white_space(#[trigger] after[i]) by {
            if i < rest.len() {
                assert(white_space(rest[i]));
            }
        }
        assert(text =~= text.drop_last().push(text.last()));
        assert(text =~= trimmed_end(text) + after);
        after
    } else {
        assert(text =~= trimmed_end(text) + Seq::empty());
        Seq::empty()
    }
}

/// White space around a text makes no difference.
pub proof fn law_white_space_around_is_nothing(
    before: Seq<char>,
    text: Seq<char>,
    after: Seq<char>,
)
    requires
        blank(before),
        blank(after),
    ensures
        trimmed(before + text + after) == trimmed(text),
{
    lemma_blank_start(before, text + after);
    assert(before + (text + after) =~= before + text + after);
    // Where the text is white space alone, all of it is taken from the start.
    let rest = trimmed_start(text);
    let first = lemma_trimmed_start(text);
    lemma_blank_start(first, rest + after);
    assert(first + (rest + after) =~= text + after);
    if rest.len() > 0 {
        assert((rest + after).first() == rest[0]);
        lemma_blank_end(rest, after);
    } else {
        assert(rest + after =~= after + Seq::<char>::empty());
        lemma_blank_start(after, Seq::empty());
        assert(trimmed_start(Seq::<char>::empty()) =~= Seq::empty());
        assert(rest =~= Seq::empty());
    }
}

proof fn lemma_blank_start(before: Seq<char>, text: Seq<char>)
    requires
        blank(before),
    ensures
        trimmed_start(before + text) == trimmed_start(text),
    decreases before.len(),
{
    if before.len() == 0 {
        assert(before + text =~= text);
    } else {
        assert(white_space(before[0]));
        assert((before + text).drop_first() =~= before.drop_first() + text);
        assert forall|i: int| 0 <= i < before.len() - 1 implies white_space(
            #[trigger] before.drop_first()[i],
        ) by {
            assert(white_space(before[i + 1]));
        }
        lemma_blank_start(before.drop_first(), text);
    }
}

proof fn lemma_blank_end(text: Seq<char>, after: Seq<char>)
    requires
        blank(after),
    ensures
        trimmed_end(text + after) == trimmed_end(text),
    decreases after.len(),
{
    if after.len() == 0 {
        assert(text + after =~= text);
    } else {
        assert(white_space(after[after.len() - 1]));
        assert((text + after).drop_last() =~= text + after.drop_last());
        assert forall|i: int| 0 <= i < after.len() - 1 implies white_space(
            #[trigger] after.drop_last()[i],
        ) by {
            assert(white_space(after[i]));
        }
        lemma_blank_end(text, after.drop_last());
    }
}

/// The pieces with a separator between each two.
pub open spec fn joined(pieces: Seq<Seq<char>>, separator: char) -> Seq<char>
    decreases pieces.len(),
{
    if pieces.len() == 0 {
        Seq::empty()
    } else if pieces.len() == 1 {
        pieces[0]
    } else {
        joined(pieces.drop_last(), separator).push(separator) + pieces.last()
    }
}

/// Splitting loses nothing and leaves no separator: the pieces, joined again, are
/// the text, and none has a separator in it.
pub proof fn law_split_joins_back(text: Seq<char>, separator: char)
    ensures
        joined(split(text, separator), separator) == text,
        split(text, separator).len() >= 1,
        forall|i: int|
            0 <= i < split(text, separator).len() ==> !(#[trigger] split(
                text,
                separator,
            )[i]).contains(separator),
    decreases text.len(),
{
    let pieces = split(text, separator);
    if text.len() > 0 {
        let head = split(text.drop_last(), separator);
        law_split_joins_back(text.drop_last(), separator);
        if text.last() == separator {
            assert(pieces.drop_last() =~= head);
            assert(joined(pieces, separator) =~= text);
        } else {
            let last = head.last().push(text.last());
            assert(text =~= text.drop_last().push(text.last()));
            assert(pieces.last() == last);
            if head.len() > 1 {
                assert(pieces.drop_last() =~= head.drop_last());
            }
            assert(joined(pieces, separator) =~= text);
            assert forall|i: int| 0 <= i < pieces.len() implies !(#[trigger] pieces[i]).contains(
                separator,
            ) by {
                if i < pieces.len() - 1 {
                    assert(pieces[i] == head[i]);
                } else {
                    assert(!head[head.len() - 1].contains(separator));
                    if last.contains(separator) {
                        let k = last.index_of(separator);
                        assert(head.last()[k] == separator);
                    }
                }
            }
        }
    }
}

/// Where a text has a separator, it is split into the pieces before and those
/// behind it.
pub proof fn law_split_at_separator(head: Seq<char>, separator: char, tail: Seq<char>)
    ensures
        split(head.push(separator) + tail, separator) == split(head, separator) + split(
            tail,
            separator,
        ),
    decreases tail.len(),
{
    let text = head.push(separator) + tail;
    law_split_joins_back(head, separator);
    law_split_joins_back(tail, separator);
    if tail.len() == 0 {
        assert(text.drop_last() =~= head);
        assert(split(text, separator) =~= split(head, separator) + split(tail, separator));
    } else {
        law_split_at_separator(head, separator, tail.drop_last());
        law_split_joins_back(tail.drop_last(), separator);
        assert(text.drop_last() =~= head.push(separator) + tail.drop_last());
        assert(text.last() == tail.last());
        assert(split(text, separator) =~= split(head, separator) + split(tail, separator));
    }
}

/// Making letters small touches the ASCII capitals alone, which become the letters
/// 32 places on.
pub proof fn law_ascii_lower(c: char)
    ensures
        ascii_lower(c) as int == (if 'A' <= c <= 'Z' {
            c as int + 32
        } else {
            c as int
        }),
{
}

/// Two texts are the same but for case exactly where each character is the same or
/// the two are one ASCII letter, small and capital.
pub proof fn law_same_but_case(a: Seq<char>, b: Seq<char>)
    ensures
        same_but_case(a, b) <==> a.len() == b.len() && forall|i: int|
            0 <= i < a.len() ==> {
                ||| #[trigger] a[i] == b[i]
                ||| 'A' <= a[i] <= 'Z' && b[i] as int == a[i] as int + 32
                ||| 'A' <= b[i] <= 'Z' && a[i] as int == b[i] as int + 32
            },
{
    if a.len() == b.len() {
        assert forall|i: int| 0 <= i < a.len() implies (ascii_lower(#[trigger] a[i]) == ascii_lower(
            b[i],
        )) == {
            ||| a[i] == b[i]
            ||| 'A' <= a[i] <= 'Z' && b[i] as int == a[i] as int + 32
            ||| 'A' <= b[i] <= 'Z' && a[i] as int == b[i] as int + 32
        } by {
            law_ascii_lower(a[i]);
            law_ascii_lower(b[i]);
        }
        if same_but_case(a, b) {
            assert forall|i: int| 0 <= i < a.len() implies {
                ||| #[trigger] a[i] == b[i]
                ||| 'A' <= a[i] <= 'Z' && b[i] as int == a[i] as int + 32
                ||| 'A' <= b[i] <= 'Z' && a[i] as int == b[i] as int + 32
            } by {
                assert(ascii_lower(a[i]) == ascii_lower(b[i]));
            }
        }
    }
}

/// The texts of some pieces are those of each, in order.
pub proof fn law_views(pieces: Seq<Vec<char>>, i: int)
    requires
        0 <= i < pieces.len(),
    ensures
        views(pieces).len() == pieces.len(),
        views(pieces)[i] == pieces[i]@,
{
}

} // verus!
