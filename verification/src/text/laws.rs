//! What holds of the operations on text.

use vstd::prelude::*;
use vstd::utf8::encode_utf8;

use crate::text::{
    byte_len, chars_before, collapsed, decimal, digits_value, hex_byte, hex_digit, is_control,
    is_white_space, joined, lemma_byte_len_encoding, lemma_chars_before, lemma_offset_on_boundary,
    lemma_word_len, number_of, occurs, offset_of, on_boundary, padded_left, padded_right, printable,
    signed_decimal, trimmed, trimmed_end, trimmed_start, without_leading, word_len, words,
};

verus! {

/// Whether a character is blank: one that Unicode lists as white space.
pub open spec fn blank(c: char) -> bool {
    let n = c as u32;
    ||| n == 0x20 || n == 0x85 || n == 0xa0 || n == 0x1680
    ||| 0x9 <= n <= 0xd || 0x2000 <= n <= 0x200a
    ||| n == 0x2028 || n == 0x2029 || n == 0x202f || n == 0x205f || n == 0x3000
}

/// Whether all of a text is blank.
pub open spec fn all_blank(s: Seq<char>) -> bool {
    forall|i: int| 0 <= i < s.len() ==> blank(#[trigger] s[i])
}

proof fn lemma_blank(c: char)
    ensures
        is_white_space(c) == blank(c),
{
}

proof fn lemma_trimmed_start(s: Seq<char>)
    ensures
        ({
            let t = trimmed_start(s);
            &&& t.len() <= s.len()
            &&& t == s.skip(s.len() - t.len())
            &&& all_blank(s.take(s.len() - t.len()))
            &&& t.len() > 0 ==> !blank(t[0])
        }),
    decreases s.len(),
{
    if s.len() > 0 {
        lemma_blank(s[0]);
    }
    if s.len() > 0 && is_white_space(s[0]) {
        let d = s.drop_first();
        lemma_trimmed_start(d);
        let t = trimmed_start(s);
        let n = s.len() - t.len();
        assert(s.skip(n) =~= d.skip(n - 1));
        assert forall|i: int| 0 <= i < n implies blank(#[trigger] s.take(n)[i]) by {
            if i > 0 {
                assert(d.take(n - 1)[i - 1] == s[i]);
            }
        }
    } else {
        assert(s.skip(0) =~= s);
        assert(s.take(0) =~= Seq::<char>::empty());
    }
}

proof fn lemma_trimmed_end(s: Seq<char>)
    ensures
        ({
            let t = trimmed_end(s);
            &&& t.len() <= s.len()
            &&& t == s.take(t.len() as int)
            &&& all_blank(s.skip(t.len() as int))
            &&& t.len() > 0 ==> !blank(t.last())
        }),
    decreases s.len(),
{
    if s.len() > 0 {
        lemma_blank(s.last());
    }
    if s.len() > 0 && is_white_space(s.last()) {
        let d = s.drop_last();
        lemma_trimmed_end(d);
        let n = trimmed_end(s).len() as int;
        assert(s.take(n) =~= d.take(n));
        assert forall|i: int| 0 <= i < s.len() - n implies blank(#[trigger] s.skip(n)[i]) by {
            if i < s.len() - n - 1 {
                assert(d.skip(n)[i] == s[n + i]);
            }
        }
    } else {
        assert(s.take(s.len() as int) =~= s);
    }
}

/// Trimming takes blanks away at both ends, all of them and nothing else.
pub proof fn law_trimming_takes_only_the_outer_blanks(s: Seq<char>) -> (ends: (
    Seq<char>,
    Seq<char>,
))
    ensures
        s == ends.0 + trimmed(s) + ends.1,
        all_blank(ends.0),
        all_blank(ends.1),
        trimmed(s).len() > 0 ==> !blank(trimmed(s)[0]) && !blank(trimmed(s).last()),
        trimmed(trimmed(s)) == trimmed(s),
{
    let a = trimmed_start(s);
    let t = trimmed(s);
    lemma_trimmed_start(s);
    lemma_trimmed_end(a);
    let before = s.take(s.len() - a.len());
    let after = a.skip(t.len() as int);
    assert(s =~= before + t + after);
    assert(t.len() > 0 ==> t[0] == a[0]);
    assert(trimmed_start(t) == t);
    (before, after)
}

/// What is typed loses its control characters and keeps all others, each in its
/// place.
pub proof fn law_printable_drops_only_controls(a: Seq<char>, c: char, b: Seq<char>)
    ensures
        printable(Seq::<char>::empty()) == Seq::<char>::empty(),
        (c as u32) < 0x20 || 0x7f <= (c as u32) < 0xa0 ==> printable(a + seq![c] + b) == printable(
            a,
        ) + printable(b),
        !((c as u32) < 0x20 || 0x7f <= (c as u32) < 0xa0) ==> printable(a + seq![c] + b)
            == printable(a) + seq![c] + printable(b),
{
    let keep = |x: char| !is_control(x);
    reveal(Seq::filter);
    Seq::filter_distributes_over_add(a + seq![c], b, keep);
    Seq::filter_distributes_over_add(a, seq![c], keep);
    assert(seq![c].drop_last() =~= Seq::<char>::empty());
    assert(Seq::<char>::empty().filter(keep) =~= Seq::<char>::empty());
    if is_control(c) {
        assert(seq![c].filter(keep) =~= Seq::<char>::empty());
    } else {
        assert(seq![c].filter(keep) =~= seq![c]);
    }
    assert(printable(a) + Seq::<char>::empty() + printable(b) =~= printable(a) + printable(b));
}

/// What a text of digits is worth.
pub open spec fn worth(s: Seq<char>) -> nat
    decreases s.len(),
{
    if s.len() == 0 {
        0
    } else {
        10 * worth(s.take(s.len() - 1)) + (s[s.len() - 1] as int - 48) as nat
    }
}

/// Whether a text holds digits only.
pub open spec fn numeric(s: Seq<char>) -> bool {
    forall|i: int| 0 <= i < s.len() ==> 48 <= #[trigger] s[i] as int <= 57
}

proof fn lemma_worth(s: Seq<char>)
    ensures
        numeric(s) ==> digits_value(s) == worth(s),
    decreases s.len(),
{
    if s.len() > 0 {
        assert(s.drop_last() =~= s.take(s.len() - 1));
        lemma_worth(s.drop_last());
        assert(numeric(s) ==> numeric(s.drop_last()));
    }
}

/// A number is written in digits that are worth it, with no zero in front.
pub proof fn law_numbers_are_written_in_digits(n: nat)
    ensures
        decimal(n).len() > 0,
        numeric(decimal(n)),
        worth(decimal(n)) == n,
        n > 0 ==> decimal(n)[0] != '0',
    decreases n,
{
    let d = decimal(n);
    if n >= 10 {
        law_numbers_are_written_in_digits(n / 10);
        assert(d.take(d.len() - 1) =~= decimal(n / 10));
        assert(d[0] == decimal(n / 10)[0]);
    } else {
        assert(d.take(0) =~= Seq::<char>::empty());
        assert(worth(d.take(0)) == 0);
    }
}

/// A text is a number where it holds digits, with or without a plus in front,
/// and nothing else; it is then what the digits are worth.
pub proof fn law_texts_of_digits_are_numbers(s: Seq<char>)
    ensures
        s.len() > 0 && numeric(s) ==> number_of(s) == Some(worth(s)) && number_of(seq!['+'] + s)
            == Some(worth(s)),
        number_of(s) is Some ==> s.len() > 0 && (numeric(s) || s[0] == '+' && s.len() > 1
            && numeric(s.skip(1))),
{
    lemma_worth(s);
    let p = seq!['+'] + s;
    assert(p.skip(1) =~= s);
    if s.len() > 0 && numeric(s) {
        assert(48 <= s[0] as int);
    }
}

/// What is written as a number is read as that number.
pub proof fn law_written_numbers_read_back(n: nat)
    ensures
        number_of(decimal(n)) == Some(n),
{
    law_numbers_are_written_in_digits(n);
    law_texts_of_digits_are_numbers(decimal(n));
}

/// A negative number is written with a minus in front of its amount.
pub proof fn law_negative_numbers_have_a_minus(n: int)
    ensures
        n >= 0 ==> numeric(signed_decimal(n)) && worth(signed_decimal(n)) == n,
        n < 0 ==> signed_decimal(n).len() > 1 && signed_decimal(n)[0] == '-' && numeric(
            signed_decimal(n).skip(1),
        ) && worth(signed_decimal(n).skip(1)) == -n,
{
    reveal_strlit("-");
    if n >= 0 {
        law_numbers_are_written_in_digits(n as nat);
    } else {
        law_numbers_are_written_in_digits((-n) as nat);
        assert(signed_decimal(n).skip(1) =~= decimal((-n) as nat));
    }
}

/// Padding adds spaces on its own side until the width is reached, and takes
/// nothing away.
pub proof fn law_padding_adds_only_spaces(s: Seq<char>, width: nat)
    ensures
        padded_right(s, width).len() == if s.len() < width {
            width
        } else {
            s.len()
        },
        padded_right(s, width).take(s.len() as int) == s,
        forall|i: int|
            s.len() <= i < padded_right(s, width).len() ==> #[trigger] padded_right(s, width)[i]
                == ' ',
        padded_left(s, width).len() == if s.len() < width {
            width
        } else {
            s.len()
        },
        padded_left(s, width).skip(padded_left(s, width).len() - s.len()) == s,
        forall|i: int|
            0 <= i < padded_left(s, width).len() - s.len() ==> #[trigger] padded_left(s, width)[i]
                == ' ',
{
    assert(padded_right(s, width).take(s.len() as int) =~= s);
    assert(padded_left(s, width).skip(padded_left(s, width).len() - s.len()) =~= s);
}

/// Texts are joined with the separator between each two and nowhere else.
pub proof fn law_joining_puts_the_separator_between(
    a: Seq<Seq<char>>,
    b: Seq<Seq<char>>,
    sep: Seq<char>,
)
    ensures
        a.len() == 0 ==> joined(a, sep) == Seq::<char>::empty(),
        a.len() == 1 ==> joined(a, sep) == a[0],
        a.len() > 0 && b.len() > 0 ==> joined(a + b, sep) == joined(a, sep) + sep + joined(b, sep),
    decreases b.len(),
{
    if a.len() > 0 && b.len() > 0 {
        assert((a + b).drop_last() =~= a + b.drop_last());
        if b.len() == 1 {
            assert(a + b.drop_last() =~= a);
        } else {
            law_joining_puts_the_separator_between(a, b.drop_last(), sep);
            assert(joined(a, sep) + sep + joined(b.drop_last(), sep) + sep + b.last() =~= joined(
                a,
                sep,
            ) + sep + joined(b, sep));
        }
    }
}

/// Whether a word stands at `0..n` of a text: no blank in it, and none cut off.
pub open spec fn word_at_front(s: Seq<char>, n: int) -> bool {
    &&& 0 < n <= s.len()
    &&& forall|i: int| 0 <= i < n ==> !blank(#[trigger] s[i])
    &&& n < s.len() ==> blank(s[n])
}

/// A text is taken apart into its words: those that stand between blanks, whole
/// and in order.
pub proof fn law_words_stand_between_blanks(s: Seq<char>, n: int)
    ensures
        s.len() > 0 && blank(s[0]) ==> words(s) == words(s.skip(1)),
        word_at_front(s, n) ==> words(s) == seq![s.take(n)] + words(s.skip(n)),
        all_blank(s) ==> words(s).len() == 0,
    decreases s.len(),
{
    lemma_word_len(s);
    if s.len() > 0 {
        assert(s.skip(1) =~= s.drop_first());
        lemma_blank(s[0]);
    }
    if word_at_front(s, n) {
        let k = word_len(s) as int;
        assert(!blank(s[0]));
        if k < n {
            assert(!blank(s[k]));
            lemma_blank(s[k]);
        } else if n < k {
            assert(!is_white_space(s[n]));
            lemma_blank(s[n]);
        }
    }
    if s.len() > 0 && all_blank(s) {
        let d = s.drop_first();
        assert(blank(s[0]));
        assert forall|i: int| 0 <= i < d.len() implies blank(#[trigger] d[i]) by {
            assert(d[i] == s[i + 1]);
        }
        law_words_stand_between_blanks(d, 0);
    }
}

/// Folding white space keeps the words, with one space between each two.
pub proof fn law_folding_keeps_the_words(s: Seq<char>, n: int)
    ensures
        all_blank(s) ==> collapsed(s) == Seq::<char>::empty(),
        s.len() > 0 && blank(s[0]) ==> collapsed(s) == collapsed(s.skip(1)),
        word_at_front(s, n) && all_blank(s.skip(n)) ==> collapsed(s) == s.take(n),
        word_at_front(s, n) && words(s.skip(n)).len() > 0 ==> collapsed(s) == s.take(n) + seq![' ']
            + collapsed(s.skip(n)),
{
    reveal_strlit(" ");
    assert(" "@ =~= seq![' ']);
    law_words_stand_between_blanks(s, n);
    if word_at_front(s, n) {
        law_words_stand_between_blanks(s.skip(n), 0);
        let first = seq![s.take(n)];
        if words(s.skip(n)).len() > 0 {
            law_joining_puts_the_separator_between(first, words(s.skip(n)), " "@);
        } else {
            assert(words(s) =~= first);
        }
    }
}

/// Dropping a character in front drops all of them there and nothing else.
pub proof fn law_leading_characters_are_dropped(s: Seq<char>, c: char)
    ensures
        ({
            let t = without_leading(s, c);
            &&& t.len() <= s.len()
            &&& t == s.skip(s.len() - t.len())
            &&& forall|i: int| 0 <= i < s.len() - t.len() ==> #[trigger] s[i] == c
            &&& t.len() > 0 ==> t[0] != c
        }),
    decreases s.len(),
{
    if s.len() > 0 && s[0] == c {
        let d = s.drop_first();
        law_leading_characters_are_dropped(d, c);
        let t = without_leading(s, c);
        let n = s.len() - t.len();
        assert(s.skip(n) =~= d.skip(n - 1));
        assert forall|i: int| 0 <= i < n implies #[trigger] s[i] == c by {
            if i > 0 {
                assert(d[i - 1] == s[i]);
            }
        }
    } else {
        assert(s.skip(0) =~= s);
    }
}

/// What a hexadecimal digit is worth; small letters only.
pub open spec fn hex_worth(c: char) -> int {
    let n = c as int;
    if 48 <= n <= 57 {
        n - 48
    } else if 97 <= n <= 102 {
        n - 87
    } else {
        -1
    }
}

/// A byte is written as two hexadecimal digits that are worth it.
pub proof fn law_bytes_are_written_in_hex(b: u8)
    ensures
        hex_byte(b).len() == 2,
        hex_worth(hex_byte(b)[0]) >= 0,
        hex_worth(hex_byte(b)[1]) >= 0,
        16 * hex_worth(hex_byte(b)[0]) + hex_worth(hex_byte(b)[1]) == b,
{
    assert(hex_byte(b)[0] == hex_digit(b as int / 16));
    assert(hex_byte(b)[1] == hex_digit(b as int % 16));
}

/// A part occurs in a text where its characters stand in it side by side.
pub proof fn law_parts_stand_side_by_side(a: Seq<char>, part: Seq<char>, b: Seq<char>)
    ensures
        occurs(a + part + b, part),
        part.len() > a.len() ==> !occurs(a, part),
        occurs(a, part) ==> exists|i: int|
            0 <= i <= a.len() - part.len() && a == #[trigger] a.take(i) + part + a.skip(
                i + part.len(),
            ),
{
    let s = a + part + b;
    let n = a.len() as int;
    assert(s.subrange(n, n + part.len()) =~= part);
    if occurs(a, part) {
        let i = choose|i: int|
            0 <= i <= a.len() - part.len() && #[trigger] a.subrange(i, i + part.len()) == part;
        assert(a.take(i) + part + a.skip(i + part.len()) =~= a) by {
            assert forall|j: int| 0 <= j < part.len() implies part[j] == a[i + j] by {
                assert(a.subrange(i, i + part.len())[j] == a[i + j]);
            }
        }
    }
}

/// Offsets count the bytes of the UTF-8 encoding, and the boundaries between
/// characters are the offsets of its prefixes.
pub proof fn law_boundaries_lie_between_characters(s: Seq<char>, b: int)
    ensures
        byte_len(s) == encode_utf8(s).len(),
        on_boundary(s, b) <==> exists|k: int|
            0 <= k <= s.len() && b == encode_utf8(#[trigger] s.take(k)).len(),
        on_boundary(s, b) ==> b == encode_utf8(s.take(chars_before(s, b) as int)).len(),
{
    lemma_byte_len_encoding(s);
    lemma_chars_before(s, b);
    let n = chars_before(s, b) as int;
    lemma_byte_len_encoding(s.take(n));
    if on_boundary(s, b) {
        assert(b == encode_utf8(s.take(n)).len());
    }
    if exists|k: int| 0 <= k <= s.len() && b == encode_utf8(#[trigger] s.take(k)).len() {
        let k = choose|k: int| 0 <= k <= s.len() && b == encode_utf8(#[trigger] s.take(k)).len();
        lemma_byte_len_encoding(s.take(k));
        lemma_offset_on_boundary(s, k);
        assert(b == offset_of(s, k));
    }
}

} // verus!
