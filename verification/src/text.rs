//! Text helpers: characters, UTF-8 byte offsets, and small formatters.
//!
//! A string is modelled by its sequence of characters. Byte offsets into a
//! string are related to character positions by [`byte_len`] and
//! [`chars_before`].

use vstd::prelude::*;
use vstd::utf8::encode_utf8;

pub mod laws;

verus! {

/// `String::push`: appends one character and changes nothing else.
pub assume_specification[ std::string::String::push ](s: &mut std::string::String, c: char)
    ensures
        final(s)@ == old(s)@.push(c),
;

/// Number of bytes that `c` takes in UTF-8.
pub open spec fn char_width(c: char) -> nat {
    if (c as u32) < 0x80 {
        1
    } else if (c as u32) < 0x800 {
        2
    } else if (c as u32) < 0x10000 {
        3
    } else {
        4
    }
}

/// Number of bytes that `s` takes in UTF-8.
pub open spec fn byte_len(s: Seq<char>) -> nat
    decreases s.len(),
{
    if s.len() == 0 {
        0
    } else {
        byte_len(s.drop_last()) + char_width(s.last())
    }
}

/// Byte offset at which character `k` of `s` starts; `k == s.len()` gives the
/// end of the string.
pub open spec fn offset_of(s: Seq<char>, k: int) -> nat {
    byte_len(s.take(k))
}

/// Number of characters of `s` that start before byte `b`.
///
/// For an offset on a character boundary this is the position of the character
/// that starts there.
pub open spec fn chars_before(s: Seq<char>, b: int) -> nat
    decreases s.len(),
{
    if s.len() == 0 {
        0
    } else if byte_len(s.drop_last()) < b {
        s.len()
    } else {
        chars_before(s.drop_last(), b)
    }
}

/// Whether byte offset `b` lies between two characters of `s`, or at one of
/// its ends.
pub open spec fn on_boundary(s: Seq<char>, b: int) -> bool {
    0 <= b && offset_of(s, chars_before(s, b) as int) == b
}

pub proof fn lemma_byte_len_concat(a: Seq<char>, b: Seq<char>)
    ensures
        byte_len(a + b) == byte_len(a) + byte_len(b),
    decreases b.len(),
{
    if b.len() == 0 {
        assert(a + b =~= a);
    } else {
        assert((a + b).drop_last() =~= a + b.drop_last());
        lemma_byte_len_concat(a, b.drop_last());
    }
}

/// `byte_len` is the length of the UTF-8 encoding.
pub proof fn lemma_byte_len_encoding(s: Seq<char>)
    ensures
        encode_utf8(s).len() == byte_len(s),
    decreases s.len(),
{
    if s.len() > 0 {
        let head = s.take(1);
        let tail = s.drop_first();
        lemma_byte_len_encoding(tail);
        assert(s =~= head + tail);
        lemma_byte_len_concat(head, tail);
        assert(head.drop_last() =~= Seq::<char>::empty());
        assert(byte_len(head) == char_width(s[0])) by {
            reveal_with_fuel(byte_len, 2);
        }
        vstd::utf8::char_is_scalar(s[0]);
    }
}

/// A longer prefix takes at least as many bytes, and more if it is longer.
pub proof fn lemma_offset_monotone(s: Seq<char>, i: int, j: int)
    requires
        0 <= i <= j <= s.len(),
    ensures
        offset_of(s, i) <= offset_of(s, j),
        i < j ==> offset_of(s, i) < offset_of(s, j),
        offset_of(s, j) - offset_of(s, i) >= j - i,
    decreases j - i,
{
    if i < j {
        assert(s.take(j).drop_last() =~= s.take(j - 1));
        lemma_offset_monotone(s, i, j - 1);
    }
}

/// `chars_before` is the first position whose offset reaches `b`, or the
/// length of the string where none does.
pub proof fn lemma_chars_before(s: Seq<char>, b: int)
    ensures
        chars_before(s, b) <= s.len(),
        forall|j: int| 0 <= j < chars_before(s, b) ==> #[trigger] offset_of(s, j) < b,
        b <= byte_len(s) ==> offset_of(s, chars_before(s, b) as int) >= b,
        b > byte_len(s) ==> chars_before(s, b) == s.len(),
        b <= 0 ==> chars_before(s, b) == 0,
    decreases s.len(),
{
    assert(s.take(s.len() as int) =~= s);
    if s.len() > 0 {
        let p = s.drop_last();
        lemma_chars_before(p, b);
        assert(s.take(s.len() - 1) =~= p);
        assert forall|j: int| 0 <= j < s.len() implies #[trigger] offset_of(s, j) == offset_of(p, j) by {
            assert(s.take(j) =~= p.take(j));
        }
        if byte_len(p) < b {
            assert forall|j: int| 0 <= j < s.len() implies #[trigger] offset_of(s, j) < b by {
                lemma_offset_monotone(s, j, s.len() - 1);
            }
        }
    }
}

/// The start of character `k` is on a boundary, and `k` characters start
/// before it.
pub proof fn lemma_offset_on_boundary(s: Seq<char>, k: int)
    requires
        0 <= k <= s.len(),
    ensures
        chars_before(s, offset_of(s, k) as int) == k,
        on_boundary(s, offset_of(s, k) as int),
        offset_of(s, k) <= byte_len(s),
{
    let b = offset_of(s, k) as int;
    lemma_chars_before(s, b);
    assert(s.take(s.len() as int) =~= s);
    lemma_offset_monotone(s, k, s.len() as int);
    let n = chars_before(s, b) as int;
    if n < k {
        lemma_offset_monotone(s, n, k);
    } else if k < n {
        assert(offset_of(s, k) < b);
    }
}

/// The characters of `s`.
pub fn chars_of(s: &str) -> (v: Vec<char>)
    ensures
        v@ == s@,
{
    let mut v: Vec<char> = Vec::new();
    for c in it: s.chars()
        invariant
            v@ == it.seq().take(it.index()),
            it.seq() == s@,
    {
        proof {
            assert(it.seq().take(it.index() + 1) =~= it.seq().take(it.index()).push(c));
        }
        v.push(c);
    }
    proof {
        assert(s@.take(s@.len() as int) =~= s@);
    }
    v
}

/// The characters `chars[from..to]` as a string.
pub fn string_of(chars: &Vec<char>, from: usize, to: usize) -> (s: String)
    requires
        from <= to <= chars@.len(),
    ensures
        s@ == chars@.subrange(from as int, to as int),
{
    let mut s = String::new();
    let mut i: usize = from;
    while i < to
        invariant
            from <= i <= to <= chars@.len(),
            s@ == chars@.subrange(from as int, i as int),
        decreases to - i,
    {
        s.push(chars[i]);
        i += 1;
        proof {
            assert(chars@.subrange(from as int, i as int) =~= chars@.subrange(
                from as int,
                i - 1,
            ).push(chars@[i - 1]));
        }
    }
    s
}

/// The length of `s` in UTF-8 bytes.
pub fn byte_length(s: &str) -> (n: usize)
    ensures
        n == byte_len(s@),
{
    proof {
        lemma_byte_len_encoding(s@);
    }
    s.as_bytes().len()
}

/// Byte offset of character `k` of `chars`, the characters of a string of
/// `total` bytes.
fn offset_in(chars: &Vec<char>, k: usize, total: usize) -> (b: usize)
    requires
        k <= chars@.len(),
        total == byte_len(chars@),
    ensures
        b == offset_of(chars@, k as int),
{
    let mut b: usize = 0;
    let mut i: usize = 0;
    proof {
        assert(chars@.take(0) =~= Seq::<char>::empty());
        assert(chars@.take(chars@.len() as int) =~= chars@);
    }
    while i < k
        invariant
            i <= k <= chars@.len(),
            b == offset_of(chars@, i as int),
            total == byte_len(chars@),
            chars@.take(chars@.len() as int) =~= chars@,
        decreases k - i,
    {
        proof {
            assert(chars@.take(i + 1).drop_last() =~= chars@.take(i as int));
            lemma_offset_monotone(chars@, i + 1, chars@.len() as int);
        }
        b = b + width_of(chars[i]);
        i += 1;
    }
    b
}

/// Bytes that `c` takes in UTF-8.
pub fn width_of(c: char) -> (n: usize)
    ensures
        n == char_width(c),
{
    let code: u32 = c as u32;
    if code < 0x80 {
        1
    } else if code < 0x800 {
        2
    } else if code < 0x10000 {
        3
    } else {
        4
    }
}

/// Byte offset at which character `k` of `s` starts.
pub fn offset_at(s: &str, k: usize) -> (b: usize)
    requires
        k <= s@.len(),
    ensures
        b == offset_of(s@, k as int),
{
    let chars = chars_of(s);
    offset_in(&chars, k, byte_length(s))
}

/// Number of characters of `s` that start before byte `b`.
pub fn char_position(s: &str, b: usize) -> (k: usize)
    ensures
        k == chars_before(s@, b as int),
{
    let chars = chars_of(s);
    let total = byte_length(s);
    let mut k: usize = 0;
    let mut at: usize = 0;
    proof {
        assert(s@.take(0) =~= Seq::<char>::empty());
        assert(s@.take(s@.len() as int) =~= s@);
    }
    while k < chars.len() && at < b
        invariant
            k <= chars@.len(),
            chars@ == s@,
            total == byte_len(s@),
            at == offset_of(s@, k as int),
            forall|j: int| 0 <= j < k ==> #[trigger] offset_of(s@, j) < b,
            s@.take(s@.len() as int) =~= s@,
        decreases chars@.len() - k,
    {
        proof {
            assert(s@.take(k + 1).drop_last() =~= s@.take(k as int));
            lemma_offset_monotone(s@, k + 1, s@.len() as int);
        }
        at = at + width_of(chars[k]);
        k += 1;
    }
    proof {
        lemma_chars_before(s@, b as int);
        let n = chars_before(s@, b as int) as int;
        if n < k {
            assert(offset_of(s@, n) < b);
            assert(n < s@.len());
        } else if k < n {
            assert(offset_of(s@, k as int) < b);
        }
    }
    k
}

/// Whether the two strings hold the same characters.
pub fn same_text(a: &str, b: &str) -> (r: bool)
    ensures
        r == (a@ == b@),
{
    let x = chars_of(a);
    let y = chars_of(b);
    if x.len() != y.len() {
        return false;
    }
    let mut i: usize = 0;
    while i < x.len()
        invariant
            i <= x@.len(),
            x@ == a@,
            y@ == b@,
            x@.len() == y@.len(),
            x@.take(i as int) == y@.take(i as int),
        decreases x@.len() - i,
    {
        if x[i] != y[i] {
            return false;
        }
        i += 1;
        proof {
            assert(x@.take(i as int) =~= x@.take(i - 1).push(x@[i - 1]));
            assert(y@.take(i as int) =~= y@.take(i - 1).push(y@[i - 1]));
        }
    }
    proof {
        assert(x@.take(i as int) =~= x@);
        assert(y@.take(i as int) =~= y@);
    }
    true
}

/// Whether `s` starts with `prefix`.
pub fn has_prefix(s: &str, prefix: &str) -> (r: bool)
    ensures
        r == prefix@.is_prefix_of(s@),
{
    let n = prefix.unicode_len();
    if s.unicode_len() < n {
        return false;
    }
    same_text(s.substring_char(0, n), prefix)
}

/// Whether `part` occurs in `s`.
pub open spec fn occurs(s: Seq<char>, part: Seq<char>) -> bool {
    exists|i: int| 0 <= i <= s.len() - part.len() && #[trigger] s.subrange(i, i + part.len()) == part
}

/// Whether `part` occurs in `s`.
pub fn contains_text(s: &str, part: &str) -> (r: bool)
    ensures
        r == occurs(s@, part@),
{
    let n = part.unicode_len();
    let total = s.unicode_len();
    if total < n {
        return false;
    }
    let mut i: usize = 0;
    while i <= total - n
        invariant
            n == part@.len(),
            total == s@.len(),
            n <= total,
            i <= total - n + 1,
            forall|j: int| 0 <= j < i ==> #[trigger] s@.subrange(j, j + n) != part@,
        decreases total - n + 1 - i,
    {
        if same_text(s.substring_char(i, i + n), part) {
            return true;
        }
        if i == total - n {
            return false;
        }
        i += 1;
    }
    false
}

/// The characters that count as white space: Unicode's `White_Space`.
pub open spec fn is_white_space(c: char) -> bool {
    ||| '\u{9}' <= c <= '\u{D}'
    ||| c == ' '
    ||| c == '\u{85}'
    ||| c == '\u{A0}'
    ||| c == '\u{1680}'
    ||| '\u{2000}' <= c <= '\u{200A}'
    ||| c == '\u{2028}'
    ||| c == '\u{2029}'
    ||| c == '\u{202F}'
    ||| c == '\u{205F}'
    ||| c == '\u{3000}'
}

/// Whether `c` is white space.
pub fn white_space(c: char) -> (r: bool)
    ensures
        r == is_white_space(c),
{
    ('\u{9}' <= c && c <= '\u{D}') || c == ' ' || c == '\u{85}' || c == '\u{A0}' || c == '\u{1680}'
        || ('\u{2000}' <= c && c <= '\u{200A}') || c == '\u{2028}' || c == '\u{2029}' || c
        == '\u{202F}' || c == '\u{205F}' || c == '\u{3000}'
}

/// The control characters: Unicode's general category `Cc`.
pub open spec fn is_control(c: char) -> bool {
    c <= '\u{1F}' || '\u{7F}' <= c <= '\u{9F}'
}

/// Whether `c` is a control character.
pub fn control(c: char) -> (r: bool)
    ensures
        r == is_control(c),
{
    c <= '\u{1F}' || ('\u{7F}' <= c && c <= '\u{9F}')
}

/// `s` without its leading white space.
pub open spec fn trimmed_start(s: Seq<char>) -> Seq<char>
    decreases s.len(),
{
    if s.len() > 0 && is_white_space(s[0]) {
        trimmed_start(s.drop_first())
    } else {
        s
    }
}

/// `s` without its trailing white space.
pub open spec fn trimmed_end(s: Seq<char>) -> Seq<char>
    decreases s.len(),
{
    if s.len() > 0 && is_white_space(s.last()) {
        trimmed_end(s.drop_last())
    } else {
        s
    }
}

/// `s` without leading and trailing white space.
pub open spec fn trimmed(s: Seq<char>) -> Seq<char> {
    trimmed_end(trimmed_start(s))
}

/// `s` without leading and trailing white space.
pub fn trim(s: &str) -> (r: &str)
    ensures
        r@ == trimmed(s@),
{
    let chars = chars_of(s);
    let n = chars.len();
    let mut from: usize = 0;
    proof {
        assert(chars@.subrange(0, n as int) =~= s@);
    }
    while from < n && white_space(chars[from])
        invariant
            from <= n == chars@.len(),
            chars@ == s@,
            trimmed_start(s@) == trimmed_start(chars@.subrange(from as int, n as int)),
        decreases n - from,
    {
        proof {
            assert(chars@.subrange(from as int, n as int).drop_first() =~= chars@.subrange(
                from + 1,
                n as int,
            ));
        }
        from += 1;
    }
    let mut to: usize = n;
    while to > from && white_space(chars[to - 1])
        invariant
            from <= to <= n == chars@.len(),
            chars@ == s@,
            trimmed(s@) == trimmed_end(chars@.subrange(from as int, to as int)),
        decreases to - from,
    {
        proof {
            assert(chars@.subrange(from as int, to as int).drop_last() =~= chars@.subrange(
                from as int,
                to - 1,
            ));
        }
        to -= 1;
    }
    s.substring_char(from, to)
}

/// `s` without its control characters.
pub open spec fn printable(s: Seq<char>) -> Seq<char> {
    s.filter(|c: char| !is_control(c))
}

/// `s` without its control characters.
pub fn drop_controls(s: &str) -> (r: String)
    ensures
        r@ == printable(s@),
{
    let chars = chars_of(s);
    let mut kept = String::new();
    let mut i: usize = 0;
    proof {
        reveal(Seq::filter);
    }
    while i < chars.len()
        invariant
            i <= chars.len(),
            chars@ == s@,
            kept@ == printable(s@.take(i as int)),
        decreases chars.len() - i,
    {
        let c = chars[i];
        proof {
            assert(s@.take(i + 1).drop_last() =~= s@.take(i as int));
            reveal(Seq::filter);
        }
        if !control(c) {
            kept.push(c);
        }
        i += 1;
    }
    proof {
        assert(s@.take(s@.len() as int) =~= s@);
    }
    kept
}

/// `a` followed by `b`.
pub fn join2(a: &str, b: &str) -> (r: String)
    ensures
        r@ == a@ + b@,
{
    let mut r = a.to_owned();
    r.append(b);
    r
}

/// The digit `d`.
pub open spec fn digit(d: nat) -> char {
    (('0' as u32) + d) as char
}

/// `n` in decimal.
pub open spec fn decimal(n: nat) -> Seq<char>
    decreases n,
{
    if n < 10 {
        seq![digit(n)]
    } else {
        decimal(n / 10).push(digit(n % 10))
    }
}

/// The digit `d`.
fn digit_of(d: u64) -> (c: char)
    requires
        d < 10,
    ensures
        c == digit(d as nat),
{
    match d {
        0 => '0',
        1 => '1',
        2 => '2',
        3 => '3',
        4 => '4',
        5 => '5',
        6 => '6',
        7 => '7',
        8 => '8',
        _ => '9',
    }
}

/// `n` in decimal.
pub fn decimal_of(n: u64) -> (s: String)
    ensures
        s@ == decimal(n as nat),
    decreases n,
{
    if n < 10 {
        let mut s = String::new();
        s.push(digit_of(n));
        proof {
            assert(s@ =~= decimal(n as nat));
        }
        s
    } else {
        let mut s = decimal_of(n / 10);
        s.push(digit_of(n % 10));
        s
    }
}

/// The parts with `sep` between each two.
pub open spec fn joined(parts: Seq<Seq<char>>, sep: Seq<char>) -> Seq<char>
    decreases parts.len(),
{
    if parts.len() == 0 {
        Seq::empty()
    } else if parts.len() == 1 {
        parts[0]
    } else {
        joined(parts.drop_last(), sep) + sep + parts.last()
    }
}

/// The strings seen as sequences of characters.
pub open spec fn text_views(v: Seq<String>) -> Seq<Seq<char>> {
    v.map_values(|s: String| s@)
}

/// The strings with `sep` between each two.
pub fn join_strings(parts: &Vec<String>, sep: &str) -> (t: String)
    ensures
        t@ == joined(text_views(parts@), sep@),
{
    let ghost texts = text_views(parts@);
    let mut t = String::new();
    let mut i: usize = 0;
    while i < parts.len()
        invariant
            i <= parts@.len(),
            texts == text_views(parts@),
            t@ == joined(texts.take(i as int), sep@),
        decreases parts@.len() - i,
    {
        proof {
            assert(texts.take(i + 1).drop_last() =~= texts.take(i as int));
            if i == 0 {
                assert(texts.take(0) =~= Seq::<Seq<char>>::empty());
                assert(t@ + parts@[0]@ =~= parts@[0]@);
            }
        }
        if i > 0 {
            t.append(sep);
        }
        t.append(parts[i].as_str());
        i += 1;
    }
    proof {
        assert(texts.take(texts.len() as int) =~= texts);
    }
    t
}

/// `a`, `b` and `c` one after the other.
pub fn join3(a: &str, b: &str, c: &str) -> (r: String)
    ensures
        r@ == a@ + b@ + c@,
{
    let mut r = a.to_owned();
    r.append(b);
    r.append(c);
    r
}

/// `n` spaces.
pub open spec fn spaces(n: nat) -> Seq<char> {
    Seq::new(n, |i: int| ' ')
}

/// `s` with spaces behind it, up to `width` characters.
pub open spec fn padded_right(s: Seq<char>, width: nat) -> Seq<char> {
    if s.len() >= width {
        s
    } else {
        s + spaces((width - s.len()) as nat)
    }
}

/// `s` with spaces before it, up to `width` characters.
pub open spec fn padded_left(s: Seq<char>, width: nat) -> Seq<char> {
    if s.len() >= width {
        s
    } else {
        spaces((width - s.len()) as nat) + s
    }
}

/// `n` spaces.
fn blank(n: usize) -> (s: String)
    ensures
        s@ == spaces(n as nat),
{
    let mut s = String::new();
    let mut i: usize = 0;
    while i < n
        invariant
            i <= n,
            s@ == spaces(i as nat),
        decreases n - i,
    {
        s.push(' ');
        i += 1;
        proof {
            assert(spaces(i as nat) =~= spaces((i - 1) as nat).push(' '));
        }
    }
    s
}

/// `s` with spaces behind it, up to `width` characters.
pub fn pad_right(s: &str, width: usize) -> (r: String)
    ensures
        r@ == padded_right(s@, width as nat),
{
    let n = s.unicode_len();
    if n >= width {
        s.to_owned()
    } else {
        join2(s, blank(width - n).as_str())
    }
}

/// `s` with spaces before it, up to `width` characters.
pub fn pad_left(s: &str, width: usize) -> (r: String)
    ensures
        r@ == padded_left(s@, width as nat),
{
    let n = s.unicode_len();
    if n >= width {
        s.to_owned()
    } else {
        join2(blank(width - n).as_str(), s)
    }
}

/// Number of characters before the first white space.
pub open spec fn word_len(s: Seq<char>) -> nat
    decreases s.len(),
{
    if s.len() == 0 || is_white_space(s[0]) {
        0
    } else {
        1 + word_len(s.drop_first())
    }
}

pub proof fn lemma_word_len(s: Seq<char>)
    ensures
        word_len(s) <= s.len(),
        forall|i: int| 0 <= i < word_len(s) ==> !is_white_space(#[trigger] s[i]),
        word_len(s) < s.len() ==> is_white_space(s[word_len(s) as int]),
    decreases s.len(),
{
    if s.len() > 0 && !is_white_space(s[0]) {
        let t = s.drop_first();
        lemma_word_len(t);
        assert forall|i: int| 0 <= i < word_len(s) implies !is_white_space(#[trigger] s[i]) by {
            if i > 0 {
                assert(s[i] == t[i - 1]);
            }
        }
    }
}

/// The words of `s`: its runs of characters that are not white space.
pub open spec fn words(s: Seq<char>) -> Seq<Seq<char>>
    decreases s.len(),
{
    if s.len() == 0 {
        Seq::empty()
    } else if is_white_space(s[0]) {
        words(s.drop_first())
    } else {
        proof {
            lemma_word_len(s);
        }
        seq![s.take(word_len(s) as int)] + words(s.skip(word_len(s) as int))
    }
}

/// `s` with every run of white space made a single space, and none at its
/// ends.
pub open spec fn collapsed(s: Seq<char>) -> Seq<char> {
    joined(words(s), " "@)
}

/// `s` with every run of white space made a single space, and none at its
/// ends.
pub fn collapse_white_space(s: &str) -> (r: String)
    ensures
        r@ == collapsed(s@),
{
    let chars = chars_of(s);
    let n = chars.len();
    let mut parts: Vec<String> = Vec::new();
    let mut i: usize = 0;
    proof {
        assert(s@.skip(0) =~= s@);
        assert(text_views(parts@) =~= Seq::<Seq<char>>::empty());
        assert(text_views(parts@) + words(s@) =~= words(s@));
    }
    while i < n
        invariant
            i <= n == chars@.len(),
            chars@ == s@,
            words(s@) == text_views(parts@) + words(s@.skip(i as int)),
        decreases n - i,
    {
        if white_space(chars[i]) {
            proof {
                assert(s@.skip(i as int).drop_first() =~= s@.skip(i + 1));
            }
            i += 1;
        } else {
            let ghost rest = s@.skip(i as int);
            let ghost k = word_len(rest);
            proof {
                lemma_word_len(rest);
            }
            let mut j: usize = i;
            while j < n && !white_space(chars[j])
                invariant
                    i <= j <= n == chars@.len(),
                    chars@ == s@,
                    rest == s@.skip(i as int),
                    k == word_len(rest),
                    k <= rest.len(),
                    forall|x: int| 0 <= x < k ==> !is_white_space(#[trigger] rest[x]),
                    k < rest.len() ==> is_white_space(rest[k as int]),
                    j - i <= k,
                decreases n - j,
            {
                proof {
                    if j - i == k {
                        assert(rest[k as int] == s@[j as int]);
                    }
                }
                j += 1;
            }
            proof {
                if j - i < k {
                    assert(!is_white_space(rest[j - i]));
                    assert(rest[j - i] == s@[j as int]);
                }
            }
            let ghost before = parts@;
            parts.push(string_of(&chars, i, j));
            proof {
                let w = parts@.last()@;
                assert(w =~= rest.take(k as int));
                assert(rest.skip(k as int) =~= s@.skip(j as int));
                assert(text_views(parts@) =~= text_views(before).push(w));
                assert(text_views(before) + (seq![w] + words(s@.skip(j as int))) =~= text_views(
                    parts@,
                ) + words(s@.skip(j as int)));
            }
            i = j;
        }
    }
    proof {
        assert(s@.skip(n as int) =~= Seq::<char>::empty());
        assert(text_views(parts@) + Seq::<Seq<char>>::empty() =~= text_views(parts@));
    }
    join_strings(&parts, " ")
}

/// `s` without the characters `c` that it starts with.
pub open spec fn without_leading(s: Seq<char>, c: char) -> Seq<char>
    decreases s.len(),
{
    if s.len() > 0 && s[0] == c {
        without_leading(s.drop_first(), c)
    } else {
        s
    }
}

/// `s` without the characters `c` that it starts with.
pub fn strip_leading(s: &str, c: char) -> (r: &str)
    ensures
        r@ == without_leading(s@, c),
{
    let chars = chars_of(s);
    let n = chars.len();
    let mut from: usize = 0;
    proof {
        assert(chars@.subrange(0, n as int) =~= s@);
    }
    while from < n && chars[from] == c
        invariant
            from <= n == chars@.len(),
            chars@ == s@,
            without_leading(s@, c) == without_leading(
                chars@.subrange(from as int, n as int),
                c,
            ),
        decreases n - from,
    {
        proof {
            assert(chars@.subrange(from as int, n as int).drop_first() =~= chars@.subrange(
                from + 1,
                n as int,
            ));
        }
        from += 1;
    }
    s.substring_char(from, n)
}

/// The hexadecimal digit `d`, in lower case.
pub open spec fn hex_digit(d: int) -> char {
    if d < 10 {
        (('0' as u32) + d) as char
    } else {
        (('a' as u32) + (d - 10)) as char
    }
}

/// `b` as two hexadecimal digits.
pub open spec fn hex_byte(b: u8) -> Seq<char> {
    seq![hex_digit(b as int / 16), hex_digit(b as int % 16)]
}

/// The hexadecimal digit `d`.
fn hex_char(d: u8) -> (c: char)
    requires
        d < 16,
    ensures
        c == hex_digit(d as int),
{
    match d {
        0 => '0',
        1 => '1',
        2 => '2',
        3 => '3',
        4 => '4',
        5 => '5',
        6 => '6',
        7 => '7',
        8 => '8',
        9 => '9',
        10 => 'a',
        11 => 'b',
        12 => 'c',
        13 => 'd',
        14 => 'e',
        _ => 'f',
    }
}

/// Appends `b` as two hexadecimal digits.
pub fn push_hex(s: &mut String, b: u8)
    ensures
        final(s)@ == old(s)@ + hex_byte(b),
{
    s.push(hex_char(b / 16));
    s.push(hex_char(b % 16));
    proof {
        assert(s@ =~= old(s)@ + hex_byte(b));
    }
}

/// Whether a character is a decimal digit.
pub open spec fn is_digit(c: char) -> bool {
    '0' <= c <= '9'
}

/// The number that decimal digits stand for.
pub open spec fn digits_value(s: Seq<char>) -> nat
    decreases s.len(),
{
    if s.len() == 0 {
        0
    } else {
        digits_value(s.drop_last()) * 10 + (s.last() as nat - '0' as nat) as nat
    }
}

/// Whether a text is made of digits.
pub open spec fn all_digits(s: Seq<char>) -> bool {
    forall|i: int| 0 <= i < s.len() ==> is_digit(#[trigger] s[i])
}

/// The number that a text stands for: at least one digit and nothing else, but
/// for a plus sign in front.
pub open spec fn number_of(s: Seq<char>) -> Option<nat> {
    let digits = if s.len() > 0 && s[0] == '+' {
        s.skip(1)
    } else {
        s
    };
    if digits.len() > 0 && all_digits(digits) {
        Some(digits_value(digits))
    } else {
        None
    }
}

/// Reads a number; none where the text is not one, or it is too large.
pub fn parse_usize(text: &str) -> (r: Option<usize>)
    ensures
        r == (match number_of(text@) {
            Some(n) => if n <= usize::MAX {
                Some(n as usize)
            } else {
                None
            },
            None => None,
        }),
{
    let all = chars_of(text);
    let ghost s = text@;
    let start: usize = if all.len() > 0 && all[0] == '+' {
        1
    } else {
        0
    };
    let ghost digits = s.skip(start as int);
    proof {
        if start == 0 {
            assert(digits =~= s);
        }
    }
    if start == all.len() {
        return None;
    }
    let mut value: u128 = 0;
    let mut large = false;
    let mut i: usize = start;
    proof {
        assert(digits.take(0) =~= Seq::<char>::empty());
    }
    while i < all.len()
        invariant
            start <= i <= all@.len(),
            all@ == s,
            start <= 1,
            start < all@.len(),
            digits == s.skip(start as int),
            digits == (if s.len() > 0 && s[0] == '+' {
                s.skip(1)
            } else {
                s
            }),
            s == text@,
            forall|j: int| 0 <= j < i - start ==> is_digit(#[trigger] digits[j]),
            !large ==> value == digits_value(digits.take(i - start)) && value <= usize::MAX,
            large ==> digits_value(digits.take(i - start)) > usize::MAX,
        decreases all.len() - i,
    {
        let c = all[i];
        proof {
            let k = i - start;
            assert(digits[k] == c);
            assert(digits.take(k + 1).drop_last() =~= digits.take(k));
            assert(digits.take(k + 1).last() == c);
        }
        if c < '0' || c > '9' {
            proof {
                let k = i - start;
                assert(0 <= k < digits.len());
                assert(!is_digit(digits[k]));
                assert(!all_digits(digits));
            }
            return None;
        }
        if !large {
            value = value * 10 + (c as u32 - '0' as u32) as u128;
            if value > usize::MAX as u128 {
                large = true;
            }
        }
        i += 1;
    }
    proof {
        assert(digits.take(i - start) =~= digits);
        assert(all_digits(digits));
    }
    if large {
        None
    } else {
        Some(value as usize)
    }
}

/// What `str::to_lowercase` makes of a text.
pub uninterp spec fn lowercase(s: Seq<char>) -> Seq<char>;

/// `str::to_lowercase`: Unicode's lower-case mapping, which only has a name
/// here.
#[verifier::external_body]
pub(crate) fn to_lower(s: &str) -> (r: String)
    ensures
        r@ == lowercase(s@),
{
    s.to_lowercase()
}

/// What `str::to_uppercase` makes of a text.
pub uninterp spec fn uppercase(s: Seq<char>) -> Seq<char>;

/// `str::to_uppercase`: Unicode's upper-case mapping, which only has a name
/// here.
#[verifier::external_body]
pub(crate) fn to_upper(s: &str) -> (r: String)
    ensures
        r@ == uppercase(s@),
{
    s.to_uppercase()
}

/// `n` in decimal, with its sign where it is negative.
pub open spec fn signed_decimal(n: int) -> Seq<char> {
    if n < 0 {
        "-"@ + decimal((-n) as nat)
    } else {
        decimal(n as nat)
    }
}

/// `n` in decimal, with its sign where it is negative.
pub fn signed_decimal_of(n: i32) -> (s: String)
    ensures
        s@ == signed_decimal(n as int),
{
    if n < 0 {
        let m: i64 = -(n as i64);
        join2("-", decimal_of(m as u64).as_str())
    } else {
        decimal_of(n as u64)
    }
}

} // verus!
