//! Text primitives: what the standard library does to strings, and comparisons on their characters.

use vstd::prelude::*;
use vstd::utf8::{decode_utf8, is_ascii_chars, valid_utf8};

verus! {

/// Whether `c` has the Unicode property `White_Space`.
pub open spec fn is_white_space(c: char) -> bool {
    let u = c as u32;
    ||| 0x9 <= u <= 0xd
    ||| u == 0x20
    ||| u == 0x85
    ||| u == 0xa0
    ||| u == 0x1680
    ||| 0x2000 <= u <= 0x200a
    ||| u == 0x2028
    ||| u == 0x2029
    ||| u == 0x202f
    ||| u == 0x205f
    ||| u == 0x3000
}

/// `s` without its leading white space.
pub open spec fn trimmed_start(s: Seq<char>) -> Seq<char>
    decreases s.len(),
{
    if s.len() > 0 && is_white_space(s.first()) {
        trimmed_start(s.drop_first())
    } else {
        s
    }
}

/// `s` without its trailing white space.
pub open spec fn trimmed_end(s: Seq<char>) -> Seq<char>
    decreases s.len(),
{
    if s.len() > 0 && is_white_space(s.last()) {
        trimmed_end(s.drop_last())
    } else {
        s
    }
}

/// `s` without white space at either end.
pub open spec fn trimmed(s: Seq<char>) -> Seq<char> {
    trimmed_end(trimmed_start(s))
}

/// A character that is not white space is kept by trimming the start.
proof fn lemma_trimmed_start_keeps(s: Seq<char>, c: char)
    requires
        s.contains(c),
        !is_white_space(c),
    ensures
        trimmed_start(s).contains(c),
    decreases s.len(),
{
    if is_white_space(s.first()) {
        let i = choose|i: int| 0 <= i < s.len() && s[i] == c;
        assert(s.drop_first()[i - 1] == c);
        lemma_trimmed_start_keeps(s.drop_first(), c);
    }
}

/// A character that is not white space is kept by trimming the end.
proof fn lemma_trimmed_end_keeps(s: Seq<char>, c: char)
    requires
        s.contains(c),
        !is_white_space(c),
    ensures
        trimmed_end(s).contains(c),
    decreases s.len(),
{
    if is_white_space(s.last()) {
        let i = choose|i: int| 0 <= i < s.len() && s[i] == c;
        assert(s.drop_last()[i] == c);
        lemma_trimmed_end_keeps(s.drop_last(), c);
    }
}

/// Trimming loses no character but white space.
pub proof fn law_trimming_keeps_the_rest(s: Seq<char>, c: char)
    requires
        s.contains(c),
        !is_white_space(c),
    ensures
        trimmed(s).contains(c),
{
    lemma_trimmed_start_keeps(s, c);
    lemma_trimmed_end_keeps(trimmed_start(s), c);
}

/// The lower case of one ASCII character; any other character is left as it is.
pub open spec fn ascii_lower_char(c: char) -> char {
    if 'A' <= c <= 'Z' {
        (c as u8 + 32) as char
    } else {
        c
    }
}

/// `s` with its ASCII capital letters in lower case.
pub open spec fn ascii_lowercase(s: Seq<char>) -> Seq<char> {
    s.map_values(|c: char| ascii_lower_char(c))
}

/// Whether a character is ASCII.
pub open spec fn is_ascii_char(c: char) -> bool {
    c <= '\u{7f}'
}

/// The end of a text, as far back as it is ASCII.
pub open spec fn ascii_tail(s: Seq<char>) -> Seq<char>
    decreases s.len(),
{
    if s.len() > 0 && is_ascii_char(s.last()) {
        ascii_tail(s.drop_last()).push(s.last())
    } else {
        Seq::empty()
    }
}

/// What `str::to_lowercase` makes of a text that is not ASCII, up to and with its last character
/// that is not ASCII: the lower case by the Unicode tables. How a character is lowered there can
/// depend on what follows it, so the whole text is given.
pub uninterp spec fn unicode_lowercase(s: Seq<char>) -> Seq<char>;

/// The lower case of a text.
pub open spec fn lowercase(s: Seq<char>) -> Seq<char> {
    if is_ascii_chars(s) {
        ascii_lowercase(s)
    } else {
        unicode_lowercase(s) + ascii_lowercase(ascii_tail(s))
    }
}

/// Where the last `n` characters of a text are ASCII, they end its ASCII tail.
proof fn lemma_ascii_tail(s: Seq<char>, n: int)
    requires
        0 <= n <= s.len(),
        forall|i: int| s.len() - n <= i < s.len() ==> is_ascii_char(#[trigger] s[i]),
    ensures
        s.skip(s.len() - n).is_suffix_of(ascii_tail(s)),
    decreases n,
{
    if n == 0 {
        assert(s.skip(s.len() as int) =~= ascii_tail(s).subrange(
            ascii_tail(s).len() as int,
            ascii_tail(s).len() as int,
        ));
    } else {
        let rest = s.drop_last();
        assert(is_ascii_char(s[s.len() - 1]));
        assert forall|i: int| rest.len() - (n - 1) <= i < rest.len() implies is_ascii_char(
            #[trigger] rest[i],
        ) by {
            assert(rest[i] == s[i]);
        }
        lemma_ascii_tail(rest, n - 1);
        let tail = ascii_tail(s);
        let before = ascii_tail(rest);
        let end = rest.skip(rest.len() - (n - 1));
        assert(tail == before.push(s.last()));
        assert(s.skip(s.len() - n) =~= end.push(s.last()));
        assert(tail.subrange(tail.len() - n, tail.len() as int) =~= before.subrange(
            before.len() - (n - 1),
            before.len() as int,
        ).push(s.last()));
    }
}

/// Where a text ends in ASCII characters, its lower case ends in theirs, whatever stands before
/// them.
pub proof fn law_ascii_ending_is_lowered(s: Seq<char>, n: int)
    requires
        0 <= n <= s.len(),
        forall|i: int| s.len() - n <= i < s.len() ==> is_ascii_char(#[trigger] s[i]),
    ensures
        ascii_lowercase(s.skip(s.len() - n)).is_suffix_of(lowercase(s)),
{
    let end = ascii_lowercase(s.skip(s.len() - n));
    let lower = lowercase(s);
    if is_ascii_chars(s) {
        assert(end =~= lower.subrange(lower.len() - n, lower.len() as int));
    } else {
        lemma_ascii_tail(s, n);
        let tail = ascii_tail(s);
        assert(s.skip(s.len() - n) == tail.subrange(tail.len() - n, tail.len() as int));
        assert(end =~= lower.subrange(lower.len() - n, lower.len() as int));
    }
}

/// What `String::from_utf8_lossy` makes of bytes that are not UTF-8: the text that they encode,
/// with replacement characters where they encode none.
pub uninterp spec fn repaired_text(bytes: Seq<u8>) -> Seq<char>;

/// The text that bytes encode, with replacement characters where they encode none.
pub open spec fn lossy_text(bytes: Seq<u8>) -> Seq<char> {
    if valid_utf8(bytes) {
        decode_utf8(bytes)
    } else {
        repaired_text(bytes)
    }
}

/// `String::push` appends one character.
pub assume_specification[ String::push ](s: &mut String, c: char)
    ensures
        final(s)@ == old(s)@.push(c),
;

/// `str::to_lowercase` is a function of the text. On ASCII text it lowers the capital letters
/// and changes nothing else; beyond ASCII the Unicode tables decide, and the ASCII characters
/// that end the text are lowered as ASCII is. Every character becomes one or more, and the
/// replacement character, which has no lower case, stays.
pub assume_specification[ str::to_lowercase ](s: &str) -> (r: String)
    ensures
        is_ascii_chars(s@) ==> r@ == ascii_lowercase(s@),
        !is_ascii_chars(s@) ==> r@ == unicode_lowercase(s@) + ascii_lowercase(ascii_tail(s@)),
        s@.len() <= r@.len(),
        s@.contains('\u{FFFD}') ==> r@.contains('\u{FFFD}'),
;

/// `String::from_utf8_lossy` is a function of the bytes, and decodes valid UTF-8 as it is. Bytes
/// that are not UTF-8 leave a replacement character.
#[verifier::external_body]
pub(crate) fn decode_lossy(bytes: &[u8]) -> (r: String)
    ensures
        valid_utf8(bytes@) ==> r@ == decode_utf8(bytes@),
        !valid_utf8(bytes@) ==> r@ == repaired_text(bytes@),
        !valid_utf8(bytes@) ==> r@.contains('\u{FFFD}'),
{
    String::from_utf8_lossy(bytes).into_owned()
}

/// The characters of a text, in order.
pub fn chars_of(s: &str) -> (r: Vec<char>)
    ensures
        r@ == s@,
{
    let mut r: Vec<char> = Vec::new();
    for c in it: s.chars()
        invariant
            it.seq() == s@,
            r@ == s@.take(it.index() as int),
    {
        r.push(c);
    }
    r
}

/// Whether a character has the Unicode property `White_Space`.
fn white_space(c: char) -> (r: bool)
    ensures
        r == is_white_space(c),
{
    let u = c as u32;
    (0x9 <= u && u <= 0xd) || u == 0x20 || u == 0x85 || u == 0xa0 || u == 0x1680 || (0x2000 <= u
        && u <= 0x200a) || u == 0x2028 || u == 0x2029 || u == 0x202f || u == 0x205f || u == 0x3000
}

/// A text without white space at either end.
pub fn trim(s: &str) -> (r: &str)
    ensures
        r@ == trimmed(s@),
{
    let chars = chars_of(s);
    let mut from: usize = 0;
    let mut to: usize = chars.len();
    assert(s@.skip(0) =~= s@);
    while from < to && white_space(chars[from])
        invariant
            chars@ == s@,
            from <= to == chars.len(),
            trimmed_start(s@.skip(from as int)) == trimmed_start(s@),
        decreases to - from,
    {
        assert(s@.skip(from as int).drop_first() =~= s@.skip(from + 1));
        from = from + 1;
    }
    assert(s@.skip(from as int) == trimmed_start(s@));
    assert(s@.subrange(from as int, to as int) =~= s@.skip(from as int));
    while from < to && white_space(chars[to - 1])
        invariant
            chars@ == s@,
            from <= to <= chars.len(),
            trimmed_end(s@.subrange(from as int, to as int)) == trimmed(s@),
        decreases to - from,
    {
        assert(s@.subrange(from as int, to as int).drop_last() =~= s@.subrange(
            from as int,
            to - 1,
        ));
        to = to - 1;
    }
    s.substring_char(from, to)
}

/// Whether two texts are the same.
pub fn same_text(a: &str, b: &str) -> (r: bool)
    ensures
        r == (a@ == b@),
{
    let x = chars_of(a);
    let y = chars_of(b);
    if x.len() != y.len() {
        return false;
    }
    for i in 0..x.len()
        invariant
            x@ == a@,
            y@ == b@,
            x.len() == y.len(),
            x@.take(i as int) == y@.take(i as int),
    {
        if x[i] != y[i] {
            return false;
        }
        assert(x@.take(i + 1) == y@.take(i + 1));
    }
    assert(x@.take(x.len() as int) == x@ && y@.take(x.len() as int) == y@);
    true
}

/// Whether `s` begins with `prefix`.
pub fn starts_with(s: &str, prefix: &str) -> (r: bool)
    ensures
        r == prefix@.is_prefix_of(s@),
{
    let x = chars_of(s);
    let p = chars_of(prefix);
    if p.len() > x.len() {
        return false;
    }
    for i in 0..p.len()
        invariant
            x@ == s@,
            p@ == prefix@,
            p.len() <= x.len(),
            p@.take(i as int) == x@.take(i as int),
    {
        if x[i] != p[i] {
            assert(p@[i as int] != x@.take(p@.len() as int)[i as int]);
            return false;
        }
        assert(p@.take(i + 1) == x@.take(i + 1));
    }
    assert(p@.take(p.len() as int) == p@);
    true
}

/// Whether `s` ends with `suffix`.
pub fn ends_with(s: &str, suffix: &str) -> (r: bool)
    ensures
        r == suffix@.is_suffix_of(s@),
{
    let x = chars_of(s);
    let p = chars_of(suffix);
    if p.len() > x.len() {
        return false;
    }
    let from: usize = x.len() - p.len();
    for i in 0..p.len()
        invariant
            x@ == s@,
            p@ == suffix@,
            p.len() <= x.len(),
            from == x.len() - p.len(),
            forall|j: int| 0 <= j < i ==> p@[j] == x@[from + j],
    {
        if x[from + i] != p[i] {
            assert(p@[i as int] != x@.subrange(from as int, x@.len() as int)[i as int]);
            return false;
        }
    }
    assert(p@ == x@.subrange(from as int, x@.len() as int));
    true
}

/// Two texts one after the other.
pub fn joined(a: &str, b: &str) -> (r: String)
    ensures
        r@ == a@ + b@,
{
    let mut r = a.to_owned();
    r.append(b);
    r
}

} // verus!
