//! Helpers on strings and ASCII bytes that the parsers share.

use vstd::prelude::*;
use vstd::string::*;

verus! {

/// Compares two strings, character for character.
pub fn str_eq(a: &str, b: &str) -> (r: bool)
    ensures
        r == (a@ == b@),
{
    let x = a.as_bytes();
    let y = b.as_bytes();
    proof {
        vstd::utf8::encode_utf8_decode_utf8(a@);
        vstd::utf8::encode_utf8_decode_utf8(b@);
    }
    if x.len() != y.len() {
        return false;
    }
    let mut i: usize = 0;
    while i < x.len()
        invariant
            i <= x.len(),
            x.len() == y.len(),
            x@ == a.spec_bytes(),
            y@ == b.spec_bytes(),
            forall|k: int| 0 <= k < i ==> x@[k] == y@[k],
        decreases x.len() - i,
    {
        if x[i] != y[i] {
            return false;
        }
        i = i + 1;
    }
    assert(x@ =~= y@);
    true
}

/// Appends the bytes of `src` to `out`.
pub fn append_bytes(out: &mut Vec<u8>, src: &[u8])
    ensures
        final(out)@ == old(out)@ + src@,
{
    let mut i: usize = 0;
    while i < src.len()
        invariant
            i <= src.len(),
            out@ == old(out)@ + src@.subrange(0, i as int),
        decreases src.len() - i,
    {
        out.push(src[i]);
        assert(out@ =~= old(out)@ + src@.subrange(0, i + 1));
        i = i + 1;
    }
    assert(src@.subrange(0, i as int) =~= src@);
}

/// An owned copy of a string slice.
pub fn owned(s: &str) -> (r: String)
    ensures
        r@ == s@,
{
    s.to_owned()
}

/// `String::push` appends the given character to the end of the string.
pub assume_specification[ String::push ](s: &mut String, c: char)
    ensures
        final(s)@ == old(s)@.push(c),
;

/// The characters of a string, in order.
pub fn chars_of(s: &str) -> (r: Vec<char>)
    ensures
        r@ == s@,
{
    let mut out: Vec<char> = Vec::new();
    for c in it: s.chars()
        invariant
            out@ == it.seq().take(it.index() as int),
            it.seq() == s@,
    {
        out.push(c);
    }
    out
}

/// True for the characters that count as white space: the Unicode
/// property of that name.
pub open spec fn spec_is_whitespace(c: char) -> bool {
    let u = c as u32;
    ||| 0x09 <= u <= 0x0D
    ||| u == 0x20
    ||| u == 0x85
    ||| u == 0xA0
    ||| u == 0x1680
    ||| 0x2000 <= u <= 0x200A
    ||| u == 0x2028
    ||| u == 0x2029
    ||| u == 0x202F
    ||| u == 0x205F
    ||| u == 0x3000
}

pub fn is_whitespace(c: char) -> (r: bool)
    ensures
        r == spec_is_whitespace(c),
{
    let u = c as u32;
    (0x09 <= u && u <= 0x0D) || u == 0x20 || u == 0x85 || u == 0xA0 || u == 0x1680 || (0x2000 <= u
        && u <= 0x200A) || u == 0x2028 || u == 0x2029 || u == 0x202F || u == 0x205F || u == 0x3000
}

/// The number of white-space characters at the head of `s`.
pub open spec fn leading_spaces(s: Seq<char>) -> nat
    decreases s.len(),
{
    if s.len() > 0 && spec_is_whitespace(s[0]) {
        1 + leading_spaces(s.skip(1))
    } else {
        0
    }
}

/// The number of white-space characters at the tail of `s`.
pub open spec fn trailing_spaces(s: Seq<char>) -> nat
    decreases s.len(),
{
    if s.len() > 0 && spec_is_whitespace(s.last()) {
        1 + trailing_spaces(s.drop_last())
    } else {
        0
    }
}

/// `s` without the white space at its head and at its tail.
pub open spec fn spec_trim(s: Seq<char>) -> Seq<char> {
    let a = leading_spaces(s);
    if a == s.len() {
        Seq::empty()
    } else {
        s.subrange(a as int, s.len() - trailing_spaces(s))
    }
}

/// A run of `n` white-space characters at the head of `s`, followed by the
/// end or by another character, is all the white space at the head.
pub proof fn lemma_leading_spaces_is(s: Seq<char>, n: nat)
    requires
        n <= s.len(),
        forall|k: int| 0 <= k < n ==> spec_is_whitespace(#[trigger] s[k]),
        n < s.len() ==> !spec_is_whitespace(s[n as int]),
    ensures
        leading_spaces(s) == n,
    decreases n,
{
    if n > 0 {
        assert(spec_is_whitespace(s[0]));
        let t = s.skip(1);
        assert forall|k: int| 0 <= k < n - 1 implies spec_is_whitespace(#[trigger] t[k]) by {
            assert(t[k] == s[k + 1]);
        }
        lemma_leading_spaces_is(t, (n - 1) as nat);
    }
}

/// A run of `n` white-space characters at the tail of `s`, preceded by the
/// start or by another character, is all the white space at the tail.
pub proof fn lemma_trailing_spaces_is(s: Seq<char>, n: nat)
    requires
        n <= s.len(),
        forall|k: int| s.len() - n <= k < s.len() ==> spec_is_whitespace(#[trigger] s[k]),
        n < s.len() ==> !spec_is_whitespace(s[s.len() - n - 1]),
    ensures
        trailing_spaces(s) == n,
    decreases n,
{
    if n > 0 {
        assert(spec_is_whitespace(s[s.len() - 1]));
        let t = s.drop_last();
        assert forall|k: int| t.len() - (n - 1) <= k < t.len() implies spec_is_whitespace(
            #[trigger] t[k],
        ) by {
            assert(t[k] == s[k]);
        }
        lemma_trailing_spaces_is(t, (n - 1) as nat);
    }
}

/// The bounds of what is left of `s[from..to]` when the white space at its
/// head and tail is taken away.
pub fn trim_bounds(s: &Vec<char>, from: usize, to: usize) -> (r: (usize, usize))
    requires
        from <= to <= s.len(),
    ensures
        from <= r.0 <= r.1 <= to,
        s@.subrange(r.0 as int, r.1 as int) == spec_trim(s@.subrange(from as int, to as int)),
{
    let ghost part = s@.subrange(from as int, to as int);
    let mut a = from;
    while a < to && is_whitespace(s[a])
        invariant
            from <= a <= to <= s.len(),
            forall|k: int| from <= k < a ==> spec_is_whitespace(#[trigger] s@[k]),
        decreases to - a,
    {
        a = a + 1;
    }
    proof {
        assert forall|k: int| 0 <= k < a - from implies spec_is_whitespace(#[trigger] part[k]) by {
            assert(part[k] == s@[from + k]);
        }
        lemma_leading_spaces_is(part, (a - from) as nat);
    }
    if a == to {
        assert(s@.subrange(a as int, a as int) =~= Seq::<char>::empty());
        return (a, a);
    }
    let mut b = to;
    while b > a && is_whitespace(s[b - 1])
        invariant
            a <= b <= to <= s.len(),
            a < to,
            !spec_is_whitespace(s@[a as int]),
            forall|k: int| b <= k < to ==> spec_is_whitespace(#[trigger] s@[k]),
        decreases b,
    {
        b = b - 1;
    }
    proof {
        assert(b > a);
        assert forall|k: int| part.len() - (to - b) <= k < part.len() implies spec_is_whitespace(
            #[trigger] part[k],
        ) by {
            assert(part[k] == s@[from + k]);
        }
        assert(part[part.len() - (to - b) - 1] == s@[b - 1]);
        lemma_trailing_spaces_is(part, (to - b) as nat);
        assert(s@.subrange(a as int, b as int) =~= part.subrange(a - from, part.len() - (to - b)));
    }
    (a, b)
}

/// True for the letters of ASCII.
pub open spec fn spec_is_ascii_letter(c: char) -> bool {
    ('a' <= c <= 'z') || ('A' <= c <= 'Z')
}

pub fn is_ascii_letter(c: char) -> (r: bool)
    ensures
        r == spec_is_ascii_letter(c),
{
    ('a' <= c && c <= 'z') || ('A' <= c && c <= 'Z')
}

/// The upper-case form of a letter of ASCII; any other character as it is.
pub open spec fn spec_ascii_upper(c: char) -> char {
    if 'a' <= c <= 'z' {
        ((c as u32) - 32) as char
    } else {
        c
    }
}

pub fn ascii_upper(c: char) -> (r: char)
    ensures
        r == spec_ascii_upper(c),
{
    if 'a' <= c && c <= 'z' {
        ((c as u8) - 32) as char
    } else {
        c
    }
}

/// The text of `cs[from..to]`.
pub fn string_of(cs: &Vec<char>, from: usize, to: usize) -> (r: String)
    requires
        from <= to <= cs.len(),
    ensures
        r@ == cs@.subrange(from as int, to as int),
{
    let mut out = String::new();
    let mut i: usize = from;
    while i < to
        invariant
            from <= i <= to <= cs.len(),
            out@ == cs@.subrange(from as int, i as int),
        decreases to - i,
    {
        out.push(cs[i]);
        assert(out@ =~= cs@.subrange(from as int, i + 1));
        i = i + 1;
    }
    out
}

/// The place of the first `c` in `s`.
pub open spec fn index_of_char(s: Seq<char>, c: char) -> Option<int>
    decreases s.len(),
{
    if s.len() == 0 {
        None
    } else if s[0] == c {
        Some(0)
    } else {
        match index_of_char(s.skip(1), c) {
            Some(i) => Some(i + 1),
            None => None,
        }
    }
}

/// What stands before the first `c` in `s`: all of `s` where it has none.
pub open spec fn before(s: Seq<char>, c: char) -> Seq<char> {
    match index_of_char(s, c) {
        Some(i) => s.take(i),
        None => s,
    }
}

/// What stands after the first `c` in `s`, where it has one.
pub open spec fn after(s: Seq<char>, c: char) -> Option<Seq<char>> {
    match index_of_char(s, c) {
        Some(i) => Some(s.skip(i + 1)),
        None => None,
    }
}

pub proof fn lemma_index_of_char(s: Seq<char>, c: char)
    ensures
        match index_of_char(s, c) {
            Some(i) => 0 <= i < s.len() && s[i] == c && forall|k: int|
                0 <= k < i ==> #[trigger] s[k] != c,
            None => forall|k: int| 0 <= k < s.len() ==> #[trigger] s[k] != c,
        },
    decreases s.len(),
{
    if s.len() > 0 && s[0] != c {
        let t = s.skip(1);
        lemma_index_of_char(t, c);
        match index_of_char(t, c) {
            Some(i) => {
                assert(s[i + 1] == t[i]);
                assert forall|k: int| 0 <= k < i + 1 implies #[trigger] s[k] != c by {
                    if k > 0 {
                        assert(s[k] == t[k - 1]);
                    }
                }
            },
            None => {
                assert forall|k: int| 0 <= k < s.len() implies #[trigger] s[k] != c by {
                    if k > 0 {
                        assert(s[k] == t[k - 1]);
                    }
                }
            },
        }
    }
}

/// The place of the first `c` in `cs[from..to]`, counted from `from`.
#[verifier::loop_isolation(false)]
pub fn find_char(cs: &Vec<char>, from: usize, to: usize, c: char) -> (r: Option<usize>)
    requires
        from <= to <= cs.len(),
    ensures
        match index_of_char(cs@.subrange(from as int, to as int), c) {
            Some(i) => r == Some(i as usize) && 0 <= i && from + i < to,
            None => r is None,
        },
{
    let ghost part = cs@.subrange(from as int, to as int);
    proof {
        lemma_index_of_char(part, c);
    }
    let mut i: usize = from;
    while i < to
        invariant
            from <= i <= to,
            forall|k: int| 0 <= k < i - from ==> #[trigger] part[k] != c,
        decreases to - i,
    {
        if cs[i] == c {
            assert(part[i - from] == c);
            return Some(i - from);
        }
        i = i + 1;
    }
    None
}

/// True if `s` ends with `suffix`.
pub open spec fn ends_with(s: Seq<char>, suffix: Seq<char>) -> bool {
    s.len() >= suffix.len() && s.skip(s.len() - suffix.len()) == suffix
}

/// True if `s` begins with `prefix`.
pub open spec fn starts_with(s: Seq<char>, prefix: Seq<char>) -> bool {
    s.len() >= prefix.len() && s.take(prefix.len() as int) == prefix
}

/// True if `cs[from..to]` ends with `suffix`.
pub fn range_ends_with(cs: &Vec<char>, from: usize, to: usize, suffix: &str) -> (r: bool)
    requires
        from <= to <= cs.len(),
    ensures
        r == ends_with(cs@.subrange(from as int, to as int), suffix@),
{
    let suf = chars_of(suffix);
    if to - from < suf.len() {
        return false;
    }
    let start = to - suf.len();
    let ghost part = cs@.subrange(from as int, to as int);
    let ghost tail = part.skip(part.len() - suf.len());
    let mut i: usize = 0;
    while i < suf.len()
        invariant
            i <= suf.len(),
            start + suf.len() == to,
            from <= start,
            to <= cs.len(),
            suf@ == suffix@,
            part == cs@.subrange(from as int, to as int),
            tail == part.skip(part.len() - suf.len()),
            forall|k: int| 0 <= k < i ==> #[trigger] tail[k] == suf@[k],
        decreases suf.len() - i,
    {
        if cs[start + i] != suf[i] {
            assert(tail[i as int] == cs@[start + i]);
            return false;
        }
        assert(tail[i as int] == cs@[start + i]);
        i = i + 1;
    }
    assert(tail =~= suf@);
    true
}

/// True if `cs[from..to]` begins with `prefix`.
pub fn range_starts_with(cs: &Vec<char>, from: usize, to: usize, prefix: &str) -> (r: bool)
    requires
        from <= to <= cs.len(),
    ensures
        r == starts_with(cs@.subrange(from as int, to as int), prefix@),
{
    let pre = chars_of(prefix);
    if to - from < pre.len() {
        return false;
    }
    let ghost part = cs@.subrange(from as int, to as int);
    let ghost head = part.take(pre.len() as int);
    let mut i: usize = 0;
    while i < pre.len()
        invariant
            i <= pre.len(),
            from + pre.len() <= to <= cs.len(),
            pre@ == prefix@,
            part == cs@.subrange(from as int, to as int),
            head == part.take(pre.len() as int),
            forall|k: int| 0 <= k < i ==> #[trigger] head[k] == pre@[k],
        decreases pre.len() - i,
    {
        if cs[from + i] != pre[i] {
            assert(head[i as int] == cs@[from + i]);
            return false;
        }
        assert(head[i as int] == cs@[from + i]);
        i = i + 1;
    }
    assert(head =~= pre@);
    true
}

/// True if `cs[from..to]` is the text `word`.
pub fn range_is(cs: &Vec<char>, from: usize, to: usize, word: &str) -> (r: bool)
    requires
        from <= to <= cs.len(),
    ensures
        r == (cs@.subrange(from as int, to as int) == word@),
{
    let ghost part = cs@.subrange(from as int, to as int);
    assert(part.take(part.len() as int) =~= part);
    to - from == word.unicode_len() && range_starts_with(cs, from, to, word)
}

} // verus!
