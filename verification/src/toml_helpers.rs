//! Reading the place of an error out of the message of a document parser.

use vstd::prelude::*;
use vstd::string::*;
use crate::device::{parse_bounded, spec_parse_number, NumberBase};
use crate::text::{chars_of, range_starts_with, starts_with};

verus! {

/// The place of the first occurrence of `pat` in `s`.
pub open spec fn find_sub(s: Seq<char>, pat: Seq<char>) -> Option<int>
    decreases s.len(),
{
    if starts_with(s, pat) {
        Some(0)
    } else if s.len() == 0 {
        None
    } else {
        match find_sub(s.skip(1), pat) {
            Some(i) => Some(i + 1),
            None => None,
        }
    }
}

/// The number of decimal digits at the head of `s`.
pub open spec fn digits_run(s: Seq<char>) -> nat
    decreases s.len(),
{
    if s.len() > 0 && '0' <= s[0] <= '9' {
        1 + digits_run(s.skip(1))
    } else {
        0
    }
}

/// The number that the digits at the head of `s` stand for, where there
/// are any and the number fits the machine word.
pub open spec fn leading_number(s: Seq<char>) -> Option<usize> {
    match spec_parse_number(s.take(digits_run(s) as int), NumberBase::Decimal) {
        Some(v) => if v <= usize::MAX {
            Some(v as usize)
        } else {
            None
        },
        None => None,
    }
}

/// The line and the column that a message names: the number after the
/// first `line `, and the number after the first `column ` that follows.
pub open spec fn spec_extract_line_col(msg: Seq<char>) -> Option<(usize, usize)> {
    match find_sub(msg, "line "@) {
        None => None,
        Some(p) => {
            let rest = msg.skip(p + 5);
            match (leading_number(rest), find_sub(rest, "column "@)) {
                (Some(line), Some(q)) => match leading_number(rest.skip(q + 7)) {
                    Some(col) => Some((line, col)),
                    None => None,
                },
                _ => None,
            }
        },
    }
}

proof fn lemma_digits_run_is(s: Seq<char>, n: nat)
    requires
        n <= s.len(),
        forall|k: int| 0 <= k < n ==> '0' <= #[trigger] s[k] <= '9',
        n < s.len() ==> !('0' <= s[n as int] <= '9'),
    ensures
        digits_run(s) == n,
    decreases n,
{
    if n > 0 {
        assert('0' <= s[0] <= '9');
        let t = s.skip(1);
        assert forall|k: int| 0 <= k < n - 1 implies '0' <= #[trigger] t[k] <= '9' by {
            assert(t[k] == s[k + 1]);
        }
        lemma_digits_run_is(t, (n - 1) as nat);
    }
}

/// The place of the first occurrence of `pat` in `cs[from..]`, counted
/// from `from`.
fn find_in(cs: &Vec<char>, from: usize, pat: &str) -> (r: Option<usize>)
    requires
        from <= cs.len(),
    ensures
        match find_sub(cs@.skip(from as int), pat@) {
            Some(i) => r == Some(i as usize) && 0 <= i && from + i + pat@.len() <= cs.len(),
            None => r is None,
        },
{
    let ghost part = cs@.skip(from as int);
    let to = cs.len();
    let mut i: usize = from;
    assert(part.skip(0) =~= part);
    loop
        invariant
            from <= i <= to,
            to == cs.len(),
            part == cs@.skip(from as int),
            match find_sub(part.skip(i - from), pat@) {
                Some(k) => find_sub(part, pat@) == Some(k + i - from),
                None => find_sub(part, pat@) is None,
            },
        decreases to - i,
    {
        assert(cs@.subrange(i as int, to as int) =~= part.skip(i - from));
        if range_starts_with(cs, i, to, pat) {
            return Some(i - from);
        }
        if i == to {
            return None;
        }
        assert(part.skip(i - from).skip(1) =~= part.skip(i + 1 - from));
        i = i + 1;
    }
}

/// The number that the digits at the head of `cs[from..]` stand for.
fn number_at(cs: &Vec<char>, from: usize) -> (r: Option<usize>)
    requires
        from <= cs.len(),
    ensures
        r == leading_number(cs@.skip(from as int)),
{
    let ghost part = cs@.skip(from as int);
    let mut e: usize = from;
    while e < cs.len() && '0' <= cs[e] && cs[e] <= '9'
        invariant
            from <= e <= cs.len(),
            part == cs@.skip(from as int),
            forall|k: int| 0 <= k < e - from ==> '0' <= #[trigger] part[k] <= '9',
        decreases cs.len() - e,
    {
        e = e + 1;
    }
    proof {
        lemma_digits_run_is(part, (e - from) as nat);
        assert(cs@.subrange(from as int, e as int) =~= part.take(e - from));
    }
    match parse_bounded(cs, from, e, NumberBase::Decimal, usize::MAX as u64) {
        Some(v) => Some(v as usize),
        None => None,
    }
}

/// Looks for `line N` and, after it, `column M` in the message of a
/// parser, and returns the two numbers.
pub fn extract_line_col_from_msg(msg: &str) -> (r: Option<(usize, usize)>)
    ensures
        r == spec_extract_line_col(msg@),
{
    let cs = chars_of(msg);
    assert(cs@.skip(0) =~= msg@);
    proof {
        reveal_strlit("line ");
        reveal_strlit("column ");
    }
    let p = match find_in(&cs, 0, "line ") {
        Some(p) => p,
        None => {
            return None;
        },
    };
    let a = p + 5;
    let ghost rest = msg@.skip(p + 5);
    assert(cs@.skip(a as int) =~= rest);
    let line = match number_at(&cs, a) {
        Some(n) => n,
        None => {
            return None;
        },
    };
    let q = match find_in(&cs, a, "column ") {
        Some(q) => q,
        None => {
            return None;
        },
    };
    let b = a + q + 7;
    assert(cs@.skip(b as int) =~= rest.skip(q + 7));
    match number_at(&cs, b) {
        Some(col) => Some((line, col)),
        None => None,
    }
}

} // verus!
