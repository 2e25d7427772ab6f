//! Typed values and the 16-bit words that carry them.

use vstd::prelude::*;
use vstd::slice::slice_subrange;
use crate::error::MelsecError;
use crate::response_parser::bit_of_word;

verus! {

/// Types that are read from 16-bit words, low word first.
pub trait FromWords: Sized {
    /// The number of words that one value takes.
    const WORDS: usize;

    /// True if `v` is the value that the words stand for.
    spec fn stands_for(words: Seq<u16>, v: Self) -> bool;

    /// Reads one value from the head of `words`. Returns the value and the
    /// number of words that it took. Fails where the words do not suffice.
    fn from_words_slice(words: &[u16]) -> (r: Result<(Self, usize), MelsecError>)
        ensures
            r is Ok <==> words@.len() >= Self::WORDS,
            r is Ok ==> r->Ok_0.1 == Self::WORDS && Self::stands_for(
                words@.take(Self::WORDS as int),
                r->Ok_0.0,
            ),
            r is Err ==> r->Err_0 is Protocol,
    ;
}

/// Types that are written as 16-bit words, low word first.
pub trait ToWords {
    /// The number of words that one value takes.
    const WORDS: usize;

    /// The words that stand for the value.
    spec fn spec_to_words(&self) -> Seq<u16>;

    /// Appends the words that stand for the value.
    fn to_words(&self, out: &mut Vec<u16>)
        ensures
            final(out)@ == old(out)@ + self.spec_to_words(),
            self.spec_to_words().len() == Self::WORDS,
    ;
}

/// The signed number that a word stands for in two's complement.
pub open spec fn signed16(w: u16) -> int {
    if w < 0x8000 {
        w as int
    } else {
        w as int - 0x1_0000
    }
}

/// The number that two words stand for, low word first.
pub open spec fn unsigned32(low: u16, high: u16) -> int {
    low as int + 0x1_0000 * (high as int)
}

/// The signed number that two words stand for in two's complement, low
/// word first.
pub open spec fn signed32(low: u16, high: u16) -> int {
    if high < 0x8000 {
        unsigned32(low, high)
    } else {
        unsigned32(low, high) - 0x1_0000_0000
    }
}

/// `w` where `bit` holds, else 0.
pub open spec fn weight(bit: bool, w: int) -> int {
    if bit {
        w
    } else {
        0
    }
}

/// The number that four bits stand for, the first being the least
/// significant.
#[verifier::opaque]
pub open spec fn nibble_value(b0: bool, b1: bool, b2: bool, b3: bool) -> int {
    weight(b0, 1) + weight(b1, 2) + weight(b2, 4) + weight(b3, 8)
}

/// The word whose bit `i` is set where `bits[i]` holds.
pub open spec fn word_of_bits(bits: Seq<bool>) -> int
    recommends
        bits.len() == 16,
{
    nibble_value(bits[0], bits[1], bits[2], bits[3]) + 16 * nibble_value(
        bits[4],
        bits[5],
        bits[6],
        bits[7],
    ) + 256 * nibble_value(bits[8], bits[9], bits[10], bits[11]) + 4096 * nibble_value(
        bits[12],
        bits[13],
        bits[14],
        bits[15],
    )
}

fn nibble(b0: bool, b1: bool, b2: bool, b3: bool) -> (r: u16)
    ensures
        r == nibble_value(b0, b1, b2, b3),
        r <= 15,
{
    reveal(nibble_value);
    let mut r: u16 = 0;
    if b0 {
        r = r + 1;
    }
    if b1 {
        r = r + 2;
    }
    if b2 {
        r = r + 4;
    }
    if b3 {
        r = r + 8;
    }
    r
}

impl FromWords for u16 {
    const WORDS: usize = 1;

    open spec fn stands_for(words: Seq<u16>, v: u16) -> bool {
        v == words[0]
    }

    fn from_words_slice(words: &[u16]) -> (r: Result<(u16, usize), MelsecError>) {
        if words.len() < 1 {
            return Err(MelsecError::protocol("not enough words for u16"));
        }
        Ok((words[0], 1))
    }
}

impl FromWords for i16 {
    const WORDS: usize = 1;

    open spec fn stands_for(words: Seq<u16>, v: i16) -> bool {
        v == signed16(words[0])
    }

    fn from_words_slice(words: &[u16]) -> (r: Result<(i16, usize), MelsecError>) {
        if words.len() < 1 {
            return Err(MelsecError::protocol("not enough words for i16"));
        }
        let w = words[0];
        let v = if w < 0x8000 {
            w as i16
        } else {
            (w as i32 - 0x1_0000) as i16
        };
        Ok((v, 1))
    }
}

impl FromWords for [bool; 16] {
    const WORDS: usize = 1;

    open spec fn stands_for(words: Seq<u16>, v: [bool; 16]) -> bool {
        forall|i: int| 0 <= i < 16 ==> #[trigger] v@[i] == bit_of_word(words[0], i as u16)
    }

    fn from_words_slice(words: &[u16]) -> (r: Result<([bool; 16], usize), MelsecError>) {
        if words.len() < 1 {
            return Err(MelsecError::protocol("not enough words for bits16"));
        }
        let w = words[0];
        let mut bits = [false;16];
        let mut i: u16 = 0;
        while i < 16
            invariant
                i <= 16,
                forall|k: int| 0 <= k < i ==> #[trigger] bits@[k] == bit_of_word(w, k as u16),
            decreases 16 - i,
        {
            bits[i as usize] = (w >> i) & 1 == 1;
            i = i + 1;
        }
        Ok((bits, 1))
    }
}

impl FromWords for u32 {
    const WORDS: usize = 2;

    open spec fn stands_for(words: Seq<u16>, v: u32) -> bool {
        v == unsigned32(words[0], words[1])
    }

    fn from_words_slice(words: &[u16]) -> (r: Result<(u32, usize), MelsecError>) {
        if words.len() < 2 {
            return Err(MelsecError::protocol("not enough words for u32"));
        }
        let v = (words[0] as u32) + 0x1_0000 * (words[1] as u32);
        Ok((v, 2))
    }
}

impl FromWords for i32 {
    const WORDS: usize = 2;

    open spec fn stands_for(words: Seq<u16>, v: i32) -> bool {
        v == signed32(words[0], words[1])
    }

    fn from_words_slice(words: &[u16]) -> (r: Result<(i32, usize), MelsecError>) {
        if words.len() < 2 {
            return Err(MelsecError::protocol("not enough words for i32"));
        }
        let u = (words[0] as i64) + 0x1_0000 * (words[1] as i64);
        let v = if words[1] < 0x8000 {
            u as i32
        } else {
            (u - 0x1_0000_0000) as i32
        };
        Ok((v, 2))
    }
}

impl ToWords for u16 {
    const WORDS: usize = 1;

    open spec fn spec_to_words(&self) -> Seq<u16> {
        seq![*self]
    }

    fn to_words(&self, out: &mut Vec<u16>) {
        out.push(*self);
        assert(out@ =~= old(out)@ + seq![*self]);
    }
}

impl ToWords for i16 {
    const WORDS: usize = 1;

    open spec fn spec_to_words(&self) -> Seq<u16> {
        seq![
            if *self >= 0 {
                *self as u16
            } else {
                (*self + 0x1_0000) as u16
            },
        ]
    }

    fn to_words(&self, out: &mut Vec<u16>) {
        let w = if *self >= 0 {
            *self as u16
        } else {
            (*self as i32 + 0x1_0000) as u16
        };
        out.push(w);
        assert(out@ =~= old(out)@ + self.spec_to_words());
    }
}

impl ToWords for [bool; 16] {
    const WORDS: usize = 1;

    open spec fn spec_to_words(&self) -> Seq<u16> {
        seq![word_of_bits(self@) as u16]
    }

    fn to_words(&self, out: &mut Vec<u16>) {
        let w = bits_word(self);
        out.push(w);
        assert(out@ =~= old(out)@ + seq![w]);
    }
}

/// The word whose bit `i` is set where `bits[i]` holds.
pub fn bits_word(bits: &[bool; 16]) -> (w: u16)
    ensures
        w == word_of_bits(bits@),
{
    let n0 = nibble(bits[0], bits[1], bits[2], bits[3]);
    let n1 = nibble(bits[4], bits[5], bits[6], bits[7]);
    let n2 = nibble(bits[8], bits[9], bits[10], bits[11]);
    let n3 = nibble(bits[12], bits[13], bits[14], bits[15]);
    n0 + 16 * n1 + 256 * n2 + 4096 * n3
}

impl ToWords for u32 {
    const WORDS: usize = 2;

    open spec fn spec_to_words(&self) -> Seq<u16> {
        seq![(*self % 0x1_0000) as u16, (*self / 0x1_0000) as u16]
    }

    fn to_words(&self, out: &mut Vec<u16>) {
        out.push((*self % 0x1_0000) as u16);
        out.push((*self / 0x1_0000) as u16);
        assert(out@ =~= old(out)@ + self.spec_to_words());
    }
}

impl ToWords for i32 {
    const WORDS: usize = 2;

    open spec fn spec_to_words(&self) -> Seq<u16> {
        let u: int = if *self >= 0 {
            *self as int
        } else {
            *self + 0x1_0000_0000
        };
        seq![(u % 0x1_0000) as u16, (u / 0x1_0000) as u16]
    }

    fn to_words(&self, out: &mut Vec<u16>) {
        let u: i64 = if *self >= 0 {
            *self as i64
        } else {
            *self as i64 + 0x1_0000_0000
        };
        out.push((u % 0x1_0000) as u16);
        out.push((u / 0x1_0000) as u16);
        assert(out@ =~= old(out)@ + self.spec_to_words());
    }
}

/// The values that a run of words holds, at most `count` of them, in the
/// sense that value `k` stands for the words from `k * WORDS` on.
pub open spec fn decoded<T: FromWords>(words: Seq<u16>, count: nat, values: Seq<T>) -> bool {
    &&& values.len() <= count
    &&& values.len() * T::WORDS <= words.len()
    &&& (values.len() == count || (values.len() + 1) * T::WORDS > words.len())
    &&& forall|k: int|
        0 <= k < values.len() ==> T::stands_for(
            words.subrange(k * T::WORDS, k * T::WORDS + T::WORDS),
            #[trigger] values[k],
        )
}

/// Reads typed values from a run of words: as many as the words hold, and
/// no more than `count`.
pub fn decode_values<T: FromWords>(words: &[u16], count: u16) -> (r: Vec<T>)
    ensures
        decoded(words@, count as nat, r@),
{
    let mut out: Vec<T> = Vec::new();
    let mut idx: usize = 0;
    let n = words.len();
    while out.len() < count as usize && T::WORDS <= n - idx
        invariant
            idx <= n,
            n == words@.len(),
            out.len() <= count,
            idx == out.len() * T::WORDS,
            forall|k: int|
                0 <= k < out.len() ==> T::stands_for(
                    words@.subrange(k * T::WORDS, k * T::WORDS + T::WORDS),
                    #[trigger] out@[k],
                ),
        decreases count - out.len(),
    {
        let rest = slice_subrange(words, idx, n);
        match T::from_words_slice(rest) {
            Ok((v, used)) => {
                assert(rest@.take(T::WORDS as int) =~= words@.subrange(
                    idx as int,
                    idx + T::WORDS,
                ));
                let ghost k = out.len() as int;
                assert(k * T::WORDS + T::WORDS == (k + 1) * T::WORDS) by (nonlinear_arith);
                out.push(v);
                idx = idx + used;
            },
            Err(_) => {
                assert(false);
            },
        }
    }
    proof {
        let len = out.len() as int;
        assert((len + 1) * T::WORDS == len * T::WORDS + T::WORDS) by (nonlinear_arith);
    }
    out
}

/// The words of a run of values, in order.
pub open spec fn encoded<T: ToWords>(values: Seq<T>) -> Seq<u16>
    decreases values.len(),
{
    if values.len() == 0 {
        Seq::empty()
    } else {
        encoded(values.drop_last()) + values.last().spec_to_words()
    }
}

/// Writes typed values as a run of words.
pub fn encode_values<T: ToWords>(values: &[T]) -> (r: Vec<u16>)
    ensures
        r@ == encoded(values@),
{
    let mut out: Vec<u16> = Vec::new();
    let mut i: usize = 0;
    assert(values@.take(0) =~= Seq::<T>::empty());
    while i < values.len()
        invariant
            i <= values.len(),
            out@ == encoded(values@.take(i as int)),
        decreases values.len() - i,
    {
        assert(values@.take(i + 1).drop_last() =~= values@.take(i as int));
        values[i].to_words(&mut out);
        i = i + 1;
    }
    assert(values@.take(i as int) =~= values@);
    out
}

/// The number of words that `count` values of `words_per_value` words
/// each take, where that fits 16 bits.
pub fn required_words(words_per_value: usize, count: u16) -> (r: Result<u16, MelsecError>)
    ensures
        r is Ok <==> words_per_value * count <= 0xFFFF,
        r is Ok ==> r->Ok_0 == words_per_value * count,
        r is Err ==> r->Err_0 is Protocol,
{
    if count == 0 {
        assert(words_per_value * 0 == 0) by (nonlinear_arith);
        return Ok(0);
    }
    if words_per_value > 0xFFFF / (count as usize) {
        assert(words_per_value * count > 0xFFFF) by (nonlinear_arith)
            requires
                words_per_value > 0xFFFFint / (count as int),
                count > 0,
        ;
        return Err(MelsecError::protocol("requested count too large"));
    }
    assert(words_per_value * count <= 0xFFFF) by (nonlinear_arith)
        requires
            words_per_value <= 0xFFFFint / (count as int),
            count > 0,
    ;
    Ok((words_per_value * (count as usize)) as u16)
}

} // verus!
