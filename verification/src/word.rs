//! The 256-bit unsigned word: the fixed-width integer used for chain
//! back-links, proof-of-work values and content hashes, together with its
//! 32-byte little-endian wire codec.

use vstd::prelude::*;
use vstd::arithmetic::div_mod::lemma_fundamental_div_mod_converse;
use vstd::arithmetic::power2::{lemma2_to64, lemma_pow2_adds, pow2};

use crate::seredere::{copy_bytes, filled_vec, Deser, DeserError, Ser, VecU8Iterator};

verus! {

/// Number of bytes in the wire form of a `Word` (256 bits).
pub const WORD_SIZE: usize = 32;

/// A 256-bit unsigned integer, held as its 32 little-endian bytes.
/// Immutable once constructed; its view is the byte sequence.
#[derive(Debug)]
pub struct Word {
    bytes: Vec<u8>,
}

/// A word's bytes at the width the wire format fixes.
pub open spec fn word_wf(s: Seq<u8>) -> bool {
    s.len() == WORD_SIZE
}

/// The value a little-endian byte sequence stands for.
pub open spec fn word_val(s: Seq<u8>) -> nat
    decreases s.len(),
{
    if s.len() == 0 {
        0
    } else {
        (s[0] + 256 * word_val(s.skip(1))) as nat
    }
}

/// Whether every byte of the sequence is zero.
pub open spec fn word_is_zero(s: Seq<u8>) -> bool {
    forall|i: int| 0 <= i < s.len() ==> s[i] == 0
}

/// The bytes of the zero word.
pub open spec fn zero_word_bytes() -> Seq<u8> {
    Seq::new(WORD_SIZE as nat, |i: int| 0u8)
}

/// The bytes of the largest representable word.
pub open spec fn max_word_bytes() -> Seq<u8> {
    Seq::new(WORD_SIZE as nat, |i: int| 0xffu8)
}

/// The wire encoding of a word: its little-endian bytes, unchanged.
pub open spec fn word_ser(v: Seq<u8>) -> Seq<u8> {
    v
}

/// Decoding a word takes exactly its 32 bytes from the front of the
/// source; a shorter source fails.
pub open spec fn word_deser(s: Seq<u8>) -> Result<(Seq<u8>, int), DeserError> {
    if s.len() < WORD_SIZE {
        Err(DeserError::UnexpectedEnd)
    } else {
        Ok((s.take(WORD_SIZE as int), WORD_SIZE as int))
    }
}

impl View for Word {
    type V = Seq<u8>;

    closed spec fn view(&self) -> Seq<u8> {
        self.bytes@
    }
}

impl Word {
    /// A word from its 32 little-endian bytes.
    pub fn from_le_bytes(bytes: Vec<u8>) -> (r: Word)
        requires
            bytes@.len() == WORD_SIZE,
        ensures
            r@ == bytes@,
            word_wf(r@),
    {
        Word { bytes }
    }

    /// A copy of the word's little-endian bytes.
    pub fn to_le_bytes(&self) -> (r: Vec<u8>)
        ensures
            r@ == self@,
    {
        copy_bytes(&self.bytes)
    }

    /// The zero word.
    pub fn zero() -> (r: Word)
        ensures
            r@ == zero_word_bytes(),
            word_wf(r@),
    {
        let v = filled_vec(0u8, WORD_SIZE);
        proof {
            assert(v@ =~= zero_word_bytes());
        }
        Word { bytes: v }
    }

    /// The largest representable word.
    pub fn max_value() -> (r: Word)
        ensures
            r@ == max_word_bytes(),
            word_wf(r@),
    {
        let v = filled_vec(0xffu8, WORD_SIZE);
        proof {
            assert(v@ =~= max_word_bytes());
        }
        Word { bytes: v }
    }

    /// Whether the word is zero.
    pub fn is_zero(&self) -> (r: bool)
        ensures
            r <==> word_is_zero(self@),
    {
        let mut i: usize = 0;
        while i < self.bytes.len()
            invariant
                i <= self.bytes@.len(),
                forall|j: int| 0 <= j < i ==> self.bytes@[j] == 0,
            decreases self.bytes@.len() - i,
        {
            if self.bytes[i] != 0 {
                return false;
            }
            i = i + 1;
        }
        true
    }
}

impl Clone for Word {
    /// A clone carries the same bytes.
    fn clone(&self) -> (r: Word)
        ensures
            r@ == self@,
    {
        Word { bytes: self.to_le_bytes() }
    }
}

impl PartialEq for Word {
    fn eq(&self, other: &Word) -> (r: bool) {
        if self.bytes.len() != other.bytes.len() {
            return false;
        }
        let mut i: usize = 0;
        while i < self.bytes.len()
            invariant
                i <= self.bytes@.len(),
                self.bytes@.len() == other.bytes@.len(),
                forall|j: int| 0 <= j < i ==> self.bytes@[j] == other.bytes@[j],
            decreases self.bytes@.len() - i,
        {
            if self.bytes[i] != other.bytes[i] {
                return false;
            }
            i = i + 1;
        }
        proof {
            assert(self.bytes@ =~= other.bytes@);
        }
        true
    }
}

impl vstd::std_specs::cmp::PartialEqSpecImpl for Word {
    open spec fn obeys_eq_spec() -> bool {
        true
    }

    open spec fn eq_spec(&self, other: &Word) -> bool {
        self@ == other@
    }
}

impl Ser for Word {
    open spec fn ser_wf(v: Seq<u8>) -> bool {
        word_wf(v)
    }

    open spec fn encodable(v: Seq<u8>) -> bool {
        true
    }

    open spec fn spec_ser(v: Seq<u8>) -> Seq<u8> {
        word_ser(v)
    }

    fn ser_iter(&self) -> (r: Result<Vec<u8>, DeserError>) {
        Ok(self.to_le_bytes())
    }
}

impl Deser for Word {
    open spec fn spec_deser(s: Seq<u8>) -> Result<(Seq<u8>, int), DeserError> {
        word_deser(s)
    }

    fn deser_from_iter(it: &mut VecU8Iterator) -> (r: Result<Word, DeserError>) {
        match it.read_exact(WORD_SIZE) {
            Ok(bytes) => Ok(Word { bytes }),
            Err(e) => Err(e),
        }
    }
}

/// Division of 256-bit words, rounding down.
///
/// Relies on `primitive_types::U256`: `from_little_endian` reads a value
/// from at most 32 little-endian bytes, `checked_div` divides rounding
/// down and is `Some` exactly when the divisor is nonzero, and
/// `to_little_endian` writes the value back as 32 little-endian bytes.
#[verifier::external_body]
pub(crate) fn word_div(a: &Word, b: &Word) -> (r: Word)
    requires
        word_wf(a@),
        word_wf(b@),
        word_val(b@) != 0,
    ensures
        word_wf(r@),
        word_val(r@) == word_val(a@) / word_val(b@),
{
    let x = primitive_types::U256::from_little_endian(&a.bytes);
    let y = primitive_types::U256::from_little_endian(&b.bytes);
    let q = x.checked_div(y).unwrap_or(primitive_types::U256::zero());
    Word { bytes: q.to_little_endian().to_vec() }
}

/// Decoding the encoding of a word yields the word back and consumes
/// exactly its 32 bytes, whatever bytes follow them.
pub proof fn lemma_word_round_trip(w: Seq<u8>, rest: Seq<u8>)
    requires
        word_wf(w),
    ensures
        word_deser(word_ser(w) + rest) == Ok::<(Seq<u8>, int), DeserError>((w, WORD_SIZE as int)),
{
    assert((word_ser(w) + rest).take(WORD_SIZE as int) =~= w);
}

/// A source shorter than a word's 32 bytes fails with `UnexpectedEnd`.
pub proof fn lemma_word_truncated(s: Seq<u8>)
    requires
        s.len() < WORD_SIZE,
    ensures
        word_deser(s) == Err::<(Seq<u8>, int), DeserError>(DeserError::UnexpectedEnd),
{
}

/// Fixed-width little-endian bytes stand for distinct values: two byte
/// sequences of one length with the same value are equal, so a word's
/// 32-byte wire form and the value it stands for determine one another.
pub proof fn lemma_word_val_injective(s1: Seq<u8>, s2: Seq<u8>)
    requires
        s1.len() == s2.len(),
        word_val(s1) == word_val(s2),
    ensures
        s1 == s2,
    decreases s1.len(),
{
    if s1.len() > 0 {
        lemma_fundamental_div_mod_converse(
            word_val(s1) as int,
            256,
            word_val(s1.skip(1)) as int,
            s1[0] as int,
        );
        lemma_fundamental_div_mod_converse(
            word_val(s2) as int,
            256,
            word_val(s2.skip(1)) as int,
            s2[0] as int,
        );
        lemma_word_val_injective(s1.skip(1), s2.skip(1));
        assert forall|i: int| 0 <= i < s1.len() implies s1[i] == s2[i] by {
            if i > 0 {
                assert(s1[i] == s1.skip(1)[i - 1]);
                assert(s2[i] == s2.skip(1)[i - 1]);
            }
        }
        assert(s1 =~= s2);
    } else {
        assert(s1 =~= s2);
    }
}

/// A word is all zero bytes exactly when the value it stands for is zero.
pub proof fn lemma_word_val_zero(s: Seq<u8>)
    ensures
        word_is_zero(s) <==> word_val(s) == 0,
    decreases s.len(),
{
    if s.len() > 0 {
        lemma_word_val_zero(s.skip(1));
        if word_is_zero(s) {
            assert(word_is_zero(s.skip(1)));
        }
        if word_val(s) == 0 {
            assert(s[0] == 0);
            assert forall|i: int| 0 <= i < s.len() implies s[i] == 0 by {
                if i > 0 {
                    assert(s[i] == s.skip(1)[i - 1]);
                }
            }
        }
    }
}

/// The value of `n` bytes of `0xff`, plus one, is `2^(8n)`.
proof fn lemma_ff_bytes_val(n: nat)
    ensures
        word_val(Seq::new(n, |i: int| 0xffu8)) + 1 == pow2(8 * n),
    decreases n,
{
    if n == 0 {
        assert(pow2(0) == 1) by {
            lemma2_to64();
        }
    } else {
        let s = Seq::new(n, |i: int| 0xffu8);
        lemma_ff_bytes_val((n - 1) as nat);
        assert(s.skip(1) =~= Seq::new((n - 1) as nat, |i: int| 0xffu8));
        lemma_pow2_adds(8, 8 * (n - 1) as nat);
        assert(pow2(8) == 256) by {
            lemma2_to64();
        }
        assert(word_val(s) == 0xff + 256 * word_val(s.skip(1)));
    }
}

/// The largest word stands for the value `2^256 - 1`.
pub proof fn lemma_max_word_val()
    ensures
        word_val(max_word_bytes()) + 1 == pow2(256),
{
    lemma_ff_bytes_val(WORD_SIZE as nat);
}

} // verus!

