//! The chain record: an opaque fixed-size body linked to its predecessor
//! by hash, with the content-hash and proof-of-work scoring rules.

use vstd::arithmetic::div_mod::lemma_div_is_ordered_by_denominator;
use vstd::arithmetic::power2::{lemma_pow2_pos, pow2};
use vstd::prelude::*;

use sha3::Digest;

use crate::seredere::{copy_bytes, filled_vec, Deser, DeserError, Ser, VecU8Iterator};
use crate::word::{
    lemma_max_word_val, lemma_word_round_trip, lemma_word_val_zero, word_deser, word_div,
    word_is_zero, word_ser, word_val, word_wf, zero_word_bytes, Word, WORD_SIZE,
};

verus! {

/// Number of bytes in a post body: a protocol-wide constant that acts as
/// a protocol-version parameter, fixed here at the reference value.
pub const BODY_SIZE: usize = 1024;

/// Number of bytes in the wire form of a post.
pub const POST_SIZE: usize = 2 * WORD_SIZE + BODY_SIZE;

/// The opaque application payload of a post: always exactly `BODY_SIZE`
/// bytes. Its view is the byte sequence.
#[derive(Debug)]
pub struct Body {
    val: Vec<u8>,
}

/// A body's bytes at the size the wire format fixes.
pub open spec fn body_wf(s: Seq<u8>) -> bool {
    s.len() == BODY_SIZE
}

/// The bytes of the zero-filled body.
pub open spec fn zero_body_bytes() -> Seq<u8> {
    Seq::new(BODY_SIZE as nat, |i: int| 0u8)
}

/// The wire encoding of a body: its bytes, unchanged.
pub open spec fn body_ser(v: Seq<u8>) -> Seq<u8> {
    v
}

/// Decoding a body takes exactly its `BODY_SIZE` bytes from the front of
/// the source; a shorter source fails.
pub open spec fn body_deser(s: Seq<u8>) -> Result<(Seq<u8>, int), DeserError> {
    if s.len() < BODY_SIZE {
        Err(DeserError::UnexpectedEnd)
    } else {
        Ok((s.take(BODY_SIZE as int), BODY_SIZE as int))
    }
}

impl View for Body {
    type V = Seq<u8>;

    closed spec fn view(&self) -> Seq<u8> {
        self.val@
    }
}

impl Body {
    /// A body from exactly `BODY_SIZE` bytes.
    pub fn new(val: Vec<u8>) -> (r: Body)
        requires
            val@.len() == BODY_SIZE,
        ensures
            r@ == val@,
            body_wf(r@),
    {
        Body { val }
    }

    /// A copy of the body's bytes.
    pub fn to_bytes(&self) -> (r: Vec<u8>)
        ensures
            r@ == self@,
    {
        copy_bytes(&self.val)
    }
}

impl Default for Body {
    /// The zero-filled body.
    fn default() -> (r: Body)
        ensures
            r@ == zero_body_bytes(),
            body_wf(r@),
    {
        let v = filled_vec(0u8, BODY_SIZE);
        proof {
            assert(v@ =~= zero_body_bytes());
        }
        Body { val: v }
    }
}

impl Clone for Body {
    /// A clone carries the same bytes.
    fn clone(&self) -> (r: Body)
        ensures
            r@ == self@,
    {
        Body { val: copy_bytes(&self.val) }
    }
}

impl PartialEq for Body {
    fn eq(&self, other: &Body) -> (r: bool) {
        let r = self.val == other.val;
        proof {
            if r {
                assert(self.val@ =~= other.val@);
            }
        }
        r
    }
}

impl vstd::std_specs::cmp::PartialEqSpecImpl for Body {
    open spec fn obeys_eq_spec() -> bool {
        true
    }

    open spec fn eq_spec(&self, other: &Body) -> bool {
        self@ == other@
    }
}

impl Ser for Body {
    open spec fn ser_wf(v: Seq<u8>) -> bool {
        body_wf(v)
    }

    open spec fn encodable(v: Seq<u8>) -> bool {
        true
    }

    open spec fn spec_ser(v: Seq<u8>) -> Seq<u8> {
        body_ser(v)
    }

    fn ser_iter(&self) -> (r: Result<Vec<u8>, DeserError>) {
        Ok(self.to_bytes())
    }
}

impl Deser for Body {
    open spec fn spec_deser(s: Seq<u8>) -> Result<(Seq<u8>, int), DeserError> {
        body_deser(s)
    }

    fn deser_from_iter(it: &mut VecU8Iterator) -> (r: Result<Body, DeserError>) {
        match it.read_exact(BODY_SIZE) {
            Ok(val) => Ok(Body { val }),
            Err(e) => Err(e),
        }
    }
}

/// The mathematical model of a post: the byte views of its three fields.
#[verifier::ext_equal]
pub ghost struct PostView {
    pub prev: Seq<u8>,
    pub work: Seq<u8>,
    pub body: Seq<u8>,
}

/// A post view whose fields have the sizes the wire format fixes.
pub open spec fn post_wf(v: PostView) -> bool {
    word_wf(v.prev) && word_wf(v.work) && body_wf(v.body)
}

/// The wire encoding of a post: `prev`, then `work`, then the body.
pub open spec fn post_ser(v: PostView) -> Seq<u8> {
    word_ser(v.prev) + word_ser(v.work) + body_ser(v.body)
}

/// Decoding a post reads its three fields in order, propagating the
/// first failure.
pub open spec fn post_deser(s: Seq<u8>) -> Result<(PostView, int), DeserError> {
    match word_deser(s) {
        Ok((prev, n1)) => match word_deser(s.skip(n1)) {
            Ok((work, n2)) => match body_deser(s.skip(n1 + n2)) {
                Ok((body, n3)) => Ok(((PostView { prev, work, body }), n1 + n2 + n3)),
                Err(e) => Err(e),
            },
            Err(e) => Err(e),
        },
        Err(e) => Err(e),
    }
}

/// The Keccak-256 digest of a byte sequence, as a name; what it is on
/// given bytes only the hash function itself shows.
pub uninterp spec fn keccak256_of(input: Seq<u8>) -> Seq<u8>;

/// Relies on `sha3::Keccak256` through `digest::Digest::digest`: a
/// 32-byte digest that depends on the input bytes alone.
#[verifier::external_body]
fn keccak256(input: &Vec<u8>) -> (r: Vec<u8>)
    ensures
        r@ == keccak256_of(input@),
        r@.len() == 32,
{
    sha3::Keccak256::digest(input).to_vec()
}

/// The content hash of a post view: the zero word for a genesis post
/// (zero `prev` and zero `work`), else the Keccak-256 digest of the
/// post's wire bytes, read as a little-endian word.
pub open spec fn post_hash(v: PostView) -> Seq<u8> {
    if word_is_zero(v.prev) && word_is_zero(v.work) {
        zero_word_bytes()
    } else {
        keccak256_of(post_ser(v))
    }
}

/// The chain record: a link to the preceding post, a proof-of-work
/// value, and an opaque body.
#[derive(Debug)]
pub struct Post {
    prev: Word,
    work: Word,
    body: Body,
}

impl View for Post {
    type V = PostView;

    closed spec fn view(&self) -> PostView {
        PostView { prev: self.prev@, work: self.work@, body: self.body@ }
    }
}

impl Post {
    /// A post from its three fields; pure construction, always succeeds.
    pub fn new(prev: &Word, work: &Word, body: &Body) -> (r: Post)
        ensures
            r@ == (PostView { prev: prev@, work: work@, body: body@ }),
    {
        Post { prev: prev.clone(), work: work.clone(), body: body.clone() }
    }

    /// The post's wire bytes: `prev`, `work`, body, concatenated.
    fn ser_bytes(&self) -> (r: Vec<u8>)
        ensures
            r@ == post_ser(self@),
    {
        let mut out = self.prev.to_le_bytes();
        let mut work_bytes = self.work.to_le_bytes();
        out.append(&mut work_bytes);
        let mut body_bytes = self.body.to_bytes();
        out.append(&mut body_bytes);
        proof {
            assert(out@ =~= post_ser(self@));
        }
        out
    }

    /// The post's content hash: the zero word for the genesis post, else
    /// the Keccak-256 digest of its wire bytes as a little-endian word.
    pub fn hash(&self) -> (r: Word)
        ensures
            r@ == post_hash(self@),
            word_wf(r@),
    {
        if self.prev.is_zero() && self.work.is_zero() {
            Word::zero()
        } else {
            let encoded = self.ser_bytes();
            let digest = keccak256(&encoded);
            Word::from_le_bytes(digest)
        }
    }
}

impl Default for Post {
    /// The genesis post: zero `prev`, zero `work`, zero-filled body.
    fn default() -> (r: Post)
        ensures
            r@ == (PostView {
                prev: zero_word_bytes(),
                work: zero_word_bytes(),
                body: zero_body_bytes(),
            }),
    {
        Post { prev: Word::zero(), work: Word::zero(), body: Body::default() }
    }
}

impl Clone for Post {
    /// A clone carries the same fields.
    fn clone(&self) -> (r: Post)
        ensures
            r@ == self@,
    {
        Post { prev: self.prev.clone(), work: self.work.clone(), body: self.body.clone() }
    }
}

impl PartialEq for Post {
    fn eq(&self, other: &Post) -> (r: bool) {
        let r = self.prev == other.prev && self.work == other.work && self.body == other.body;
        r
    }
}

impl vstd::std_specs::cmp::PartialEqSpecImpl for Post {
    open spec fn obeys_eq_spec() -> bool {
        true
    }

    open spec fn eq_spec(&self, other: &Post) -> bool {
        self@ == other@
    }
}

impl Ser for Post {
    open spec fn ser_wf(v: PostView) -> bool {
        post_wf(v)
    }

    open spec fn encodable(v: PostView) -> bool {
        true
    }

    open spec fn spec_ser(v: PostView) -> Seq<u8> {
        post_ser(v)
    }

    fn ser_iter(&self) -> (r: Result<Vec<u8>, DeserError>) {
        Ok(self.ser_bytes())
    }
}

impl Deser for Post {
    open spec fn spec_deser(s: Seq<u8>) -> Result<(PostView, int), DeserError> {
        post_deser(s)
    }

    fn deser_from_iter(it: &mut VecU8Iterator) -> (r: Result<Post, DeserError>) {
        let prev = match Word::deser_from_iter(it) {
            Ok(w) => w,
            Err(e) => return Err(e),
        };
        let work = match Word::deser_from_iter(it) {
            Ok(w) => w,
            Err(e) => return Err(e),
        };
        let body = match Body::deser_from_iter(it) {
            Ok(b) => b,
            Err(e) => return Err(e),
        };
        proof {
            let s = old(it)@;
            assert(s.skip(WORD_SIZE as int).skip(WORD_SIZE as int) =~= s.skip(
                WORD_SIZE as int + WORD_SIZE as int,
            ));
            assert(s.skip(WORD_SIZE as int + WORD_SIZE as int).skip(BODY_SIZE as int) =~= s.skip(
                WORD_SIZE as int + WORD_SIZE as int + BODY_SIZE as int,
            ));
        }
        Ok(Post { prev, work, body })
    }
}

/// The proof-of-work score of a hash value: zero for the zero hash, else
/// the largest word value divided by the hash value, rounding down, so
/// that smaller (harder-won) hashes score higher.
pub open spec fn score_val(h: nat) -> nat {
    if h == 0 {
        0
    } else {
        ((pow2(256) - 1) as nat) / h
    }
}

/// The proof-of-work comparator on hash words.
pub fn hash_score(hash: &Word) -> (r: Word)
    requires
        word_wf(hash@),
    ensures
        word_wf(r@),
        word_val(r@) == score_val(word_val(hash@)),
{
    proof {
        lemma_word_val_zero(hash@);
    }
    if hash.is_zero() {
        let r = Word::zero();
        proof {
            lemma_word_val_zero(r@);
        }
        r
    } else {
        proof {
            lemma_max_word_val();
        }
        let max = Word::max_value();
        word_div(&max, hash)
    }
}

/// Decoding the encoding of a well-formed post yields the post back and
/// consumes exactly its `POST_SIZE` bytes, whatever bytes follow them.
pub proof fn lemma_post_round_trip(v: PostView, rest: Seq<u8>)
    requires
        post_wf(v),
    ensures
        post_deser(post_ser(v) + rest) == Ok::<(PostView, int), DeserError>((v, POST_SIZE as int)),
{
    let s = post_ser(v) + rest;
    assert(s.take(WORD_SIZE as int) =~= v.prev);
    assert(s.skip(WORD_SIZE as int) =~= v.work + (v.body + rest));
    lemma_word_round_trip(v.prev, v.work + (v.body + rest));
    let s2 = s.skip(WORD_SIZE as int);
    assert(s2.take(WORD_SIZE as int) =~= v.work);
    assert(s2.skip(WORD_SIZE as int) =~= v.body + rest);
    lemma_word_round_trip(v.work, v.body + rest);
    let s3 = s2.skip(WORD_SIZE as int);
    assert(s3.take(BODY_SIZE as int) =~= v.body);
    assert(s.skip(2 * WORD_SIZE as int) =~= s3);
}

/// A source shorter than a post's `POST_SIZE` bytes fails with
/// `UnexpectedEnd`.
pub proof fn lemma_post_truncated(s: Seq<u8>)
    requires
        s.len() < POST_SIZE,
    ensures
        post_deser(s) == Err::<(PostView, int), DeserError>(DeserError::UnexpectedEnd),
{
}

/// The genesis rule: a post whose `prev` and `work` are both zero hashes
/// to the zero word, whatever its body holds.
pub proof fn lemma_genesis_hash_zero(v: PostView)
    requires
        word_is_zero(v.prev),
        word_is_zero(v.work),
    ensures
        post_hash(v) == zero_word_bytes(),
{
}

/// The content hash is a pure function of the post's content: equal post
/// views hash equal.
pub proof fn lemma_hash_deterministic(v1: PostView, v2: PostView)
    requires
        v1 == v2,
    ensures
        post_hash(v1) == post_hash(v2),
{
}

/// Score order is the reverse of hash order: of two nonzero hash values
/// the smaller scores at least as high, and the zero hash scores zero.
pub proof fn lemma_score_monotonic(h1: nat, h2: nat)
    requires
        0 < h1 <= h2,
    ensures
        score_val(h1) >= score_val(h2),
        score_val(0) == 0,
{
    lemma_pow2_pos(256);
    lemma_div_is_ordered_by_denominator((pow2(256) - 1) as int, h1 as int, h2 as int);
}

} // verus!
