//! The byte-codec framework: the error taxonomy, the byte stream that
//! decoders consume, and the `Ser` / `Deser` traits that every wire type
//! implements.

use vstd::prelude::*;

verus! {

/// A failure while encoding or decoding a wire value.
#[derive(Clone, Copy, Debug, PartialEq, Eq, Structural)]
pub enum DeserError {
    /// The source ended before a fixed-size field was fully read.
    UnexpectedEnd,
    /// A tag byte matched no known message variant.
    InvalidDiscriminant,
    /// A count-prefixed collection held more than 255 elements.
    SizeExceeded,
}

/// A byte stream that owns a vector of bytes and hands them out front to
/// back. Its view is the sequence of bytes not yet consumed.
pub struct VecU8Iterator {
    val: Vec<u8>,
    pos: usize,
}

impl View for VecU8Iterator {
    type V = Seq<u8>;

    closed spec fn view(&self) -> Seq<u8> {
        self.val@.skip(self.pos as int)
    }
}

impl VecU8Iterator {
    /// The read position never passes the end of the owned bytes.
    pub closed spec fn wf(&self) -> bool {
        self.pos <= self.val@.len()
    }

    /// A stream positioned at the start of `val`.
    pub fn new(val: Vec<u8>) -> (r: Self)
        ensures
            r.wf(),
            r@ == val@,
    {
        let r = VecU8Iterator { val, pos: 0 };
        proof {
            assert(r@ =~= r.val@);
        }
        r
    }

    /// Hand out the next byte, or `None` once the stream is exhausted.
    pub fn next(&mut self) -> (r: Option<u8>)
        requires
            old(self).wf(),
        ensures
            final(self).wf(),
            old(self)@.len() > 0 ==> r == Some(old(self)@[0]) && final(self)@ == old(self)@.skip(1),
            old(self)@.len() == 0 ==> r is None && final(self)@ == old(self)@,
    {
        if self.pos < self.val.len() {
            let res = self.val[self.pos];
            self.pos = self.pos + 1;
            proof {
                assert(self@ =~= old(self)@.skip(1));
            }
            Some(res)
        } else {
            None
        }
    }

    /// Consume exactly `n` bytes. A stream with fewer than `n` bytes left
    /// fails with `UnexpectedEnd` and is exhausted.
    pub fn read_exact(&mut self, n: usize) -> (r: Result<Vec<u8>, DeserError>)
        requires
            old(self).wf(),
        ensures
            final(self).wf(),
            n <= old(self)@.len() ==> r is Ok
                && (r->Ok_0)@ == old(self)@.take(n as int)
                && final(self)@ == old(self)@.skip(n as int),
            n > old(self)@.len() ==> r is Err
                && r->Err_0 == DeserError::UnexpectedEnd
                && final(self)@.len() == 0,
    {
        if n > self.val.len() - self.pos {
            self.pos = self.val.len();
            proof {
                assert(self@ =~= Seq::<u8>::empty());
            }
            return Err(DeserError::UnexpectedEnd);
        }
        let ghost start: int = self.pos as int;
        let mut out: Vec<u8> = Vec::new();
        let mut i: usize = 0;
        while i < n
            invariant
                i <= n,
                self.wf(),
                self.pos + n <= self.val@.len(),
                self.val@.len() <= usize::MAX,
                self.pos == start,
                out@ == self.val@.subrange(start, start + i),
            decreases n - i,
        {
            out.push(self.val[self.pos + i]);
            proof {
                assert(out@ =~= self.val@.subrange(start, start + i + 1));
            }
            i = i + 1;
        }
        self.pos = self.pos + n;
        proof {
            assert(out@ =~= old(self)@.take(n as int));
            assert(self@ =~= old(self)@.skip(n as int));
        }
        Ok(out)
    }
}

/// A vector of `n` copies of the byte `b`.
pub(crate) fn filled_vec(b: u8, n: usize) -> (r: Vec<u8>)
    ensures
        r@ == Seq::new(n as nat, |i: int| b),
{
    let mut v: Vec<u8> = Vec::new();
    let mut i: usize = 0;
    while i < n
        invariant
            i <= n,
            v@ == Seq::new(i as nat, |j: int| b),
        decreases n - i,
    {
        v.push(b);
        proof {
            assert(v@ =~= Seq::new((i + 1) as nat, |j: int| b));
        }
        i = i + 1;
    }
    v
}

/// A fresh vector with the same bytes as `v`.
pub(crate) fn copy_bytes(v: &Vec<u8>) -> (r: Vec<u8>)
    ensures
        r@ == v@,
{
    let mut out: Vec<u8> = Vec::new();
    let mut i: usize = 0;
    while i < v.len()
        invariant
            i <= v@.len(),
            out@ == v@.take(i as int),
        decreases v@.len() - i,
    {
        out.push(v[i]);
        proof {
            assert(out@ =~= v@.take(i + 1));
        }
        i = i + 1;
    }
    proof {
        assert(out@ =~= v@);
    }
    out
}

/// A value that can produce the finite, ordered byte sequence that
/// represents it on the wire.
pub trait Ser: View + Sized {
    /// The view holds its parts at the sizes the wire format fixes.
    spec fn ser_wf(v: Self::V) -> bool;

    /// Whether encoding succeeds for this view.
    spec fn encodable(v: Self::V) -> bool;

    /// The byte sequence the view encodes to.
    spec fn spec_ser(v: Self::V) -> Seq<u8>;

    /// Produce the bytes that represent `self` on the wire, or report why
    /// the value cannot be encoded.
    fn ser_iter(&self) -> (r: Result<Vec<u8>, DeserError>)
        requires
            Self::ser_wf(self@),
        ensures
            r is Ok <==> Self::encodable(self@),
            r is Ok ==> (r->Ok_0)@ == Self::spec_ser(self@),
            r is Err ==> r->Err_0 == DeserError::SizeExceeded,
    ;
}

/// A value that can be reconstructed by consuming exactly its bytes from a
/// stream, leaving the remainder untouched.
pub trait Deser: View + Sized {
    /// What decoding yields from a byte sequence: the view of the decoded
    /// value and the count of bytes consumed, or the failure.
    spec fn spec_deser(s: Seq<u8>) -> Result<(Self::V, int), DeserError>;

    /// Decode one value from the front of the stream.
    fn deser_from_iter(it: &mut VecU8Iterator) -> (r: Result<Self, DeserError>)
        requires
            old(it).wf(),
        ensures
            final(it).wf(),
            match Self::spec_deser(old(it)@) {
                Ok((v, n)) => r is Ok
                    && (r->Ok_0)@ == v
                    && 0 <= n <= old(it)@.len()
                    && final(it)@ == old(it)@.skip(n),
                Err(e) => r is Err && r->Err_0 == e,
            },
    ;
}

} // verus!
