//! The gossip wire messages: a one-byte discriminant followed by the
//! variant's payload, composed from the word, post and address codecs.

use vstd::prelude::*;

use crate::address::{
    addr_list_deser, addr_list_ser, address_list_size, canon_addr_list, Address, ADDRESS_SIZE,
};
use crate::post::{post_deser, post_ser, post_wf, Post, PostView, POST_SIZE};
use crate::seredere::{Deser, DeserError, Ser, VecU8Iterator};
use crate::word::{word_deser, word_ser, word_wf, Word, WORD_SIZE};

verus! {

/// Wire tag of a `Ping` message.
pub const MESSAGE_PING_CODE: u8 = 0;

/// Wire tag of a `RequestPost` message.
pub const MESSAGE_REQUEST_POST_CODE: u8 = 1;

/// Wire tag of a `SharePost` message.
pub const MESSAGE_SHARE_POST_CODE: u8 = 2;

/// Wire size of a `RequestPost` message: the tag byte and one word.
pub const MESSAGE_REQUEST_POST_SIZE: usize = 1 + WORD_SIZE;

/// Wire size of a `SharePost` message: the tag byte and one post.
pub const MESSAGE_SHARE_POST_SIZE: usize = 1 + POST_SIZE;

/// The wire size of a `Ping` message carrying `num_addr` addresses: the
/// tag byte, then the address list.
pub fn message_ping_size(num_addr: usize) -> (r: usize)
    requires
        num_addr <= 255,
    ensures
        r == 2 + num_addr * ADDRESS_SIZE,
{
    1 + address_list_size(num_addr)
}

/// A gossip wire message: exactly one variant at a time.
#[derive(Debug)]
pub enum Message {
    /// Peer-list exchange: the sender's known endpoints.
    Ping(Vec<Address>),
    /// A request for the post with the given content hash.
    RequestPost(Word),
    /// A full post handed to the peer.
    SharePost(Post),
}

/// The mathematical model of a message.
#[verifier::ext_equal]
pub ghost enum MessageView {
    Ping(Seq<Address>),
    RequestPost(Seq<u8>),
    SharePost(PostView),
}

/// The payload of a message view has the sizes the wire format fixes.
pub open spec fn msg_wf(v: MessageView) -> bool {
    match v {
        MessageView::Ping(l) => true,
        MessageView::RequestPost(w) => word_wf(w),
        MessageView::SharePost(p) => post_wf(p),
    }
}

/// Whether a message can be encoded: its address list, if any, fits the
/// one-byte count.
pub open spec fn msg_encodable(v: MessageView) -> bool {
    match v {
        MessageView::Ping(l) => l.len() <= 255,
        _ => true,
    }
}

/// The wire encoding of a message: its tag byte, then its payload's
/// encoding.
pub open spec fn msg_ser(v: MessageView) -> Seq<u8> {
    match v {
        MessageView::Ping(l) => seq![MESSAGE_PING_CODE] + addr_list_ser(l),
        MessageView::RequestPost(w) => seq![MESSAGE_REQUEST_POST_CODE] + word_ser(w),
        MessageView::SharePost(p) => seq![MESSAGE_SHARE_POST_CODE] + post_ser(p),
    }
}

/// Decoding a message reads the tag byte and dispatches to the matching
/// payload decoder; an unknown tag fails with `InvalidDiscriminant`.
pub open spec fn msg_deser(s: Seq<u8>) -> Result<(MessageView, int), DeserError> {
    if s.len() == 0 {
        Err(DeserError::UnexpectedEnd)
    } else if s[0] == MESSAGE_PING_CODE {
        match addr_list_deser(s.skip(1)) {
            Ok((l, n)) => Ok((MessageView::Ping(l), 1 + n)),
            Err(e) => Err(e),
        }
    } else if s[0] == MESSAGE_REQUEST_POST_CODE {
        match word_deser(s.skip(1)) {
            Ok((w, n)) => Ok((MessageView::RequestPost(w), 1 + n)),
            Err(e) => Err(e),
        }
    } else if s[0] == MESSAGE_SHARE_POST_CODE {
        match post_deser(s.skip(1)) {
            Ok((p, n)) => Ok((MessageView::SharePost(p), 1 + n)),
            Err(e) => Err(e),
        }
    } else {
        Err(DeserError::InvalidDiscriminant)
    }
}

impl View for Message {
    type V = MessageView;

    closed spec fn view(&self) -> MessageView {
        match self {
            Message::Ping(l) => MessageView::Ping(l@),
            Message::RequestPost(w) => MessageView::RequestPost(w@),
            Message::SharePost(p) => MessageView::SharePost(p@),
        }
    }
}

impl Ser for Message {
    open spec fn ser_wf(v: MessageView) -> bool {
        msg_wf(v)
    }

    open spec fn encodable(v: MessageView) -> bool {
        msg_encodable(v)
    }

    open spec fn spec_ser(v: MessageView) -> Seq<u8> {
        msg_ser(v)
    }

    fn ser_iter(&self) -> (r: Result<Vec<u8>, DeserError>) {
        let mut out: Vec<u8> = Vec::new();
        match self {
            Message::Ping(l) => {
                let mut payload = match l.ser_iter() {
                    Ok(v) => v,
                    Err(e) => return Err(e),
                };
                out.push(MESSAGE_PING_CODE);
                out.append(&mut payload);
            },
            Message::RequestPost(w) => {
                let mut payload = match w.ser_iter() {
                    Ok(v) => v,
                    Err(e) => return Err(e),
                };
                out.push(MESSAGE_REQUEST_POST_CODE);
                out.append(&mut payload);
            },
            Message::SharePost(p) => {
                let mut payload = match p.ser_iter() {
                    Ok(v) => v,
                    Err(e) => return Err(e),
                };
                out.push(MESSAGE_SHARE_POST_CODE);
                out.append(&mut payload);
            },
        }
        proof {
            assert(out@ =~= msg_ser(self@));
        }
        Ok(out)
    }
}

impl Deser for Message {
    open spec fn spec_deser(s: Seq<u8>) -> Result<(MessageView, int), DeserError> {
        msg_deser(s)
    }

    fn deser_from_iter(it: &mut VecU8Iterator) -> (r: Result<Message, DeserError>) {
        let tag = match it.next() {
            Some(t) => t,
            None => return Err(DeserError::UnexpectedEnd),
        };
        if tag == MESSAGE_PING_CODE {
            match Vec::<Address>::deser_from_iter(it) {
                Ok(l) => {
                    proof {
                        lemma_skip_skip(old(it)@);
                    }
                    Ok(Message::Ping(l))
                },
                Err(e) => Err(e),
            }
        } else if tag == MESSAGE_REQUEST_POST_CODE {
            match Word::deser_from_iter(it) {
                Ok(w) => {
                    proof {
                        lemma_skip_skip(old(it)@);
                    }
                    Ok(Message::RequestPost(w))
                },
                Err(e) => Err(e),
            }
        } else if tag == MESSAGE_SHARE_POST_CODE {
            match Post::deser_from_iter(it) {
                Ok(p) => {
                    proof {
                        lemma_skip_skip(old(it)@);
                    }
                    Ok(Message::SharePost(p))
                },
                Err(e) => Err(e),
            }
        } else {
            Err(DeserError::InvalidDiscriminant)
        }
    }
}

/// Skipping the tag byte and then `n` payload bytes is skipping
/// `1 + n` bytes at once.
proof fn lemma_skip_skip(s: Seq<u8>)
    ensures
        forall|n: int|
            0 <= n <= s.len() - 1 ==> #[trigger] s.skip(1).skip(n) == s.skip(1 + n),
{
    assert forall|n: int| 0 <= n <= s.len() - 1 implies #[trigger] s.skip(1).skip(n) == s.skip(
        1 + n,
    ) by {
        assert(s.skip(1).skip(n) =~= s.skip(1 + n));
    }
}

/// The canonical form of a message: each address of a `Ping` in its
/// canonical form; the other variants stand for themselves.
pub open spec fn canon_msg(v: MessageView) -> MessageView {
    match v {
        MessageView::Ping(l) => MessageView::Ping(canon_addr_list(l)),
        _ => v,
    }
}

/// The wire size of an encodable message.
pub open spec fn msg_size(v: MessageView) -> int {
    match v {
        MessageView::Ping(l) => 2 + ADDRESS_SIZE * l.len(),
        MessageView::RequestPost(w) => MESSAGE_REQUEST_POST_SIZE as int,
        MessageView::SharePost(p) => MESSAGE_SHARE_POST_SIZE as int,
    }
}

/// Decoding the encoding of an encodable message reproduces the same
/// variant with the same payload (addresses in canonical form) and
/// consumes exactly the message's bytes, whatever bytes follow them.
pub proof fn lemma_message_round_trip(v: MessageView, rest: Seq<u8>)
    requires
        msg_wf(v),
        msg_encodable(v),
    ensures
        msg_deser(msg_ser(v) + rest) == Ok::<(MessageView, int), DeserError>(
            (canon_msg(v), msg_size(v)),
        ),
{
    let s = msg_ser(v) + rest;
    match v {
        MessageView::Ping(l) => {
            assert(s.skip(1) =~= addr_list_ser(l) + rest);
            crate::address::lemma_addr_list_round_trip(l, rest);
        },
        MessageView::RequestPost(w) => {
            assert(s.skip(1) =~= word_ser(w) + rest);
            crate::word::lemma_word_round_trip(w, rest);
        },
        MessageView::SharePost(p) => {
            assert(s.skip(1) =~= post_ser(p) + rest);
            crate::post::lemma_post_round_trip(p, rest);
        },
    }
}

/// An empty source fails to decode as a message with `UnexpectedEnd`; a
/// source whose first byte matches no variant tag fails with
/// `InvalidDiscriminant`.
pub proof fn lemma_message_bad_tag(s: Seq<u8>)
    ensures
        s.len() == 0 ==> msg_deser(s) == Err::<(MessageView, int), DeserError>(
            DeserError::UnexpectedEnd,
        ),
        s.len() > 0 && s[0] != MESSAGE_PING_CODE && s[0] != MESSAGE_REQUEST_POST_CODE && s[0]
            != MESSAGE_SHARE_POST_CODE ==> msg_deser(s) == Err::<(MessageView, int), DeserError>(
            DeserError::InvalidDiscriminant,
        ),
{
}

} // verus!
