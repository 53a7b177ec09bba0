//! The gossip wire format: capture announcements and receipts on a
//! workflow-scoped topic, with a sliding-window deduplicator, and the
//! length-prefixed frame used by the RPC transport.

use vstd::prelude::*;
use crate::cid::Cid;
use crate::codec::{
    self, be_bytes, dec_bytes, dec_head, enc_bytes, enc_head, from_be, pow256,
};
use crate::receipt::{dec_receipt, enc_receipt, wf_receipt, Receipt};
use crate::Error;

verus! {

/// A pub/sub message: an intent to execute, or a finished receipt.
#[derive(Debug)]
pub enum Message {
    /// Announce intent to execute the named instruction.
    Capture {
        /// The instruction about to run.
        instruction_cid: Cid,
        /// An opaque peer identifier.
        peer: Vec<u8>,
    },
    /// Share a finished receipt.
    Receipt(Receipt),
}

/// The mathematical shape of a [`Message`].
pub enum MessageV {
    Capture { instruction_cid: Seq<u8>, peer: Seq<u8> },
    Receipt(crate::receipt::ReceiptV),
}

impl View for Message {
    type V = MessageV;

    open spec fn view(&self) -> MessageV {
        match self {
            Message::Capture { instruction_cid, peer } => MessageV::Capture {
                instruction_cid: instruction_cid@,
                peer: peer@,
            },
            Message::Receipt(r) => MessageV::Receipt(r@),
        }
    }
}

/// A message on the wire: a tag of zero for a capture, one for a receipt,
/// then the payload.
pub open spec fn enc_message(m: MessageV) -> Seq<u8> {
    match m {
        MessageV::Capture { instruction_cid, peer } => enc_head(6, 0) + enc_bytes(instruction_cid)
            + enc_bytes(peer),
        MessageV::Receipt(r) => enc_head(6, 1) + enc_receipt(r),
    }
}

/// Reading a message at `i`.
pub open spec fn dec_message(s: Seq<u8>, i: int) -> Option<(MessageV, int)> {
    match dec_head(s, i) {
        Some((major, tag, j)) => if major != 6 {
            None
        } else if tag == 0 {
            match dec_bytes(s, j) {
                Some((instruction_cid, k)) => if instruction_cid.len() != 32 {
                    None
                } else {
                    match dec_bytes(s, k) {
                        Some((peer, l)) => Some((MessageV::Capture { instruction_cid, peer }, l)),
                        None => None,
                    }
                },
                None => None,
            }
        } else if tag == 1 {
            match dec_receipt(s, j) {
                Some((r, k)) => Some((MessageV::Receipt(r), k)),
                None => None,
            }
        } else {
            None
        },
        None => None,
    }
}

/// Payload lengths small enough to head, CIDs 32 bytes.
pub open spec fn wf_message(m: MessageV) -> bool {
    match m {
        MessageV::Capture { instruction_cid, peer } => instruction_cid.len() == 32 && peer.len()
            < pow256(8),
        MessageV::Receipt(r) => wf_receipt(r),
    }
}

/// Decoding a message's canonical encoding gives back the message.
pub proof fn lemma_dec_enc_message(m: MessageV)
    requires
        wf_message(m),
    ensures
        dec_message(enc_message(m), 0) == Some((m, enc_message(m).len() as int)),
{
    codec::lemma_pow256_vals();
    let s = enc_message(m);
    assert(s.subrange(0, s.len() as int) =~= s);
    match m {
        MessageV::Capture { instruction_cid, peer } => {
            let h = enc_head(6, 0);
            let e1 = enc_bytes(instruction_cid);
            let e2 = enc_bytes(peer);
            let tail = e1 + e2;
            assert(s =~= h + tail);
            codec::lemma_concat_subrange(s, 0, h, tail);
            codec::lemma_dec_enc_head(s, 0, 6, 0);
            let i0 = h.len() as int;
            codec::lemma_concat_subrange(s, i0, e1, e2);
            codec::lemma_dec_enc_bytes(s, i0, instruction_cid);
            codec::lemma_dec_enc_bytes(s, i0 + e1.len() as int, peer);
        },
        MessageV::Receipt(r) => {
            let h = enc_head(6, 1);
            let e1 = enc_receipt(r);
            assert(s =~= h + e1);
            codec::lemma_concat_subrange(s, 0, h, e1);
            codec::lemma_dec_enc_head(s, 0, 6, 1);
            crate::receipt::lemma_dec_enc_receipt(s, h.len() as int, r);
        },
    }
}

impl Message {
    /// The canonical encoding of this message.
    pub fn encode(&self) -> (r: Vec<u8>)
        ensures
            r@ == enc_message(self@),
            wf_message(self@),
    {
        let mut buf: Vec<u8> = Vec::new();
        match self {
            Message::Capture { instruction_cid, peer } => {
                proof {
                    use_type_invariant(instruction_cid);
                }
                let lp = peer.len();
                assert(peer@.len() == lp);
                proof {
                    codec::lemma_pow256_vals();
                }
                codec::push_head(&mut buf, 6, 0);
                codec::push_bytes(&mut buf, instruction_cid.digest_bytes());
                codec::push_bytes(&mut buf, peer);
            },
            Message::Receipt(r) => {
                codec::push_head(&mut buf, 6, 1);
                let mut body = r.encode();
                let ghost bodyv = body@;
                buf.append(&mut body);
                proof {
                    assert(buf@ =~= enc_head(6, 1) + bodyv);
                }
            },
        }
        proof {
            assert(buf@ =~= enc_message(self@));
        }
        buf
    }

    /// Read a message back from its canonical encoding; a malformed or
    /// partly consumed payload is dropped.
    pub fn decode(bytes: &Vec<u8>) -> (r: Result<Message, Error>)
        ensures
            match r {
                Ok(m) => dec_message(bytes@, 0) == Some((m@, bytes@.len() as int)),
                Err(e) => e == Error::Malformed && (dec_message(bytes@, 0) is None
                    || dec_message(bytes@, 0)->Some_0.1 != bytes@.len()),
            },
    {
        match codec::decode_head(bytes, 0) {
            Some((major, tag, j)) => {
                if major != 6 {
                    return Err(Error::Malformed);
                }
                if tag == 0 {
                    let (cid, k) = match codec::decode_bytes(bytes, j) {
                        Some((b, k)) => {
                            if b.len() != 32 {
                                return Err(Error::Malformed);
                            }
                            match Cid::from_digest(b) {
                                Ok(c) => (c, k),
                                Err(_) => {
                                    return Err(Error::Malformed);
                                },
                            }
                        },
                        None => {
                            return Err(Error::Malformed);
                        },
                    };
                    match codec::decode_bytes(bytes, k) {
                        Some((peer, l)) => {
                            if l == bytes.len() {
                                Ok(Message::Capture { instruction_cid: cid, peer })
                            } else {
                                Err(Error::Malformed)
                            }
                        },
                        None => Err(Error::Malformed),
                    }
                } else if tag == 1 {
                    match crate::receipt::decode_receipt(bytes, j) {
                        Some((rec, k)) => {
                            if k == bytes.len() {
                                Ok(Message::Receipt(rec))
                            } else {
                                Err(Error::Malformed)
                            }
                        },
                        None => Err(Error::Malformed),
                    }
                } else {
                    Err(Error::Malformed)
                }
            },
            None => Err(Error::Malformed),
        }
    }
}

/// A sliding window of recently seen message CIDs, for deduplication.
#[derive(Debug)]
pub struct DedupWindow {
    seen: Vec<Cid>,
    cap: usize,
}

impl View for DedupWindow {
    type V = Seq<Seq<u8>>;

    closed spec fn view(&self) -> Seq<Seq<u8>> {
        self.seen@.map_values(|c: Cid| c@)
    }
}

impl DedupWindow {
    /// How many distinct recent messages the window can remember.
    pub closed spec fn capacity(&self) -> usize {
        self.cap
    }

    /// An empty window remembering up to `cap` messages.
    pub fn new(cap: usize) -> (r: DedupWindow)
        requires
            cap >= 1,
        ensures
            r@ == Seq::<Seq<u8>>::empty(),
            r.capacity() == cap,
    {
        let seen: Vec<Cid> = Vec::new();
        proof {
            assert(seen@.map_values(|c: Cid| c@) =~= Seq::<Seq<u8>>::empty());
        }
        DedupWindow { seen, cap }
    }

    /// Record one message CID: fresh messages are admitted and remembered,
    /// repeats inside the window are dropped; the oldest entry leaves when
    /// the window is full.
    pub fn observe(&mut self, c: &Cid) -> (fresh: bool)
        ensures
            fresh == !old(self)@.contains(c@),
            final(self).capacity() == old(self).capacity(),
            fresh ==> final(self)@ == if old(self)@.len() >= old(self).capacity() && old(
                self,
            )@.len() > 0 {
                old(self)@.drop_first().push(c@)
            } else {
                old(self)@.push(c@)
            },
            !fresh ==> final(self)@ == old(self)@,
    {
        let ghost s = self@;
        let mut i: usize = 0;
        while i < self.seen.len()
            invariant
                i <= self.seen@.len(),
                s == self.seen@.map_values(|c2: Cid| c2@),
                forall|j: int| 0 <= j < i ==> s[j] != c@,
            decreases self.seen@.len() - i,
        {
            if self.seen[i].eq_cid(c) {
                proof {
                    assert(s[i as int] == c@);
                }
                return false;
            }
            i = i + 1;
        }
        proof {
            assert(!s.contains(c@)) by {
                if s.contains(c@) {
                    let j = choose|j: int| 0 <= j < s.len() && s[j] == c@;
                    assert(s[j] != c@);
                }
            }
        }
        let ghost pre = self@;
        if self.seen.len() >= self.cap && self.seen.len() > 0 {
            self.seen.remove(0);
            proof {
                assert(self@ =~= pre.drop_first());
            }
        }
        let ghost mid = self@;
        self.seen.push(c.clone());
        proof {
            assert(self@ =~= mid.push(c@));
        }
        true
    }
}

/// A length-prefixed frame: four big-endian length bytes, then the payload.
pub open spec fn enc_frame(payload: Seq<u8>) -> Seq<u8> {
    be_bytes(payload.len() as int, 4) + payload
}

/// Wrap a payload for the framed connection; a payload too long for four
/// length bytes is refused.
pub fn frame(payload: &Vec<u8>) -> (r: Result<Vec<u8>, Error>)
    ensures
        match r {
            Ok(f) => f@ == enc_frame(payload@) && payload@.len() < 4294967296,
            Err(e) => e == Error::Malformed && payload@.len() >= 4294967296,
        },
{
    proof {
        codec::lemma_pow256_vals();
    }
    if payload.len() as u64 >= 4294967296u64 {
        return Err(Error::Malformed);
    }
    let mut buf: Vec<u8> = Vec::new();
    codec::push_be(&mut buf, payload.len() as u64, 4);
    let mut body = codec::clone_bytes(payload);
    let ghost bodyv = body@;
    buf.append(&mut body);
    proof {
        assert(buf@ =~= enc_frame(payload@));
    }
    Ok(buf)
}

/// Read one frame from the start of `buf`: the payload and the index just
/// past it, or nothing while the frame is still incomplete.
pub fn unframe(buf: &Vec<u8>) -> (r: Option<(Vec<u8>, usize)>)
    ensures
        match r {
            Some((payload, j)) => buf@.len() >= 4 && payload@ == buf@.subrange(
                4,
                4 + from_be(buf@.subrange(0, 4)),
            ) && j == 4 + from_be(buf@.subrange(0, 4)),
            None => buf@.len() < 4 || buf@.len() < 4 + from_be(buf@.subrange(0, 4)),
        },
{
    if buf.len() < 4 {
        return None;
    }
    let len = codec::read_be(buf, 0, 4);
    proof {
        codec::lemma_pow256_vals();
        codec::lemma_from_be_bound(buf@.subrange(0, 4));
    }
    if ((buf.len() - 4) as u64) < len {
        return None;
    }
    let end = 4 + len as usize;
    let payload = codec::copy_range(buf, 4, end);
    Some((payload, end))
}

} // verus!
