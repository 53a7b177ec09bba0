//! Receipts: the sole authoritative proof that an instruction produced an
//! output, content-addressed like every other persistent entity.

use vstd::prelude::*;
use crate::cid::{Cid, sha256_of};
use crate::codec::{
    self, dec_head, dec_bytes, dec_u64, dec_value, enc_bytes, enc_head, enc_u64, enc_value,
    pow256, wf_value,
};
use crate::workflow::{Value, ValueV};
use crate::Error;

verus! {

/// What a finished instruction returned: its success or error payload.
#[derive(Debug)]
pub struct Output {
    /// Whether the run succeeded.
    pub ok: bool,
    /// The payload, success or error alike.
    pub value: Value,
}

/// The mathematical shape of an [`Output`].
pub struct OutputV {
    pub ok: bool,
    pub value: ValueV,
}

impl View for Output {
    type V = OutputV;

    open spec fn view(&self) -> OutputV {
        OutputV { ok: self.ok, value: self.value@ }
    }
}

impl Clone for Output {
    fn clone(&self) -> (r: Self)
        ensures
            r@ == self@,
    {
        Output { ok: self.ok, value: self.value.clone() }
    }
}

/// A receipt: `{instruction_cid, output, meta{op, workflow_cid}, issuer,
/// proof, time}`.  The CID the instruction ran under equals
/// `instruction_cid`, so it is held once.
#[derive(Debug)]
pub struct Receipt {
    /// The memoization key: the CID of the instruction that ran.
    pub instruction_cid: Cid,
    /// UTF-8 bytes of the operation name, under the `op` metadata key.
    pub op: Vec<u8>,
    /// The workflow the run belonged to, under the `workflow` metadata key.
    pub workflow_cid: Cid,
    /// What the instruction returned.
    pub output: Output,
    /// The issuing principal, as opaque bytes; empty when unsigned.
    pub issuer: Vec<u8>,
    /// Opaque UCAN proof bytes.
    pub prf: Vec<u8>,
    /// When the receipt was issued, in ms since the epoch.
    pub time: u64,
}

/// The mathematical shape of a [`Receipt`].
pub struct ReceiptV {
    pub instruction_cid: Seq<u8>,
    pub op: Seq<u8>,
    pub workflow_cid: Seq<u8>,
    pub output: OutputV,
    pub issuer: Seq<u8>,
    pub prf: Seq<u8>,
    pub time: u64,
}

impl View for Receipt {
    type V = ReceiptV;

    open spec fn view(&self) -> ReceiptV {
        ReceiptV {
            instruction_cid: self.instruction_cid@,
            op: self.op@,
            workflow_cid: self.workflow_cid@,
            output: self.output@,
            issuer: self.issuer@,
            prf: self.prf@,
            time: self.time,
        }
    }
}

impl Clone for Receipt {
    fn clone(&self) -> (r: Self)
        ensures
            r@ == self@,
    {
        Receipt {
            instruction_cid: self.instruction_cid.clone(),
            op: codec::clone_bytes(&self.op),
            workflow_cid: self.workflow_cid.clone(),
            output: self.output.clone(),
            issuer: codec::clone_bytes(&self.issuer),
            prf: codec::clone_bytes(&self.prf),
            time: self.time,
        }
    }
}

/// A receipt: an eight-item record — the two CIDs, the operation name, the
/// tagged output, issuer, proof, and issue time.
pub open spec fn enc_receipt(r: ReceiptV) -> Seq<u8> {
    enc_head(4, 8) + enc_bytes(r.instruction_cid) + enc_bytes(r.op) + enc_bytes(r.workflow_cid)
        + enc_head(6, if r.output.ok { 0int } else { 1int }) + enc_value(r.output.value)
        + enc_bytes(r.issuer) + enc_bytes(r.prf) + enc_u64(r.time)
}

/// Reading a receipt at `i`.
pub open spec fn dec_receipt(s: Seq<u8>, i: int) -> Option<(ReceiptV, int)> {
    match dec_head(s, i) {
        Some((m0, a0, i0)) => if m0 != 4 || a0 != 8 {
            None
        } else {
            match dec_bytes(s, i0) {
                Some((instruction_cid, i1)) => if instruction_cid.len() != 32 {
                    None
                } else {
                    match dec_bytes(s, i1) {
                        Some((op, i2)) => match dec_bytes(s, i2) {
                            Some((workflow_cid, i3)) => if workflow_cid.len() != 32 {
                                None
                            } else {
                                match dec_head(s, i3) {
                                    Some((m1, tag, i4)) => if m1 != 6 || tag > 1 {
                                        None
                                    } else {
                                        match dec_value(s, i4) {
                                            Some((value, i5)) => match dec_bytes(s, i5) {
                                                Some((issuer, i6)) => match dec_bytes(s, i6) {
                                                    Some((prf, i7)) => match dec_u64(s, i7) {
                                                        Some((time, i8)) => Some((
                                                            ReceiptV {
                                                                instruction_cid,
                                                                op,
                                                                workflow_cid,
                                                                output: OutputV {
                                                                    ok: tag == 0,
                                                                    value,
                                                                },
                                                                issuer,
                                                                prf,
                                                                time: time as u64,
                                                            },
                                                            i8,
                                                        )),
                                                        None => None,
                                                    },
                                                    None => None,
                                                },
                                                None => None,
                                            },
                                            None => None,
                                        }
                                    },
                                    None => None,
                                }
                            },
                            None => None,
                        },
                        None => None,
                    }
                },
                None => None,
            }
        },
        None => None,
    }
}

/// Field lengths small enough to head, CIDs 32 bytes.
pub open spec fn wf_receipt(r: ReceiptV) -> bool {
    &&& r.instruction_cid.len() == 32
    &&& r.workflow_cid.len() == 32
    &&& r.op.len() < pow256(8)
    &&& r.issuer.len() < pow256(8)
    &&& r.prf.len() < pow256(8)
    &&& wf_value(r.output.value)
}

/// Decoding a receipt's canonical encoding gives back the receipt.
#[verifier::rlimit(100)]
#[verifier::spinoff_prover]
pub proof fn lemma_dec_enc_receipt(s: Seq<u8>, i: int, r: ReceiptV)
    requires
        wf_receipt(r),
        0 <= i,
        i + enc_receipt(r).len() <= s.len(),
        s.subrange(i, i + enc_receipt(r).len() as int) == enc_receipt(r),
    ensures
        dec_receipt(s, i) == Some((r, i + enc_receipt(r).len() as int)),
{
    codec::lemma_pow256_vals();
    let h = enc_head(4, 8);
    let e1 = enc_bytes(r.instruction_cid);
    let e2 = enc_bytes(r.op);
    let e3 = enc_bytes(r.workflow_cid);
    let ht = enc_head(6, if r.output.ok { 0int } else { 1int });
    let e4 = enc_value(r.output.value);
    let e5 = enc_bytes(r.issuer);
    let e6 = enc_bytes(r.prf);
    let e7 = enc_u64(r.time);
    let tail1 = e1 + (e2 + (e3 + (ht + (e4 + (e5 + (e6 + e7))))));
    assert(enc_receipt(r) =~= h + tail1);
    codec::lemma_concat_subrange(s, i, h, tail1);
    codec::lemma_dec_enc_head(s, i, 4, 8);
    let i0 = i + h.len() as int;
    let tail2 = e2 + (e3 + (ht + (e4 + (e5 + (e6 + e7)))));
    assert(tail1 =~= e1 + tail2);
    codec::lemma_concat_subrange(s, i0, e1, tail2);
    codec::lemma_dec_enc_bytes(s, i0, r.instruction_cid);
    let i1 = i0 + e1.len() as int;
    let tail3 = e3 + (ht + (e4 + (e5 + (e6 + e7))));
    assert(tail2 =~= e2 + tail3);
    codec::lemma_concat_subrange(s, i1, e2, tail3);
    codec::lemma_dec_enc_bytes(s, i1, r.op);
    let i2 = i1 + e2.len() as int;
    let tail4 = ht + (e4 + (e5 + (e6 + e7)));
    assert(tail3 =~= e3 + tail4);
    codec::lemma_concat_subrange(s, i2, e3, tail4);
    codec::lemma_dec_enc_bytes(s, i2, r.workflow_cid);
    let i3 = i2 + e3.len() as int;
    let tail5 = e4 + (e5 + (e6 + e7));
    assert(tail4 =~= ht + tail5);
    codec::lemma_concat_subrange(s, i3, ht, tail5);
    codec::lemma_dec_enc_head(s, i3, 6, if r.output.ok { 0int } else { 1int });
    let i4 = i3 + ht.len() as int;
    let tail6 = e5 + (e6 + e7);
    assert(tail5 =~= e4 + tail6);
    codec::lemma_concat_subrange(s, i4, e4, tail6);
    codec::lemma_dec_enc_value(s, i4, r.output.value);
    let i5 = i4 + e4.len() as int;
    let tail7 = e6 + e7;
    assert(tail6 =~= e5 + tail7);
    codec::lemma_concat_subrange(s, i5, e5, tail7);
    codec::lemma_dec_enc_bytes(s, i5, r.issuer);
    let i6 = i5 + e5.len() as int;
    codec::lemma_concat_subrange(s, i6, e6, e7);
    codec::lemma_dec_enc_bytes(s, i6, r.prf);
    let i7 = i6 + e6.len() as int;
    codec::lemma_dec_enc_u64(s, i7, r.time);
}

impl Receipt {
    /// The canonical encoding of this receipt.
    pub fn encode(&self) -> (r: Vec<u8>)
        ensures
            r@ == enc_receipt(self@),
            wf_receipt(self@),
    {
        proof {
            codec::lemma_pow256_vals();
            use_type_invariant(&self.instruction_cid);
            use_type_invariant(&self.workflow_cid);
        }
        let lo = self.op.len();
        let li = self.issuer.len();
        let lp = self.prf.len();
        assert(self.op@.len() == lo && self.issuer@.len() == li && self.prf@.len() == lp);
        let mut buf: Vec<u8> = Vec::new();
        codec::push_head(&mut buf, 4, 8);
        codec::push_bytes(&mut buf, self.instruction_cid.digest_bytes());
        codec::push_bytes(&mut buf, &self.op);
        codec::push_bytes(&mut buf, self.workflow_cid.digest_bytes());
        codec::push_head(&mut buf, 6, if self.output.ok { 0 } else { 1 });
        codec::encode_value_into(&mut buf, &self.output.value);
        codec::push_bytes(&mut buf, &self.issuer);
        codec::push_bytes(&mut buf, &self.prf);
        codec::push_head(&mut buf, 0, self.time);
        proof {
            assert(buf@ =~= enc_receipt(self@));
        }
        buf
    }

    /// The receipt's own CID: the digest of its canonical encoding.
    pub fn to_cid(&self) -> (r: Cid)
        ensures
            r@ == sha256_of(enc_receipt(self@)),
            r.wf(),
    {
        let bytes = self.encode();
        Cid::of_bytes(&bytes)
    }

    /// The CID the instruction ran under: always the memoization key itself.
    pub fn ran_cid(&self) -> (r: &Cid)
        ensures
            r@ == self@.instruction_cid,
    {
        &self.instruction_cid
    }

    /// Read a receipt back from its canonical encoding; any other byte
    /// string is rejected as malformed.
    pub fn decode(bytes: &Vec<u8>) -> (r: Result<Receipt, Error>)
        ensures
            match r {
                Ok(rec) => dec_receipt(bytes@, 0) == Some((rec@, bytes@.len() as int)),
                Err(e) => e == Error::Malformed && (dec_receipt(bytes@, 0) is None
                    || dec_receipt(bytes@, 0)->Some_0.1 != bytes@.len()),
            },
    {
        match decode_receipt(bytes, 0) {
            Some((rec, j)) => {
                if j == bytes.len() {
                    Ok(rec)
                } else {
                    Err(Error::Malformed)
                }
            },
            None => Err(Error::Malformed),
        }
    }
}

/// Read a receipt at `i`.
pub(crate) fn decode_receipt(s: &Vec<u8>, i: usize) -> (r: Option<(Receipt, usize)>)
    ensures
        match r {
            Some((rec, j)) => dec_receipt(s@, i as int) == Some((rec@, j as int)),
            None => dec_receipt(s@, i as int) is None,
        },
{
    match codec::decode_head(s, i) {
        Some((m0, a0, i0)) => {
            if m0 != 4 || a0 != 8 {
                return None;
            }
            let (instruction_cid, i1) = match codec::decode_bytes(s, i0) {
                Some((b, j)) => {
                    if b.len() != 32 {
                        return None;
                    }
                    match Cid::from_digest(b) {
                        Ok(c) => (c, j),
                        Err(_) => {
                            return None;
                        },
                    }
                },
                None => {
                    return None;
                },
            };
            let (op, i2) = match codec::decode_bytes(s, i1) {
                Some(x) => x,
                None => {
                    return None;
                },
            };
            let (workflow_cid, i3) = match codec::decode_bytes(s, i2) {
                Some((b, j)) => {
                    if b.len() != 32 {
                        return None;
                    }
                    match Cid::from_digest(b) {
                        Ok(c) => (c, j),
                        Err(_) => {
                            return None;
                        },
                    }
                },
                None => {
                    return None;
                },
            };
            let (ok, i4) = match codec::decode_head(s, i3) {
                Some((m1, tag, j)) => {
                    if m1 != 6 || tag > 1 {
                        return None;
                    }
                    (tag == 0, j)
                },
                None => {
                    return None;
                },
            };
            let (value, i5) = match codec::decode_value(s, i4) {
                Some(x) => x,
                None => {
                    return None;
                },
            };
            let (issuer, i6) = match codec::decode_bytes(s, i5) {
                Some(x) => x,
                None => {
                    return None;
                },
            };
            let (prf, i7) = match codec::decode_bytes(s, i6) {
                Some(x) => x,
                None => {
                    return None;
                },
            };
            let (time, i8) = match codec::decode_u64(s, i7) {
                Some(x) => x,
                None => {
                    return None;
                },
            };
            Some((
                Receipt {
                    instruction_cid,
                    op,
                    workflow_cid,
                    output: Output { ok, value },
                    issuer,
                    prf,
                    time,
                },
                i8,
            ))
        },
        None => None,
    }
}


/// The round trip on which receipt sharing rests: decoding a receipt's
/// canonical encoding gives back the receipt, and the CID derived after the
/// round trip is the CID derived before it.
pub proof fn lemma_receipt_round_trip(r: ReceiptV)
    ensures
        wf_receipt(r) ==> dec_receipt(enc_receipt(r), 0) == Some(
            (r, enc_receipt(r).len() as int),
        ) && sha256_of(enc_receipt(dec_receipt(enc_receipt(r), 0)->Some_0.0)) == sha256_of(
            enc_receipt(r),
        ),
{
    if wf_receipt(r) {
        let s = enc_receipt(r);
        assert(s.subrange(0, s.len() as int) =~= s);
        lemma_dec_enc_receipt(s, 0, r);
    }
}

} // verus!
