//! Content identifiers: the SHA-256 digest of a value's canonical encoding.

use vstd::prelude::*;
use crate::codec::clone_bytes;
use crate::Error;

verus! {

/// What `sha2::Sha256::digest` returns for a byte string: a function of the
/// bytes alone, the same in every process and on every machine.
pub uninterp spec fn sha256_of(bytes: Seq<u8>) -> Seq<u8>;

/// Relies on sha2's `Sha256::digest`: the one-shot SHA-256 digest, which its
/// documentation fixes at 32 bytes and which depends on the input alone.
#[verifier::external_body]
fn sha256(bytes: &Vec<u8>) -> (r: Vec<u8>)
    ensures
        r@ == sha256_of(bytes@),
        r@.len() == 32,
{
    <sha2::Sha256 as sha2::Digest>::digest(bytes.as_slice()).to_vec()
}

/// A content identifier: the SHA-256 multihash digest of a canonical encoding.
#[derive(Debug)]
pub struct Cid {
    digest: Vec<u8>,
}

impl View for Cid {
    type V = Seq<u8>;

    closed spec fn view(&self) -> Seq<u8> {
        self.digest@
    }
}

impl Clone for Cid {
    fn clone(&self) -> (r: Self)
        ensures
            r@ == self@,
            r.wf(),
    {
        proof {
            use_type_invariant(self);
        }
        Cid { digest: clone_bytes(&self.digest) }
    }
}

impl Cid {
    /// A well-formed CID carries exactly a 32-byte digest; every CID the
    /// library hands out is, which `use_type_invariant` recovers.
    #[verifier::type_invariant]
    pub open spec fn wf(&self) -> bool {
        self@.len() == 32
    }

    /// The CID of a byte string: digest its canonical encoding.
    pub fn of_bytes(bytes: &Vec<u8>) -> (r: Cid)
        ensures
            r@ == sha256_of(bytes@),
            r.wf(),
    {
        Cid { digest: sha256(bytes) }
    }

    /// Rebuild a CID from a stored digest; anything but 32 bytes is malformed.
    pub fn from_digest(digest: Vec<u8>) -> (r: Result<Cid, Error>)
        ensures
            match r {
                Ok(c) => c@ == digest@ && c.wf(),
                Err(e) => e == Error::Malformed && digest@.len() != 32,
            },
    {
        if digest.len() == 32 {
            Ok(Cid { digest })
        } else {
            Err(Error::Malformed)
        }
    }

    /// The raw digest bytes.
    pub fn digest_bytes(&self) -> (r: &Vec<u8>)
        ensures
            r@ == self@,
    {
        &self.digest
    }

    /// Whether two CIDs name the same content.
    pub fn eq_cid(&self, other: &Cid) -> (r: bool)
        ensures
            r == (self@ == other@),
    {
        if self.digest.len() != other.digest.len() {
            proof {
                assert(self@ != other@);
            }
            return false;
        }
        let mut i: usize = 0;
        while i < self.digest.len()
            invariant
                i <= self.digest.len(),
                self.digest.len() == other.digest.len(),
                forall|j: int| 0 <= j < i ==> self.digest@[j] == other.digest@[j],
            decreases self.digest.len() - i,
        {
            if self.digest[i] != other.digest[i] {
                return false;
            }
            i = i + 1;
        }
        proof {
            assert(self@ =~= other@);
        }
        true
    }
}

} // verus!
