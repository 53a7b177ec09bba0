//! The receipt store: a first-write-wins map from instruction CID to
//! receipt, with insertion order kept for per-workflow listing.

use vstd::prelude::*;
use crate::cid::Cid;
use crate::receipt::{Receipt, ReceiptV};
use crate::Error;

verus! {

/// The first stored receipt under `key`, if any.
pub open spec fn lookup(s: Seq<ReceiptV>, key: Seq<u8>) -> Option<ReceiptV>
    decreases s.len(),
{
    if s.len() == 0 {
        None
    } else if s[0].instruction_cid == key {
        Some(s[0])
    } else {
        lookup(s.drop_first(), key)
    }
}

/// Whether some stored receipt carries `key`.
pub open spec fn contains_key(s: Seq<ReceiptV>, key: Seq<u8>) -> bool {
    exists|i: int| 0 <= i < s.len() && (#[trigger] s[i]).instruction_cid == key
}

/// `lookup` finds exactly the keys that are present.
pub proof fn lemma_lookup_contains(s: Seq<ReceiptV>, key: Seq<u8>)
    ensures
        (lookup(s, key) is Some) == contains_key(s, key),
        lookup(s, key) matches Some(r) ==> r.instruction_cid == key && contains_key(s, key),
    decreases s.len(),
{
    if s.len() == 0 {
    } else if s[0].instruction_cid == key {
    } else {
        lemma_lookup_contains(s.drop_first(), key);
        if contains_key(s.drop_first(), key) {
            let i = choose|i: int|
                0 <= i < s.drop_first().len() && (#[trigger] s.drop_first()[i]).instruction_cid
                    == key;
            assert(s[i + 1].instruction_cid == key);
        } else if contains_key(s, key) {
            let i = choose|i: int| 0 <= i < s.len() && (#[trigger] s[i]).instruction_cid == key;
            assert(s.drop_first()[i - 1].instruction_cid == key);
        }
    }
}

/// Appending under a fresh key leaves every other lookup unchanged.
pub proof fn lemma_lookup_push(s: Seq<ReceiptV>, r: ReceiptV, key: Seq<u8>)
    ensures
        r.instruction_cid == key ==> lookup(s.push(r), key) == if contains_key(s, key) {
            lookup(s, key)
        } else {
            Some(r)
        },
        r.instruction_cid != key ==> lookup(s.push(r), key) == lookup(s, key),
    decreases s.len(),
{
    lemma_lookup_contains(s, key);
    if s.len() == 0 {
        assert(s.push(r)[0] == r);
        if r.instruction_cid != key {
            assert(s.push(r).drop_first() =~= Seq::<ReceiptV>::empty());
        }
    } else {
        assert(s.push(r)[0] == s[0]);
        assert(s.push(r).drop_first() =~= s.drop_first().push(r));
        lemma_lookup_push(s.drop_first(), r, key);
        lemma_lookup_contains(s.drop_first(), key);
        if s[0].instruction_cid != key && contains_key(s, key) {
            let i = choose|i: int| 0 <= i < s.len() && (#[trigger] s[i]).instruction_cid == key;
            assert(s.drop_first()[i - 1].instruction_cid == key);
        }
    }
}

/// A durable map `instruction_cid -> receipt`; the first write under a key
/// wins and later writes are no-ops, so racing peers cannot overwrite an
/// output once it is recorded.
#[derive(Debug)]
pub struct ReceiptStore {
    entries: Vec<Receipt>,
}

impl View for ReceiptStore {
    type V = Seq<ReceiptV>;

    closed spec fn view(&self) -> Seq<ReceiptV> {
        self.entries@.map_values(|r: Receipt| r@)
    }
}

impl ReceiptStore {
    /// An empty store.
    pub fn new() -> (r: ReceiptStore)
        ensures
            r@ == Seq::<ReceiptV>::empty(),
    {
        let entries: Vec<Receipt> = Vec::new();
        proof {
            assert(entries@.map_values(|r: Receipt| r@) =~= Seq::<ReceiptV>::empty());
        }
        ReceiptStore { entries }
    }

    /// How many receipts are stored.
    pub fn len(&self) -> (r: usize)
        ensures
            r == self@.len(),
    {
        self.entries.len()
    }

    /// Find the stored receipt under `key`.
    pub fn get(&self, key: &Cid) -> (r: Result<Receipt, Error>)
        ensures
            match r {
                Ok(rec) => lookup(self@, key@) == Some(rec@),
                Err(e) => e == Error::NotFound && lookup(self@, key@) is None,
            },
    {
        let ghost s = self@;
        proof {
            assert(s.skip(0) =~= s);
        }
        let mut i: usize = 0;
        while i < self.entries.len()
            invariant
                i <= self.entries.len(),
                s == self.entries@.map_values(|r: Receipt| r@),
                lookup(s.skip(i as int), key@) == lookup(s, key@),
                forall|j: int| 0 <= j < i ==> (#[trigger] s[j]).instruction_cid != key@,
            decreases self.entries.len() - i,
        {
            if self.entries[i].instruction_cid.eq_cid(key) {
                proof {
                    let sk = s.skip(i as int);
                    assert(sk[0] == s[i as int]);
                    assert(lookup(sk, key@) == Some(s[i as int]));
                }
                return Ok(self.entries[i].clone());
            }
            proof {
                let sk = s.skip(i as int);
                assert(sk[0] == s[i as int]);
                assert(sk.drop_first() =~= s.skip(i as int + 1));
            }
            i = i + 1;
        }
        proof {
            assert(s.skip(s.len() as int) =~= Seq::<ReceiptV>::empty());
        }
        Err(Error::NotFound)
    }

    /// Store `r` unless its key is already taken: the first write wins, the
    /// call is idempotent, and what is returned is always the receipt that
    /// the store holds under the key afterwards.
    pub fn put(&mut self, r: Receipt) -> (stored: Receipt)
        ensures
            contains_key(old(self)@, r@.instruction_cid) ==> final(self)@ == old(self)@
                && lookup(old(self)@, r@.instruction_cid) == Some(stored@),
            !contains_key(old(self)@, r@.instruction_cid) ==> final(self)@ == old(self)@.push(r@)
                && stored@ == r@,
            lookup(final(self)@, r@.instruction_cid) == Some(stored@),
    {
        proof {
            lemma_lookup_contains(self@, r@.instruction_cid);
        }
        match self.get(&r.instruction_cid) {
            Ok(prev) => prev,
            Err(_) => {
                let ghost pre = self@;
                let stored = r.clone();
                self.entries.push(r);
                proof {
                    assert(self@ =~= pre.push(stored@));
                    lemma_lookup_push(pre, stored@, stored@.instruction_cid);
                    lemma_lookup_contains(pre, stored@.instruction_cid);
                }
                stored
            },
        }
    }

    /// Every receipt issued under `workflow_cid`, in insertion order.
    pub fn list(&self, workflow_cid: &Cid) -> (r: Vec<Receipt>)
        ensures
            r@.map_values(|x: Receipt| x@) == self@.filter(
                |x: ReceiptV| x.workflow_cid == workflow_cid@,
            ),
    {
        let ghost s = self@;
        let ghost pred = |x: ReceiptV| x.workflow_cid == workflow_cid@;
        let mut out: Vec<Receipt> = Vec::new();
        let mut i: usize = 0;
        while i < self.entries.len()
            invariant
                i <= self.entries.len(),
                s == self.entries@.map_values(|r: Receipt| r@),
                pred == (|x: ReceiptV| x.workflow_cid == workflow_cid@),
                out@.map_values(|x: Receipt| x@) == s.take(i as int).filter(pred),
            decreases self.entries.len() - i,
        {
            if self.entries[i].workflow_cid.eq_cid(workflow_cid) {
                out.push(self.entries[i].clone());
            }
            proof {
                reveal_with_fuel(Seq::<ReceiptV>::filter, 2);
                assert(s.take(i as int + 1).drop_last() =~= s.take(i as int));
                assert(s.take(i as int + 1).last() == s[i as int]);
                assert(out@.map_values(|x: Receipt| x@) =~= s.take(i as int + 1).filter(pred));
            }
            i = i + 1;
        }
        proof {
            assert(s.take(s.len() as int) =~= s);
        }
        out
    }
}

/// Putting a second receipt under an occupied key changes nothing: exactly
/// one receipt per key survives, and it is the first one stored.
pub proof fn lemma_first_write_wins(s: Seq<ReceiptV>, r1: ReceiptV, r2: ReceiptV)
    requires
        r1.instruction_cid == r2.instruction_cid,
        !contains_key(s, r1.instruction_cid),
    ensures
        lookup(s.push(r1), r2.instruction_cid) == Some(r1),
{
    lemma_lookup_push(s, r1, r1.instruction_cid);
    lemma_lookup_contains(s, r1.instruction_cid);
}

} // verus!
