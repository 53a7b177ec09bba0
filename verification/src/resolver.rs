//! Promise resolution: turning a task's arguments into fully literal values
//! by consulting the worker's own table first and the receipt store second.

use vstd::prelude::*;
use crate::receipt::ReceiptV;
use crate::scheduler::{TaskEntry, TaskState};
use crate::store::{lookup, ReceiptStore};
use crate::workflow::{Argument, ArgumentV, Selector, Value, ValueV};
use crate::Error;

verus! {

/// A fully resolved argument, ready for the sandbox.
#[derive(Debug)]
pub enum ResolvedArg {
    /// A literal, or the selected payload of an awaited output.
    Plain(Value),
    /// An `await_any` result: the payload tagged with which side it was.
    Tagged {
        /// Whether the awaited output was the success variant.
        ok: bool,
        /// The payload.
        value: Value,
    },
}

/// The mathematical shape of a [`ResolvedArg`].
pub enum ResolvedArgV {
    Plain(ValueV),
    Tagged { ok: bool, value: ValueV },
}

impl View for ResolvedArg {
    type V = ResolvedArgV;

    open spec fn view(&self) -> ResolvedArgV {
        match self {
            ResolvedArg::Plain(v) => ResolvedArgV::Plain(v@),
            ResolvedArg::Tagged { ok, value } => ResolvedArgV::Tagged { ok: *ok, value: value@ },
        }
    }
}

/// The receipt the worker's own table holds under `key`, if any.
pub open spec fn entry_receipt(entries: Seq<TaskEntry>, key: Seq<u8>) -> Option<ReceiptV>
    decreases entries.len(),
{
    if entries.len() == 0 {
        None
    } else if entries[0].key@ == key && entries[0].state is Done {
        Some(entries[0].state->Done_0@)
    } else {
        entry_receipt(entries.drop_first(), key)
    }
}

/// The receipt a promise resolves against: the worker's table first, the
/// shared store as fallback.
pub open spec fn find_receipt(entries: Seq<TaskEntry>, store: Seq<ReceiptV>, key: Seq<u8>)
    -> Option<ReceiptV> {
    match entry_receipt(entries, key) {
        Some(r) => Some(r),
        None => lookup(store, key),
    }
}

/// Whether one argument can be resolved: literals always, promises exactly
/// when a receipt is found whose output side matches the selector.
pub open spec fn arg_ok(a: ArgumentV, entries: Seq<TaskEntry>, store: Seq<ReceiptV>) -> bool {
    match a {
        ArgumentV::Literal(_) => true,
        ArgumentV::Promise { task, selector } => match find_receipt(entries, store, task) {
            Some(r) => match selector {
                Selector::AwaitOk => r.output.ok,
                Selector::AwaitErr => !r.output.ok,
                Selector::AwaitAny => true,
            },
            None => false,
        },
    }
}

/// What one resolvable argument resolves to.
pub open spec fn arg_resolved(a: ArgumentV, entries: Seq<TaskEntry>, store: Seq<ReceiptV>)
    -> ResolvedArgV {
    match a {
        ArgumentV::Literal(v) => ResolvedArgV::Plain(v),
        ArgumentV::Promise { task, selector } => {
            let r = find_receipt(entries, store, task)->Some_0;
            match selector {
                Selector::AwaitOk => ResolvedArgV::Plain(r.output.value),
                Selector::AwaitErr => ResolvedArgV::Plain(r.output.value),
                Selector::AwaitAny => ResolvedArgV::Tagged { ok: r.output.ok, value: r.output.value },
            }
        },
    }
}

/// Find the receipt for `key` in the table, then the store.
fn find_receipt_exec(entries: &Vec<TaskEntry>, store: &ReceiptStore, key: &crate::cid::Cid) -> (r:
    Option<crate::receipt::Receipt>)
    ensures
        match r {
            Some(rec) => find_receipt(entries@, store@, key@) == Some(rec@),
            None => find_receipt(entries@, store@, key@) is None,
        },
{
    let ghost s = entries@;
    proof {
        assert(s.skip(0) =~= s);
    }
    let mut i: usize = 0;
    while i < entries.len()
        invariant
            i <= entries@.len(),
            s == entries@,
            entry_receipt(s.skip(i as int), key@) == entry_receipt(s, key@),
        decreases entries@.len() - i,
    {
        proof {
            let sk = s.skip(i as int);
            assert(sk[0] == s[i as int]);
            assert(sk.drop_first() =~= s.skip(i as int + 1));
        }
        if entries[i].key.eq_cid(key) {
            match &entries[i].state {
                TaskState::Done(rec) => {
                    return Some(rec.clone());
                },
                _ => {},
            }
        }
        i = i + 1;
    }
    proof {
        assert(s.skip(s.len() as int) =~= Seq::<TaskEntry>::empty());
    }
    match store.get(key) {
        Ok(rec) => Some(rec),
        Err(_) => None,
    }
}

/// Resolve every argument, or report the first promise that cannot be
/// resolved.  Selector semantics: `await_ok` takes the payload of a success
/// output, `await_err` of an error output, `await_any` takes either, tagged.
pub fn resolve_args(args: &Vec<Argument>, entries: &Vec<TaskEntry>, store: &ReceiptStore) -> (r:
    Result<Vec<ResolvedArg>, Error>)
    ensures
        match r {
            Ok(v) => v@.len() == args@.len() && forall|k: int|
                0 <= k < args@.len() ==> arg_ok(#[trigger] args@[k]@, entries@, store@)
                    && v@[k]@ == arg_resolved(args@[k]@, entries@, store@),
            Err(e) => e == Error::PromiseResolutionFailed && exists|k: int|
                0 <= k < args@.len() && !arg_ok(#[trigger] args@[k]@, entries@, store@),
        },
{
    let mut out: Vec<ResolvedArg> = Vec::new();
    let mut i: usize = 0;
    while i < args.len()
        invariant
            i <= args@.len(),
            out@.len() == i,
            forall|k: int|
                0 <= k < i ==> arg_ok(#[trigger] args@[k]@, entries@, store@) && out@[k]@
                    == arg_resolved(args@[k]@, entries@, store@),
        decreases args@.len() - i,
    {
        match &args[i] {
            Argument::Literal(v) => {
                out.push(ResolvedArg::Plain(v.clone()));
            },
            Argument::Promise { task, selector } => {
                match find_receipt_exec(entries, store, task) {
                    Some(rec) => {
                        match selector {
                            Selector::AwaitOk => {
                                if !rec.output.ok {
                                    proof {
                                        assert(!arg_ok(args@[i as int]@, entries@, store@));
                                    }
                                    return Err(Error::PromiseResolutionFailed);
                                }
                                out.push(ResolvedArg::Plain(rec.output.value));
                            },
                            Selector::AwaitErr => {
                                if rec.output.ok {
                                    proof {
                                        assert(!arg_ok(args@[i as int]@, entries@, store@));
                                    }
                                    return Err(Error::PromiseResolutionFailed);
                                }
                                out.push(ResolvedArg::Plain(rec.output.value));
                            },
                            Selector::AwaitAny => {
                                out.push(ResolvedArg::Tagged {
                                    ok: rec.output.ok,
                                    value: rec.output.value,
                                });
                            },
                        }
                    },
                    None => {
                        proof {
                            assert(!arg_ok(args@[i as int]@, entries@, store@));
                        }
                        return Err(Error::PromiseResolutionFailed);
                    },
                }
            },
        }
        i = i + 1;
    }
    Ok(out)
}

} // verus!
