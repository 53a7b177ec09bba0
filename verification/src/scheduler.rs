//! The per-workflow worker: a task-state table keyed by instruction CID and
//! the transitions of the scheduling loop — capture, await, run, settle.

use vstd::prelude::*;
use crate::cid::Cid;
use crate::receipt::{Output, Receipt};
use crate::store::{ReceiptStore, contains_key, lookup, lemma_lookup_contains};
use crate::workflow::{task_key, task_keys, Argument, Task, Value, Workflow};
use crate::{Error, Settings};

verus! {

/// Where one task stands.
#[derive(Debug)]
pub enum TaskState {
    /// Blocked on the listed dependencies, none of which is settled here.
    Waiting {
        /// Keys of unmet dependencies.
        unmet: Vec<Cid>,
    },
    /// All dependencies settled; not yet announced.
    Ready,
    /// Announced on the gossip topic; runs locally once `deadline` passes.
    Awaiting {
        /// The instant after which the task runs locally, in ms.
        deadline: u64,
    },
    /// Dispatched to the sandbox.
    Running,
    /// Settled under the stored receipt.
    Done(Receipt),
    /// Settled with a fatal reason.
    Failed(Error),
    /// Stopped by external cancellation.
    Cancelled,
}

/// Where the whole workflow stands.
#[derive(Clone, Copy, Debug, PartialEq, Eq, Structural)]
pub enum WorkflowStatus {
    /// Tasks are still moving.
    Running,
    /// Every task is `Done`.
    Completed,
    /// Some task failed fatally.
    Failed,
    /// Stopped by external cancellation.
    Cancelled,
}

/// One row of the task-state table.
#[derive(Debug)]
pub struct TaskEntry {
    /// The memoization key: the task's instruction CID.
    pub key: Cid,
    /// The task itself.
    pub task: Task,
    /// Where the task stands.
    pub state: TaskState,
    /// How many times the task was dispatched to the sandbox.
    pub attempts: u64,
}

/// The digests of a key list.
pub open spec fn view_keys(s: Seq<Cid>) -> Seq<Seq<u8>> {
    s.map_values(|c: Cid| c@)
}

/// A worker executes one workflow: it owns the task-state table and applies
/// every transition of the scheduling loop.
#[derive(Debug)]
pub struct Worker {
    /// The task-state table, in workflow order.
    pub entries: Vec<TaskEntry>,
    /// The CID of the workflow being executed.
    pub workflow_cid: Cid,
    /// The scheduling settings the worker was started with.
    pub settings: Settings,
    /// Where the workflow stands.
    pub status: WorkflowStatus,
}

/// One entry is internally consistent.
pub open spec fn entry_wf(e: TaskEntry, retries: u64) -> bool {
    &&& e.key@ == task_key(e.task@)
    &&& (e.state matches TaskState::Done(r) ==> r@.instruction_cid == e.key@)
    &&& e.attempts <= retries + 1
    &&& (e.state matches TaskState::Waiting { unmet } ==> unmet@.len() > 0)
}

impl Worker {
    /// The table is consistent: keys match tasks, attempts stay within the
    /// retry budget, and no unmet dependency names a task that is `Done`.
    pub open spec fn wf(&self) -> bool {
        &&& self.settings.retries < 0xffff_ffff_ffff_0000
        &&& forall|k: int|
            0 <= k < self.entries@.len() ==> entry_wf(
                #[trigger] self.entries@[k],
                self.settings.retries,
            )
        &&& forall|k: int, d: int, m: int|
            0 <= k < self.entries@.len() && 0 <= m < self.entries@.len()
                && (self.entries@[k].state) is Waiting
                && 0 <= d < self.entries@[k].state->Waiting_unmet@.len()
                && (#[trigger] self.entries@[m].key)@ == (
                #[trigger] self.entries@[k].state->Waiting_unmet@[d])@
                ==> !(self.entries@[m].state is Done)
    }

    /// Every task is settled as `Done`.
    pub open spec fn all_done(&self) -> bool {
        forall|k: int|
            0 <= k < self.entries@.len() ==> (#[trigger] self.entries@[k].state) is Done
    }

    /// The memoization keys the worker uses, in workflow order.
    pub open spec fn keys(&self) -> Seq<Seq<u8>> {
        self.entries@.map_values(|e: TaskEntry| e.key@)
    }

    /// How many tasks the table holds.
    pub fn len(&self) -> (r: usize)
        ensures
            r == self.entries@.len(),
    {
        self.entries.len()
    }

    /// Where the workflow stands.
    pub fn status(&self) -> (r: WorkflowStatus)
        ensures
            r == self.status,
    {
        self.status
    }

    /// How many tasks are `Running` now.
    pub fn running_count(&self) -> (r: usize)
        ensures
            r as int == num_running(self.entries@),
    {
        let mut n: usize = 0;
        let mut i: usize = 0;
        proof {
            assert(num_running(self.entries@.take(0)) == 0);
        }
        while i < self.entries.len()
            invariant
                i <= self.entries@.len(),
                n as int == num_running(self.entries@.take(i as int)),
                n <= i,
            decreases self.entries@.len() - i,
        {
            proof {
                assert(self.entries@.take(i as int + 1).drop_last() =~= self.entries@.take(
                    i as int,
                ));
            }
            match &self.entries[i].state {
                TaskState::Running => {
                    n = n + 1;
                },
                _ => {},
            }
            i = i + 1;
        }
        proof {
            assert(self.entries@.take(self.entries@.len() as int) =~= self.entries@);
        }
        n
    }
}

/// How many entries of `s` are `Running`.
pub open spec fn num_running(s: Seq<TaskEntry>) -> int
    decreases s.len(),
{
    if s.len() == 0 {
        0
    } else {
        num_running(s.drop_last()) + if s.last().state is Running {
            1int
        } else {
            0int
        }
    }
}

/// Keep every key of `unmet` other than `key`.
fn filter_unmet(unmet: &Vec<Cid>, key: &Cid) -> (r: Vec<Cid>)
    ensures
        view_keys(r@) == view_keys(unmet@).filter(|d: Seq<u8>| d != key@),
{
    let ghost pred = |d: Seq<u8>| d != key@;
    let mut out: Vec<Cid> = Vec::new();
    proof {
        assert(view_keys(out@) =~= Seq::<Seq<u8>>::empty());
        assert(view_keys(unmet@.take(0)) =~= Seq::<Seq<u8>>::empty());
        reveal_with_fuel(Seq::<Seq<u8>>::filter, 2);
    }
    let mut j: usize = 0;
    while j < unmet.len()
        invariant
            j <= unmet@.len(),
            pred == (|d: Seq<u8>| d != key@),
            view_keys(out@) == view_keys(unmet@.take(j as int)).filter(pred),
        decreases unmet@.len() - j,
    {
        if !unmet[j].eq_cid(key) {
            out.push(unmet[j].clone());
        }
        proof {
            reveal_with_fuel(Seq::<Seq<u8>>::filter, 2);
            assert(view_keys(unmet@.take(j as int + 1)).drop_last() =~= view_keys(
                unmet@.take(j as int),
            ));
            assert(view_keys(unmet@.take(j as int + 1)).last() == unmet@[j as int]@);
            assert(view_keys(out@) =~= view_keys(unmet@.take(j as int + 1)).filter(pred));
        }
        j = j + 1;
    }
    proof {
        assert(unmet@.take(unmet@.len() as int) =~= unmet@);
    }
    out
}

impl Worker {
    /// Apply one receipt, local or from the network: the matching task
    /// settles as `Done`, and every waiting task sheds the settled
    /// dependency, becoming `Ready` once none is left.  Everything else in
    /// the table stays as it was.
    pub fn on_receipt(&mut self, rec: &Receipt)
        requires
            old(self).wf(),
        ensures
            final(self).wf(),
            final(self).entries@.len() == old(self).entries@.len(),
            final(self).status == old(self).status,
            final(self).workflow_cid == old(self).workflow_cid,
            final(self).settings == old(self).settings,
            forall|k: int|
                0 <= k < old(self).entries@.len() ==> {
                    let eo = #[trigger] old(self).entries@[k];
                    let en = final(self).entries@[k];
                    en.key == eo.key && en.task == eo.task && en.attempts == eo.attempts
                },
            forall|k: int|
                0 <= k < old(self).entries@.len() ==> {
                    let eo = #[trigger] old(self).entries@[k];
                    let en = final(self).entries@[k];
                    if eo.key@ == rec.instruction_cid@ && !(eo.state is Done) {
                        en.state matches TaskState::Done(r) && r@ == rec@
                    } else {
                        match eo.state {
                            TaskState::Waiting { unmet } => {
                                let rem = view_keys(unmet@).filter(
                                    |d: Seq<u8>| d != rec.instruction_cid@,
                                );
                                if rem.len() == 0 {
                                    en.state is Ready
                                } else {
                                    en.state matches TaskState::Waiting { unmet: u2 }
                                        && view_keys(u2@) == rem
                                }
                            },
                            _ => en.state == eo.state,
                        }
                    }
                },
    {
        let n = self.entries.len();
        let mut i: usize = 0;
        while i < n
            invariant
                n == self.entries@.len(),
                i <= n,
                self.status == old(self).status,
                self.workflow_cid == old(self).workflow_cid,
                self.settings == old(self).settings,
                self.entries@.len() == old(self).entries@.len(),
                forall|k: int|
                    0 <= k < n ==> {
                        let eo = #[trigger] old(self).entries@[k];
                        let en = self.entries@[k];
                        en.key == eo.key && en.task == eo.task && en.attempts == eo.attempts
                    },
                forall|k: int|
                    i <= k < n ==> #[trigger] self.entries@[k].state == old(self).entries@[k].state,
                forall|k: int|
                    0 <= k < i ==> {
                        let eo = #[trigger] old(self).entries@[k];
                        let en = self.entries@[k];
                        if eo.key@ == rec.instruction_cid@ && !(eo.state is Done) {
                            en.state matches TaskState::Done(r) && r@ == rec@
                        } else {
                            match eo.state {
                                TaskState::Waiting { unmet } => {
                                    let rem = view_keys(unmet@).filter(
                                        |d: Seq<u8>| d != rec.instruction_cid@,
                                    );
                                    if rem.len() == 0 {
                                        en.state is Ready
                                    } else {
                                        en.state matches TaskState::Waiting { unmet: u2 }
                                            && view_keys(u2@) == rem
                                    }
                                },
                                _ => en.state == eo.state,
                            }
                        }
                    },
            decreases n - i,
        {
            let is_match = self.entries[i].key.eq_cid(&rec.instruction_cid);
            let is_done = match &self.entries[i].state {
                TaskState::Done(_) => true,
                _ => false,
            };
            if is_match && !is_done {
                self.entries[i].state = TaskState::Done(rec.clone());
            } else {
                let new_state = match &self.entries[i].state {
                    TaskState::Waiting { unmet } => {
                        let remaining = filter_unmet(unmet, &rec.instruction_cid);
                        if remaining.len() == 0 {
                            Some(TaskState::Ready)
                        } else {
                            Some(TaskState::Waiting { unmet: remaining })
                        }
                    },
                    _ => None,
                };
                match new_state {
                    Some(st) => {
                        self.entries[i].state = st;
                    },
                    None => {},
                }
            }
            i = i + 1;
        }
        proof {
            lemma_receipt_step_wf(*old(self), *self, *rec);
            assert forall|s: Seq<crate::receipt::ReceiptV>|
                done_matches_store(*old(self), s) && lookup(s, rec.instruction_cid@) == Some(
                    rec@,
                ) implies #[trigger] done_matches_store(*self, s) by {
                assert forall|k: int|
                    0 <= k < self.entries@.len() && (#[trigger] self.entries@[k].state)
                        is Done implies lookup(s, self.entries@[k].key@) == Some(
                    self.entries@[k].state->Done_0@,
                ) by {
                    let eo = old(self).entries@[k];
                    let en = self.entries@[k];
                    if eo.key@ == rec.instruction_cid@ && !(eo.state is Done) {
                        assert(en.state->Done_0@ == rec@);
                    } else {
                        match eo.state {
                            TaskState::Waiting { unmet } => {},
                            _ => {
                                assert(en.state == eo.state);
                                assert(eo.state matches TaskState::Done(r) ==> lookup(
                                    s,
                                    eo.key@,
                                ) == Some(r@));
                            },
                        }
                    }
                }
            }
        }
    }
}

/// Everything a filter keeps was in the sequence it was taken from.
proof fn lemma_filter_subset(s: Seq<Seq<u8>>, pred: spec_fn(Seq<u8>) -> bool)
    ensures
        forall|i: int|
            0 <= i < s.filter(pred).len() ==> exists|j: int|
                0 <= j < s.len() && s[j] == #[trigger] s.filter(pred)[i],
    decreases s.len(),
{
    reveal_with_fuel(Seq::<Seq<u8>>::filter, 2);
    if s.len() == 0 {
    } else {
        lemma_filter_subset(s.drop_last(), pred);
        let f = s.filter(pred);
        let fd = s.drop_last().filter(pred);
        assert forall|i: int| 0 <= i < f.len() implies exists|j: int|
            0 <= j < s.len() && s[j] == #[trigger] f[i] by {
            if i < fd.len() {
                let j = choose|j: int| 0 <= j < s.drop_last().len() && s.drop_last()[j] == fd[i];
                assert(s[j] == f[i]);
            } else {
                assert(f[i] == s.last());
                assert(s[s.len() - 1] == f[i]);
            }
        }
    }
}

/// The receipt transition preserves the table invariant: settling one key
/// removes it from every unmet set, so no set ever names a `Done` task.
proof fn lemma_receipt_step_wf(pre: Worker, post: Worker, rec: Receipt)
    requires
        pre.wf(),
        post.entries@.len() == pre.entries@.len(),
        post.settings == pre.settings,
        forall|k: int|
            0 <= k < pre.entries@.len() ==> {
                let eo = #[trigger] pre.entries@[k];
                let en = post.entries@[k];
                en.key == eo.key && en.task == eo.task && en.attempts == eo.attempts
            },
        forall|k: int|
            0 <= k < pre.entries@.len() ==> {
                let eo = #[trigger] pre.entries@[k];
                let en = post.entries@[k];
                if eo.key@ == rec.instruction_cid@ && !(eo.state is Done) {
                    en.state matches TaskState::Done(r) && r@ == rec@
                } else {
                    match eo.state {
                        TaskState::Waiting { unmet } => {
                            let rem = view_keys(unmet@).filter(
                                |d: Seq<u8>| d != rec.instruction_cid@,
                            );
                            if rem.len() == 0 {
                                en.state is Ready
                            } else {
                                en.state matches TaskState::Waiting { unmet: u2 } && view_keys(u2@)
                                    == rem
                            }
                        },
                        _ => en.state == eo.state,
                    }
                }
            },
    ensures
        post.wf(),
{
    let n = pre.entries@.len() as int;
    assert forall|k: int| 0 <= k < n implies entry_wf(
        #[trigger] post.entries@[k],
        post.settings.retries,
    ) by {
        let eo = pre.entries@[k];
        let en = post.entries@[k];
        assert(entry_wf(eo, pre.settings.retries));
        match eo.state {
            TaskState::Waiting { unmet } => {
                if !(eo.key@ == rec.instruction_cid@) {
                    let pred = |d: Seq<u8>| d != rec.instruction_cid@;
                    let rem = view_keys(unmet@).filter(pred);
                    if rem.len() != 0 {
                        assert(en.state matches TaskState::Waiting { unmet: u2 } && view_keys(u2@)
                            == rem);
                    }
                }
            },
            _ => {},
        }
    }
    assert forall|k: int, d: int, m: int|
        0 <= k < n && 0 <= m < n && (post.entries@[k].state) is Waiting
            && 0 <= d < post.entries@[k].state->Waiting_unmet@.len()
            && (#[trigger] post.entries@[m].key)@ == (
        #[trigger] post.entries@[k].state->Waiting_unmet@[d])@ implies !(post.entries@[m].state
        is Done) by {
        let eo = pre.entries@[k];
        let en = post.entries@[k];
        let eom = pre.entries@[m];
        let enm = post.entries@[m];
        if en.state is Waiting {
            let unmet = en.state->Waiting_unmet;
            if 0 <= d < unmet@.len() && enm.key@ == unmet@[d]@ {
                // The new unmet set is a subset of the old one that avoids
                // the settled key.
                assert(eo.state matches TaskState::Waiting { .. });
                let old_unmet = eo.state->Waiting_unmet;
                let pred = |x: Seq<u8>| x != rec.instruction_cid@;
                let rem = view_keys(old_unmet@).filter(pred);
                assert(view_keys(unmet@) == rem);
                assert(view_keys(unmet@)[d] == unmet@[d]@);
                view_keys(old_unmet@).filter_lemma(pred);
                lemma_filter_subset(view_keys(old_unmet@), pred);
                assert(pred(rem[d]));
                let od = choose|od: int|
                    0 <= od < view_keys(old_unmet@).len() && view_keys(old_unmet@)[od] == rem[d];
                assert(old_unmet@[od]@ == unmet@[d]@);
                if enm.state is Done {
                    if eom.state is Done {
                        assert(entry_wf(eom, pre.settings.retries));
                        assert(false);
                    } else {
                        assert(eom.key@ == rec.instruction_cid@);
                        assert(false);
                    }
                }
            }
        }
    }
}


/// `a + b`, stopping at the largest representable instant.
pub open spec fn sat_add(a: u64, b: u64) -> u64 {
    if a + b > u64::MAX {
        u64::MAX
    } else {
        (a + b) as u64
    }
}

/// The keys of the `Ready` entries, in table order.
pub open spec fn ready_keys(s: Seq<TaskEntry>) -> Seq<Seq<u8>>
    decreases s.len(),
{
    if s.len() == 0 {
        Seq::empty()
    } else {
        ready_keys(s.drop_last()) + if s.last().state is Ready {
            seq![s.last().key@]
        } else {
            Seq::empty()
        }
    }
}

/// A table change that settles nothing and wakes nothing keeps the
/// invariant: `Done` entries and `Waiting` sets are exactly as before.
proof fn lemma_same_shape_wf(pre: Worker, post: Worker)
    requires
        pre.wf(),
        post.settings == pre.settings,
        post.entries@.len() == pre.entries@.len(),
        forall|k: int|
            0 <= k < pre.entries@.len() ==> {
                let eo = #[trigger] pre.entries@[k];
                let en = post.entries@[k];
                en.key == eo.key && en.task == eo.task && en.attempts <= pre.settings.retries + 1
                    && ((en.state is Done) == (eo.state is Done)) && ((en.state is Done
                    || en.state is Waiting) ==> en.state == eo.state)
            },
    ensures
        post.wf(),
{
    let n = pre.entries@.len() as int;
    assert forall|k: int| 0 <= k < n implies entry_wf(
        #[trigger] post.entries@[k],
        post.settings.retries,
    ) by {
        assert(entry_wf(pre.entries@[k], pre.settings.retries));
    }
    assert forall|k: int, d: int, m: int|
        0 <= k < n && 0 <= m < n && (post.entries@[k].state) is Waiting
            && 0 <= d < post.entries@[k].state->Waiting_unmet@.len()
            && (#[trigger] post.entries@[m].key)@ == (
        #[trigger] post.entries@[k].state->Waiting_unmet@[d])@ implies !(post.entries@[m].state
        is Done) by {
        assert(post.entries@[k].state == pre.entries@[k].state);
        assert(pre.entries@[m].key@ == pre.entries@[k].state->Waiting_unmet@[d]@);
    }
}

/// The promise targets of `args` that `store` has not settled, in argument
/// order, duplicates kept: the dependencies a fresh task still waits on.
pub open spec fn unmet_targets(args: Seq<crate::workflow::ArgumentV>, store: Seq<
    crate::receipt::ReceiptV,
>) -> Seq<Seq<u8>>
    decreases args.len(),
{
    if args.len() == 0 {
        Seq::empty()
    } else {
        unmet_targets(args.drop_last(), store) + match args.last() {
            crate::workflow::ArgumentV::Promise { task, .. } => if contains_key(store, task) {
                Seq::empty()
            } else {
                seq![task]
            },
            crate::workflow::ArgumentV::Literal(_) => Seq::empty(),
        }
    }
}

/// Nothing `unmet_targets` keeps is settled in the store.
pub proof fn lemma_unmet_targets_not_stored(
    args: Seq<crate::workflow::ArgumentV>,
    store: Seq<crate::receipt::ReceiptV>,
)
    ensures
        forall|d: int|
            0 <= d < unmet_targets(args, store).len() ==> !contains_key(
                store,
                #[trigger] unmet_targets(args, store)[d],
            ),
    decreases args.len(),
{
    if args.len() > 0 {
        lemma_unmet_targets_not_stored(args.drop_last(), store);
        let pre = unmet_targets(args.drop_last(), store);
        let whole = unmet_targets(args, store);
        assert forall|d: int|
            0 <= d < whole.len() implies !contains_key(store, #[trigger] whole[d]) by {
            if d < pre.len() {
                assert(whole[d] == pre[d]);
            } else {
                match args.last() {
                    crate::workflow::ArgumentV::Promise { task, .. } => {
                        if !contains_key(store, task) {
                            assert(whole[d] == task);
                        }
                    },
                    crate::workflow::ArgumentV::Literal(_) => {},
                }
            }
        }
    }
}

/// The table `Worker::init` builds over `wv` and `store`: one entry per
/// task in workflow order, keyed and carrying that task, never yet
/// dispatched; `Done` under the stored receipt exactly where the store has
/// one, otherwise `Ready` when no promise target is unsettled and
/// `Waiting` on exactly the unsettled targets when some is.
pub open spec fn init_shape(
    w: Worker,
    wv: Seq<crate::workflow::TaskV>,
    store: Seq<crate::receipt::ReceiptV>,
    settings: Settings,
) -> bool {
    &&& w.status == WorkflowStatus::Running
    &&& w.settings == settings
    &&& w.entries@.len() == wv.len()
    &&& w.keys() == task_keys(wv)
    &&& forall|k: int|
        0 <= k < wv.len() ==> {
            let e = #[trigger] w.entries@[k];
            &&& e.task@ == wv[k]
            &&& e.attempts == 0
            &&& ((e.state is Done) == contains_key(store, task_keys(wv)[k]))
            &&& (e.state matches TaskState::Done(r) ==> lookup(store, e.key@) == Some(r@))
            &&& (!(e.state is Done) ==> {
                let rem = unmet_targets(crate::workflow::task_args(wv[k]), store);
                if rem.len() == 0 {
                    e.state is Ready
                } else {
                    e.state matches TaskState::Waiting { unmet } && view_keys(unmet@) == rem
                }
            })
        }
}

/// What external cancellation does to a worker: the verdict is
/// `Cancelled`, every `Running` task is `Cancelled`, and every other
/// entry, key, task and attempt count stands exactly as before.
pub open spec fn cancelled_from(pre: Worker, post: Worker) -> bool {
    &&& post.status == WorkflowStatus::Cancelled
    &&& post.entries@.len() == pre.entries@.len()
    &&& post.settings == pre.settings
    &&& post.workflow_cid == pre.workflow_cid
    &&& forall|k: int|
        0 <= k < pre.entries@.len() ==> {
            let eo = #[trigger] pre.entries@[k];
            let en = post.entries@[k];
            en.key == eo.key && en.task == eo.task && en.attempts == eo.attempts && (
            if eo.state is Running {
                en.state is Cancelled
            } else {
                en.state == eo.state
            })
        }
}

impl Worker {
    /// Build the table for one workflow.  Each task's key is its
    /// instruction CID; a task whose receipt the store already holds starts
    /// `Done`, one with no unsettled dependencies starts `Ready`, and the
    /// rest start `Waiting` on exactly their unsettled promise targets.
    pub fn init(workflow: &Workflow, store: &ReceiptStore, settings: Settings) -> (w: Worker)
        requires
            settings.retries < 0xffff_ffff_ffff_0000,
        ensures
            w.wf(),
            w.status == WorkflowStatus::Running,
            w.settings == settings,
            w.entries@.len() == workflow@.len(),
            w.keys() == task_keys(workflow@),
            w.workflow_cid@ == crate::cid::sha256_of(crate::codec::enc_workflow(workflow@)),
            init_shape(w, workflow@, store@, settings),
            done_matches_store(w, store@),
    {
        let workflow_cid = workflow.to_cid();
        let tasks = workflow.tasks();
        let ghost wv = workflow@;
        let mut entries: Vec<TaskEntry> = Vec::new();
        let mut k: usize = 0;
        while k < tasks.len()
            invariant
                k <= tasks@.len(),
                wv == tasks@.map_values(|t: Task| t@),
                settings.retries < 0xffff_ffff_ffff_0000,
                entries@.len() == k,
                forall|j: int|
                    0 <= j < k ==> {
                        let e = #[trigger] entries@[j];
                        &&& e.key@ == task_keys(wv)[j]
                        &&& e.key@ == task_key(e.task@)
                        &&& e.task@ == wv[j]
                        &&& e.attempts == 0
                        &&& (e.state matches TaskState::Done(r) ==> lookup(store@, e.key@)
                            == Some(r@) && r@.instruction_cid == e.key@)
                        &&& ((e.state is Done) == contains_key(store@, task_keys(wv)[j]))
                        &&& (e.state matches TaskState::Waiting { unmet } ==> unmet@.len() > 0
                            && forall|d: int|
                                0 <= d < unmet@.len() ==> !contains_key(
                                    store@,
                                    (#[trigger] unmet@[d])@,
                                ))
                        &&& (!(e.state is Done) ==> {
                            let rem = unmet_targets(crate::workflow::task_args(wv[j]), store@);
                            if rem.len() == 0 {
                                e.state is Ready
                            } else {
                                e.state matches TaskState::Waiting { unmet } && view_keys(unmet@)
                                    == rem
                            }
                        })
                    },
            decreases tasks@.len() - k,
        {
            let task = tasks[k].clone();
            let key = task.instruction_cid();
            proof {
                lemma_lookup_contains(store@, key@);
                assert(task@ == wv[k as int]);
                assert(task_keys(wv)[k as int] == task_key(wv[k as int]));
            }
            let state = match store.get(&key) {
                Ok(rec) => TaskState::Done(rec),
                Err(_) => {
                    let ghost argsv = crate::workflow::task_args(wv[k as int]);
                    let mut unmet: Vec<Cid> = Vec::new();
                    proof {
                        assert(view_keys(unmet@) =~= Seq::<Seq<u8>>::empty());
                        assert(unmet_targets(argsv.take(0), store@) == Seq::<Seq<u8>>::empty());
                    }
                    match &task.run {
                        crate::workflow::RunInstruction::Expanded(ins) => {
                            proof {
                                assert(argsv == ins.args@.map_values(|x: Argument| x@));
                            }
                            let mut a: usize = 0;
                            while a < ins.args.len()
                                invariant
                                    a <= ins.args@.len(),
                                    argsv == ins.args@.map_values(|x: Argument| x@),
                                    view_keys(unmet@) == unmet_targets(
                                        argsv.take(a as int),
                                        store@,
                                    ),
                                    forall|d: int|
                                        0 <= d < unmet@.len() ==> !contains_key(
                                            store@,
                                            (#[trigger] unmet@[d])@,
                                        ),
                                decreases ins.args@.len() - a,
                            {
                                proof {
                                    assert(argsv.take(a as int + 1).drop_last() =~= argsv.take(
                                        a as int,
                                    ));
                                    assert(argsv.take(a as int + 1).last() == argsv[a as int]);
                                }
                                match &ins.args[a] {
                                    Argument::Promise { task: dep, .. } => {
                                        proof {
                                            lemma_lookup_contains(store@, dep@);
                                        }
                                        match store.get(dep) {
                                            Err(_) => {
                                                unmet.push(dep.clone());
                                            },
                                            Ok(_) => {},
                                        }
                                    },
                                    Argument::Literal(_) => {},
                                }
                                proof {
                                    assert(view_keys(unmet@) =~= unmet_targets(
                                        argsv.take(a as int + 1),
                                        store@,
                                    ));
                                }
                                a = a + 1;
                            }
                            proof {
                                assert(argsv.take(argsv.len() as int) =~= argsv);
                            }
                        },
                        crate::workflow::RunInstruction::Ref(_) => {
                            proof {
                                assert(argsv =~= Seq::<crate::workflow::ArgumentV>::empty());
                            }
                        },
                    }
                    if unmet.len() == 0 {
                        TaskState::Ready
                    } else {
                        TaskState::Waiting { unmet }
                    }
                },
            };
            entries.push(TaskEntry { key, task, state, attempts: 0 });
            k = k + 1;
        }
        let w = Worker { entries, workflow_cid, settings, status: WorkflowStatus::Running };
        proof {
            assert(w.keys() =~= task_keys(wv));
            assert forall|k2: int, d: int, m: int|
                0 <= k2 < w.entries@.len() && 0 <= m < w.entries@.len()
                    && (w.entries@[k2].state) is Waiting
                    && 0 <= d < w.entries@[k2].state->Waiting_unmet@.len()
                    && (#[trigger] w.entries@[m].key)@ == (
                #[trigger] w.entries@[k2].state->Waiting_unmet@[d])@ implies !(
            w.entries@[m].state is Done) by {
                assert(!contains_key(store@, w.entries@[k2].state->Waiting_unmet@[d]@));
                assert((w.entries@[m].state is Done) == contains_key(
                    store@,
                    task_keys(wv)[m],
                ));
            }
        }
        w
    }

    /// Announce every `Ready` task: each moves to `Awaiting` with its local
    /// deadline, and the returned keys are published as capture requests.
    pub fn capture_ready(&mut self, now: u64) -> (announced: Vec<Cid>)
        requires
            old(self).wf(),
        ensures
            final(self).wf(),
            final(self).entries@.len() == old(self).entries@.len(),
            final(self).status == old(self).status,
            final(self).settings == old(self).settings,
            final(self).workflow_cid == old(self).workflow_cid,
            forall|k: int|
                0 <= k < old(self).entries@.len() ==> {
                    let eo = #[trigger] old(self).entries@[k];
                    let en = final(self).entries@[k];
                    en.key == eo.key && en.task == eo.task && en.attempts == eo.attempts && (
                    if eo.state is Ready {
                        en.state matches TaskState::Awaiting { deadline } && deadline == sat_add(
                            now,
                            old(self).settings.p2p_check_timeout_ms,
                        )
                    } else {
                        en.state == eo.state
                    })
                },
            view_keys(announced@) == ready_keys(old(self).entries@),
    {
        let timeout = self.settings.p2p_check_timeout_ms;
        let deadline: u64 = if now > u64::MAX - timeout {
            u64::MAX
        } else {
            now + timeout
        };
        let mut announced: Vec<Cid> = Vec::new();
        let n = self.entries.len();
        let mut i: usize = 0;
        proof {
            assert(view_keys(announced@) =~= Seq::<Seq<u8>>::empty());
            assert(ready_keys(old(self).entries@.take(0)) == Seq::<Seq<u8>>::empty());
        }
        while i < n
            invariant
                n == self.entries@.len(),
                i <= n,
                deadline == sat_add(now, old(self).settings.p2p_check_timeout_ms),
                self.entries@.len() == old(self).entries@.len(),
                self.status == old(self).status,
                self.settings == old(self).settings,
                self.workflow_cid == old(self).workflow_cid,
                forall|k: int|
                    i <= k < n ==> #[trigger] self.entries@[k] == old(self).entries@[k],
                forall|k: int|
                    0 <= k < i ==> {
                        let eo = #[trigger] old(self).entries@[k];
                        let en = self.entries@[k];
                        en.key == eo.key && en.task == eo.task && en.attempts == eo.attempts && (
                        if eo.state is Ready {
                            en.state matches TaskState::Awaiting { deadline: dl } && dl == deadline
                        } else {
                            en.state == eo.state
                        })
                    },
                view_keys(announced@) == ready_keys(old(self).entries@.take(i as int)),
            decreases n - i,
        {
            proof {
                assert(old(self).entries@.take(i as int + 1).drop_last() =~= old(
                    self,
                ).entries@.take(i as int));
                assert(old(self).entries@.take(i as int + 1).last() == old(self).entries@[i as int]);
            }
            let is_ready = match &self.entries[i].state {
                TaskState::Ready => true,
                _ => false,
            };
            if is_ready {
                announced.push(self.entries[i].key.clone());
                self.entries[i].state = TaskState::Awaiting { deadline };
                proof {
                    assert(view_keys(announced@) =~= ready_keys(
                        old(self).entries@.take(i as int + 1),
                    ));
                }
            } else {
                proof {
                    assert(view_keys(announced@) =~= ready_keys(
                        old(self).entries@.take(i as int + 1),
                    ));
                }
            }
            i = i + 1;
        }
        proof {
            assert(old(self).entries@.take(n as int) =~= old(self).entries@);
            lemma_same_shape_wf(*old(self), *self);
        }
        announced
    }

    /// The first task whose `Awaiting` deadline has passed, if any: no
    /// peer's receipt arrived in time, so it runs locally.
    pub fn find_startable(&self, now: u64) -> (r: Option<usize>)
        ensures
            match r {
                Some(i) => i < self.entries@.len() && (self.entries@[i as int].state matches
                    TaskState::Awaiting { deadline } && deadline <= now),
                None => forall|k: int|
                    0 <= k < self.entries@.len() ==> ((#[trigger] self.entries@[k].state) matches
                        TaskState::Awaiting { deadline } ==> deadline > now),
            },
    {
        let mut i: usize = 0;
        while i < self.entries.len()
            invariant
                i <= self.entries@.len(),
                forall|k: int|
                    0 <= k < i ==> ((#[trigger] self.entries@[k].state) matches
                        TaskState::Awaiting { deadline } ==> deadline > now),
            decreases self.entries@.len() - i,
        {
            match &self.entries[i].state {
                TaskState::Awaiting { deadline } => {
                    if *deadline <= now {
                        return Some(i);
                    }
                },
                _ => {},
            }
            i = i + 1;
        }
        None
    }
}


impl Worker {
    /// Dispatch one task whose await window has passed: resolve its
    /// promises against the table and the store, and move it to `Running`.
    /// A promise that cannot be resolved fails the task and the workflow.
    pub fn start_task(&mut self, idx: usize, store: &ReceiptStore) -> (r: Result<
        Vec<crate::resolver::ResolvedArg>,
        Error,
    >)
        requires
            old(self).wf(),
            idx < old(self).entries@.len(),
            old(self).entries@[idx as int].state is Awaiting || old(self).entries@[
                idx as int
            ].state is Ready,
            old(self).entries@[idx as int].attempts <= old(self).settings.retries,
        ensures
            final(self).wf(),
            final(self).entries@.len() == old(self).entries@.len(),
            final(self).settings == old(self).settings,
            final(self).workflow_cid == old(self).workflow_cid,
            forall|k: int|
                0 <= k < old(self).entries@.len() && k != idx
                    ==> #[trigger] final(self).entries@[k] == old(self).entries@[k],
            final(self).entries@[idx as int].key == old(self).entries@[idx as int].key,
            final(self).entries@[idx as int].task == old(self).entries@[idx as int].task,
            match r {
                Ok(v) => final(self).status == old(self).status && final(self).entries@[
                    idx as int
                ].state is Running && final(self).entries@[idx as int].attempts == old(
                    self,
                ).entries@[idx as int].attempts + 1 && v@.len() == crate::workflow::task_args(
                    old(self).entries@[idx as int].task@,
                ).len() && forall|k: int|
                    0 <= k < v@.len() ==> crate::resolver::arg_ok(
                        #[trigger] crate::workflow::task_args(
                            old(self).entries@[idx as int].task@,
                        )[k],
                        old(self).entries@,
                        store@,
                    ) && v@[k]@ == crate::resolver::arg_resolved(
                        crate::workflow::task_args(old(self).entries@[idx as int].task@)[k],
                        old(self).entries@,
                        store@,
                    ),
                Err(e) => e == Error::PromiseResolutionFailed && final(self).status
                    == WorkflowStatus::Failed && (final(self).entries@[idx as int].state matches
                    TaskState::Failed(f) && f == Error::PromiseResolutionFailed) && exists|k: int|
                    0 <= k < crate::workflow::task_args(
                        old(self).entries@[idx as int].task@,
                    ).len() && !crate::resolver::arg_ok(
                        #[trigger] crate::workflow::task_args(
                            old(self).entries@[idx as int].task@,
                        )[k],
                        old(self).entries@,
                        store@,
                    ),
            },
    {
        let empty_args: Vec<Argument> = Vec::new();
        let resolved = match &self.entries[idx].task.run {
            crate::workflow::RunInstruction::Expanded(ins) => crate::resolver::resolve_args(
                &ins.args,
                &self.entries,
                store,
            ),
            crate::workflow::RunInstruction::Ref(_) => crate::resolver::resolve_args(
                &empty_args,
                &self.entries,
                store,
            ),
        };
        proof {
            assert(crate::workflow::task_args(self.entries@[idx as int].task@)
                == match self.entries@[idx as int].task.run {
                crate::workflow::RunInstruction::Expanded(i) => i.args@.map_values(
                    |a: Argument| a@,
                ),
                crate::workflow::RunInstruction::Ref(_) => Seq::<
                    crate::workflow::ArgumentV,
                >::empty(),
            });
            assert(empty_args@.map_values(|a: Argument| a@) =~= Seq::<
                crate::workflow::ArgumentV,
            >::empty());
        }
        match resolved {
            Ok(v) => {
                let a = self.entries[idx].attempts;
                self.entries[idx].attempts = a + 1;
                self.entries[idx].state = TaskState::Running;
                proof {
                    lemma_same_shape_wf(*old(self), *self);
                }
                Ok(v)
            },
            Err(_) => {
                proof {
                    let argsm = crate::workflow::task_args(old(self).entries@[idx as int].task@);
                    match old(self).entries@[idx as int].task.run {
                        crate::workflow::RunInstruction::Expanded(ins) => {
                            let kw = choose|k: int|
                                0 <= k < ins.args@.len() && !crate::resolver::arg_ok(
                                    #[trigger] ins.args@[k]@,
                                    old(self).entries@,
                                    store@,
                                );
                            assert(argsm[kw] == ins.args@[kw]@);
                            assert(0 <= kw < argsm.len() && !crate::resolver::arg_ok(
                                argsm[kw],
                                old(self).entries@,
                                store@,
                            ));
                        },
                        crate::workflow::RunInstruction::Ref(_) => {},
                    }
                }
                self.entries[idx].state = TaskState::Failed(Error::PromiseResolutionFailed);
                self.status = WorkflowStatus::Failed;
                proof {
                    lemma_same_shape_wf(*old(self), *self);
                }
                Err(Error::PromiseResolutionFailed)
            },
        }
    }

    /// Record a finished run: build the receipt, commit it to the store
    /// (first write wins), and settle the table under whatever receipt the
    /// store now holds — so racing peers always converge on one output.
    pub fn complete_task(
        &mut self,
        store: &mut ReceiptStore,
        idx: usize,
        out_ok: bool,
        value: Value,
        op: Vec<u8>,
        time: u64,
    ) -> (stored: Receipt)
        requires
            old(self).wf(),
            idx < old(self).entries@.len(),
            old(self).entries@[idx as int].state is Running,
        ensures
            final(self).wf(),
            final(self).entries@.len() == old(self).entries@.len(),
            final(self).settings == old(self).settings,
            final(self).workflow_cid == old(self).workflow_cid,
            final(self).status == old(self).status,
            stored@.instruction_cid == old(self).entries@[idx as int].key@,
            lookup(final(store)@, stored@.instruction_cid) == Some(stored@),
            final(self).entries@[idx as int].state matches TaskState::Done(r) && r@ == stored@,
            contains_key(old(store)@, old(self).entries@[idx as int].key@) ==> final(store)@ == old(
                store,
            )@,
            !contains_key(old(store)@, old(self).entries@[idx as int].key@) ==> final(store)@ == old(
                store,
            )@.push(stored@) && stored@.output.ok == out_ok && stored@.output.value == value@
                && stored@.workflow_cid == old(self).workflow_cid@ && stored@.op == op@
                && stored@.time == time && stored@.issuer == Seq::<u8>::empty()
                && stored@.prf == Seq::<u8>::empty(),
            // The table never drifts from the store it settles through.
            done_matches_store(*old(self), old(store)@) ==> done_matches_store(
                *final(self),
                final(store)@,
            ),
            // The settle transition in full, as `on_receipt` states it:
            // keys, tasks and attempt counts everywhere unchanged ...
            forall|k: int|
                0 <= k < old(self).entries@.len() ==> {
                    let eo = #[trigger] old(self).entries@[k];
                    let en = final(self).entries@[k];
                    en.key == eo.key && en.task == eo.task && en.attempts == eo.attempts
                },
            // ... the completed entry settles `Done`, each `Waiting` entry
            // sheds the settled key, `Ready` once none is left, and every
            // other entry keeps its state.
            forall|k: int|
                0 <= k < old(self).entries@.len() ==> {
                    let eo = #[trigger] old(self).entries@[k];
                    let en = final(self).entries@[k];
                    if eo.key@ == stored.instruction_cid@ && !(eo.state is Done) {
                        en.state matches TaskState::Done(r) && r@ == stored@
                    } else {
                        match eo.state {
                            TaskState::Waiting { unmet } => {
                                let rem = view_keys(unmet@).filter(
                                    |d: Seq<u8>| d != stored.instruction_cid@,
                                );
                                if rem.len() == 0 {
                                    en.state is Ready
                                } else {
                                    en.state matches TaskState::Waiting { unmet: u2 }
                                        && view_keys(u2@) == rem
                                }
                            },
                            _ => en.state == eo.state,
                        }
                    }
                },
    {
        let rec = Receipt {
            instruction_cid: self.entries[idx].key.clone(),
            op,
            workflow_cid: self.workflow_cid.clone(),
            output: Output { ok: out_ok, value },
            issuer: Vec::new(),
            prf: Vec::new(),
            time,
        };
        let ghost recv = rec@;
        let ghost self_pre = *self;
        let stored = store.put(rec);
        proof {
            lemma_lookup_contains(old(store)@, recv.instruction_cid);
            assert(stored@.instruction_cid == recv.instruction_cid);
            if done_matches_store(self_pre, old(store)@) {
                assert forall|k: int|
                    0 <= k < self_pre.entries@.len() && (#[trigger] self_pre.entries@[k].state)
                        is Done implies lookup(store@, self_pre.entries@[k].key@) == Some(
                    self_pre.entries@[k].state->Done_0@,
                ) by {
                    let kk = self_pre.entries@[k].key@;
                    if !contains_key(old(store)@, recv.instruction_cid) {
                        if kk == recv.instruction_cid {
                            lemma_lookup_contains(old(store)@, kk);
                        } else {
                            crate::store::lemma_lookup_push(old(store)@, stored@, kk);
                        }
                    }
                }
                assert(done_matches_store(self_pre, store@));
            }
        }
        let ghost store_now = store@;
        self.on_receipt(&stored);
        proof {
            if done_matches_store(self_pre, old(store)@) {
                assert(lookup(store_now, stored.instruction_cid@) == Some(stored@));
                assert forall|k: int|
                    0 <= k < self.entries@.len() && (#[trigger] self.entries@[k].state)
                        is Done implies lookup(store_now, self.entries@[k].key@) == Some(
                    self.entries@[k].state->Done_0@,
                ) by {
                    let eo = self_pre.entries@[k];
                    let en = self.entries@[k];
                    if eo.key@ == stored.instruction_cid@ && !(eo.state is Done) {
                        assert(en.state->Done_0@ == stored@);
                    } else {
                        match eo.state {
                            TaskState::Waiting { unmet } => {},
                            _ => {
                                assert(en.state == eo.state);
                                assert(eo.state matches TaskState::Done(r) ==> lookup(
                                    store_now,
                                    eo.key@,
                                ) == Some(r@));
                            },
                        }
                    }
                }
                assert(done_matches_store(*self, store_now));
            }
        }
        stored
    }

    /// Record a retryable sandbox failure: the task goes back to `Ready`
    /// while its retry budget lasts, and otherwise fails fatally, taking
    /// the workflow with it.
    pub fn fail_task(&mut self, idx: usize, reason: Error)
        requires
            old(self).wf(),
            idx < old(self).entries@.len(),
            old(self).entries@[idx as int].state is Running,
            reason == Error::SandboxTrap || reason == Error::ResourceExhausted,
        ensures
            final(self).wf(),
            final(self).entries@.len() == old(self).entries@.len(),
            final(self).settings == old(self).settings,
            final(self).workflow_cid == old(self).workflow_cid,
            forall|k: int|
                0 <= k < old(self).entries@.len() && k != idx
                    ==> #[trigger] final(self).entries@[k] == old(self).entries@[k],
            old(self).entries@[idx as int].attempts <= old(self).settings.retries
                ==> final(self).entries@[idx as int].state is Ready
                    && final(self).status == old(self).status,
            old(self).entries@[idx as int].attempts > old(self).settings.retries
                ==> (final(self).entries@[idx as int].state matches TaskState::Failed(f)
                    && f == reason) && final(self).status == WorkflowStatus::Failed,
    {
        if self.entries[idx].attempts <= self.settings.retries {
            self.entries[idx].state = TaskState::Ready;
        } else {
            self.entries[idx].state = TaskState::Failed(reason);
            self.status = WorkflowStatus::Failed;
        }
        proof {
            lemma_same_shape_wf(*old(self), *self);
        }
    }

    /// External cancellation: every `Running` task is cancelled, settled
    /// receipts stay in place, and the worker ends `Cancelled`.
    pub fn cancel(&mut self)
        requires
            old(self).wf(),
        ensures
            final(self).wf(),
            cancelled_from(*old(self), *final(self)),
    {
        let n = self.entries.len();
        let mut i: usize = 0;
        while i < n
            invariant
                n == self.entries@.len(),
                i <= n,
                self.entries@.len() == old(self).entries@.len(),
                self.settings == old(self).settings,
                self.workflow_cid == old(self).workflow_cid,
                forall|k: int|
                    i <= k < n ==> #[trigger] self.entries@[k] == old(self).entries@[k],
                forall|k: int|
                    0 <= k < i ==> {
                        let eo = #[trigger] old(self).entries@[k];
                        let en = self.entries@[k];
                        en.key == eo.key && en.task == eo.task && en.attempts == eo.attempts && (
                        if eo.state is Running {
                            en.state is Cancelled
                        } else {
                            en.state == eo.state
                        })
                    },
            decreases n - i,
        {
            let is_running = match &self.entries[i].state {
                TaskState::Running => true,
                _ => false,
            };
            if is_running {
                self.entries[i].state = TaskState::Cancelled;
            }
            i = i + 1;
        }
        self.status = WorkflowStatus::Cancelled;
        proof {
            lemma_same_shape_wf(*old(self), *self);
        }
    }

    /// Settle the workflow status: `Completed` exactly when every task is
    /// `Done`; a `Failed` or `Cancelled` verdict is final.
    pub fn poll_status(&mut self) -> (r: WorkflowStatus)
        requires
            old(self).wf(),
        ensures
            final(self).wf(),
            final(self).entries@ == old(self).entries@,
            final(self).settings == old(self).settings,
            final(self).workflow_cid == old(self).workflow_cid,
            r == final(self).status,
            old(self).status == WorkflowStatus::Failed || old(self).status
                == WorkflowStatus::Cancelled ==> r == old(self).status,
            old(self).status == WorkflowStatus::Running || old(self).status
                == WorkflowStatus::Completed ==> (r == WorkflowStatus::Completed <==> old(
                self,
            ).all_done()) && (!old(self).all_done() ==> r == WorkflowStatus::Running),
    {
        match self.status {
            WorkflowStatus::Failed => WorkflowStatus::Failed,
            WorkflowStatus::Cancelled => WorkflowStatus::Cancelled,
            _ => {
                let mut all = true;
                let mut i: usize = 0;
                while i < self.entries.len()
                    invariant
                        i <= self.entries@.len(),
                        all == forall|k: int|
                            0 <= k < i ==> (#[trigger] self.entries@[k].state) is Done,
                    decreases self.entries@.len() - i,
                {
                    let d = match &self.entries[i].state {
                        TaskState::Done(_) => true,
                        _ => false,
                    };
                    if !d {
                        all = false;
                    }
                    i = i + 1;
                }
                if all {
                    self.status = WorkflowStatus::Completed;
                    WorkflowStatus::Completed
                } else {
                    self.status = WorkflowStatus::Running;
                    WorkflowStatus::Running
                }
            },
        }
    }
}

/// No task of `w` that carries `key` is settled as `Done`.
pub open spec fn dep_unsettled(w: Worker, key: Seq<u8>) -> bool {
    forall|m: int|
        0 <= m < w.entries@.len() && (#[trigger] w.entries@[m].key)@ == key ==> !(
        w.entries@[m].state is Done)
}

/// No `Waiting` task has a satisfied dependency set: under the table
/// invariant some unmet dependency of every waiting task is still not
/// `Done`, so a worker can never stall on a task whose inputs are ready.
pub proof fn lemma_no_satisfied_waiting(w: Worker, k: int)
    requires
        w.wf(),
        0 <= k < w.entries@.len(),
        w.entries@[k].state is Waiting,
    ensures
        exists|d: int|
            0 <= d < w.entries@[k].state->Waiting_unmet@.len() && dep_unsettled(
                w,
                (#[trigger] w.entries@[k].state->Waiting_unmet@[d])@,
            ),
{
    let unmet = w.entries@[k].state->Waiting_unmet;
    assert(entry_wf(w.entries@[k], w.settings.retries));
    assert(unmet@.len() > 0);
    assert forall|m: int|
        0 <= m < w.entries@.len() && (#[trigger] w.entries@[m].key)@ == w.entries@[
            k
        ].state->Waiting_unmet@[0]@ implies !(w.entries@[m].state is Done) by {
        assert(w.entries@[k].state is Waiting);
    }
    assert(dep_unsettled(w, w.entries@[k].state->Waiting_unmet@[0]@));
}

/// Every task is dispatched at most `retries + 1` times: the attempt
/// counter never passes the retry budget.
pub proof fn lemma_attempts_bounded(w: Worker, k: int)
    requires
        w.wf(),
        0 <= k < w.entries@.len(),
    ensures
        w.entries@[k].attempts <= w.settings.retries + 1,
{
    assert(entry_wf(w.entries@[k], w.settings.retries));
}

/// The dispatches a table has made in all: the sum of its attempt counters.
pub open spec fn total_attempts(s: Seq<TaskEntry>) -> int
    decreases s.len(),
{
    if s.len() == 0 {
        0
    } else {
        total_attempts(s.drop_last()) + s.last().attempts
    }
}

/// A worker dispatches at most `(retries + 1)` times per task in all: with
/// no retry budget, at most once per task, so two workers sharing a store
/// attempt at most twice the task count between them.
pub proof fn lemma_total_attempts_bounded(w: Worker)
    requires
        w.wf(),
    ensures
        total_attempts(w.entries@) <= w.entries@.len() * (w.settings.retries + 1),
{
    lemma_total_attempts_rec(w.entries@, w.settings.retries);
}

proof fn lemma_total_attempts_rec(s: Seq<TaskEntry>, retries: u64)
    requires
        forall|k: int| 0 <= k < s.len() ==> (#[trigger] s[k]).attempts <= retries + 1,
    ensures
        total_attempts(s) <= s.len() * (retries + 1),
    decreases s.len(),
{
    if s.len() == 0 {
    } else {
        assert(forall|k: int|
            0 <= k < s.drop_last().len() ==> (#[trigger] s.drop_last()[k]).attempts <= retries
                + 1);
        lemma_total_attempts_rec(s.drop_last(), retries);
        let n = s.len() as int;
        let b = retries + 1 as int;
        assert(s[n - 1].attempts <= b);
        assert((n - 1) * b + b == n * b) by (nonlinear_arith);
    }
}

/// Every `Done` receipt in the table is the one the store holds under its
/// key.  `init` establishes it, `complete_task` and store-fed `on_receipt`
/// keep it, and the remaining transitions keep it by
/// `lemma_done_matches_preserved`, since none settles an entry.
pub open spec fn done_matches_store(w: Worker, s: Seq<crate::receipt::ReceiptV>) -> bool {
    forall|k: int|
        0 <= k < w.entries@.len() ==> ((#[trigger] w.entries@[k].state) matches TaskState::Done(r)
            ==> lookup(s, w.entries@[k].key@) == Some(r@))
}

/// A transition that settles nothing keeps the table in step with any
/// store: where every `Done` entry, with its key, stands as before.
pub proof fn lemma_done_matches_preserved(
    pre: Worker,
    post: Worker,
    s: Seq<crate::receipt::ReceiptV>,
)
    requires
        done_matches_store(pre, s),
        post.entries@.len() == pre.entries@.len(),
        forall|k: int|
            0 <= k < pre.entries@.len() ==> (#[trigger] post.entries@[k]).key == pre.entries@[
                k
            ].key,
        forall|k: int|
            0 <= k < pre.entries@.len() ==> ((#[trigger] post.entries@[k].state) is Done
                ==> post.entries@[k].state == pre.entries@[k].state),
    ensures
        done_matches_store(post, s),
{
    assert forall|k: int|
        0 <= k < post.entries@.len() && (#[trigger] post.entries@[k].state) is Done implies lookup(
        s,
        post.entries@[k].key@,
    ) == Some(post.entries@[k].state->Done_0@) by {
        assert(pre.entries@[k].state matches TaskState::Done(r) ==> lookup(s, pre.entries@[k].key@)
            == Some(r@));
    }
}

/// Two workers over one shared store agree bit for bit: any two `Done`
/// entries under the same key, in either table, hold the same receipt.
pub proof fn lemma_shared_store_agreement(
    w1: Worker,
    w2: Worker,
    s: Seq<crate::receipt::ReceiptV>,
    k1: int,
    k2: int,
)
    requires
        done_matches_store(w1, s),
        done_matches_store(w2, s),
        0 <= k1 < w1.entries@.len(),
        0 <= k2 < w2.entries@.len(),
        w1.entries@[k1].state is Done,
        w2.entries@[k2].state is Done,
        w1.entries@[k1].key@ == w2.entries@[k2].key@,
    ensures
        w1.entries@[k1].state->Done_0@ == w2.entries@[k2].state->Done_0@,
{
}

} // verus!
