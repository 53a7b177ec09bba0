//! The runner: it owns the active workers, keyed by workflow CID, and
//! answers run, stop and ping.

use vstd::prelude::*;
use crate::cid::Cid;
use crate::scheduler::{cancelled_from, init_shape, Worker, WorkflowStatus};
use crate::store::ReceiptStore;
use crate::workflow::Workflow;
use crate::Settings;

verus! {

/// The active workers, one per workflow CID.
#[derive(Debug)]
pub struct Runner {
    workers: Vec<Worker>,
    settings: Settings,
}

impl Runner {
    /// The workers the runner owns, in start order.
    pub closed spec fn view_workers(&self) -> Seq<Worker> {
        self.workers@
    }

    /// The settings every new worker is started with.
    pub closed spec fn view_settings(&self) -> Settings {
        self.settings
    }

    /// Every owned worker is internally consistent.
    pub open spec fn wf(&self) -> bool {
        &&& self.view_settings().retries < 0xffff_ffff_ffff_0000
        &&& forall|k: int|
            0 <= k < self.view_workers().len() ==> (#[trigger] self.view_workers()[k]).wf()
    }

    /// A runner with no workers yet.
    pub fn new(settings: Settings) -> (r: Runner)
        requires
            settings.retries < 0xffff_ffff_ffff_0000,
        ensures
            r.wf(),
            r.view_workers().len() == 0,
            r.view_settings() == settings,
    {
        Runner { workers: Vec::new(), settings }
    }

    /// How many workers are active.
    pub fn len(&self) -> (r: usize)
        ensures
            r == self.view_workers().len(),
    {
        self.workers.len()
    }

    /// The worker at `idx`, for the event loop to drive.
    pub fn worker(&mut self, idx: usize) -> (w: &mut Worker)
        requires
            idx < old(self).view_workers().len(),
        ensures
            *w == old(self).view_workers()[idx as int],
            final(self).view_workers() == old(self).view_workers().update(
                idx as int,
                *final(w),
            ),
            final(self).view_settings() == old(self).view_settings(),
    {
        &mut self.workers[idx]
    }

    /// Start a workflow, idempotently on its CID: if a worker for the same
    /// workflow is already active, hand back its index instead of starting
    /// a second one.
    pub fn run(&mut self, workflow: &Workflow, store: &ReceiptStore) -> (r: (usize, bool))
        requires
            old(self).wf(),
        ensures
            final(self).wf(),
            final(self).view_settings() == old(self).view_settings(),
            r.0 < final(self).view_workers().len(),
            // A worker starts exactly when none yet carries this CID.
            r.1 <==> forall|k: int|
                0 <= k < old(self).view_workers().len()
                    ==> (#[trigger] old(self).view_workers()[k]).workflow_cid@
                    != crate::cid::sha256_of(crate::codec::enc_workflow(workflow@)),
            // A fresh start appends the table `Worker::init` builds.
            r.1 ==> final(self).view_workers().len() == old(self).view_workers().len() + 1
                && r.0 == old(self).view_workers().len() && final(self).view_workers()[
                r.0 as int
            ].workflow_cid@ == crate::cid::sha256_of(
                crate::codec::enc_workflow(workflow@),
            ) && init_shape(
                final(self).view_workers()[r.0 as int],
                workflow@,
                store@,
                old(self).view_settings(),
            ),
            // A repeat leaves the set of workers exactly as it was.
            !r.1 ==> final(self).view_workers() == old(self).view_workers()
                && final(self).view_workers()[r.0 as int].workflow_cid@ == crate::cid::sha256_of(
                crate::codec::enc_workflow(workflow@),
            ),
    {
        let cid = workflow.to_cid();
        let mut i: usize = 0;
        while i < self.workers.len()
            invariant
                i <= self.view_workers().len(),
                cid@ == crate::cid::sha256_of(crate::codec::enc_workflow(workflow@)),
                *self == *old(self),
                self.wf(),
                forall|k: int|
                    0 <= k < i ==> (#[trigger] self.view_workers()[k]).workflow_cid@ != cid@,
            decreases self.view_workers().len() - i,
        {
            if self.workers[i].workflow_cid.eq_cid(&cid) {
                proof {
                    assert(self.view_workers()[i as int].workflow_cid@ == cid@);
                }
                return (i, false);
            }
            i = i + 1;
        }
        let worker = Worker::init(workflow, store, self.settings);
        let idx = self.workers.len();
        self.workers.push(worker);
        (idx, true)
    }

    /// Stop everything: every worker is cancelled; settled receipts stay.
    pub fn stop(&mut self)
        requires
            old(self).wf(),
        ensures
            final(self).wf(),
            final(self).view_workers().len() == old(self).view_workers().len(),
            final(self).view_settings() == old(self).view_settings(),
            // Each worker is cancelled in full: every `Running` task of it
            // is `Cancelled`, and everything else, receipts included,
            // stands exactly as before.
            forall|k: int|
                0 <= k < old(self).view_workers().len() ==> cancelled_from(
                    #[trigger] old(self).view_workers()[k],
                    final(self).view_workers()[k],
                ),
    {
        let n = self.workers.len();
        let mut i: usize = 0;
        while i < n
            invariant
                n == self.view_workers().len(),
                i <= n,
                self.view_settings() == old(self).view_settings(),
                forall|k: int| 0 <= k < n ==> (#[trigger] self.view_workers()[k]).wf(),
                forall|k: int|
                    i <= k < n ==> #[trigger] self.view_workers()[k] == old(
                        self,
                    ).view_workers()[k],
                forall|k: int|
                    0 <= k < i ==> cancelled_from(
                        #[trigger] old(self).view_workers()[k],
                        self.view_workers()[k],
                    ),
            decreases n - i,
        {
            self.workers[i].cancel();
            i = i + 1;
        }
    }

    /// Liveness probe: the reply the RPC surface sends back.
    pub fn ping(&self) -> (r: Vec<u8>)
        ensures
            r@ == seq![112u8, 111u8, 110u8, 103u8],
    {
        let mut out: Vec<u8> = Vec::new();
        out.push(112);
        out.push(111);
        out.push(110);
        out.push(103);
        proof {
            assert(out@ =~= seq![112u8, 111u8, 110u8, 103u8]);
        }
        out
    }
}

} // verus!
