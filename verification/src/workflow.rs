//! The typed workflow DAG: instructions, tasks, arguments, and the workflow
//! itself, whose construction rejects every forward, self or unknown promise
//! reference.

use vstd::prelude::*;
use crate::cid::{Cid, sha256_of};
use crate::codec;
use crate::Error;

verus! {

/// Which side of a referenced task's output a promise selects.
#[derive(Clone, Copy, Debug, PartialEq, Eq, Structural)]
pub enum Selector {
    /// The output must be the success variant; its payload is taken.
    AwaitOk,
    /// The output must be the error variant; its payload is taken.
    AwaitErr,
    /// Either variant is taken, tagged with which one it was.
    AwaitAny,
}

/// A literal value an instruction argument or a receipt output can carry.
#[derive(Debug)]
pub enum Value {
    /// An unsigned integer.
    Int(u64),
    /// An opaque byte string.
    Bytes(Vec<u8>),
}

/// The mathematical shape of a [`Value`].
pub enum ValueV {
    Int(u64),
    Bytes(Seq<u8>),
}

impl View for Value {
    type V = ValueV;

    open spec fn view(&self) -> ValueV {
        match self {
            Value::Int(v) => ValueV::Int(*v),
            Value::Bytes(b) => ValueV::Bytes(b@),
        }
    }
}

impl Clone for Value {
    fn clone(&self) -> (r: Self)
        ensures
            r@ == self@,
    {
        match self {
            Value::Int(v) => Value::Int(*v),
            Value::Bytes(b) => Value::Bytes(codec::clone_bytes(b)),
        }
    }
}

/// One argument of an instruction: a literal, or a promise awaiting the
/// output of the task named by `task`.
#[derive(Debug)]
pub enum Argument {
    /// A literal value, passed through as it stands.
    Literal(Value),
    /// A reference to the eventual output of another task.
    Promise {
        /// The instruction CID of the referenced task.
        task: Cid,
        /// Which output variant satisfies the promise.
        selector: Selector,
    },
}

/// The mathematical shape of an [`Argument`].
pub enum ArgumentV {
    Literal(ValueV),
    Promise { task: Seq<u8>, selector: Selector },
}

impl View for Argument {
    type V = ArgumentV;

    open spec fn view(&self) -> ArgumentV {
        match self {
            Argument::Literal(v) => ArgumentV::Literal(v@),
            Argument::Promise { task, selector } => ArgumentV::Promise {
                task: task@,
                selector: *selector,
            },
        }
    }
}

impl Clone for Argument {
    fn clone(&self) -> (r: Self)
        ensures
            r@ == self@,
    {
        match self {
            Argument::Literal(v) => Argument::Literal(v.clone()),
            Argument::Promise { task, selector } => Argument::Promise {
                task: task.clone(),
                selector: *selector,
            },
        }
    }
}

/// Per-task resource budgets handed to the sandbox.
#[derive(Clone, Copy, Debug)]
pub struct Resources {
    /// Fuel budget.
    pub fuel: u64,
    /// Memory budget, in bytes.
    pub memory: u64,
    /// Wall-clock budget, in milliseconds.
    pub time_ms: u64,
}

impl Default for Resources {
    fn default() -> (r: Self)
        ensures
            r.fuel == 1_000_000,
            r.memory == 4_194_304,
            r.time_ms == 100_000,
    {
        Resources { fuel: 1_000_000, memory: 4_194_304, time_ms: 100_000 }
    }
}

/// A pure description of one unit of work: a WASM module, a function in it,
/// and the ordered arguments, with a nonce to separate otherwise equal runs.
#[derive(Debug)]
pub struct Instruction {
    /// CID of the WASM module holding the function.
    pub resource: Cid,
    /// UTF-8 bytes of the function name.
    pub fun: Vec<u8>,
    /// Ordered arguments, literal or promised.
    pub args: Vec<Argument>,
    /// Nonce; zero when none was chosen.
    pub nonce: u64,
}

/// The mathematical shape of an [`Instruction`].
pub struct InstructionV {
    pub resource: Seq<u8>,
    pub fun: Seq<u8>,
    pub args: Seq<ArgumentV>,
    pub nonce: u64,
}

impl View for Instruction {
    type V = InstructionV;

    open spec fn view(&self) -> InstructionV {
        InstructionV {
            resource: self.resource@,
            fun: self.fun@,
            args: self.args@.map_values(|a: Argument| a@),
            nonce: self.nonce,
        }
    }
}

impl Clone for Instruction {
    fn clone(&self) -> (r: Self)
        ensures
            r@ == self@,
    {
        let mut args: Vec<Argument> = Vec::new();
        let mut i: usize = 0;
        while i < self.args.len()
            invariant
                i <= self.args.len(),
                args@.len() == i,
                forall|j: int| 0 <= j < i ==> (#[trigger] args@[j])@ == self.args@[j]@,
            decreases self.args.len() - i,
        {
            args.push(self.args[i].clone());
            i = i + 1;
        }
        proof {
            assert(args@.map_values(|a: Argument| a@)
                =~= self.args@.map_values(|a: Argument| a@));
        }
        Instruction {
            resource: self.resource.clone(),
            fun: codec::clone_bytes(&self.fun),
            args,
            nonce: self.nonce,
        }
    }
}

/// How a task carries its instruction: inline, or by reference to the CID of
/// its canonical encoding.
#[derive(Debug)]
pub enum RunInstruction {
    /// The instruction inline.
    Expanded(Instruction),
    /// The CID of an instruction encoded elsewhere.
    Ref(Cid),
}

/// The mathematical shape of a [`RunInstruction`].
pub enum RunInstructionV {
    Expanded(InstructionV),
    Ref(Seq<u8>),
}

impl View for RunInstruction {
    type V = RunInstructionV;

    open spec fn view(&self) -> RunInstructionV {
        match self {
            RunInstruction::Expanded(i) => RunInstructionV::Expanded(i@),
            RunInstruction::Ref(c) => RunInstructionV::Ref(c@),
        }
    }
}

impl Clone for RunInstruction {
    fn clone(&self) -> (r: Self)
        ensures
            r@ == self@,
    {
        match self {
            RunInstruction::Expanded(i) => RunInstruction::Expanded(i.clone()),
            RunInstruction::Ref(c) => RunInstruction::Ref(c.clone()),
        }
    }
}

/// An instruction together with its resource budget and UCAN authority.
#[derive(Debug)]
pub struct Task {
    /// The instruction, inline or by reference.
    pub run: RunInstruction,
    /// The budgets the sandbox must enforce.
    pub resources: Resources,
    /// Opaque UCAN proof bytes.
    pub prf: Vec<u8>,
}

/// The mathematical shape of a [`Task`].
pub struct TaskV {
    pub run: RunInstructionV,
    pub resources: Resources,
    pub prf: Seq<u8>,
}

impl View for Task {
    type V = TaskV;

    open spec fn view(&self) -> TaskV {
        TaskV { run: self.run@, resources: self.resources, prf: self.prf@ }
    }
}

impl Clone for Task {
    fn clone(&self) -> (r: Self)
        ensures
            r@ == self@,
    {
        Task { run: self.run.clone(), resources: self.resources, prf: codec::clone_bytes(&self.prf) }
    }
}

/// The memoization key of a task: the CID of its instruction's canonical
/// encoding, or the referenced CID itself.
pub open spec fn task_key(t: TaskV) -> Seq<u8> {
    match t.run {
        RunInstructionV::Expanded(i) => sha256_of(codec::enc_instruction(i)),
        RunInstructionV::Ref(c) => c,
    }
}

/// The memoization keys of a task list, in order.
pub open spec fn task_keys(ts: Seq<TaskV>) -> Seq<Seq<u8>> {
    ts.map_values(|t: TaskV| task_key(t))
}

/// Every promise argument of task `k` references the key of a strictly
/// earlier task.
pub open spec fn promises_backward(ts: Seq<TaskV>) -> bool {
    forall|k: int, a: int|
        0 <= k < ts.len() && 0 <= a < task_args(ts[k]).len()
            ==> match #[trigger] task_args(ts[k])[a] {
                ArgumentV::Promise { task, .. } => exists|j: int|
                    0 <= j < k && task_keys(ts)[j] == task,
                ArgumentV::Literal(_) => true,
            }
}

/// The promise-bearing arguments a task exposes: those of an inline
/// instruction; a referenced instruction keeps its own elsewhere.
pub open spec fn task_args(t: TaskV) -> Seq<ArgumentV> {
    match t.run {
        RunInstructionV::Expanded(i) => i.args,
        RunInstructionV::Ref(_) => Seq::empty(),
    }
}

impl Task {
    /// The task's memoization key.
    pub fn instruction_cid(&self) -> (r: Cid)
        ensures
            r@ == task_key(self@),
            r.wf(),
    {
        match &self.run {
            RunInstruction::Expanded(i) => {
                let bytes = codec::encode_instruction(i);
                Cid::of_bytes(&bytes)
            },
            RunInstruction::Ref(c) => c.clone(),
        }
    }
}

/// An ordered DAG of tasks: every promise references an earlier task.
#[derive(Debug)]
pub struct Workflow {
    tasks: Vec<Task>,
}

impl View for Workflow {
    type V = Seq<TaskV>;

    closed spec fn view(&self) -> Seq<TaskV> {
        self.tasks@.map_values(|t: Task| t@)
    }
}

impl Workflow {
    /// A workflow is well-formed when its promises all point backward.
    pub open spec fn wf(&self) -> bool {
        promises_backward(self@)
    }

    /// Construct a workflow, rejecting any promise that references a task
    /// that is not strictly earlier in the list.
    pub fn new(tasks: Vec<Task>) -> (r: Result<Workflow, Error>)
        ensures
            match r {
                Ok(w) => w@ == tasks@.map_values(|t: Task| t@) && w.wf(),
                Err(e) => e == Error::InvalidDag
                    && !promises_backward(tasks@.map_values(|t: Task| t@)),
            },
    {
        let ghost ts = tasks@.map_values(|t: Task| t@);
        // Keys of all earlier tasks, built as we walk the list.
        let mut keys: Vec<Cid> = Vec::new();
        let mut k: usize = 0;
        while k < tasks.len()
            invariant
                k <= tasks.len(),
                ts == tasks@.map_values(|t: Task| t@),
                keys@.len() == k,
                forall|j: int| 0 <= j < k ==> keys@[j]@ == task_keys(ts)[j],
                forall|k2: int, a: int|
                    0 <= k2 < k && 0 <= a < task_args(ts[k2]).len()
                        ==> match #[trigger] task_args(ts[k2])[a] {
                            ArgumentV::Promise { task, .. } => exists|j: int|
                                0 <= j < k2 && task_keys(ts)[j] == task,
                            ArgumentV::Literal(_) => true,
                        },
            decreases tasks.len() - k,
        {
            let task = &tasks[k];
            match &task.run {
                RunInstruction::Expanded(i) => {
                    let mut a: usize = 0;
                    while a < i.args.len()
                        invariant
                            a <= i.args.len(),
                            ts == tasks@.map_values(|t: Task| t@),
                            k < tasks.len(),
                            keys@.len() == k,
                            i@ == tasks@.map_values(|t: Task| t@)[k as int].run->Expanded_0,
                            tasks@[k as int].run is Expanded,
                            task_args(ts[k as int]) == i.args@.map_values(|x: Argument| x@),
                            forall|j: int| 0 <= j < k ==> keys@[j]@ == task_keys(ts)[j],
                            forall|a2: int|
                                0 <= a2 < a ==> match #[trigger] task_args(ts[k as int])[a2] {
                                    ArgumentV::Promise { task, .. } => exists|j: int|
                                        0 <= j < k && task_keys(ts)[j] == task,
                                    ArgumentV::Literal(_) => true,
                                },
                        decreases i.args.len() - a,
                    {
                        match &i.args[a] {
                            Argument::Literal(_) => {},
                            Argument::Promise { task: target, .. } => {
                                let mut found = false;
                                let mut j: usize = 0;
                                while j < keys.len() && !found
                                    invariant
                                        j <= keys.len(),
                                        keys@.len() == k,
                                        k < tasks.len(),
                                        ts == tasks@.map_values(|t: Task| t@),
                                        forall|j2: int| 0 <= j2 < k ==> keys@[j2]@ == task_keys(ts)[j2],
                                        found ==> exists|j2: int|
                                            0 <= j2 < k && task_keys(ts)[j2] == target@,
                                        !found ==> forall|j2: int|
                                            0 <= j2 < j ==> task_keys(ts)[j2] != target@,
                                    decreases keys.len() - j, (if found { 0int } else { 1int }),
                                {
                                    if keys[j].eq_cid(target) {
                                        found = true;
                                        proof {
                                            assert(task_keys(ts)[j as int] == target@);
                                        }
                                    } else {
                                        j = j + 1;
                                    }
                                }
                                if !found {
                                    proof {
                                        let kk = k as int;
                                        let aa = a as int;
                                        assert(task_args(ts[kk])[aa]
                                            == i.args@.map_values(|x: Argument| x@)[aa]);
                                        assert(task_args(ts[kk])[aa] matches ArgumentV::Promise {
                                            task: pt, .. } && pt == target@);
                                        assert(!promises_backward(ts)) by {
                                            if promises_backward(ts) {
                                                assert(match task_args(ts[kk])[aa] {
                                                    ArgumentV::Promise { task, .. } =>
                                                        exists|j2: int|
                                                            0 <= j2 < kk && task_keys(ts)[j2]
                                                                == task,
                                                    ArgumentV::Literal(_) => true,
                                                });
                                                let jw = choose|j2: int|
                                                    0 <= j2 < kk && task_keys(ts)[j2] == target@;
                                                assert(task_keys(ts)[jw] != target@);
                                                assert(false);
                                            }
                                        }
                                    }
                                    return Err(Error::InvalidDag);
                                }
                            },
                        }
                        proof {
                            assert(task_args(ts[k as int])[a as int]
                                == i.args@.map_values(|x: Argument| x@)[a as int]);
                        }
                        a = a + 1;
                    }
                },
                RunInstruction::Ref(_) => {},
            }
            let key = task.instruction_cid();
            proof {
                assert(task_keys(ts)[k as int] == task_key(ts[k as int]));
                assert(ts[k as int] == tasks@[k as int]@);
            }
            keys.push(key);
            k = k + 1;
        }
        Ok(Workflow { tasks })
    }

    /// The tasks, in workflow order.
    pub fn tasks(&self) -> (r: &Vec<Task>)
        ensures
            r@.map_values(|t: Task| t@) == self@,
    {
        &self.tasks
    }

    /// How many tasks the workflow holds.
    pub fn len(&self) -> (r: usize)
        ensures
            r == self@.len(),
    {
        self.tasks.len()
    }

    /// Read a workflow back from its canonical encoding: decoding anything
    /// but a whole canonical task list is malformed, and a task list whose
    /// promises do not all point backward is an invalid DAG.
    pub fn decode(bytes: &Vec<u8>) -> (r: Result<Workflow, Error>)
        ensures
            match r {
                Ok(w) => codec::dec_workflow(bytes@, 0) == Some((w@, bytes@.len() as int))
                    && w.wf(),
                Err(Error::Malformed) => codec::dec_workflow(bytes@, 0) is None
                    || codec::dec_workflow(bytes@, 0)->Some_0.1 != bytes@.len(),
                Err(Error::InvalidDag) => !promises_backward(
                    codec::dec_workflow(bytes@, 0)->Some_0.0,
                ),
                Err(_) => false,
            },
    {
        match codec::decode_tasks(bytes) {
            Some((tasks, j)) => {
                if j == bytes.len() {
                    Workflow::new(tasks)
                } else {
                    Err(Error::Malformed)
                }
            },
            None => Err(Error::Malformed),
        }
    }

    /// The canonical encoding of the workflow.
    pub fn encode(&self) -> (r: Vec<u8>)
        ensures
            r@ == codec::enc_workflow(self@),
            codec::wf_tasks(self@),
    {
        codec::encode_tasks(&self.tasks)
    }

    /// The workflow's CID: the digest of its canonical encoding.
    pub fn to_cid(&self) -> (r: Cid)
        ensures
            r@ == sha256_of(codec::enc_workflow(self@)),
            r.wf(),
    {
        let bytes = codec::encode_tasks(&self.tasks);
        Cid::of_bytes(&bytes)
    }
}


/// The round trip on which content addressing rests: decoding a workflow's
/// canonical encoding gives back the workflow, and the CID derived after
/// the round trip is the CID derived before it.
pub proof fn lemma_workflow_round_trip(ts: Seq<TaskV>)
    requires
        codec::wf_tasks(ts),
    ensures
        codec::dec_workflow(codec::enc_workflow(ts), 0) == Some(
            (ts, codec::enc_workflow(ts).len() as int),
        ),
        sha256_of(
            codec::enc_workflow(codec::dec_workflow(codec::enc_workflow(ts), 0)->Some_0.0),
        ) == sha256_of(codec::enc_workflow(ts)),
{
    codec::lemma_dec_enc_workflow(ts);
}

} // verus!
