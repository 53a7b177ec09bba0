use homestar::cid::Cid;
use homestar::message::{DedupWindow, Message};
use homestar::receipt::{Output, Receipt};
use homestar::resolver::ResolvedArg;
use homestar::runner::Runner;
use homestar::scheduler::{TaskState, Worker, WorkflowStatus};
use homestar::store::ReceiptStore;
use homestar::workflow::{
    Argument, Instruction, Resources, RunInstruction, Selector, Task, Value, Workflow,
};
use homestar::{Error, Settings};

fn module_cid() -> Cid {
    Cid::of_bytes(&b"wasm-module".to_vec())
}

fn add_task() -> Task {
    Task {
        run: RunInstruction::Expanded(Instruction {
            resource: module_cid(),
            fun: b"add".to_vec(),
            args: vec![
                Argument::Literal(Value::Int(2)),
                Argument::Literal(Value::Int(3)),
            ],
            nonce: 0,
        }),
        resources: Resources::default(),
        prf: Vec::new(),
    }
}

fn mul_task(dep: &Cid, selector: Selector) -> Task {
    Task {
        run: RunInstruction::Expanded(Instruction {
            resource: module_cid(),
            fun: b"mul".to_vec(),
            args: vec![
                Argument::Promise { task: dep.clone(), selector },
                Argument::Literal(Value::Int(4)),
            ],
            nonce: 0,
        }),
        resources: Resources::default(),
        prf: Vec::new(),
    }
}

fn linear_workflow() -> (Workflow, Cid, Cid) {
    let t1 = add_task();
    let t1_cid = t1.instruction_cid();
    let t2 = mul_task(&t1_cid, Selector::AwaitOk);
    let t2_cid = t2.instruction_cid();
    let w = Workflow::new(vec![t1, t2]).expect("linear workflow is a valid DAG");
    (w, t1_cid, t2_cid)
}

fn settings() -> Settings {
    Settings { max_parallel: 4, retries: 2, p2p_check_timeout_ms: 50, shutdown_timeout_ms: 2000 }
}

#[test]
fn cid_is_a_real_digest() {
    let c = Cid::of_bytes(&b"hello".to_vec());
    assert_eq!(c.digest_bytes().len(), 32);
    // The digest is not the input handed back unchanged.
    assert_ne!(c.digest_bytes().as_slice(), b"hello");
    let c2 = Cid::of_bytes(&b"hello".to_vec());
    assert!(c.eq_cid(&c2));
    let c3 = Cid::of_bytes(&b"hellp".to_vec());
    assert!(!c.eq_cid(&c3));
}

#[test]
fn instruction_cid_is_deterministic() {
    let a = add_task().instruction_cid();
    let b = add_task().instruction_cid();
    assert!(a.eq_cid(&b));
    let c = mul_task(&a, Selector::AwaitOk).instruction_cid();
    assert!(!a.eq_cid(&c));
}

#[test]
fn workflow_round_trip() {
    let (w, _, _) = linear_workflow();
    let bytes = w.encode();
    let w2 = Workflow::decode(&bytes).expect("canonical bytes decode");
    assert!(w.to_cid().eq_cid(&w2.to_cid()));
    assert_eq!(w.len(), w2.len());
    assert_eq!(bytes, w2.encode());
}

#[test]
fn workflow_decode_rejects_malformed() {
    assert!(matches!(Workflow::decode(&vec![0xff, 0x00]), Err(Error::Malformed)));
    let (w, _, _) = linear_workflow();
    let mut bytes = w.encode();
    bytes.push(0);
    assert!(matches!(Workflow::decode(&bytes), Err(Error::Malformed)));
}

#[test]
fn workflow_rejects_forward_reference() {
    let t1 = add_task();
    let t1_cid = t1.instruction_cid();
    let t2 = mul_task(&t1_cid, Selector::AwaitOk);
    // t2 placed before t1: its promise points forward.
    assert!(matches!(Workflow::new(vec![t2, t1]), Err(Error::InvalidDag)));
}

#[test]
fn workflow_rejects_self_reference() {
    let t1 = add_task();
    let t1_cid = t1.instruction_cid();
    let selfref = mul_task(&t1_cid, Selector::AwaitOk);
    // A lone task depending on anything at all has no earlier task to name.
    assert!(matches!(Workflow::new(vec![selfref]), Err(Error::InvalidDag)));
}

fn receipt_for(key: &Cid, workflow_cid: &Cid, ok: bool, v: u64) -> Receipt {
    Receipt {
        instruction_cid: key.clone(),
        op: b"add".to_vec(),
        workflow_cid: workflow_cid.clone(),
        output: Output { ok, value: Value::Int(v) },
        issuer: Vec::new(),
        prf: Vec::new(),
        time: 1000,
    }
}

#[test]
fn receipt_round_trip() {
    let (w, t1, _) = linear_workflow();
    let r = receipt_for(&t1, &w.to_cid(), true, 5);
    let bytes = r.encode();
    let r2 = Receipt::decode(&bytes).expect("canonical bytes decode");
    assert_eq!(bytes, r2.encode());
    assert!(r.to_cid().eq_cid(&r2.to_cid()));
    assert!(matches!(Receipt::decode(&vec![1, 2, 3]), Err(Error::Malformed)));
}

#[test]
fn receipt_ran_cid_equals_instruction_cid() {
    let (w, t1, _) = linear_workflow();
    let r = receipt_for(&t1, &w.to_cid(), true, 5);
    assert!(r.ran_cid().eq_cid(&r.instruction_cid));
}

#[test]
fn store_first_write_wins() {
    let (w, t1, _) = linear_workflow();
    let wcid = w.to_cid();
    let mut store = ReceiptStore::new();
    let first = store.put(receipt_for(&t1, &wcid, true, 5));
    // A conflicting second write under the same key is a no-op.
    let second = store.put(receipt_for(&t1, &wcid, true, 999));
    assert_eq!(store.len(), 1);
    assert_eq!(first.encode(), second.encode());
    let got = store.get(&t1).expect("stored receipt is found");
    assert_eq!(got.encode(), first.encode());
    assert!(matches!(got.output.value, Value::Int(5)));
}

#[test]
fn store_get_and_list() {
    let (w, t1, t2) = linear_workflow();
    let wcid = w.to_cid();
    let mut store = ReceiptStore::new();
    assert!(matches!(store.get(&t1), Err(Error::NotFound)));
    store.put(receipt_for(&t1, &wcid, true, 5));
    store.put(receipt_for(&t2, &wcid, true, 20));
    let listed = store.list(&wcid);
    assert_eq!(listed.len(), 2);
    assert!(listed[0].instruction_cid.eq_cid(&t1));
    assert!(listed[1].instruction_cid.eq_cid(&t2));
    let other = Cid::of_bytes(&b"other workflow".to_vec());
    assert_eq!(store.list(&other).len(), 0);
}

fn drive_to_running(worker: &mut Worker, store: &ReceiptStore, now: u64) -> Vec<ResolvedArg> {
    let announced = worker.capture_ready(now);
    assert!(!announced.is_empty(), "a task should be ready to announce");
    let deadline = now + settings().p2p_check_timeout_ms;
    let idx = worker.find_startable(deadline).expect("deadline has passed");
    worker.start_task(idx, store).expect("promises resolve")
}

#[test]
fn single_task_workflow_completes() {
    let t1 = add_task();
    let t1_cid = t1.instruction_cid();
    let w = Workflow::new(vec![t1]).unwrap();
    let mut store = ReceiptStore::new();
    let mut worker = Worker::init(&w, &store, settings());
    assert_eq!(worker.len(), 1);
    assert_eq!(worker.status(), WorkflowStatus::Running);

    let args = drive_to_running(&mut worker, &store, 0);
    assert_eq!(args.len(), 2);
    assert!(matches!(args[0], ResolvedArg::Plain(Value::Int(2))));
    assert!(matches!(args[1], ResolvedArg::Plain(Value::Int(3))));

    let rec = worker.complete_task(&mut store, 0, true, Value::Int(5), b"add".to_vec(), 7);
    assert!(rec.instruction_cid.eq_cid(&t1_cid));
    assert!(matches!(rec.output.value, Value::Int(5)));
    assert_eq!(worker.poll_status(), WorkflowStatus::Completed);
    assert_eq!(store.len(), 1);
}

#[test]
fn linear_dep_runs_in_order() {
    let (w, t1_cid, t2_cid) = linear_workflow();
    let mut store = ReceiptStore::new();
    let mut worker = Worker::init(&w, &store, settings());

    // t2 must wait for t1.
    assert!(matches!(worker.entries[0].state, TaskState::Ready));
    assert!(matches!(worker.entries[1].state, TaskState::Waiting { .. }));

    let _ = drive_to_running(&mut worker, &store, 0);
    assert!(worker.find_startable(10_000).is_none(), "only t1 was announced");
    worker.complete_task(&mut store, 0, true, Value::Int(5), b"add".to_vec(), 7);

    // t1 settled, so t2 is ready now.
    assert!(matches!(worker.entries[1].state, TaskState::Ready));
    let args = drive_to_running(&mut worker, &store, 100);
    assert!(matches!(args[0], ResolvedArg::Plain(Value::Int(5))));
    assert!(matches!(args[1], ResolvedArg::Plain(Value::Int(4))));
    worker.complete_task(&mut store, 1, true, Value::Int(20), b"mul".to_vec(), 8);
    assert_eq!(worker.poll_status(), WorkflowStatus::Completed);

    let r1 = store.get(&t1_cid).unwrap();
    let r2 = store.get(&t2_cid).unwrap();
    assert!(matches!(r1.output.value, Value::Int(5)));
    assert!(matches!(r2.output.value, Value::Int(20)));
}

#[test]
fn memoized_task_is_never_dispatched() {
    let (w, t1_cid, _) = linear_workflow();
    let wcid = w.to_cid();
    let mut store = ReceiptStore::new();
    store.put(receipt_for(&t1_cid, &wcid, true, 5));

    let mut worker = Worker::init(&w, &store, settings());
    // t1 starts settled from the store; t2 starts ready.
    assert!(matches!(worker.entries[0].state, TaskState::Done(_)));
    assert!(matches!(worker.entries[1].state, TaskState::Ready));
    assert_eq!(worker.entries[0].attempts, 0);

    let args = drive_to_running(&mut worker, &store, 0);
    assert!(matches!(args[0], ResolvedArg::Plain(Value::Int(5))));
    worker.complete_task(&mut store, 1, true, Value::Int(20), b"mul".to_vec(), 8);
    assert_eq!(worker.poll_status(), WorkflowStatus::Completed);
    assert_eq!(worker.entries[0].attempts, 0, "t1 was never dispatched");
}

#[test]
fn racing_workers_share_one_receipt_per_key() {
    let (w, t1_cid, t2_cid) = linear_workflow();
    let mut store = ReceiptStore::new();
    let mut a = Worker::init(&w, &store, settings());
    let mut b = Worker::init(&w, &store, settings());

    // Both dispatch t1; a finishes first, b's completion is deduplicated.
    let _ = drive_to_running(&mut a, &store, 0);
    let _ = drive_to_running(&mut b, &store, 0);
    let ra = a.complete_task(&mut store, 0, true, Value::Int(5), b"add".to_vec(), 7);
    let rb = b.complete_task(&mut store, 0, true, Value::Int(5), b"add".to_vec(), 9);
    assert_eq!(ra.encode(), rb.encode(), "both observe the stored receipt");
    assert_eq!(store.len(), 1);

    let _ = drive_to_running(&mut a, &store, 100);
    let _ = drive_to_running(&mut b, &store, 100);
    a.complete_task(&mut store, 1, true, Value::Int(20), b"mul".to_vec(), 8);
    b.complete_task(&mut store, 1, true, Value::Int(20), b"mul".to_vec(), 10);
    assert_eq!(store.len(), 2, "exactly one receipt per instruction CID");
    assert_eq!(a.poll_status(), WorkflowStatus::Completed);
    assert_eq!(b.poll_status(), WorkflowStatus::Completed);

    // Both workers settled every task at most once per dispatch budget.
    assert!(a.entries.iter().all(|e| e.attempts <= 1));
    assert!(b.entries.iter().all(|e| e.attempts <= 1));
    let ra2 = store.get(&t1_cid).unwrap();
    let rb2 = store.get(&t2_cid).unwrap();
    assert!(matches!(ra2.output.value, Value::Int(5)));
    assert!(matches!(rb2.output.value, Value::Int(20)));
}

#[test]
fn trap_retries_then_fails_fatally() {
    let t1 = add_task();
    let w = Workflow::new(vec![t1]).unwrap();
    let mut store = ReceiptStore::new();
    let mut worker = Worker::init(&w, &store, settings());

    // retries = 2, so the third trap is fatal: three dispatches in all.
    for round in 0..3u64 {
        let now = round * 1000;
        let _ = drive_to_running(&mut worker, &store, now);
        assert_eq!(worker.entries[0].attempts, round + 1);
        worker.fail_task(0, Error::SandboxTrap);
    }
    assert_eq!(worker.entries[0].attempts, 3);
    assert!(matches!(worker.entries[0].state, TaskState::Failed(Error::SandboxTrap)));
    assert_eq!(worker.poll_status(), WorkflowStatus::Failed);
    assert_eq!(store.len(), 0);
}

#[test]
fn promise_on_error_output_fails_workflow() {
    let (w, t1_cid, _) = linear_workflow();
    let wcid = w.to_cid();
    let mut store = ReceiptStore::new();
    // t1 settled with an error output; t2 awaits its success output.
    store.put(receipt_for(&t1_cid, &wcid, false, 99));
    let mut worker = Worker::init(&w, &store, settings());
    assert!(matches!(worker.entries[1].state, TaskState::Ready));
    let _ = worker.capture_ready(0);
    let idx = worker.find_startable(10_000).unwrap();
    let r = worker.start_task(idx, &store);
    assert!(matches!(r, Err(Error::PromiseResolutionFailed)));
    assert_eq!(worker.poll_status(), WorkflowStatus::Failed);
}

#[test]
fn await_err_and_await_any_select_the_payload() {
    let t1 = add_task();
    let t1_cid = t1.instruction_cid();
    let t2 = mul_task(&t1_cid, Selector::AwaitErr);
    let t3 = mul_task(&t1_cid, Selector::AwaitAny);
    let w = Workflow::new(vec![t1, t2, t3]).unwrap();
    let wcid = w.to_cid();
    let mut store = ReceiptStore::new();
    store.put(receipt_for(&t1_cid, &wcid, false, 42));
    let mut worker = Worker::init(&w, &store, settings());

    let _ = worker.capture_ready(0);
    let i1 = worker.find_startable(10_000).unwrap();
    let args1 = worker.start_task(i1, &store).unwrap();
    assert!(matches!(args1[0], ResolvedArg::Plain(Value::Int(42))));
    let i2 = worker.find_startable(10_000).unwrap();
    let args2 = worker.start_task(i2, &store).unwrap();
    assert!(matches!(args2[0], ResolvedArg::Tagged { ok: false, value: Value::Int(42) }));
}

#[test]
fn cancel_keeps_receipts_and_restart_resumes() {
    let (w, t1_cid, _) = linear_workflow();
    let mut store = ReceiptStore::new();
    let mut worker = Worker::init(&w, &store, settings());
    let _ = drive_to_running(&mut worker, &store, 0);
    worker.complete_task(&mut store, 0, true, Value::Int(5), b"add".to_vec(), 7);

    // t2 is dispatched, then the worker is cancelled mid-flight.
    let _ = drive_to_running(&mut worker, &store, 100);
    worker.cancel();
    assert_eq!(worker.status(), WorkflowStatus::Cancelled);
    assert!(matches!(worker.entries[1].state, TaskState::Cancelled));
    assert!(matches!(worker.entries[0].state, TaskState::Done(_)));
    assert_eq!(store.len(), 1, "issued receipts survive cancellation");
    assert!(store.get(&t1_cid).is_ok());

    // A restart reloads the receipt and never re-executes t1.
    let mut again = Worker::init(&w, &store, settings());
    assert!(matches!(again.entries[0].state, TaskState::Done(_)));
    assert!(matches!(again.entries[1].state, TaskState::Ready));
    let _ = drive_to_running(&mut again, &store, 0);
    again.complete_task(&mut store, 1, true, Value::Int(20), b"mul".to_vec(), 8);
    assert_eq!(again.poll_status(), WorkflowStatus::Completed);
    assert_eq!(again.entries[0].attempts, 0);
}

#[test]
fn network_receipt_settles_awaiting_task() {
    let t1 = add_task();
    let t1_cid = t1.instruction_cid();
    let w = Workflow::new(vec![t1]).unwrap();
    let mut store = ReceiptStore::new();
    let mut worker = Worker::init(&w, &store, settings());
    let announced = worker.capture_ready(0);
    assert_eq!(announced.len(), 1);
    assert!(announced[0].eq_cid(&t1_cid));

    // A peer's receipt arrives inside the await window, through the store.
    let stored = store.put(receipt_for(&t1_cid, &w.to_cid(), true, 5));
    worker.on_receipt(&stored);
    assert!(matches!(worker.entries[0].state, TaskState::Done(_)));
    assert!(worker.find_startable(10_000).is_none());
    assert_eq!(worker.poll_status(), WorkflowStatus::Completed);
}

#[test]
fn message_round_trip() {
    let (w, t1_cid, _) = linear_workflow();
    let cap = Message::Capture { instruction_cid: t1_cid.clone(), peer: b"peer-1".to_vec() };
    let bytes = cap.encode();
    match Message::decode(&bytes).unwrap() {
        Message::Capture { instruction_cid, peer } => {
            assert!(instruction_cid.eq_cid(&t1_cid));
            assert_eq!(peer, b"peer-1".to_vec());
        },
        _ => panic!("wrong variant"),
    }
    let rec = receipt_for(&t1_cid, &w.to_cid(), true, 5);
    let msg = Message::Receipt(rec.clone());
    let bytes = msg.encode();
    match Message::decode(&bytes).unwrap() {
        Message::Receipt(r) => assert_eq!(r.encode(), rec.encode()),
        _ => panic!("wrong variant"),
    }
    assert!(matches!(Message::decode(&vec![0x20]), Err(Error::Malformed)));
}

#[test]
fn dedup_window_drops_repeats() {
    let a = Cid::of_bytes(&b"a".to_vec());
    let b = Cid::of_bytes(&b"b".to_vec());
    let c = Cid::of_bytes(&b"c".to_vec());
    let mut win = DedupWindow::new(2);
    assert!(win.observe(&a));
    assert!(!win.observe(&a));
    assert!(win.observe(&b));
    assert!(win.observe(&c));
    // The window held two entries, so the oldest was evicted.
    assert!(win.observe(&a));
}

#[test]
fn frame_round_trip() {
    let payload = b"hello frame".to_vec();
    let framed = homestar::message::frame(&payload).unwrap();
    assert_eq!(framed.len(), payload.len() + 4);
    let (got, consumed) = homestar::message::unframe(&framed).unwrap();
    assert_eq!(got, payload);
    assert_eq!(consumed, framed.len());
    assert!(homestar::message::unframe(&vec![0, 0, 0]).is_none());
    assert!(homestar::message::unframe(&vec![0, 0, 0, 9, 1]).is_none());
}

#[test]
fn runner_is_idempotent_on_workflow_cid() {
    let (w, _, _) = linear_workflow();
    let store = ReceiptStore::new();
    let mut runner = Runner::new(settings());
    let (i1, fresh1) = runner.run(&w, &store);
    let (i2, fresh2) = runner.run(&w, &store);
    assert!(fresh1);
    assert!(!fresh2);
    assert_eq!(i1, i2);
    assert_eq!(runner.len(), 1);
    assert_eq!(runner.ping(), b"pong".to_vec());
    runner.stop();
    assert_eq!(runner.worker(i1).status(), WorkflowStatus::Cancelled);
}

#[test]
fn worker_keys_match_task_cids() {
    let (w, t1_cid, t2_cid) = linear_workflow();
    let store = ReceiptStore::new();
    let worker = Worker::init(&w, &store, settings());
    assert_eq!(worker.len(), w.len());
    assert!(worker.entries[0].key.eq_cid(&t1_cid));
    assert!(worker.entries[1].key.eq_cid(&t2_cid));
    for (entry, task) in worker.entries.iter().zip(w.tasks().iter()) {
        assert!(entry.key.eq_cid(&task.instruction_cid()));
    }
}
