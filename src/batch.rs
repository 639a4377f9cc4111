//! Batch file operations as a step machine. The machine decides, one step
//! at a time, which filesystem call comes next; the caller performs it and
//! reports how it went. Batches run in order and stop at the first failure,
//! with no rollback: a move is a copy then a delete per source, so a delete
//! that fails after its copy leaves the file in both places.
use vstd::prelude::*;
use crate::error::OpError;
use crate::selection::{Transfer, TransferKind};

verus! {

/// The kind of batch.
#[derive(Clone, Copy, Debug, PartialEq, Eq, Structural)]
pub enum BatchOp {
    Remove,
    Copy,
    Move,
}

/// One filesystem call on one source of the batch.
#[derive(Clone, Copy, Debug, PartialEq, Eq, Structural)]
pub enum StepKind {
    /// Copy the source into the destination directory, under its own name.
    CopyInto,
    /// Delete the source.
    Delete,
}

/// What the caller does next.
#[derive(Clone, Copy, Debug)]
pub enum Action {
    /// Perform `kind` on source number `entry`, then report the outcome.
    Perform { entry: usize, kind: StepKind },
    /// The batch is over, with this result.
    Finished(Result<(), OpError>),
}

/// The abstract state of a run.
pub struct RunState {
    pub op: BatchOp,
    pub count: nat,
    pub done: nat,
    pub failed: Option<OpError>,
}

/// Calls per source.
pub open spec fn per_entry(op: BatchOp) -> nat {
    if op == BatchOp::Move { 2 } else { 1 }
}

pub open spec fn total_steps(s: RunState) -> nat {
    s.count * per_entry(s.op)
}

/// The call that comes after `done` successful ones.
pub open spec fn step_kind(op: BatchOp, done: nat) -> StepKind {
    match op {
        BatchOp::Remove => StepKind::Delete,
        BatchOp::Copy => StepKind::CopyInto,
        BatchOp::Move => if done % 2 == 0 { StepKind::CopyInto } else { StepKind::Delete },
    }
}

/// What the machine asks for in state `s`.
pub open spec fn action_of(s: RunState) -> Action {
    match s.failed {
        Some(e) => Action::Finished(Err(e)),
        None => if s.done >= total_steps(s) {
            Action::Finished(Ok(()))
        } else {
            Action::Perform {
                entry: (s.done / per_entry(s.op)) as usize,
                kind: step_kind(s.op, s.done),
            }
        },
    }
}

/// The state after the caller reports `outcome`; a report on a finished
/// run changes nothing.
pub open spec fn after(s: RunState, outcome: Result<(), OpError>) -> RunState {
    match action_of(s) {
        Action::Finished(_) => s,
        Action::Perform { .. } => match outcome {
            Ok(_) => RunState { done: s.done + 1, ..s },
            Err(e) => RunState { failed: Some(e), ..s },
        },
    }
}

/// A fresh run of `op` over `count` sources.
pub open spec fn start(op: BatchOp, count: nat) -> RunState {
    RunState { op, count, done: 0, failed: None }
}

/// The state after the outcomes `outs`, reported in order.
pub open spec fn run_to(s: RunState, outs: Seq<Result<(), OpError>>) -> RunState
    decreases outs.len(),
{
    if outs.len() == 0 {
        s
    } else {
        after(run_to(s, outs.drop_last()), outs.last())
    }
}

/// The action asked for before each outcome of `outs`.
pub open spec fn issued(s: RunState, outs: Seq<Result<(), OpError>>) -> Seq<Action> {
    Seq::new(outs.len(), |k: int| action_of(run_to(s, outs.take(k))))
}

proof fn lemma_remove_prefix(n: nat, outs: Seq<Result<(), OpError>>, i: nat, e: OpError, k: nat)
    requires
        i < n,
        i < outs.len(),
        k <= outs.len(),
        forall|j: int| 0 <= j < i ==> (outs[j] is Ok),
        outs[i as int] == Err::<(), OpError>(e),
    ensures
        k <= i ==> run_to(start(BatchOp::Remove, n), outs.take(k as int)) == (RunState {
            done: k,
            ..start(BatchOp::Remove, n)
        }),
        k > i ==> run_to(start(BatchOp::Remove, n), outs.take(k as int)) == (RunState {
            done: i,
            failed: Some(e),
            ..start(BatchOp::Remove, n)
        }),
    decreases k,
{
    if k > 0 {
        lemma_remove_prefix(n, outs, i, e, (k - 1) as nat);
        assert(outs.take(k as int).drop_last() =~= outs.take(k - 1));
    } else {
        assert(outs.take(0) =~= Seq::<Result<(), OpError>>::empty());
    }
}

/// A remove batch whose source number `i` fails stops there: sources
/// before it were each deleted in turn, the failing one was tried once,
/// and from then on no call is asked for, whatever is reported; the run
/// ends with that error.
pub proof fn lemma_remove_stops_at_failure(n: nat, outs: Seq<Result<(), OpError>>, i: nat, e: OpError)
    requires
        i < n,
        i < outs.len(),
        forall|j: int| 0 <= j < i ==> (outs[j] is Ok),
        outs[i as int] == Err::<(), OpError>(e),
    ensures
        forall|j: int|
            0 <= j <= i ==> #[trigger] issued(start(BatchOp::Remove, n), outs)[j] == (Action::Perform {
                entry: j as usize,
                kind: StepKind::Delete,
            }),
        forall|j: int|
            i < j < outs.len() ==> #[trigger] issued(start(BatchOp::Remove, n), outs)[j]
                == Action::Finished(Err(e)),
        action_of(run_to(start(BatchOp::Remove, n), outs)) == Action::Finished(Err(e)),
{
    assert forall|j: int| 0 <= j <= i implies #[trigger] issued(start(BatchOp::Remove, n), outs)[j]
        == (Action::Perform { entry: j as usize, kind: StepKind::Delete }) by {
        let k = j as nat;
        lemma_remove_prefix(n, outs, i, e, k);
        let st = run_to(start(BatchOp::Remove, n), outs.take(j));
        assert(st.done == k && st.failed is None && st.count == n);
        assert(k / 1 == k);
        assert(total_steps(st) == n);
    }
    assert forall|j: int| i < j < outs.len() implies #[trigger] issued(start(BatchOp::Remove, n), outs)[j]
        == Action::Finished(Err(e)) by {
        lemma_remove_prefix(n, outs, i, e, j as nat);
    }
    lemma_remove_prefix(n, outs, i, e, outs.len());
    assert(outs.take(outs.len() as int) =~= outs);
}

/// A move of one source whose copy succeeds and whose delete fails asks
/// for exactly those two calls and nothing after, so the copy stays and
/// so does the source; the run ends with the delete's error.
pub proof fn lemma_move_keeps_both(e: OpError)
    ensures
        ({
            let outs = seq![Ok::<(), OpError>(()), Err::<(), OpError>(e)];
            &&& issued(start(BatchOp::Move, 1), outs)[0] == (Action::Perform {
                entry: 0,
                kind: StepKind::CopyInto,
            })
            &&& issued(start(BatchOp::Move, 1), outs)[1] == (Action::Perform {
                entry: 0,
                kind: StepKind::Delete,
            })
            &&& action_of(run_to(start(BatchOp::Move, 1), outs)) == Action::Finished(Err(e))
        }),
{
    let outs = seq![Ok::<(), OpError>(()), Err::<(), OpError>(e)];
    let s0 = start(BatchOp::Move, 1);
    assert(outs.take(0) =~= Seq::<Result<(), OpError>>::empty());
    assert(outs.take(1) =~= seq![Ok::<(), OpError>(())]);
    assert(outs.take(1).drop_last() =~= Seq::<Result<(), OpError>>::empty());
    assert(outs.drop_last() =~= outs.take(1));
    assert(run_to(s0, outs.take(0)) == s0);
    assert(run_to(s0, outs.take(1)) == RunState { done: 1, ..s0 });
    assert(run_to(s0, outs) == RunState { done: 1, failed: Some(e), ..s0 });
    assert(0nat / 2 == 0 && 1nat / 2 == 0 && 0nat % 2 == 0 && 1nat % 2 == 1);
    assert(issued(s0, outs)[0] == action_of(s0));
    assert(issued(s0, outs)[1] == action_of(RunState { done: 1, ..s0 }));
}

/// A batch in progress.
#[derive(Debug)]
pub struct BatchRun {
    op: BatchOp,
    count: usize,
    done: usize,
    failed: Option<OpError>,
}

impl BatchRun {
    pub closed spec fn view(&self) -> RunState {
        RunState { op: self.op, count: self.count as nat, done: self.done as nat, failed: self.failed }
    }

    /// The step counter fits and never passes the end.
    pub closed spec fn wf(&self) -> bool {
        self.count * 2 <= usize::MAX && self.done <= self.count * per_entry(self.op)
    }

    /// A run of `op` over `count` sources.
    pub fn new(op: BatchOp, count: usize) -> (r: BatchRun)
        requires
            count <= usize::MAX / 2,
        ensures
            r.wf(),
            r@ == start(op, count as nat),
    {
        BatchRun { op, count, done: 0, failed: None }
    }

    /// The run that carries out a paste: a copy or a move of its sources.
    pub fn for_transfer(t: &Transfer) -> (r: BatchRun)
        requires
            t.sources@.len() <= usize::MAX / 2,
        ensures
            r.wf(),
            r@ == start(
                if t.kind == TransferKind::Copy { BatchOp::Copy } else { BatchOp::Move },
                t.sources@.len(),
            ),
    {
        let op = match t.kind {
            TransferKind::Copy => BatchOp::Copy,
            TransferKind::Move => BatchOp::Move,
        };
        BatchRun::new(op, t.sources.len())
    }

    /// The next call to perform, or the run's result.
    pub fn next_action(&self) -> (r: Action)
        requires
            self.wf(),
        ensures
            r == action_of(self@),
    {
        match self.failed {
            Some(e) => Action::Finished(Err(e)),
            None => {
                let per: usize = if self.op == BatchOp::Move { 2 } else { 1 };
                proof {
                    assert(self.count * per <= usize::MAX) by (nonlinear_arith)
                        requires self.count * 2 <= usize::MAX, per <= 2;
                }
                if self.done >= self.count * per {
                    Action::Finished(Ok(()))
                } else {
                    let kind = match self.op {
                        BatchOp::Remove => StepKind::Delete,
                        BatchOp::Copy => StepKind::CopyInto,
                        BatchOp::Move => if self.done % 2 == 0 {
                            StepKind::CopyInto
                        } else {
                            StepKind::Delete
                        },
                    };
                    Action::Perform { entry: self.done / per, kind }
                }
            },
        }
    }

    /// Records the outcome of the call that `next_action` asked for.
    pub fn report(&mut self, outcome: Result<(), OpError>)
        requires
            old(self).wf(),
        ensures
            final(self).wf(),
            final(self)@ == after(old(self)@, outcome),
    {
        if let Action::Perform { .. } = self.next_action() {
            match outcome {
                Ok(_) => {
                    self.done = self.done + 1;
                },
                Err(e) => {
                    self.failed = Some(e);
                },
            }
        }
    }
}

/// The result of an upload whose fields were each written on their own:
/// `Ok` when every field was, else the first field's error.
pub fn upload_result(fields: &Vec<Result<(), OpError>>) -> (r: Result<(), OpError>)
    ensures
        r is Ok <==> (forall|j: int| 0 <= j < fields@.len() ==> (fields@[j] is Ok)),
        r is Err ==> exists|j: int|
            0 <= j < fields@.len() && fields@[j] == r && (forall|k: int| 0 <= k < j ==> (fields@[k] is Ok)),
{
    let mut i: usize = 0;
    while i < fields.len()
        invariant
            i <= fields@.len(),
            forall|j: int| 0 <= j < i ==> fields@[j] is Ok,
        decreases fields@.len() - i,
    {
        if let Err(e) = fields[i] {
            return Err(e);
        }
        i = i + 1;
    }
    Ok(())
}

} // verus!
