use vstd::prelude::*;
use crate::errors::StorageError;
use crate::events::{ActionRec, StorageEvent};
use crate::value::{ValModel, Value};

verus! {

/// A transform applied to every dispatched action before it reaches the
/// reducer: an opaque host callback. Returning `Ok(Some(action))` makes
/// that action's payload the current payload for the next stage;
/// `Ok(None)` stands for a callback that produced nothing and leaves the
/// payload unchanged; `Err` stands for a callback that raised, which
/// aborts the whole dispatch.
pub trait Middleware {
    fn transform(&self, action: &StorageEvent) -> Result<Option<StorageEvent>, Value>;
}

/// What one middleware invocation came back with: nothing, so the
/// payload passes unchanged; a transformed action, whose payload feeds
/// the next stage; or a raised value, which aborts the run.
#[verifier::ext_equal]
pub ghost enum MwAnswer {
    Passed,
    Transformed(ActionRec),
    Raised(ValModel),
}

/// The ghost record of one middleware invocation: the action the stage
/// received, and what it answered.
#[verifier::ext_equal]
pub ghost struct MwCall {
    pub input: ActionRec,
    pub answer: MwAnswer,
}

/// The payload after one stage's answer is folded in; a raise leaves
/// the payload where it was, since nothing after it runs.
pub open spec fn mw_step(p: ValModel, answer: MwAnswer) -> ValModel {
    match answer {
        MwAnswer::Passed => p,
        MwAnswer::Transformed(a) => a.payload,
        MwAnswer::Raised(_) => p,
    }
}

/// The payload after a whole run of recorded stages, folded left to right.
pub open spec fn mw_chained(p0: ValModel, calls: Seq<MwCall>) -> ValModel
    decreases calls.len(),
{
    if calls.len() == 0 {
        p0
    } else {
        mw_step(mw_chained(p0, calls.drop_last()), calls.last().answer)
    }
}

/// One run's records are coherent: every stage saw the given kind and
/// timestamp, and the payload the earlier stages' answers had produced.
pub open spec fn mw_run_ok(calls: Seq<MwCall>, kind: Seq<char>, p0: ValModel, ts: u64) -> bool {
    forall|i: int|
        0 <= i < calls.len() ==> {
            &&& (#[trigger] calls[i]).input.kind == kind
            &&& calls[i].input.timestamp == ts
            &&& calls[i].input.payload == mw_chained(p0, calls.take(i))
        }
}

/// The ordered middleware stages, applied in registration order to every
/// dispatched action. `calls` is the ghost history of every invocation
/// this chain ever made.
pub struct MiddlewareChain<M> {
    stages: Vec<M>,
    calls: Ghost<Seq<MwCall>>,
}

impl<M: Middleware> MiddlewareChain<M> {
    /// The stages, in registration order.
    pub closed spec fn stages(self) -> Seq<M> {
        self.stages@
    }

    /// Every invocation made so far, oldest first.
    pub closed spec fn log(self) -> Seq<MwCall> {
        self.calls@
    }

    /// An empty chain with an empty invocation history.
    pub fn new() -> (r: MiddlewareChain<M>)
        ensures
            r.stages() == Seq::<M>::empty(),
            r.log() == Seq::<MwCall>::empty(),
    {
        MiddlewareChain { stages: Vec::new(), calls: Ghost(Seq::empty()) }
    }

    /// Append a stage; there is no removal.
    pub fn add(&mut self, stage: M)
        ensures
            final(self).stages() == old(self).stages().push(stage),
            final(self).log() == old(self).log(),
    {
        self.stages.push(stage);
    }

    /// Fold the chain over the action's payload, left to right. On `Ok`
    /// every stage ran and answered, in order, and the result is the
    /// folded payload; on `Err` the last recorded stage raised, every
    /// earlier one answered, the remaining stages never ran, and the
    /// raised value comes back inside the error.
    pub fn run(&mut self, action_type: &str, payload: Value, timestamp: u64) -> (r: Result<
        Value,
        StorageError,
    >)
        ensures
            final(self).stages() == old(self).stages(),
            final(self).log().len() >= old(self).log().len(),
            final(self).log().take(old(self).log().len() as int) == old(self).log(),
            mw_run_ok(
                final(self).log().skip(old(self).log().len() as int),
                action_type@,
                payload.model(),
                timestamp,
            ),
            match r {
                Result::Ok(v) => {
                    let delta = final(self).log().skip(old(self).log().len() as int);
                    &&& delta.len() == old(self).stages().len()
                    &&& forall|q: int|
                        0 <= q < delta.len() ==> !((#[trigger] delta[q]).answer is Raised)
                    &&& v.model() == mw_chained(payload.model(), delta)
                },
                Result::Err(e) => {
                    let delta = final(self).log().skip(old(self).log().len() as int);
                    &&& 0 < delta.len() <= old(self).stages().len()
                    &&& forall|q: int|
                        0 <= q < delta.len() - 1 ==> !((#[trigger] delta[q]).answer is Raised)
                    &&& delta.last().answer is Raised
                    &&& e is Middleware
                    &&& e->Middleware_0.model() == delta.last().answer->Raised_0
                },
            },
    {
        let ghost base = self.calls@;
        let mut current: Value = payload;
        let mut i: usize = 0;
        while i < self.stages.len()
            invariant
                i <= self.stages@.len(),
                self.stages@ == old(self).stages@,
                self.calls@.len() == base.len() + i,
                self.calls@.take(base.len() as int) == base,
                base == old(self).calls@,
                mw_run_ok(
                    self.calls@.skip(base.len() as int),
                    action_type@,
                    payload.model(),
                    timestamp,
                ),
                forall|q: int|
                    0 <= q < i ==> !((#[trigger] self.calls@.skip(base.len() as int)[q]).answer
                        is Raised),
                current.model() == mw_chained(
                    payload.model(),
                    self.calls@.skip(base.len() as int),
                ),
            decreases self.stages@.len() - i,
        {
            let action = StorageEvent {
                action_type: action_type.to_owned(),
                payload: current.duplicate(),
                timestamp,
            };
            let ghost in_rec = action.model();
            let ghost delta_before = self.calls@.skip(base.len() as int);
            match self.stages[i].transform(&action) {
                Result::Ok(answer) => {
                    let ghost out_rec = if answer is Some {
                        MwAnswer::Transformed(answer->Some_0.model())
                    } else {
                        MwAnswer::Passed
                    };
                    proof {
                        self.calls@ = self.calls@.push(MwCall { input: in_rec, answer: out_rec });
                    }
                    proof {
                        let delta_after = self.calls@.skip(base.len() as int);
                        assert(delta_after =~= delta_before.push(
                            MwCall { input: in_rec, answer: out_rec },
                        ));
                        assert(delta_after.drop_last() =~= delta_before);
                        assert(delta_after.take(delta_before.len() as int) =~= delta_before);
                        assert(forall|q: int|
                            0 <= q < delta_before.len()
                                ==> #[trigger] delta_after.take(q) =~= delta_before.take(q));
                        assert(self.calls@.take(base.len() as int) =~= base);
                    }
                    match answer {
                        Option::Some(a) => {
                            current = a.payload;
                        },
                        Option::None => {},
                    }
                },
                Result::Err(raised) => {
                    let ghost out_rec = MwAnswer::Raised(raised.model());
                    proof {
                        self.calls@ = self.calls@.push(MwCall { input: in_rec, answer: out_rec });
                    }
                    proof {
                        let delta_after = self.calls@.skip(base.len() as int);
                        assert(delta_after =~= delta_before.push(
                            MwCall { input: in_rec, answer: out_rec },
                        ));
                        assert(delta_after.drop_last() =~= delta_before);
                        assert(delta_after.take(delta_before.len() as int) =~= delta_before);
                        assert(forall|q: int|
                            0 <= q < delta_before.len()
                                ==> #[trigger] delta_after.take(q) =~= delta_before.take(q));
                        assert(self.calls@.take(base.len() as int) =~= base);
                        assert(delta_after.len() <= self.stages@.len());
                    }
                    return Result::Err(StorageError::Middleware(raised));
                },
            }
            i = i + 1;
        }
        Result::Ok(current)
    }
}

} // verus!
