use vstd::prelude::*;
use vstd::string::StringExecFns;
use crate::errors::StorageError;
use crate::events::{ChangeEvent, ChangeRec};
use crate::listener::{Listener, ListenerRegistry};
use crate::middleware::{mw_chained, mw_run_ok, Middleware, MiddlewareChain, MwCall};
use crate::state_map::{spec_get, StateMap};
use crate::value::{ValModel, Value};

verus! {

/// The reducer's transition table: what one dispatched action, after the
/// middleware has run, does to the state mapping.
pub open spec fn apply_action(
    m: Map<Seq<char>, ValModel>,
    kind: Seq<char>,
    p: ValModel,
) -> Map<Seq<char>, ValModel> {
    if kind == "SET_STATE"@ {
        match p {
            ValModel::Obj(pairs) => set_pairs(m, pairs),
            _ => m,
        }
    } else if kind == "REMOVE_STATE"@ {
        match p {
            ValModel::Str(k) => m.remove(k),
            _ => m,
        }
    } else if kind == "CLEAR_STATE"@ {
        Map::empty()
    } else {
        m.insert("__actions_"@ + kind, p)
    }
}

/// Insert an object's pairs one after the other, first pair first, so a
/// later pair wins over an earlier one with the same key.
pub open spec fn set_pairs(
    m: Map<Seq<char>, ValModel>,
    pairs: Seq<(Seq<char>, ValModel)>,
) -> Map<Seq<char>, ValModel>
    decreases pairs.len(),
{
    if pairs.len() == 0 {
        m
    } else {
        set_pairs(m, pairs.drop_last()).insert(pairs.last().0, pairs.last().1)
    }
}

/// The change events one reduced action emits: one per pair, in pair
/// order, for a set; exactly one, with the null sentinel, for a remove
/// with a string key; none for a clear; exactly one, under the
/// synthesized key, for a custom action, which is stored through the
/// ordinary notifying set path.
pub open spec fn action_events(kind: Seq<char>, p: ValModel, ts: u64) -> Seq<ChangeRec> {
    if kind == "SET_STATE"@ {
        match p {
            ValModel::Obj(pairs) => pairs.map_values(
                |pr: (Seq<char>, ValModel)| ChangeRec { key: pr.0, value: pr.1, timestamp: ts },
            ),
            _ => Seq::empty(),
        }
    } else if kind == "REMOVE_STATE"@ {
        match p {
            ValModel::Str(k) => seq![ChangeRec { key: k, value: ValModel::Null, timestamp: ts }],
            _ => Seq::empty(),
        }
    } else if kind == "CLEAR_STATE"@ {
        Seq::empty()
    } else {
        seq![ChangeRec { key: "__actions_"@ + kind, value: p, timestamp: ts }]
    }
}

/// The reducer's closed set of action kinds: the three recognized kinds,
/// and a catch-all carrying the raw kind of a custom action, so that the
/// transition table is an exhaustive match.
pub enum ActionKind {
    SetState,
    RemoveState,
    ClearState,
    Custom(String),
}

impl ActionKind {
    /// This kind is the one the given raw kind names.
    pub open spec fn models(self, kind: Seq<char>) -> bool {
        match self {
            ActionKind::SetState => kind == "SET_STATE"@,
            ActionKind::RemoveState => {
                &&& kind == "REMOVE_STATE"@
                &&& kind != "SET_STATE"@
            },
            ActionKind::ClearState => {
                &&& kind == "CLEAR_STATE"@
                &&& kind != "SET_STATE"@
                &&& kind != "REMOVE_STATE"@
            },
            ActionKind::Custom(raw) => {
                &&& raw@ == kind
                &&& kind != "SET_STATE"@
                &&& kind != "REMOVE_STATE"@
                &&& kind != "CLEAR_STATE"@
            },
        }
    }

    /// Classify a raw action kind.
    pub fn of(action_type: &str) -> (r: ActionKind)
        ensures
            r.models(action_type@),
    {
        let kind: String = action_type.to_owned();
        if kind == "SET_STATE".to_owned() {
            ActionKind::SetState
        } else if kind == "REMOVE_STATE".to_owned() {
            ActionKind::RemoveState
        } else if kind == "CLEAR_STATE".to_owned() {
            ActionKind::ClearState
        } else {
            ActionKind::Custom(kind)
        }
    }
}

/// The observable state container: the state mapping, the subscribers,
/// and the middleware chain, with the ghost histories of every change
/// event delivered and every middleware invocation made.
pub struct WasmStorage<L, M> {
    state: StateMap,
    listeners: ListenerRegistry<L>,
    middleware: MiddlewareChain<M>,
}

impl<L: Listener, M: Middleware> WasmStorage<L, M> {
    /// Well-formed: the state mapping's own invariant holds.
    pub closed spec fn wf(self) -> bool {
        self.state.wf()
    }

    /// The mapping from key views to value models.
    pub closed spec fn state_map(self) -> Map<Seq<char>, ValModel> {
        self.state.as_map()
    }

    /// Every change event delivered so far, oldest first.
    pub closed spec fn event_log(self) -> Seq<ChangeRec> {
        self.listeners.log()
    }

    /// The subscribers, in registration order.
    pub closed spec fn subscribers(self) -> Seq<L> {
        self.listeners.cbs()
    }

    /// The middleware stages, in registration order.
    pub closed spec fn mw_stages(self) -> Seq<M> {
        self.middleware.stages()
    }

    /// Every middleware invocation made so far, oldest first.
    pub closed spec fn mw_log(self) -> Seq<MwCall> {
        self.middleware.log()
    }

    /// An empty container: no state, no subscribers, no middleware, and
    /// empty histories.
    pub fn new() -> (r: WasmStorage<L, M>)
        ensures
            r.wf(),
            r.state_map() == Map::<Seq<char>, ValModel>::empty(),
            r.event_log() == Seq::<ChangeRec>::empty(),
            r.subscribers() == Seq::<L>::empty(),
            r.mw_stages() == Seq::<M>::empty(),
            r.mw_log() == Seq::<MwCall>::empty(),
    {
        WasmStorage {
            state: StateMap::new(),
            listeners: ListenerRegistry::new(),
            middleware: MiddlewareChain::new(),
        }
    }

    /// Insert or overwrite `key`, then deliver exactly one change event
    /// carrying the new value; always succeeds.
    pub fn set_state(&mut self, key: &str, value: Value, timestamp: u64) -> (r: Result<
        (),
        StorageError,
    >)
        requires
            old(self).wf(),
        ensures
            final(self).wf(),
            final(self).state_map() == old(self).state_map().insert(key@, value.model()),
            final(self).event_log() == old(self).event_log().push(
                (ChangeRec { key: key@, value: value.model(), timestamp }),
            ),
            final(self).subscribers() == old(self).subscribers(),
            final(self).mw_stages() == old(self).mw_stages(),
            final(self).mw_log() == old(self).mw_log(),
            r is Ok,
    {
        let note = ChangeEvent { key: key.to_owned(), value: value.duplicate(), timestamp };
        self.state.set(key, value);
        self.listeners.notify_all(&note);
        Result::Ok(())
    }

    /// The current value under `key`, or the null sentinel if the key is
    /// absent; total, never fails.
    pub fn get_state(&self, key: &str) -> (r: Value)
        requires
            self.wf(),
        ensures
            r.model() == spec_get(self.state_map(), key@),
    {
        self.state.get(key)
    }

    /// A snapshot of every entry: a copy that stands for the same mapping
    /// and repeats no key.
    pub fn get_all_state(&self) -> (r: Vec<(String, Value)>)
        requires
            self.wf(),
        ensures
            StateMap::assoc(r@) == self.state_map(),
            forall|i: int, j: int| 0 <= i < j < r@.len() ==> r@[i].0@ != r@[j].0@,
    {
        self.state.snapshot()
    }

    /// How many subscribers are currently registered: lets a caller test
    /// `subscribe`'s precondition before calling it.
    pub fn subscriber_count(&self) -> (n: usize)
        ensures
            n == self.subscribers().len(),
    {
        self.listeners.count()
    }

    /// Append a subscriber; the handle is its current position, counting
    /// from 0 for the first subscriber.
    pub fn subscribe(&mut self, callback: L) -> (handle: u32)
        requires
            old(self).wf(),
            old(self).subscribers().len() < u32::MAX,
        ensures
            final(self).wf(),
            handle as nat == old(self).subscribers().len(),
            final(self).subscribers() == old(self).subscribers().push(callback),
            final(self).state_map() == old(self).state_map(),
            final(self).event_log() == old(self).event_log(),
            final(self).mw_stages() == old(self).mw_stages(),
            final(self).mw_log() == old(self).mw_log(),
    {
        self.listeners.subscribe(callback)
    }

    /// Remove the subscriber at `index`, shifting later ones down; a
    /// handle that names no current position is silently ignored.
    pub fn unsubscribe(&mut self, index: u32) -> (r: Result<(), StorageError>)
        requires
            old(self).wf(),
        ensures
            final(self).wf(),
            final(self).subscribers() == if (index as nat) < old(self).subscribers().len() {
                old(self).subscribers().remove(index as int)
            } else {
                old(self).subscribers()
            },
            final(self).state_map() == old(self).state_map(),
            final(self).event_log() == old(self).event_log(),
            final(self).mw_stages() == old(self).mw_stages(),
            final(self).mw_log() == old(self).mw_log(),
            r is Ok,
    {
        self.listeners.unsubscribe(index);
        Result::Ok(())
    }

    /// Append a middleware stage; there is no removal.
    pub fn add_middleware(&mut self, middleware_fn: M) -> (r: Result<(), StorageError>)
        requires
            old(self).wf(),
        ensures
            final(self).wf(),
            final(self).mw_stages() == old(self).mw_stages().push(middleware_fn),
            final(self).state_map() == old(self).state_map(),
            final(self).event_log() == old(self).event_log(),
            final(self).subscribers() == old(self).subscribers(),
            final(self).mw_log() == old(self).mw_log(),
            r is Ok,
    {
        self.middleware.add(middleware_fn);
        Result::Ok(())
    }

    /// Delete every entry. Unlike `remove_state` this delivers no change
    /// event at all: the asymmetry is deliberate.
    pub fn clear_state(&mut self) -> (r: Result<(), StorageError>)
        requires
            old(self).wf(),
        ensures
            final(self).wf(),
            final(self).state_map() == Map::<Seq<char>, ValModel>::empty(),
            final(self).event_log() == old(self).event_log(),
            final(self).subscribers() == old(self).subscribers(),
            final(self).mw_stages() == old(self).mw_stages(),
            final(self).mw_log() == old(self).mw_log(),
            r is Ok,
    {
        self.state.clear();
        Result::Ok(())
    }

    /// Delete `key` if present — a no-op on the contents if absent — and
    /// either way deliver exactly one change event carrying the null
    /// sentinel.
    pub fn remove_state(&mut self, key: &str, timestamp: u64) -> (r: Result<(), StorageError>)
        requires
            old(self).wf(),
        ensures
            final(self).wf(),
            final(self).state_map() == old(self).state_map().remove(key@),
            final(self).event_log() == old(self).event_log().push(
                (ChangeRec { key: key@, value: ValModel::Null, timestamp }),
            ),
            final(self).subscribers() == old(self).subscribers(),
            final(self).mw_stages() == old(self).mw_stages(),
            final(self).mw_log() == old(self).mw_log(),
            r is Ok,
    {
        let note = ChangeEvent { key: key.to_owned(), value: Value::Null, timestamp };
        self.state.remove(key);
        self.listeners.notify_all(&note);
        Result::Ok(())
    }

    /// Apply one already-transformed action to the state: the reducer.
    fn handle_action(&mut self, action_type: &str, payload: Value, timestamp: u64)
        requires
            old(self).wf(),
        ensures
            final(self).wf(),
            final(self).state_map() == apply_action(
                old(self).state_map(),
                action_type@,
                payload.model(),
            ),
            final(self).event_log() == old(self).event_log() + action_events(
                action_type@,
                payload.model(),
                timestamp,
            ),
            final(self).subscribers() == old(self).subscribers(),
            final(self).mw_stages() == old(self).mw_stages(),
            final(self).mw_log() == old(self).mw_log(),
    {
        match ActionKind::of(action_type) {
            ActionKind::SetState => match payload {
                Value::Obj(pairs) => {
                    let ghost orig = pairs@;
                    let ghost mp = Value::model_pairs(orig);
                    proof {
                        Value::lemma_model_pairs(orig);
                    }
                    let mut rest = pairs;
                    let total: usize = rest.len();
                    proof {
                        assert(orig.len() == total);
                    }
                    let mut k: usize = 0;
                    while rest.len() > 0
                        invariant
                            old(self).wf(),
                            self.wf(),
                            k + rest@.len() == orig.len(),
                            orig.len() <= usize::MAX,
                            rest@ == orig.skip(k as int),
                            mp == Value::model_pairs(orig),
                            mp.len() == orig.len(),
                            forall|i: int|
                                0 <= i < orig.len()
                                    ==> #[trigger] mp[i] == (orig[i].0@, orig[i].1.model()),
                            self.state_map() == set_pairs(
                                old(self).state_map(),
                                mp.take(k as int),
                            ),
                            self.event_log() == old(self).event_log() + Seq::new(
                                k as nat,
                                |i: int| ChangeRec { key: mp[i].0, value: mp[i].1, timestamp },
                            ),
                            self.subscribers() == old(self).subscribers(),
                            self.mw_stages() == old(self).mw_stages(),
                            self.mw_log() == old(self).mw_log(),
                        decreases rest@.len(),
                    {
                        let pr = rest.remove(0);
                        proof {
                            assert(pr == orig[k as int]);
                            assert(rest@ =~= orig.skip(k as int + 1));
                        }
                        let _ = self.set_state(pr.0.as_str(), pr.1, timestamp);
                        proof {
                            assert(mp.take(k as int + 1).drop_last() =~= mp.take(k as int));
                            assert(mp.take(k as int + 1).last() == mp[k as int]);
                            assert(self.state_map() == set_pairs(
                                old(self).state_map(),
                                mp.take(k as int + 1),
                            ));
                            assert(Seq::new(
                                k as nat + 1,
                                |i: int| ChangeRec { key: mp[i].0, value: mp[i].1, timestamp },
                            ) =~= Seq::new(
                                k as nat,
                                |i: int| ChangeRec { key: mp[i].0, value: mp[i].1, timestamp },
                            ).push((ChangeRec { key: mp[k as int].0, value: mp[k as int].1, timestamp })));
                        }
                        proof {
                            assert(k + 1 <= orig.len());
                        }
                        k = k + 1;
                    }
                    proof {
                        assert(mp.take(k as int) =~= mp);
                        assert(Seq::new(
                            k as nat,
                            |i: int| ChangeRec { key: mp[i].0, value: mp[i].1, timestamp },
                        ) =~= mp.map_values(
                            |pr: (Seq<char>, ValModel)| ChangeRec {
                                key: pr.0,
                                value: pr.1,
                                timestamp,
                            },
                        ));
                    }
                },
                _ => {
                    proof {
                        assert(self.event_log() =~= old(self).event_log() + Seq::<
                            ChangeRec,
                        >::empty());
                    }
                },
            },
            ActionKind::RemoveState => match payload {
                Value::Str(s) => {
                    let _ = self.remove_state(s.as_str(), timestamp);
                    proof {
                        assert(old(self).event_log() + seq![
                            ChangeRec { key: s@, value: ValModel::Null, timestamp },
                        ] =~= old(self).event_log().push(
                            (ChangeRec { key: s@, value: ValModel::Null, timestamp }),
                        ));
                    }
                },
                _ => {
                    proof {
                        assert(self.event_log() =~= old(self).event_log() + Seq::<
                            ChangeRec,
                        >::empty());
                    }
                },
            },
            ActionKind::ClearState => {
                let _ = self.clear_state();
                proof {
                    assert(self.event_log() =~= old(self).event_log() + Seq::<
                        ChangeRec,
                    >::empty());
                }
            },
            ActionKind::Custom(raw) => {
                // A custom action is retained verbatim under a synthesized
                // key, through the ordinary set path, so its one change
                // event is delivered like any other set.
                let key: String = "__actions_".to_owned().concat(raw.as_str());
                let ghost payload_model = payload.model();
                let _ = self.set_state(key.as_str(), payload, timestamp);
                proof {
                    assert(old(self).event_log() + seq![
                        ChangeRec {
                            key: "__actions_"@ + action_type@,
                            value: payload_model,
                            timestamp,
                        },
                    ] =~= old(self).event_log().push(
                        (ChangeRec {
                            key: "__actions_"@ + action_type@,
                            value: payload_model,
                            timestamp,
                        }),
                    ));
                }
            },
        }
    }

    /// Dispatch an action: run it through the middleware chain in
    /// registration order, then apply the transformed action through the
    /// reducer. A middleware that raises aborts the dispatch, leaves the
    /// state and the delivery history untouched, and its raised value
    /// comes back in the error.
    pub fn dispatch(&mut self, action_type: &str, payload: Value, timestamp: u64) -> (r: Result<
        (),
        StorageError,
    >)
        requires
            old(self).wf(),
        ensures
            final(self).wf(),
            final(self).subscribers() == old(self).subscribers(),
            final(self).mw_stages() == old(self).mw_stages(),
            final(self).mw_log().len() >= old(self).mw_log().len(),
            final(self).mw_log().take(old(self).mw_log().len() as int) == old(self).mw_log(),
            mw_run_ok(
                final(self).mw_log().skip(old(self).mw_log().len() as int),
                action_type@,
                payload.model(),
                timestamp,
            ),
            match r {
                Result::Ok(u) => {
                    let delta = final(self).mw_log().skip(old(self).mw_log().len() as int);
                    let processed = mw_chained(payload.model(), delta);
                    &&& delta.len() == old(self).mw_stages().len()
                    &&& forall|q: int|
                        0 <= q < delta.len() ==> !((#[trigger] delta[q]).answer is Raised)
                    &&& final(self).state_map() == apply_action(
                        old(self).state_map(),
                        action_type@,
                        processed,
                    )
                    &&& final(self).event_log() == old(self).event_log() + action_events(
                        action_type@,
                        processed,
                        timestamp,
                    )
                },
                Result::Err(e) => {
                    let delta = final(self).mw_log().skip(old(self).mw_log().len() as int);
                    &&& 0 < delta.len() <= old(self).mw_stages().len()
                    &&& forall|q: int|
                        0 <= q < delta.len() - 1 ==> !((#[trigger] delta[q]).answer is Raised)
                    &&& delta.last().answer is Raised
                    &&& e is Middleware
                    &&& e->Middleware_0.model() == delta.last().answer->Raised_0
                    &&& final(self).state_map() == old(self).state_map()
                    &&& final(self).event_log() == old(self).event_log()
                },
            },
    {
        let processed = match self.middleware.run(action_type, payload, timestamp) {
            Result::Ok(v) => v,
            Result::Err(e) => {
                return Result::Err(e);
            },
        };
        self.handle_action(action_type, processed, timestamp);
        Result::Ok(())
    }
}

} // verus!
