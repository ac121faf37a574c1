use vstd::prelude::*;
use crate::middleware::{mw_chained, mw_step, MwCall};
use crate::state_map::spec_get;
use crate::store::{action_events, apply_action, set_pairs};
use crate::value::ValModel;

verus! {

/// Setting a key and then reading it yields exactly the value that was
/// set, whatever the mapping held before.
pub proof fn lemma_set_then_get(m: Map<Seq<char>, ValModel>, k: Seq<char>, v: ValModel)
    ensures
        spec_get(m.insert(k, v), k) == v,
{
}

/// Reading an absent key yields the null sentinel.
pub proof fn lemma_get_absent(m: Map<Seq<char>, ValModel>, k: Seq<char>)
    requires
        !m.dom().contains(k),
    ensures
        spec_get(m, k) == ValModel::Null,
{
}

/// Removing an absent key leaves the mapping's contents untouched; that
/// one change event is still delivered is stated by `remove_state`
/// itself, whose delivery history grows by exactly one record either way.
pub proof fn lemma_remove_absent(m: Map<Seq<char>, ValModel>, k: Seq<char>)
    requires
        !m.dom().contains(k),
    ensures
        m.remove(k) == m,
{
    assert(m.remove(k) =~= m);
}

/// After a clear the mapping is empty, so a read of any previously-set
/// key yields the null sentinel.
pub proof fn lemma_clear_then_get(k: Seq<char>)
    ensures
        spec_get(Map::<Seq<char>, ValModel>::empty(), k) == ValModel::Null,
{
}

/// A key that occurs in none of an object's pairs reads the same before
/// and after the whole object is set.
pub proof fn lemma_set_pairs_frame(
    m: Map<Seq<char>, ValModel>,
    pairs: Seq<(Seq<char>, ValModel)>,
    k: Seq<char>,
)
    requires
        forall|i: int| 0 <= i < pairs.len() ==> (#[trigger] pairs[i]).0 != k,
    ensures
        spec_get(set_pairs(m, pairs), k) == spec_get(m, k),
    decreases pairs.len(),
{
    if pairs.len() > 0 {
        lemma_set_pairs_frame(m, pairs.drop_last(), k);
    }
}

/// After an object is set, a key reads the value of its last pair with
/// that key: a later pair wins over an earlier one.
pub proof fn lemma_set_pairs_get(
    m: Map<Seq<char>, ValModel>,
    pairs: Seq<(Seq<char>, ValModel)>,
    i: int,
)
    requires
        0 <= i < pairs.len(),
        forall|j: int| i < j < pairs.len() ==> (#[trigger] pairs[j]).0 != pairs[i].0,
    ensures
        spec_get(set_pairs(m, pairs), pairs[i].0) == pairs[i].1,
    decreases pairs.len(),
{
    if i < pairs.len() - 1 {
        assert(pairs.drop_last()[i] == pairs[i]);
        lemma_set_pairs_get(m, pairs.drop_last(), i);
    }
}

/// Removing one key affects that key alone: it reads as the null
/// sentinel afterwards, and every other key reads as before.
pub proof fn lemma_remove_only(m: Map<Seq<char>, ValModel>, k: Seq<char>, other: Seq<char>)
    requires
        other != k,
    ensures
        spec_get(m.remove(k), k) == ValModel::Null,
        spec_get(m.remove(k), other) == spec_get(m, other),
{
}

/// A clear action empties the state whatever its payload is.
pub proof fn lemma_clear_any_payload(m: Map<Seq<char>, ValModel>, p: ValModel)
    ensures
        apply_action(m, "CLEAR_STATE"@, p) == Map::<Seq<char>, ValModel>::empty(),
        action_events("CLEAR_STATE"@, p, 0) == Seq::<crate::events::ChangeRec>::empty(),
{
    reveal_strlit("CLEAR_STATE");
    reveal_strlit("SET_STATE");
    reveal_strlit("REMOVE_STATE");
    assert("CLEAR_STATE"@.len() == 11);
    assert("SET_STATE"@.len() == 9);
    assert("REMOVE_STATE"@.len() == 12);
}

/// An action of an unrecognized kind is retained verbatim under the
/// synthesized key made of the prefix and the kind; no other key
/// changes, and exactly one change event for that key is emitted, since
/// the storing goes through the ordinary set path.
pub proof fn lemma_custom_action(
    m: Map<Seq<char>, ValModel>,
    kind: Seq<char>,
    p: ValModel,
    ts: u64,
)
    requires
        kind != "SET_STATE"@,
        kind != "REMOVE_STATE"@,
        kind != "CLEAR_STATE"@,
    ensures
        apply_action(m, kind, p) == m.insert("__actions_"@ + kind, p),
        spec_get(apply_action(m, kind, p), "__actions_"@ + kind) == p,
        forall|k: Seq<char>|
            k != "__actions_"@ + kind ==> spec_get(apply_action(m, kind, p), k) == spec_get(m, k),
        action_events(kind, p, ts) == seq![
            crate::events::ChangeRec { key: "__actions_"@ + kind, value: p, timestamp: ts },
        ],
{
}

/// With exactly two recorded middleware invocations, the folded payload
/// is the second stage's answer applied after the first stage's answer:
/// the stages ran in registration order, each feeding the next.
pub proof fn lemma_chain_two(p0: ValModel, calls: Seq<MwCall>)
    requires
        calls.len() == 2,
    ensures
        mw_chained(p0, calls) == mw_step(mw_step(p0, calls[0].answer), calls[1].answer),
{
    assert(calls.drop_last().drop_last() =~= Seq::<MwCall>::empty());
    assert(calls.drop_last().last() == calls[0]);
    assert(mw_chained(p0, calls.drop_last().drop_last()) == p0);
    assert(mw_chained(p0, calls.drop_last()) == mw_step(p0, calls[0].answer));
}

/// Two sets on distinct keys never lose an update: whichever order the
/// two run in, the resulting mapping is the same and both values are
/// visible afterwards.
pub proof fn lemma_disjoint_sets(
    m: Map<Seq<char>, ValModel>,
    k1: Seq<char>,
    v1: ValModel,
    k2: Seq<char>,
    v2: ValModel,
)
    requires
        k1 != k2,
    ensures
        spec_get(m.insert(k1, v1).insert(k2, v2), k1) == v1,
        spec_get(m.insert(k1, v1).insert(k2, v2), k2) == v2,
        m.insert(k1, v1).insert(k2, v2) == m.insert(k2, v2).insert(k1, v1),
{
    assert(m.insert(k1, v1).insert(k2, v2) =~= m.insert(k2, v2).insert(k1, v1));
}

} // verus!
