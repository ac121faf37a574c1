use vstd::prelude::*;

verus! {

/// The mathematical shape of a stored value: contracts speak of these,
/// so that two structurally equal values are equal as models even when
/// the executable copies live at different addresses.
#[verifier::ext_equal]
pub ghost enum ValModel {
    Null,
    Undefined,
    Bool(bool),
    Int(int),
    Num(u64),
    Str(Seq<char>),
    Obj(Seq<(Seq<char>, ValModel)>),
}

/// A plain host value, as the container stores it under a string key.
/// `Null` doubles as the sentinel returned for an absent key; `Undefined`
/// mirrors a host callback that produced nothing. A host number that is
/// a whole number in range travels as `Int`; any other number travels as
/// `Num`, the raw IEEE 754 bits of the host's double, so the boundary
/// can round-trip every number exactly without a float in the library.
#[derive(Debug, PartialEq, Eq)]
pub enum Value {
    Null,
    Undefined,
    Bool(bool),
    Int(i64),
    Num(u64),
    Str(String),
    Obj(Vec<(String, Value)>),
}

impl Value {
    /// The model of an object's entry list, in entry order.
    pub open spec fn model_pairs(pairs: Seq<(String, Value)>) -> Seq<(Seq<char>, ValModel)>
        decreases pairs,
    {
        if pairs.len() == 0 {
            Seq::empty()
        } else {
            Self::model_pairs(pairs.drop_last()).push(
                (pairs.last().0@, pairs.last().1.model()),
            )
        }
    }

    /// The mathematical value this executable value stands for.
    pub open spec fn model(self) -> ValModel
        decreases self,
    {
        match self {
            Value::Null => ValModel::Null,
            Value::Undefined => ValModel::Undefined,
            Value::Bool(b) => ValModel::Bool(b),
            Value::Int(i) => ValModel::Int(i as int),
            Value::Num(b) => ValModel::Num(b),
            Value::Str(s) => ValModel::Str(s@),
            Value::Obj(pairs) => ValModel::Obj(Self::model_pairs(pairs@)),
        }
    }

    /// An entry list's model has the same length and holds, entry by
    /// entry, the key's view and the value's model.
    pub proof fn lemma_model_pairs(s: Seq<(String, Value)>)
        ensures
            Self::model_pairs(s).len() == s.len(),
            forall|i: int|
                0 <= i < s.len()
                    ==> #[trigger] Self::model_pairs(s)[i] == (s[i].0@, s[i].1.model()),
        decreases s.len(),
    {
        if s.len() > 0 {
            Self::lemma_model_pairs(s.drop_last());
        }
    }

    /// A deep copy: the copy has the same model as the original.
    #[verifier::loop_isolation(false)]
    pub fn duplicate(&self) -> (r: Value)
        ensures
            r.model() == self.model(),
        decreases *self,
    {
        match self {
            Value::Null => Value::Null,
            Value::Undefined => Value::Undefined,
            Value::Bool(b) => Value::Bool(*b),
            Value::Int(i) => Value::Int(*i),
            Value::Num(b) => Value::Num(*b),
            Value::Str(s) => Value::Str(s.clone()),
            Value::Obj(pairs) => {
                let mut out: Vec<(String, Value)> = Vec::new();
                let mut i: usize = 0;
                while i < pairs.len()
                    invariant
                        i <= pairs.len(),
                        out@.len() == i,
                        Self::model_pairs(out@) == Self::model_pairs(pairs@.take(i as int)),
                    decreases pairs.len() - i,
                {
                    proof {
                        assert(decreases_to!(*self => (*self)->Obj_0));
                        assert((*self)->Obj_0 == *pairs);
                        assert(decreases_to!(*pairs => pairs@));
                        assert(decreases_to!(pairs@ => pairs@[i as int]));
                        assert(decreases_to!(pairs@[i as int] => pairs@[i as int].1));
                        assert(decreases_to!(*self => pairs@[i as int].1));
                    }
                    let copy = pairs[i].1.duplicate();
                    let key = pairs[i].0.clone();
                    let ghost prev = out@;
                    out.push((key, copy));
                    proof {
                        assert(out@.drop_last() =~= prev);
                        assert(pairs@.take(i as int + 1).drop_last() =~= pairs@.take(i as int));
                        assert(pairs@.take(i as int + 1).last() == pairs@[i as int]);
                        assert(Self::model_pairs(out@)
                            == Self::model_pairs(pairs@.take(i as int + 1)));
                    }
                    i = i + 1;
                }
                proof {
                    assert(pairs@.take(pairs@.len() as int) =~= pairs@);
                }
                Value::Obj(out)
            },
        }
    }
}

} // verus!
