//! The data model of the query language: JSON values, selectors, and the
//! spec-level model that contracts are stated over.

use vstd::prelude::*;

verus! {

/// An in-memory JSON document: a tree of nulls, booleans, numbers, strings,
/// arrays and insertion-ordered objects.
#[derive(Debug, PartialEq, Eq)]
pub enum Value {
    Null,
    Bool(bool),
    Num(i64),
    Text(String),
    Array(Vec<Value>),
    Object(Vec<(String, Value)>),
}

/// The mathematical model of a [`Value`]: the same tree with `Seq` in place
/// of `Vec` and `Seq<char>` in place of `String`.
#[verifier::ext_equal]
pub enum ValueModel {
    Null,
    Bool(bool),
    Num(i64),
    Text(Seq<char>),
    Arr(Seq<ValueModel>),
    Obj(Seq<(Seq<char>, ValueModel)>),
}

/// The model of a JSON value.
pub open spec fn value_model(v: Value) -> ValueModel
    decreases v,
{
    match v {
        Value::Null => ValueModel::Null,
        Value::Bool(b) => ValueModel::Bool(b),
        Value::Num(n) => ValueModel::Num(n),
        Value::Text(s) => ValueModel::Text(s@),
        Value::Array(items) => ValueModel::Arr(elements_model(items@)),
        Value::Object(props) => ValueModel::Obj(properties_model(props@)),
    }
}

/// The models of the elements of an array, in order.
pub open spec fn elements_model(s: Seq<Value>) -> Seq<ValueModel>
    decreases s,
{
    if s.len() == 0 {
        Seq::empty()
    } else {
        seq![value_model(s[0])] + elements_model(s.drop_first())
    }
}

/// The models of the properties of an object, in insertion order.
pub open spec fn properties_model(s: Seq<(String, Value)>) -> Seq<(Seq<char>, ValueModel)>
    decreases s,
{
    if s.len() == 0 {
        Seq::empty()
    } else {
        seq![(s[0].0@, value_model(s[0].1))] + properties_model(s.drop_first())
    }
}

/// An array's model is pointwise the model of its elements.
pub proof fn lemma_elements_model(s: Seq<Value>)
    ensures
        elements_model(s).len() == s.len(),
        forall|i: int| 0 <= i < s.len() ==> elements_model(s)[i] == value_model(s[i]),
    decreases s.len(),
{
    if s.len() > 0 {
        lemma_elements_model(s.drop_first());
    }
}

/// An object's model is pointwise the model of its properties.
pub proof fn lemma_properties_model(s: Seq<(String, Value)>)
    ensures
        properties_model(s).len() == s.len(),
        forall|i: int|
            0 <= i < s.len() ==> properties_model(s)[i] == (s[i].0@, value_model(s[i].1)),
    decreases s.len(),
{
    if s.len() > 0 {
        lemma_properties_model(s.drop_first());
    }
}

impl View for Value {
    type V = ValueModel;

    open spec fn view(&self) -> ValueModel {
        value_model(*self)
    }
}

/// The model of a sequence of values.
pub open spec fn values_model(vs: Seq<Value>) -> Seq<ValueModel> {
    Seq::new(vs.len(), |i: int| vs[i]@)
}

/// One step of a query.
#[derive(Debug, PartialEq, Eq)]
pub enum Selector {
    /// Select one named property of an object.
    Key(String),
    /// Synthesize a new object from a list of inner instructions.
    ObjectProjection(Vec<InnerInstruction>),
    /// Select one or more array positions; a single position yields the
    /// element itself, several yield an array in request order.
    IndexSet(Vec<usize>),
    /// Select a contiguous, possibly reversed, span of array positions;
    /// missing bounds default to the first and last position.
    Range(Option<usize>, Option<usize>),
    /// The whole array, first to last.
    WholeArray,
}

/// One instruction of an object projection.
#[derive(Debug, PartialEq, Eq)]
pub enum InnerInstruction {
    /// Copy one named property of the current object.
    Key(String),
    /// Index into the current object's properties by insertion order,
    /// keying each picked value by the string form of its position.
    IndexSet(Vec<usize>),
    /// A contiguous, possibly reversed, span of property positions.
    Range(Option<usize>, Option<usize>),
    /// Return the current value unchanged: a guard for an otherwise empty
    /// instruction list.
    PassThroughArray,
}

/// The result of one step: a value, or an error message.
pub type Selection = Result<Value, String>;

/// The result of a whole query: the per-step values, or the first error.
pub type Selections = Result<Vec<Value>, String>;

/// A deep copy of a JSON value.
pub fn clone_value(v: &Value) -> (r: Value)
    ensures
        r@ == v@,
    decreases v,
{
    match v {
        Value::Null => Value::Null,
        Value::Bool(b) => Value::Bool(*b),
        Value::Num(n) => Value::Num(*n),
        Value::Text(s) => Value::Text(s.clone()),
        Value::Array(items) => {
            let mut out: Vec<Value> = Vec::new();
            let mut i: usize = 0;
            while i < items.len()
                invariant
                    *v == Value::Array(*items),
                    i <= items.len(),
                    out@.len() == i,
                    forall|j: int| 0 <= j < i ==> out@[j]@ == items@[j]@,
                decreases items.len() - i,
            {
                proof {
                    assert(decreases_to!(*v => v->Array_0));
                    assert(v->Array_0 == *items);
                    assert(decreases_to!(*items => items@));
                    assert(decreases_to!(items@ => items@[i as int]));
                }
                out.push(clone_value(&items[i]));
                i += 1;
            }
            proof {
                lemma_elements_model(out@);
                lemma_elements_model(items@);
                assert(elements_model(out@) =~= elements_model(items@));
            }
            Value::Array(out)
        },
        Value::Object(props) => {
            let mut out: Vec<(String, Value)> = Vec::new();
            let mut i: usize = 0;
            while i < props.len()
                invariant
                    *v == Value::Object(*props),
                    i <= props.len(),
                    out@.len() == i,
                    forall|j: int| 0 <= j < i ==> out@[j].0@ == props@[j].0@ && out@[j].1@
                        == props@[j].1@,
                decreases props.len() - i,
            {
                proof {
                    assert(decreases_to!(*v => v->Object_0));
                    assert(v->Object_0 == *props);
                    assert(decreases_to!(*props => props@));
                    assert(decreases_to!(props@ => props@[i as int]));
                    assert(decreases_to!(props@[i as int] => props@[i as int].1));
                }
                let (k, val) = &props[i];
                out.push((k.clone(), clone_value(val)));
                i += 1;
            }
            proof {
                lemma_properties_model(out@);
                lemma_properties_model(props@);
                assert(properties_model(out@) =~= properties_model(props@));
            }
            Value::Object(out)
        },
    }
}

} // verus!
