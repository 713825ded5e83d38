//! The dynamic tree: a value of any wire type, owning its children.

use crate::tag::Tag;
use vstd::prelude::*;

verus! {

/// A value of any wire type. Floats are held by their IEEE-754 bits, so that
/// every bit pattern, NaNs included, is kept as it is.
#[derive(Debug, PartialEq, Eq)]
pub enum Value {
    /// One signed byte.
    Byte(i8),
    /// A signed 16-bit integer.
    Short(i16),
    /// A signed 32-bit integer.
    Int(i32),
    /// A signed 64-bit integer.
    Long(i64),
    /// The bits of an IEEE-754 single.
    Float(u32),
    /// The bits of an IEEE-754 double.
    Double(u64),
    /// A run of signed bytes.
    ByteArray(Vec<i8>),
    /// A text.
    String(String),
    /// Unnamed values, in order. Only a list whose values share one tag has
    /// a wire image.
    List(Vec<Value>),
    /// Named fields, in order. Names may repeat.
    Compound(Vec<(String, Value)>),
    /// A run of signed 32-bit integers.
    IntArray(Vec<i32>),
    /// A run of signed 64-bit integers.
    LongArray(Vec<i64>),
}

/// Mathematical model of a `Value`: the same tree over sequences.
pub ghost enum ValueModel {
    Byte(i8),
    Short(i16),
    Int(i32),
    Long(i64),
    Float(u32),
    Double(u64),
    ByteArray(Seq<i8>),
    String(Seq<char>),
    List(Seq<ValueModel>),
    Compound(Seq<(Seq<char>, ValueModel)>),
    IntArray(Seq<i32>),
    LongArray(Seq<i64>),
}

impl View for Value {
    type V = ValueModel;

    open spec fn view(&self) -> ValueModel {
        model_of(*self)
    }
}

/// The model of a value: the same tree, with each container's children
/// modelled in turn.
pub open spec fn model_of(v: Value) -> ValueModel
    decreases v,
{
    match v {
        Value::Byte(x) => ValueModel::Byte(x),
        Value::Short(x) => ValueModel::Short(x),
        Value::Int(x) => ValueModel::Int(x),
        Value::Long(x) => ValueModel::Long(x),
        Value::Float(x) => ValueModel::Float(x),
        Value::Double(x) => ValueModel::Double(x),
        Value::ByteArray(a) => ValueModel::ByteArray(a@),
        Value::String(s) => ValueModel::String(s@),
        Value::List(items) => ValueModel::List(items_model(items@)),
        Value::Compound(fields) => ValueModel::Compound(fields_model(fields@)),
        Value::IntArray(a) => ValueModel::IntArray(a@),
        Value::LongArray(a) => ValueModel::LongArray(a@),
    }
}

/// The models of a run of values, in order.
pub open spec fn items_model(items: Seq<Value>) -> Seq<ValueModel>
    decreases items,
{
    if items.len() == 0 {
        Seq::empty()
    } else {
        items_model(items.drop_last()).push(model_of(items.last()))
    }
}

/// The models of a run of named fields, in order.
pub open spec fn fields_model(fields: Seq<(String, Value)>) -> Seq<(Seq<char>, ValueModel)>
    decreases fields,
{
    if fields.len() == 0 {
        Seq::empty()
    } else {
        fields_model(fields.drop_last()).push((fields.last().0@, model_of(fields.last().1)))
    }
}

/// The model of a run has one entry for each value, the model of that value.
pub proof fn lemma_items_model(items: Seq<Value>)
    ensures
        items_model(items).len() == items.len(),
        forall|i: int| 0 <= i < items.len() ==> #[trigger] items_model(items)[i] == items[i]@,
    decreases items.len(),
{
    if items.len() > 0 {
        lemma_items_model(items.drop_last());
    }
}

/// The model of a run of fields has one entry for each field: its name and
/// the model of its value.
pub proof fn lemma_fields_model(fields: Seq<(String, Value)>)
    ensures
        fields_model(fields).len() == fields.len(),
        forall|i: int|
            0 <= i < fields.len() ==> #[trigger] fields_model(fields)[i] == (
                fields[i].0@,
                fields[i].1@,
            ),
    decreases fields.len(),
{
    if fields.len() > 0 {
        lemma_fields_model(fields.drop_last());
    }
}

/// The tag under which a value is written.
pub open spec fn tag_of(m: ValueModel) -> Tag {
    match m {
        ValueModel::Byte(_) => Tag::Byte,
        ValueModel::Short(_) => Tag::Short,
        ValueModel::Int(_) => Tag::Int,
        ValueModel::Long(_) => Tag::Long,
        ValueModel::Float(_) => Tag::Float,
        ValueModel::Double(_) => Tag::Double,
        ValueModel::ByteArray(_) => Tag::ByteArray,
        ValueModel::String(_) => Tag::String,
        ValueModel::List(_) => Tag::List,
        ValueModel::Compound(_) => Tag::Compound,
        ValueModel::IntArray(_) => Tag::IntArray,
        ValueModel::LongArray(_) => Tag::LongArray,
    }
}

/// The element tag that a list is written with: that of its first item, or
/// `End` for an empty list.
pub open spec fn element_tag(items: Seq<ValueModel>) -> Tag {
    if items.len() == 0 {
        Tag::End
    } else {
        tag_of(items[0])
    }
}

impl Value {
    /// The byte array of the given elements.
    pub fn byte_array(elements: Vec<i8>) -> (r: Value)
        ensures
            r@ == ValueModel::ByteArray(elements@),
    {
        Value::ByteArray(elements)
    }

    /// The int array of the given elements.
    pub fn int_array(elements: Vec<i32>) -> (r: Value)
        ensures
            r@ == ValueModel::IntArray(elements@),
    {
        Value::IntArray(elements)
    }

    /// The long array of the given elements.
    pub fn long_array(elements: Vec<i64>) -> (r: Value)
        ensures
            r@ == ValueModel::LongArray(elements@),
    {
        Value::LongArray(elements)
    }

    /// The tag under which this value is written.
    pub fn tag(&self) -> (t: Tag)
        ensures
            t == tag_of(self@),
            t != Tag::End,
    {
        match self {
            Value::Byte(_) => Tag::Byte,
            Value::Short(_) => Tag::Short,
            Value::Int(_) => Tag::Int,
            Value::Long(_) => Tag::Long,
            Value::Float(_) => Tag::Float,
            Value::Double(_) => Tag::Double,
            Value::ByteArray(_) => Tag::ByteArray,
            Value::String(_) => Tag::String,
            Value::List(_) => Tag::List,
            Value::Compound(_) => Tag::Compound,
            Value::IntArray(_) => Tag::IntArray,
            Value::LongArray(_) => Tag::LongArray,
        }
    }
}

impl Clone for Value {
    /// A deep copy: the same tree.
    fn clone(&self) -> (r: Value)
        ensures
            r@ == self@,
        decreases self,
    {
        match self {
            Value::Byte(x) => Value::Byte(*x),
            Value::Short(x) => Value::Short(*x),
            Value::Int(x) => Value::Int(*x),
            Value::Long(x) => Value::Long(*x),
            Value::Float(x) => Value::Float(*x),
            Value::Double(x) => Value::Double(*x),
            Value::ByteArray(a) => {
                let mut out: Vec<i8> = Vec::new();
                let mut i: usize = 0;
                while i < a.len()
                    invariant
                        i <= a@.len(),
                        out@ == a@.subrange(0, i as int),
                    decreases a@.len() - i,
                {
                    out.push(a[i]);
                    i += 1;
                }
                assert(out@ =~= a@);
                Value::ByteArray(out)
            },
            Value::String(s) => Value::String(s.clone()),
            Value::List(items) => {
                let mut out: Vec<Value> = Vec::new();
                let mut i: usize = 0;
                proof {
                    assert forall|j: int| 0 <= j < items@.len() implies decreases_to!(self => #[trigger] items@[j]) by {
                        vstd::std_specs::vec::axiom_vec_index_decreases(*items, j);
                    }
                }
                while i < items.len()
                    invariant
                        i <= items@.len(),
                        forall|j: int| 0 <= j < items@.len() ==> decreases_to!(self => #[trigger] items@[j]),
                        items_model(out@) == items_model(items@.subrange(0, i as int)),
                    decreases items@.len() - i,
                {
                    let ghost before = out@;
                    assert(decreases_to!(self => items@[i as int]));
                    let item = items[i].clone();
                    out.push(item);
                    proof {
                        assert(out@.drop_last() =~= before);
                        assert(items@.subrange(0, i + 1).drop_last() =~= items@.subrange(
                            0,
                            i as int,
                        ));
                    }
                    i += 1;
                }
                assert(items@.subrange(0, i as int) =~= items@);
                Value::List(out)
            },
            Value::Compound(fields) => {
                let mut out: Vec<(String, Value)> = Vec::new();
                let mut i: usize = 0;
                proof {
                    assert forall|j: int| 0 <= j < fields@.len() implies decreases_to!(self => #[trigger] fields@[j]) by {
                        vstd::std_specs::vec::axiom_vec_index_decreases(*fields, j);
                    }
                }
                while i < fields.len()
                    invariant
                        i <= fields@.len(),
                        forall|j: int| 0 <= j < fields@.len() ==> decreases_to!(self => #[trigger] fields@[j]),
                        fields_model(out@) == fields_model(fields@.subrange(0, i as int)),
                    decreases fields@.len() - i,
                {
                    let ghost before = out@;
                    assert(decreases_to!(self => fields@[i as int]));
                    assert(decreases_to!(self => fields@[i as int].1));
                    let name = fields[i].0.clone();
                    let value = fields[i].1.clone();
                    out.push((name, value));
                    proof {
                        assert(out@.drop_last() =~= before);
                        assert(fields@.subrange(0, i + 1).drop_last() =~= fields@.subrange(
                            0,
                            i as int,
                        ));
                    }
                    i += 1;
                }
                assert(fields@.subrange(0, i as int) =~= fields@);
                Value::Compound(out)
            },
            Value::IntArray(a) => {
                let mut out: Vec<i32> = Vec::new();
                let mut i: usize = 0;
                while i < a.len()
                    invariant
                        i <= a@.len(),
                        out@ == a@.subrange(0, i as int),
                    decreases a@.len() - i,
                {
                    out.push(a[i]);
                    i += 1;
                }
                assert(out@ =~= a@);
                Value::IntArray(out)
            },
            Value::LongArray(a) => {
                let mut out: Vec<i64> = Vec::new();
                let mut i: usize = 0;
                while i < a.len()
                    invariant
                        i <= a@.len(),
                        out@ == a@.subrange(0, i as int),
                    decreases a@.len() - i,
                {
                    out.push(a[i]);
                    i += 1;
                }
                assert(out@ =~= a@);
                Value::LongArray(out)
            },
        }
    }
}

} // verus!
