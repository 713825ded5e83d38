//! The tree serializer: the same calls as the streaming serializer, each
//! answered with a node of the dynamic tree in place of bytes.

use crate::array::{is_native_array, rejection, ArraySerializer, CallKind};
use crate::error::{Error, ErrorModel};
use crate::tag::Tag;
use crate::value::{
    element_tag, fields_model, items_model, lemma_items_model, tag_of, Value, ValueModel,
};
use crate::wire::mixed_list;
use vstd::prelude::*;

verus! {

/// True where every value of the run has the tag of the first.
pub open spec fn shares_one_tag(items: Seq<ValueModel>) -> bool {
    forall|i: int| 0 <= i < items.len() ==> tag_of(#[trigger] items[i]) == element_tag(items)
}

/// A boolean becomes a byte: 1 for true, 0 for false.
pub fn serialize_bool(v: bool) -> (r: Value)
    ensures
        r@ == ValueModel::Byte(if v { 1i8 } else { 0i8 }),
{
    if v {
        Value::Byte(1)
    } else {
        Value::Byte(0)
    }
}

/// An 8-bit integer becomes a byte.
pub fn serialize_i8(v: i8) -> (r: Value)
    ensures
        r@ == ValueModel::Byte(v),
{
    Value::Byte(v)
}

/// A 16-bit integer becomes a short.
pub fn serialize_i16(v: i16) -> (r: Value)
    ensures
        r@ == ValueModel::Short(v),
{
    Value::Short(v)
}

/// A 32-bit integer becomes an int.
pub fn serialize_i32(v: i32) -> (r: Value)
    ensures
        r@ == ValueModel::Int(v),
{
    Value::Int(v)
}

/// A 64-bit integer becomes a long.
pub fn serialize_i64(v: i64) -> (r: Value)
    ensures
        r@ == ValueModel::Long(v),
{
    Value::Long(v)
}

/// A single, given by its bits, becomes a float.
pub fn serialize_float_bits(bits: u32) -> (r: Value)
    ensures
        r@ == ValueModel::Float(bits),
{
    Value::Float(bits)
}

/// A double, given by its bits, becomes a double.
pub fn serialize_double_bits(bits: u64) -> (r: Value)
    ensures
        r@ == ValueModel::Double(bits),
{
    Value::Double(bits)
}

/// A text becomes a string.
pub fn serialize_str(v: &str) -> (r: Value)
    ensures
        r@ == ValueModel::String(v@),
{
    Value::String(v.to_owned())
}

/// A sequence becomes a list of its elements, in order. Elements of
/// different tags are rejected with a custom error.
pub fn serialize_seq(items: Vec<Value>) -> (r: Result<Value, Error>)
    ensures
        shares_one_tag(items_model(items@)) ==> r is Ok && r->Ok_0@ == ValueModel::List(
            items_model(items@),
        ),
        !shares_one_tag(items_model(items@)) ==> r is Err && r->Err_0@ == ErrorModel::Custom(
            mixed_list(),
        ),
{
    let ghost model = items_model(items@);
    proof {
        lemma_items_model(items@);
    }
    let n = items.len();
    if n > 0 {
        let first = items[0].tag();
        let mut i: usize = 1;
        while i < n
            invariant
                1 <= i <= n,
                n == items@.len(),
                model == items_model(items@),
                model.len() == n,
                first == element_tag(model),
                forall|j: int| 0 <= j < n ==> #[trigger] model[j] == items@[j]@,
                forall|j: int| 0 <= j < i ==> tag_of(#[trigger] model[j]) == first,
            decreases n - i,
        {
            if items[i].tag() != first {
                assert(tag_of(model[i as int]) != element_tag(model));
                return Err(Error::bespoke("list elements differ in type".to_owned()));
            }
            i += 1;
        }
    }
    Ok(Value::List(items))
}

/// A map becomes a compound of its entries, in order.
pub fn serialize_map(fields: Vec<(String, Value)>) -> (r: Value)
    ensures
        r@ == ValueModel::Compound(fields_model(fields@)),
{
    Value::Compound(fields)
}

/// A call made where the array kind `tag` is declared: a byte buffer becomes
/// the array, read in the machine's own representation; a sequence or a
/// tuple, and every other shape, is rejected with its own error. For a tag
/// that is no array kind there is no such position, and `None` is returned.
pub fn serialize_array(tag: Tag, kind: CallKind, payload: &[u8]) -> (r: Option<
    Result<Value, Error>,
>)
    ensures
        !tag.is_array_kind() ==> r is None,
        tag.is_array_kind() ==> r is Some && match rejection(kind) {
            Some(e) => r->Some_0 is Err && r->Some_0->Err_0@ == e,
            None => r->Some_0 is Ok && is_native_array(tag, payload@, r->Some_0->Ok_0@),
        },
{
    match ArraySerializer::new(tag) {
        Some(adapter) => Some(adapter.serialize(kind, payload)),
        None => None,
    }
}

/// Closes the tree: the root must be a compound, and any other value is
/// rejected with `NoRootCompound`.
pub fn finish(root: Value) -> (r: Result<Value, Error>)
    ensures
        root@ is Compound ==> r == Ok::<Value, Error>(root),
        !(root@ is Compound) ==> r is Err && r->Err_0@ == ErrorModel::NoRootCompound,
{
    match root {
        Value::Compound(fields) => Ok(Value::Compound(fields)),
        _ => Err(Error::no_root_compound()),
    }
}

} // verus!
