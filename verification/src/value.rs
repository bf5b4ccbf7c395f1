//! The decoded tree and the error taxonomy.

use vstd::prelude::*;

use crate::model::JVal;

verus! {

/// One decoded document: a closed tagged union.  A `Value` exclusively owns
/// its children; the grammar cannot produce cycles or shared subtrees.
///
/// `String` content is fully escape-resolved text.  `Number` holds the digit
/// run's value as a signed 64-bit integer (the grammar has no sign, fraction
/// or exponent); a run beyond `i64::MAX` saturates, see [`crate::parser`].
/// `Object` keeps its members in insertion order with unique keys: when a key
/// repeats in the source, the first occurrence's value is retained and later
/// ones are parsed and discarded.
#[derive(Debug, PartialEq)]
pub enum Value {
    Null,
    Bool(bool),
    Number(i64),
    String(String),
    Array(Vec<Value>),
    Object(Vec<(String, Value)>),
}

/// Why a parse stopped.  Every error is terminal: no partial tree is returned.
#[derive(Debug, PartialEq, Eq, Structural)]
pub enum ParseError {
    /// A structural violation not carried by a single byte: a missing `:`
    /// after an object key.
    DefaultErr,
    /// The given byte did not match any token expected at its position.
    UnexpectSymErr(u8),
    /// The source ended while a construct was still open.
    UnexpectedEof,
    /// The accumulated bytes of a string literal are not valid UTF-8 text.
    Utf8Err,
}

impl View for Value {
    type V = JVal;

    /// The mathematical shape of the tree: strings become character
    /// sequences, containers become sequences of shapes.
    open spec fn view(&self) -> JVal
        decreases self,
    {
        match self {
            Value::Null => JVal::Null,
            Value::Bool(b) => JVal::Bool(*b),
            Value::Number(n) => JVal::Number(*n),
            Value::String(s) => JVal::String(s@),
            Value::Array(a) => JVal::Array(arr_view(a@)),
            Value::Object(m) => JVal::Object(obj_view(m@)),
        }
    }
}

/// The shapes of the elements of an array, in order.
pub open spec fn arr_view(a: Seq<Value>) -> Seq<JVal>
    decreases a,
{
    Seq::new(
        a.len(),
        |i: int|
            if 0 <= i < a.len() {
                a[i]@
            } else {
                JVal::Null
            },
    )
}

/// The shapes of the members of an object, in insertion order.
pub open spec fn obj_view(m: Seq<(String, Value)>) -> Seq<(Seq<char>, JVal)>
    decreases m,
{
    Seq::new(
        m.len(),
        |i: int|
            if 0 <= i < m.len() {
                (m[i].0@, m[i].1@)
            } else {
                (Seq::empty(), JVal::Null)
            },
    )
}

pub proof fn lemma_arr_view_empty()
    ensures
        arr_view(Seq::empty()) == Seq::<JVal>::empty(),
{
    assert(arr_view(Seq::empty()) =~= Seq::<JVal>::empty());
}

pub proof fn lemma_arr_view_one(x: Value)
    ensures
        arr_view(seq![x]) == seq![x@],
{
    assert(arr_view(seq![x]) =~= seq![x@]);
}

pub proof fn lemma_arr_view_push(a: Seq<Value>, x: Value)
    ensures
        arr_view(a.push(x)) == arr_view(a).push(x@),
{
    assert(arr_view(a.push(x)) =~= arr_view(a).push(x@));
}

pub proof fn lemma_obj_view_empty()
    ensures
        obj_view(Seq::empty()) == Seq::<(Seq<char>, JVal)>::empty(),
{
    assert(obj_view(Seq::empty()) =~= Seq::<(Seq<char>, JVal)>::empty());
}

pub proof fn lemma_obj_view_push(m: Seq<(String, Value)>, x: (String, Value))
    ensures
        obj_view(m.push(x)) == obj_view(m).push((x.0@, x.1@)),
{
    assert(obj_view(m.push(x)) =~= obj_view(m).push((x.0@, x.1@)));
}

} // verus!
