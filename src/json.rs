//! The JSON value tree that is flattened, and the text of its scalars.
use vstd::prelude::*;

verus! {

/// A parsed JSON document.
///
/// A number is held as its natural textual form (`123`, `-4.5e3`); the members
/// of an object are kept in the order in which the parser produced them.
#[derive(Debug)]
pub enum JsonValue {
    Null,
    Bool(bool),
    Number(String),
    String(String),
    Array(Vec<JsonValue>),
    Object(Vec<(String, JsonValue)>),
}

/// A value that is neither an array nor an object.
pub open spec fn is_scalar(v: JsonValue) -> bool {
    !(v is Array || v is Object)
}

pub open spec fn bool_text(b: bool) -> Seq<char> {
    if b {
        seq!['t', 'r', 'u', 'e']
    } else {
        seq!['f', 'a', 'l', 's', 'e']
    }
}

/// The natural textual form of a scalar: a string without quotes, a number
/// as written, `true`, `false` or `null`.
pub open spec fn scalar_text(v: JsonValue) -> Seq<char> {
    match v {
        JsonValue::Null => seq!['n', 'u', 'l', 'l'],
        JsonValue::Bool(b) => bool_text(b),
        JsonValue::Number(n) => n@,
        JsonValue::String(s) => s@,
        _ => Seq::empty(),
    }
}

/// The texts of scalars joined by commas.
pub open spec fn joined_text(vs: Seq<JsonValue>) -> Seq<char>
    decreases vs.len(),
{
    if vs.len() == 0 {
        Seq::empty()
    } else if vs.len() == 1 {
        scalar_text(vs[0])
    } else {
        joined_text(vs.drop_last()) + seq![','] + scalar_text(vs.last())
    }
}

pub fn bool_to_string(b: bool) -> (r: String)
    ensures
        r@ == bool_text(b),
{
    proof {
        reveal_strlit("true");
        reveal_strlit("false");
    }
    if b {
        String::from_str("true")
    } else {
        String::from_str("false")
    }
}

/// The natural textual form of a scalar.
pub fn primitive_to_string(value: &JsonValue) -> (r: String)
    requires
        is_scalar(*value),
    ensures
        r@ == scalar_text(*value),
{
    match value {
        JsonValue::Null => {
            proof {
                reveal_strlit("null");
            }
            String::from_str("null")
        },
        JsonValue::Bool(b) => bool_to_string(*b),
        JsonValue::Number(n) => n.clone(),
        JsonValue::String(s) => s.clone(),
        _ => String::new(),
    }
}

/// Whether every element is a scalar.
pub fn has_only_primitives(values: &Vec<JsonValue>) -> (r: bool)
    ensures
        r == (forall|i: int| 0 <= i < values@.len() ==> is_scalar(#[trigger] values@[i])),
{
    let mut i: usize = 0;
    while i < values.len()
        invariant
            i <= values@.len(),
            forall|j: int| 0 <= j < i ==> is_scalar(#[trigger] values@[j]),
        decreases values@.len() - i,
    {
        match &values[i] {
            JsonValue::Array(_) | JsonValue::Object(_) => {
                return false;
            },
            _ => {},
        }
        i = i + 1;
    }
    true
}

/// The texts of scalar elements joined by commas.
pub fn join_primitives(values: &Vec<JsonValue>) -> (r: String)
    requires
        forall|i: int| 0 <= i < values@.len() ==> is_scalar(#[trigger] values@[i]),
    ensures
        r@ == joined_text(values@),
{
    let mut r = String::new();
    let mut i: usize = 0;
    while i < values.len()
        invariant
            i <= values@.len(),
            forall|j: int| 0 <= j < values@.len() ==> is_scalar(#[trigger] values@[j]),
            r@ == joined_text(values@.take(i as int)),
        decreases values@.len() - i,
    {
        if i > 0 {
            r.push(',');
        }
        let t = primitive_to_string(&values[i]);
        r.append(t.as_str());
        proof {
            assert(values@.take(i + 1).drop_last() =~= values@.take(i as int));
            assert(values@.take(i + 1).last() == values@[i as int]);
            if i == 0 {
                assert(values@.take(0) =~= Seq::<JsonValue>::empty());
                assert(r@ =~= scalar_text(values@[0]));
            }
        }
        i = i + 1;
    }
    assert(values@.take(values@.len() as int) =~= values@);
    r
}

} // verus!
