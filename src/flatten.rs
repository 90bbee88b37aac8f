//! What flattening a JSON tree yields: the raw (namespace, value) pairs in walk
//! order, and the key-to-value mapping that committing them produces.
use vstd::prelude::*;
use crate::config::ListHandling;
use crate::json::{JsonValue, is_scalar, bool_text, joined_text};
use crate::prop_key::escape_key;
use crate::text::{normalised, decimal};

verus! {

/// A raw namespace and the final value text of one leaf.
pub type RawEntry = (Seq<char>, Seq<char>);

/// The namespace of an object member: the member name at the top level, and
/// `namespace.name` below it.
pub open spec fn member_namespace(prefix: Option<Seq<char>>, name: Seq<char>) -> Seq<char> {
    match prefix {
        Some(ns) => ns + seq!['.'] + name,
        None => name,
    }
}

/// The namespace of the element at `index` of an array at `ns`.
pub open spec fn element_namespace(ns: Seq<char>, index: nat) -> Seq<char> {
    ns + seq!['.'] + decimal(index)
}

pub open spec fn all_scalar(vs: Seq<JsonValue>) -> bool {
    forall|i: int| 0 <= i < vs.len() ==> is_scalar(#[trigger] vs[i])
}

/// The value text of a scalar leaf: empty for `null`, `true` or `false`, a
/// number as written, a string with its leading whitespace normalised.
pub open spec fn leaf_text(v: JsonValue, discard_wsp: bool) -> Seq<char> {
    match v {
        JsonValue::String(s) => normalised(s@, discard_wsp),
        JsonValue::Bool(b) => bool_text(b),
        JsonValue::Number(n) => n@,
        _ => Seq::empty(),
    }
}

/// The pairs that a value at namespace `ns` yields.
pub open spec fn flatten_value(
    ns: Seq<char>,
    v: JsonValue,
    lh: ListHandling,
    discard_wsp: bool,
) -> Seq<RawEntry>
    decreases v,
{
    match v {
        JsonValue::Object(ms) => flatten_members(Some(ns), ms@, lh, discard_wsp),
        JsonValue::Array(vs) => match lh {
            ListHandling::SingleProp => if all_scalar(vs@) {
                seq![(ns, normalised(joined_text(vs@), discard_wsp))]
            } else {
                Seq::empty()
            },
            ListHandling::MultiProp => flatten_elements(ns, vs@, lh, discard_wsp),
        },
        _ => seq![(ns, leaf_text(v, discard_wsp))],
    }
}

/// The pairs that the members of an object yield, in member order.
pub open spec fn flatten_members(
    prefix: Option<Seq<char>>,
    ms: Seq<(String, JsonValue)>,
    lh: ListHandling,
    discard_wsp: bool,
) -> Seq<RawEntry>
    decreases ms,
{
    if ms.len() == 0 {
        Seq::empty()
    } else {
        flatten_members(prefix, ms.drop_last(), lh, discard_wsp) + flatten_value(
            member_namespace(prefix, ms.last().0@),
            ms.last().1,
            lh,
            discard_wsp,
        )
    }
}

/// The pairs that the elements of an array at `ns` yield when each element
/// gets its own namespace.
pub open spec fn flatten_elements(
    ns: Seq<char>,
    vs: Seq<JsonValue>,
    lh: ListHandling,
    discard_wsp: bool,
) -> Seq<RawEntry>
    decreases vs,
{
    if vs.len() == 0 {
        Seq::empty()
    } else {
        flatten_elements(ns, vs.drop_last(), lh, discard_wsp) + flatten_value(
            element_namespace(ns, (vs.len() - 1) as nat),
            vs.last(),
            lh,
            discard_wsp,
        )
    }
}

/// The pairs of a whole document: those of its members for an object, none
/// for `null` (any other document is refused before flattening).
pub open spec fn flatten_document(v: JsonValue, lh: ListHandling, discard_wsp: bool) -> Seq<
    RawEntry,
> {
    match v {
        JsonValue::Object(ms) => flatten_members(None, ms@, lh, discard_wsp),
        _ => Seq::empty(),
    }
}

/// Commits pairs in order into a mapping from key text to value: each
/// namespace is escaped, and a later pair overwrites an earlier one with the
/// same key.
pub open spec fn insert_all(m: Map<Seq<char>, Seq<char>>, pairs: Seq<RawEntry>) -> Map<
    Seq<char>,
    Seq<char>,
>
    decreases pairs.len(),
{
    if pairs.len() == 0 {
        m
    } else {
        insert_all(m, pairs.drop_last()).insert(escape_key(pairs.last().0), pairs.last().1)
    }
}

/// The mapping that a sequence of pairs produces in an empty store.
pub open spec fn store_of(pairs: Seq<RawEntry>) -> Map<Seq<char>, Seq<char>> {
    insert_all(Map::empty(), pairs)
}

pub proof fn lemma_insert_all_single(m: Map<Seq<char>, Seq<char>>, x: RawEntry)
    ensures
        insert_all(m, seq![x]) == m.insert(escape_key(x.0), x.1),
{
    assert(seq![x].drop_last() =~= Seq::<RawEntry>::empty());
    assert(insert_all(m, Seq::<RawEntry>::empty()) == m);
}

pub proof fn lemma_insert_all_concat(
    m: Map<Seq<char>, Seq<char>>,
    a: Seq<RawEntry>,
    b: Seq<RawEntry>,
)
    ensures
        insert_all(m, a + b) == insert_all(insert_all(m, a), b),
    decreases b.len(),
{
    if b.len() == 0 {
        assert(a + b =~= a);
    } else {
        assert((a + b).drop_last() =~= a + b.drop_last());
        lemma_insert_all_concat(m, a, b.drop_last());
    }
}

} // verus!
