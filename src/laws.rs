//! Properties that hold of every conversion, proved over the specification of
//! flattening and of the store.
use vstd::prelude::*;
use crate::config::ListHandling;
use crate::flatten::{
    RawEntry, flatten_value, flatten_members, flatten_document, insert_all, store_of, leaf_text,
    member_namespace, lemma_insert_all_concat, lemma_insert_all_single,
};
use crate::json::{JsonValue, is_scalar};
use crate::prop_key::escape_key;
use crate::props::{Properties, lemma_sorted_unique};

verus! {

/// The leaf reached from the members `ms` of an object by following member
/// positions through nested objects.
pub open spec fn member_leaf(ms: Seq<(String, JsonValue)>, path: Seq<int>) -> Option<JsonValue>
    decreases path.len(),
{
    if path.len() == 0 || !(0 <= path[0] < ms.len()) {
        None
    } else if path.len() == 1 {
        Some(ms[path[0]].1)
    } else {
        match ms[path[0]].1 {
            JsonValue::Object(child) => member_leaf(child@, path.drop_first()),
            _ => None,
        }
    }
}

/// The member names met along such a path, from the root down.
pub open spec fn member_names(ms: Seq<(String, JsonValue)>, path: Seq<int>) -> Seq<Seq<char>>
    decreases path.len(),
{
    if path.len() == 0 || !(0 <= path[0] < ms.len()) {
        Seq::empty()
    } else if path.len() == 1 {
        seq![ms[path[0]].0@]
    } else {
        match ms[path[0]].1 {
            JsonValue::Object(child) => seq![ms[path[0]].0@] + member_names(
                child@,
                path.drop_first(),
            ),
            _ => Seq::empty(),
        }
    }
}

/// Names joined by dots.
pub open spec fn dot_joined(names: Seq<Seq<char>>) -> Seq<char>
    decreases names.len(),
{
    if names.len() == 0 {
        Seq::empty()
    } else if names.len() == 1 {
        names[0]
    } else {
        names[0] + seq!['.'] + dot_joined(names.drop_first())
    }
}

proof fn lemma_members_contain(
    prefix: Option<Seq<char>>,
    ms: Seq<(String, JsonValue)>,
    i: int,
    x: RawEntry,
    lh: ListHandling,
    d: bool,
)
    requires
        0 <= i < ms.len(),
        flatten_value(member_namespace(prefix, ms[i].0@), ms[i].1, lh, d).contains(x),
    ensures
        flatten_members(prefix, ms, lh, d).contains(x),
    decreases ms.len(),
{
    let a = flatten_members(prefix, ms.drop_last(), lh, d);
    let b = flatten_value(member_namespace(prefix, ms.last().0@), ms.last().1, lh, d);
    if i == ms.len() - 1 {
        let j = choose|j: int| 0 <= j < b.len() && b[j] == x;
        assert((a + b)[a.len() + j] == x);
    } else {
        assert(ms.drop_last()[i] == ms[i]);
        lemma_members_contain(prefix, ms.drop_last(), i, x, lh, d);
        let j = choose|j: int| 0 <= j < a.len() && a[j] == x;
        assert((a + b)[j] == x);
    }
}

proof fn lemma_leaf_pair(
    prefix: Option<Seq<char>>,
    ms: Seq<(String, JsonValue)>,
    path: Seq<int>,
    lh: ListHandling,
    d: bool,
)
    requires
        path.len() >= 1,
        member_leaf(ms, path) matches Some(leaf) && is_scalar(leaf),
    ensures
        flatten_members(prefix, ms, lh, d).contains(
            (
                member_namespace(prefix, dot_joined(member_names(ms, path))),
                leaf_text(member_leaf(ms, path)->0, d),
            ),
        ),
    decreases path.len(),
{
    let i = path[0];
    let name = ms[i].0@;
    let child = ms[i].1;
    let ns = member_namespace(prefix, name);
    if path.len() == 1 {
        let x = (ns, leaf_text(child, d));
        assert(flatten_value(ns, child, lh, d) == seq![x]);
        assert(seq![x][0] == x);
        lemma_members_contain(prefix, ms, i, x, lh, d);
    } else {
        let cms = child->Object_0@;
        let rest = path.drop_first();
        lemma_leaf_pair(Some(ns), cms, rest, lh, d);
        let names = member_names(ms, path);
        let rest_names = member_names(cms, rest);
        assert(rest_names.len() >= 1) by {
            reveal_with_fuel(member_names, 2);
        }
        assert(names == seq![name] + rest_names);
        assert(names.drop_first() =~= rest_names);
        assert(names[0] == name);
        assert(member_namespace(Some(ns), dot_joined(rest_names)) =~= member_namespace(
            prefix,
            dot_joined(names),
        ));
        lemma_members_contain(
            prefix,
            ms,
            i,
            (
                member_namespace(prefix, dot_joined(names)),
                leaf_text(member_leaf(ms, path)->0, d),
            ),
            lh,
            d,
        );
    }
}

proof fn lemma_insert_all_finite(m: Map<Seq<char>, Seq<char>>, pairs: Seq<RawEntry>)
    requires
        m.dom().finite(),
    ensures
        insert_all(m, pairs).dom().finite(),
    decreases pairs.len(),
{
    if pairs.len() > 0 {
        lemma_insert_all_finite(m, pairs.drop_last());
    }
}

/// The keys that committing pairs produces are exactly the escaped namespaces
/// of those pairs: escaping happens once per namespace, and no key comes from
/// anywhere else.
pub proof fn law_store_keys(pairs: Seq<RawEntry>, k: Seq<char>)
    ensures
        store_of(pairs).contains_key(k) <==> exists|i: int|
            0 <= i < pairs.len() && k == escape_key(#[trigger] pairs[i].0),
    decreases pairs.len(),
{
    if pairs.len() > 0 {
        let d = pairs.drop_last();
        law_store_keys(d, k);
        if store_of(d).contains_key(k) {
            let i = choose|i: int| 0 <= i < d.len() && k == escape_key(#[trigger] d[i].0);
            assert(pairs[i] == d[i]);
        }
        if exists|i: int| 0 <= i < pairs.len() && k == escape_key(#[trigger] pairs[i].0) {
            let i = choose|i: int| 0 <= i < pairs.len() && k == escape_key(#[trigger] pairs[i].0);
            if i < pairs.len() - 1 {
                assert(d[i] == pairs[i]);
            }
        }
    }
}

/// For an object whose members are all scalars and whose member names escape
/// to different keys, the store has exactly one entry per member: its key is
/// the escaped member name and its value the member's text.
pub proof fn law_scalar_members(doc: JsonValue, lh: ListHandling, discard_wsp: bool)
    requires
        doc is Object,
        forall|i: int| 0 <= i < doc->Object_0@.len() ==> is_scalar(#[trigger] doc->Object_0@[i].1),
        forall|i: int, j: int|
            0 <= i < j < doc->Object_0@.len() ==> escape_key(#[trigger] doc->Object_0@[i].0@)
                != escape_key(#[trigger] doc->Object_0@[j].0@),
    ensures
        forall|i: int|
            0 <= i < doc->Object_0@.len() ==> {
                let k = escape_key(#[trigger] doc->Object_0@[i].0@);
                &&& store_of(flatten_document(doc, lh, discard_wsp)).contains_key(k)
                &&& store_of(flatten_document(doc, lh, discard_wsp))[k] == leaf_text(
                    doc->Object_0@[i].1,
                    discard_wsp,
                )
            },
        forall|k: Seq<char>| #[trigger]
            store_of(flatten_document(doc, lh, discard_wsp)).contains_key(k) ==> exists|i: int|
                0 <= i < doc->Object_0@.len() && k == escape_key(#[trigger] doc->Object_0@[i].0@),
        store_of(flatten_document(doc, lh, discard_wsp)).len() == doc->Object_0@.len(),
{
    lemma_scalar_members(doc->Object_0@, lh, discard_wsp);
}

proof fn lemma_scalar_members(ms: Seq<(String, JsonValue)>, lh: ListHandling, d: bool)
    requires
        forall|i: int| 0 <= i < ms.len() ==> is_scalar(#[trigger] ms[i].1),
        forall|i: int, j: int|
            0 <= i < j < ms.len() ==> escape_key(#[trigger] ms[i].0@) != escape_key(
                #[trigger] ms[j].0@,
            ),
    ensures
        forall|i: int|
            0 <= i < ms.len() ==> {
                let k = escape_key(#[trigger] ms[i].0@);
                &&& store_of(flatten_members(None, ms, lh, d)).contains_key(k)
                &&& store_of(flatten_members(None, ms, lh, d))[k] == leaf_text(ms[i].1, d)
            },
        forall|k: Seq<char>| #[trigger]
            store_of(flatten_members(None, ms, lh, d)).contains_key(k) ==> exists|i: int|
                0 <= i < ms.len() && k == escape_key(#[trigger] ms[i].0@),
        store_of(flatten_members(None, ms, lh, d)).len() == ms.len(),
    decreases ms.len(),
{
    if ms.len() == 0 {
        assert(store_of(flatten_members(None, ms, lh, d)) =~= Map::<Seq<char>, Seq<char>>::empty());
    } else {
        let init = ms.drop_last();
        let last = ms.last();
        lemma_scalar_members(init, lh, d);
        let a = flatten_members(None, init, lh, d);
        let x = (last.0@, leaf_text(last.1, d));
        assert(flatten_value(member_namespace(None, last.0@), last.1, lh, d) == seq![x]);
        lemma_insert_all_concat(Map::empty(), a, seq![x]);
        lemma_insert_all_single(store_of(a), x);
        let m = store_of(flatten_members(None, ms, lh, d));
        assert(m == store_of(a).insert(escape_key(last.0@), x.1));
        assert(!store_of(a).contains_key(escape_key(last.0@))) by {
            if store_of(a).contains_key(escape_key(last.0@)) {
                let i = choose|i: int|
                    0 <= i < init.len() && escape_key(last.0@) == escape_key(#[trigger] init[i].0@);
                assert(init[i] == ms[i]);
                assert(escape_key(ms[i].0@) != escape_key(ms[ms.len() - 1].0@));
            }
        }
        lemma_insert_all_finite(Map::empty(), a);
        assert forall|i: int| 0 <= i < ms.len() implies {
            let k = escape_key(#[trigger] ms[i].0@);
            &&& m.contains_key(k)
            &&& m[k] == leaf_text(ms[i].1, d)
        } by {
            if i < ms.len() - 1 {
                assert(init[i] == ms[i]);
                assert(escape_key(ms[i].0@) != escape_key(ms[ms.len() - 1].0@));
            }
        }
        assert forall|k: Seq<char>| #[trigger] m.contains_key(k) implies exists|i: int|
            0 <= i < ms.len() && k == escape_key(#[trigger] ms[i].0@) by {
            if k != escape_key(last.0@) {
                let i = choose|i: int| 0 <= i < init.len() && k == escape_key(#[trigger] init[i].0@);
                assert(init[i] == ms[i]);
            } else {
                assert(k == escape_key(ms[ms.len() - 1].0@));
            }
        }
    }
}

/// The key of a leaf reached through nested objects is the escaped, dot-joined
/// path of member names from the root to that leaf; the walk yields that path
/// together with the leaf's text.
pub proof fn law_nested_key(doc: JsonValue, path: Seq<int>, lh: ListHandling, discard_wsp: bool)
    requires
        doc is Object,
        path.len() >= 1,
        member_leaf(doc->Object_0@, path) matches Some(leaf) && is_scalar(leaf),
    ensures
        flatten_document(doc, lh, discard_wsp).contains(
            (
                dot_joined(member_names(doc->Object_0@, path)),
                leaf_text(member_leaf(doc->Object_0@, path)->0, discard_wsp),
            ),
        ),
        store_of(flatten_document(doc, lh, discard_wsp)).contains_key(
            escape_key(dot_joined(member_names(doc->Object_0@, path))),
        ),
{
    let ms = doc->Object_0@;
    lemma_leaf_pair(None, ms, path, lh, discard_wsp);
    let pairs = flatten_document(doc, lh, discard_wsp);
    let x = (dot_joined(member_names(ms, path)), leaf_text(member_leaf(ms, path)->0, discard_wsp));
    let i = choose|i: int| 0 <= i < pairs.len() && pairs[i] == x;
    law_store_keys(pairs, escape_key(x.0));
}

/// Converting the same document with the same configuration twice gives the
/// same entries, in the same order.
pub proof fn law_deterministic(
    doc: JsonValue,
    lh: ListHandling,
    discard_wsp: bool,
    first: Properties,
    second: Properties,
)
    requires
        first.wf(),
        second.wf(),
        first.spec_map() == store_of(flatten_document(doc, lh, discard_wsp)),
        second.spec_map() == store_of(flatten_document(doc, lh, discard_wsp)),
    ensures
        first.entries() == second.entries(),
{
    lemma_sorted_unique(first.entries(), second.entries());
}

} // verus!
