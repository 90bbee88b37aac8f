//! The property store: entries kept in ascending key order, one per key.
use vstd::prelude::*;
use core::cmp::Ordering;
use crate::config::{Config, ListHandling, separator_text};
use crate::flatten::{
    flatten_value, flatten_members, flatten_elements, flatten_document, insert_all, store_of,
    member_namespace, element_namespace, lemma_insert_all_concat, lemma_insert_all_single,
};
use crate::json::{
    JsonValue, bool_text, joined_text, has_only_primitives, join_primitives, bool_to_string,
};
use crate::text::{normalise, normalised, index_text};
use crate::prop_key::{PropKey, text_lt, lemma_text_lt_irreflexive, lemma_text_lt_total,
    lemma_text_lt_transitive};

verus! {

/// Keys in strictly ascending order (hence unique).
pub open spec fn sorted_keys(e: Seq<(Seq<char>, Seq<char>)>) -> bool {
    forall|i: int, j: int| 0 <= i < j < e.len() ==> text_lt(#[trigger] e[i].0, #[trigger] e[j].0)
}

/// The lines `key<sep>value\n` of the entries, one after the other.
pub open spec fn rendered(e: Seq<(Seq<char>, Seq<char>)>, sep: Seq<char>) -> Seq<char>
    decreases e.len(),
{
    if e.len() == 0 {
        Seq::empty()
    } else {
        rendered(e.drop_last(), sep) + e.last().0 + sep + e.last().1 + seq!['\n']
    }
}

/// Whether some entry has key `k`.
pub open spec fn has_key(e: Seq<(Seq<char>, Seq<char>)>, k: Seq<char>) -> bool {
    exists|i: int| 0 <= i < e.len() && #[trigger] e[i].0 == k
}

/// The mapping that a sequence of entries with unique keys stands for.
pub open spec fn entries_map(e: Seq<(Seq<char>, Seq<char>)>) -> Map<Seq<char>, Seq<char>> {
    Map::new(|k: Seq<char>| has_key(e, k), |k: Seq<char>| e[key_index(e, k)].1)
}

/// The position of an entry with key `k`, where there is one.
pub open spec fn key_index(e: Seq<(Seq<char>, Seq<char>)>, k: Seq<char>) -> int {
    choose|i: int| 0 <= i < e.len() && #[trigger] e[i].0 == k
}

pub proof fn lemma_entries_map_at(e: Seq<(Seq<char>, Seq<char>)>, i: int)
    requires
        sorted_keys(e),
        0 <= i < e.len(),
    ensures
        entries_map(e).contains_key(e[i].0),
        entries_map(e)[e[i].0] == e[i].1,
{
    let k = e[i].0;
    assert(has_key(e, k));
    let j = key_index(e, k);
    if j < i {
        lemma_text_lt_irreflexive(k);
        assert(text_lt(e[j].0, e[i].0));
    } else if i < j {
        lemma_text_lt_irreflexive(k);
        assert(text_lt(e[i].0, e[j].0));
    }
}

/// Two sorted entry sequences that stand for the same mapping are equal.
pub proof fn lemma_sorted_unique(a: Seq<(Seq<char>, Seq<char>)>, b: Seq<(Seq<char>, Seq<char>)>)
    requires
        sorted_keys(a),
        sorted_keys(b),
        entries_map(a) == entries_map(b),
    ensures
        a == b,
    decreases a.len() + b.len(),
{
    if a.len() == 0 || b.len() == 0 {
        if a.len() > 0 {
            lemma_entries_map_at(a, 0);
        }
        if b.len() > 0 {
            lemma_entries_map_at(b, 0);
        }
        assert(a =~= b);
    } else {
        let la = a.len() - 1;
        let lb = b.len() - 1;
        lemma_entries_map_at(a, la);
        lemma_entries_map_at(b, lb);
        let ka = a[la].0;
        let kb = b[lb].0;
        let ia = choose|i: int| 0 <= i < a.len() && #[trigger] a[i].0 == kb;
        let ib = choose|i: int| 0 <= i < b.len() && #[trigger] b[i].0 == ka;
        assert(has_key(a, kb));
        assert(has_key(b, ka));
        // the largest keys agree
        if ka != kb {
            lemma_text_lt_total(ka, kb);
            if text_lt(ka, kb) {
                if ia != la {
                    assert(text_lt(a[ia].0, a[la].0));
                    lemma_text_lt_total(ka, kb);
                }
            } else {
                if ib != lb {
                    assert(text_lt(b[ib].0, b[lb].0));
                    lemma_text_lt_total(ka, kb);
                }
            }
        }
        assert(ka == kb);
        let a2 = a.drop_last();
        let b2 = b.drop_last();
        assert(entries_map(a2) =~= entries_map(a).remove(ka)) by {
            lemma_entries_map_drop_last(a);
        }
        assert(entries_map(b2) =~= entries_map(b).remove(kb)) by {
            lemma_entries_map_drop_last(b);
        }
        lemma_sorted_unique(a2, b2);
        assert(a =~= a2.push(a[la]));
        assert(b =~= b2.push(b[lb]));
    }
}

/// A sorted entry sequence has as many entries as its mapping has keys.
pub proof fn lemma_entries_map_len(e: Seq<(Seq<char>, Seq<char>)>)
    requires
        sorted_keys(e),
    ensures
        entries_map(e).dom().finite(),
        entries_map(e).len() == e.len(),
    decreases e.len(),
{
    if e.len() == 0 {
        assert(entries_map(e).dom() =~= Set::<Seq<char>>::empty());
    } else {
        let d = e.drop_last();
        let k = e.last().0;
        lemma_entries_map_drop_last(e);
        lemma_entries_map_len(d);
        lemma_entries_map_at(e, e.len() - 1);
        assert(entries_map(e).dom() =~= entries_map(d).dom().insert(k));
    }
}

proof fn lemma_entries_map_drop_last(e: Seq<(Seq<char>, Seq<char>)>)
    requires
        sorted_keys(e),
        e.len() > 0,
    ensures
        entries_map(e.drop_last()) == entries_map(e).remove(e.last().0),
{
    let d = e.drop_last();
    let kl = e.last().0;
    assert forall|k: Seq<char>| #[trigger] has_key(d, k) <==> (has_key(e, k) && k != kl) by {
        if has_key(d, k) {
            let i = choose|i: int| 0 <= i < d.len() && #[trigger] d[i].0 == k;
            assert(e[i].0 == k);
            assert(text_lt(e[i].0, e[e.len() - 1].0));
            lemma_text_lt_irreflexive(k);
        }
        if has_key(e, k) && k != kl {
            let i = choose|i: int| 0 <= i < e.len() && #[trigger] e[i].0 == k;
            assert(i != e.len() - 1);
            assert(d[i].0 == k);
        }
    }
    assert forall|k: Seq<char>| #[trigger] has_key(d, k) implies entries_map(d)[k] == entries_map(
        e,
    )[k] by {
        let i = choose|i: int| 0 <= i < d.len() && #[trigger] d[i].0 == k;
        lemma_entries_map_at(d, i);
        lemma_entries_map_at(e, i);
    }
    assert(entries_map(d) =~= entries_map(e).remove(kl));
}

/// The entries of a `.properties` file, in ascending key order with one entry per key.
pub struct Properties {
    props: Vec<(PropKey, String)>,
}

impl Properties {
    /// The entries as texts, in stored order.
    pub closed spec fn entries(&self) -> Seq<(Seq<char>, Seq<char>)> {
        self.props@.map_values(|e: (PropKey, String)| (e.0@, e.1@))
    }

    /// The store's invariant: keys strictly ascending.
    pub open spec fn wf(&self) -> bool {
        sorted_keys(self.entries())
    }

    /// The mapping from key text to value text.
    pub open spec fn spec_map(&self) -> Map<Seq<char>, Seq<char>> {
        entries_map(self.entries())
    }

    /// A store without entries.
    pub fn empty() -> (p: Properties)
        ensures
            p.wf(),
            p.entries() == Seq::<(Seq<char>, Seq<char>)>::empty(),
            p.spec_map() == Map::<Seq<char>, Seq<char>>::empty(),
    {
        let p = Properties { props: Vec::new() };
        assert(p.entries() =~= Seq::<(Seq<char>, Seq<char>)>::empty());
        assert(p.spec_map() =~= Map::<Seq<char>, Seq<char>>::empty());
        p
    }

    /// Locates `key` by binary search: `Ok` with its position when present,
    /// `Err` with the position where it belongs otherwise.
    fn find(&self, key: &PropKey) -> (r: Result<usize, usize>)
        requires
            self.wf(),
        ensures
            r matches Ok(p) ==> p < self.entries().len() && self.entries()[p as int].0 == key@,
            r matches Err(p) ==> p <= self.entries().len() && (forall|i: int|
                0 <= i < p ==> text_lt(#[trigger] self.entries()[i].0, key@)) && (forall|i: int|
                p <= i < self.entries().len() ==> text_lt(key@, #[trigger] self.entries()[i].0)),
    {
        let ghost e = self.entries();
        let ghost k = key@;
        let mut lo: usize = 0;
        let mut hi: usize = self.props.len();
        while lo < hi
            invariant
                e == self.entries(),
                sorted_keys(e),
                k == key@,
                0 <= lo <= hi <= e.len(),
                e.len() == self.props@.len(),
                forall|i: int| 0 <= i < lo ==> text_lt(#[trigger] e[i].0, k),
                forall|i: int| hi <= i < e.len() ==> text_lt(k, #[trigger] e[i].0),
            decreases hi - lo,
        {
            let mid = lo + (hi - lo) / 2;
            assert(e[mid as int].0 == self.props@[mid as int].0@);
            match self.props[mid].0.compare(key) {
                Ordering::Less => {
                    assert forall|i: int| 0 <= i < mid + 1 implies text_lt(#[trigger] e[i].0, k) by {
                        if i < mid {
                            lemma_text_lt_transitive(e[i].0, e[mid as int].0, k);
                        }
                    }
                    lo = mid + 1;
                },
                Ordering::Greater => {
                    assert forall|i: int| mid <= i < e.len() implies text_lt(k, #[trigger] e[i].0) by {
                        if i > mid {
                            lemma_text_lt_transitive(k, e[mid as int].0, e[i].0);
                        }
                    }
                    hi = mid;
                },
                Ordering::Equal => {
                    return Ok(mid);
                },
            }
        }
        Err(lo)
    }

    /// Puts `value` under `key`, replacing the value that the key had.
    pub fn insert(&mut self, key: PropKey, value: String)
        requires
            old(self).wf(),
        ensures
            final(self).wf(),
            final(self).spec_map() == old(self).spec_map().insert(key@, value@),
    {
        let ghost e = self.entries();
        let ghost k = key@;
        match self.find(&key) {
            Ok(p) => {
                self.props.set(p, (key, value));
                assert(self.entries() =~= e.update(p as int, (k, value@)));
                proof {
                    self.lemma_replaced(e, p as int, k, value@);
                }
            },
            Err(p) => {
                self.props.insert(p, (key, value));
                assert(self.entries() =~= e.insert(p as int, (k, value@)));
                proof {
                    self.lemma_inserted(e, p as int, k, value@);
                }
            },
        }
    }

    /// The value stored under `key`, if any.
    pub fn get(&self, key: &PropKey) -> (r: Option<&str>)
        requires
            self.wf(),
        ensures
            match r {
                Some(v) => self.spec_map().contains_key(key@) && self.spec_map()[key@] == v@,
                None => !self.spec_map().contains_key(key@),
            },
    {
        match self.find(key) {
            Ok(p) => {
                proof {
                    lemma_entries_map_at(self.entries(), p as int);
                }
                Some(self.props[p].1.as_str())
            },
            Err(p) => {
                proof {
                    let e = self.entries();
                    if has_key(e, key@) {
                        let i = choose|i: int| 0 <= i < e.len() && #[trigger] e[i].0 == key@;
                        lemma_text_lt_irreflexive(key@);
                        assert(text_lt(e[i].0, key@) || text_lt(key@, e[i].0));
                    }
                }
                None
            },
        }
    }

    /// The number of entries.
    pub fn len(&self) -> (r: usize)
        requires
            self.wf(),
        ensures
            r == self.entries().len(),
            r == self.spec_map().len(),
    {
        proof {
            lemma_entries_map_len(self.entries());
        }
        self.props.len()
    }

    /// The `.properties` text: one line `key<separator>value` per entry, in
    /// ascending key order, each ended by a newline.
    pub fn to_text(&self, config: &Config) -> (r: String)
        ensures
            r@ == rendered(self.entries(), separator_text(config.spec_entry_separator())),
    {
        let sep = config.entry_separator();
        let mut out = String::new();
        let mut i: usize = 0;
        while i < self.props.len()
            invariant
                i <= self.entries().len(),
                self.entries().len() == self.props@.len(),
                sep@ == separator_text(config.spec_entry_separator()),
                out@ == rendered(self.entries().take(i as int), sep@),
            decreases self.props@.len() - i,
        {
            let entry = &self.props[i];
            out.append(entry.0.as_str());
            out.append(sep);
            out.append(entry.1.as_str());
            out.push('\n');
            proof {
                let e = self.entries();
                assert(e.take(i + 1).drop_last() =~= e.take(i as int));
                assert(e[i as int] == (entry.0@, entry.1@));
            }
            i = i + 1;
        }
        assert(self.entries().take(self.entries().len() as int) =~= self.entries());
        out
    }

    proof fn lemma_replaced(&self, e: Seq<(Seq<char>, Seq<char>)>, p: int, k: Seq<char>, v: Seq<char>)
        requires
            sorted_keys(e),
            0 <= p < e.len(),
            e[p].0 == k,
            self.entries() == e.update(p, (k, v)),
        ensures
            self.wf(),
            self.spec_map() == entries_map(e).insert(k, v),
    {
        let f = e.update(p, (k, v));
        assert(sorted_keys(f)) by {
            assert forall|i: int, j: int| 0 <= i < j < f.len() implies text_lt(
                #[trigger] f[i].0,
                #[trigger] f[j].0,
            ) by {
                assert(f[i].0 == e[i].0 && f[j].0 == e[j].0);
            }
        }
        assert forall|key: Seq<char>| #[trigger] has_key(f, key) <==> has_key(e, key) by {
            if has_key(f, key) {
                let i = choose|i: int| 0 <= i < f.len() && #[trigger] f[i].0 == key;
                assert(e[i].0 == key);
            }
            if has_key(e, key) {
                let i = choose|i: int| 0 <= i < e.len() && #[trigger] e[i].0 == key;
                assert(f[i].0 == key);
            }
        }
        assert forall|key: Seq<char>| #[trigger] has_key(f, key) implies entries_map(f)[key] == entries_map(
            e,
        ).insert(k, v)[key] by {
            let i = choose|i: int| 0 <= i < f.len() && #[trigger] f[i].0 == key;
            lemma_entries_map_at(f, i);
            lemma_entries_map_at(e, i);
            if i == p {
                assert(key == k && f[i].1 == v);
            } else {
                assert(f[i] == e[i]);
                assert(key != k) by {
                    if i < p {
                        assert(text_lt(e[i].0, e[p].0));
                    } else {
                        assert(text_lt(e[p].0, e[i].0));
                    }
                    lemma_text_lt_irreflexive(k);
                }
            }
        }
        assert(has_key(e, k));
        assert(entries_map(f) =~= entries_map(e).insert(k, v));
    }

    proof fn lemma_inserted(&self, e: Seq<(Seq<char>, Seq<char>)>, p: int, k: Seq<char>, v: Seq<char>)
        requires
            sorted_keys(e),
            0 <= p <= e.len(),
            forall|i: int| 0 <= i < p ==> text_lt(#[trigger] e[i].0, k),
            forall|i: int| p <= i < e.len() ==> text_lt(k, #[trigger] e[i].0),
            self.entries() == e.insert(p, (k, v)),
        ensures
            self.wf(),
            self.spec_map() == entries_map(e).insert(k, v),
    {
        let f = e.insert(p, (k, v));
        assert(sorted_keys(f)) by {
            assert forall|i: int, j: int| 0 <= i < j < f.len() implies text_lt(
                #[trigger] f[i].0,
                #[trigger] f[j].0,
            ) by {
                if i < p && j == p {
                } else if i == p && j > p {
                    assert(f[j] == e[j - 1]);
                } else if i < p && j > p {
                    assert(f[j] == e[j - 1]);
                    lemma_text_lt_transitive(e[i].0, k, e[j - 1].0);
                } else if i > p {
                    assert(f[i] == e[i - 1] && f[j] == e[j - 1]);
                } else {
                    assert(f[i] == e[i] && f[j] == e[j]);
                }
            }
        }
        assert forall|key: Seq<char>| #[trigger] has_key(f, key) <==> (has_key(e, key) || key == k) by {
            if has_key(f, key) {
                let i = choose|i: int| 0 <= i < f.len() && #[trigger] f[i].0 == key;
                if i < p {
                    assert(e[i].0 == key);
                } else if i > p {
                    assert(e[i - 1].0 == key);
                }
            }
            if has_key(e, key) {
                let i = choose|i: int| 0 <= i < e.len() && #[trigger] e[i].0 == key;
                if i < p {
                    assert(f[i].0 == key);
                } else {
                    assert(f[i + 1].0 == key);
                }
            }
            if key == k {
                assert(f[p].0 == key);
            }
        }
        assert forall|key: Seq<char>| #[trigger] has_key(f, key) implies entries_map(f)[key] == entries_map(
            e,
        ).insert(k, v)[key] by {
            let i = choose|i: int| 0 <= i < f.len() && #[trigger] f[i].0 == key;
            lemma_entries_map_at(f, i);
            if i < p {
                lemma_entries_map_at(e, i);
                lemma_text_lt_irreflexive(k);
            } else if i > p {
                assert(f[i] == e[i - 1]);
                lemma_entries_map_at(e, i - 1);
                lemma_text_lt_irreflexive(k);
            }
        }
        assert(entries_map(f) =~= entries_map(e).insert(k, v));
    }
}

/// Why a document cannot be turned into properties. Each variant carries the
/// offending document.
#[derive(Debug)]
pub enum PropertyConstructionError {
    /// The document is a bare string, number or boolean, which has no key.
    TopLevelPrimitiveError(JsonValue),
    /// The document is an array; its objects have to be converted one by one.
    TopLevelArrayError(JsonValue),
}

impl Properties {
    /// Flattens a JSON document into properties, as `config` says.
    ///
    /// An object yields the entries of its leaves, `null` yields none, and any
    /// other document is refused.
    pub fn create(value: JsonValue, config: &Config) -> (r: Result<Properties, PropertyConstructionError>)
        ensures
            (value is Object || value is Null) ==> (r matches Ok(p) && p.wf() && p.spec_map()
                == store_of(
                flatten_document(value, config.spec_list_handling(), config.spec_discard_wsp()),
            )),
            (value is Bool || value is Number || value is String) ==> (r matches Err(
                PropertyConstructionError::TopLevelPrimitiveError(v),
            ) && v == value),
            value is Array ==> (r matches Err(PropertyConstructionError::TopLevelArrayError(v))
                && v == value),
    {
        PropertiesBuilder(config).build(value)
    }
}

struct PropertiesBuilder<'a>(&'a Config);

impl<'a> PropertiesBuilder<'a> {
    spec fn lh(&self) -> ListHandling {
        self.0.spec_list_handling()
    }

    spec fn discard(&self) -> bool {
        self.0.spec_discard_wsp()
    }

    fn build(&self, value: JsonValue) -> (r: Result<Properties, PropertyConstructionError>)
        ensures
            (value is Object || value is Null) ==> (r matches Ok(p) && p.wf() && p.spec_map()
                == store_of(flatten_document(value, self.lh(), self.discard()))),
            (value is Bool || value is Number || value is String) ==> (r matches Err(
                PropertyConstructionError::TopLevelPrimitiveError(v),
            ) && v == value),
            value is Array ==> (r matches Err(PropertyConstructionError::TopLevelArrayError(v))
                && v == value),
    {
        match value {
            JsonValue::Object(object_map) => Ok(self.parse_internal(&object_map)),
            JsonValue::Null => Ok(Properties::empty()),
            JsonValue::Array(_) => Err(PropertyConstructionError::TopLevelArrayError(value)),
            _ => Err(PropertyConstructionError::TopLevelPrimitiveError(value)),
        }
    }

    fn parse_internal(&self, object_map: &Vec<(String, JsonValue)>) -> (p: Properties)
        ensures
            p.wf(),
            p.spec_map() == store_of(flatten_members(None, object_map@, self.lh(), self.discard())),
    {
        let mut props = Properties::empty();
        let mut i: usize = 0;
        while i < object_map.len()
            invariant
                i <= object_map@.len(),
                props.wf(),
                props.spec_map() == store_of(
                    flatten_members(None, object_map@.take(i as int), self.lh(), self.discard()),
                ),
            decreases object_map@.len() - i,
        {
            let ghost before = props.spec_map();
            self.parse_value(object_map[i].0.as_str(), &object_map[i].1, &mut props);
            proof {
                let ms = object_map@;
                assert(ms.take(i + 1).drop_last() =~= ms.take(i as int));
                assert(ms.take(i + 1).last() == ms[i as int]);
                lemma_insert_all_concat(
                    Map::empty(),
                    flatten_members(None, ms.take(i as int), self.lh(), self.discard()),
                    flatten_value(
                        member_namespace(None, ms[i as int].0@),
                        ms[i as int].1,
                        self.lh(),
                        self.discard(),
                    ),
                );
            }
            i = i + 1;
        }
        assert(object_map@.take(object_map@.len() as int) =~= object_map@);
        props
    }

    fn parse_value(&self, namespace: &str, value: &JsonValue, props: &mut Properties)
        requires
            old(props).wf(),
        ensures
            final(props).wf(),
            final(props).spec_map() == insert_all(
                old(props).spec_map(),
                flatten_value(namespace@, *value, self.lh(), self.discard()),
            ),
        decreases value,
    {
        let ghost m0 = props.spec_map();
        let ghost lh = self.lh();
        let ghost d = self.discard();
        let ghost ns = namespace@;
        let discard_wsp = self.0.discard_wsp();
        match value {
            JsonValue::Null => {
                props.insert(PropKey::new(namespace), String::new());
                proof {
                    lemma_insert_all_single(m0, (ns, Seq::empty()));
                }
            },
            JsonValue::Number(n) => {
                props.insert(PropKey::new(namespace), n.clone());
                proof {
                    lemma_insert_all_single(m0, (ns, n@));
                }
            },
            JsonValue::String(s) => {
                props.insert(PropKey::new(namespace), normalise(s.clone(), discard_wsp));
                proof {
                    lemma_insert_all_single(m0, (ns, normalised(s@, d)));
                }
            },
            JsonValue::Bool(b) => {
                props.insert(PropKey::new(namespace), bool_to_string(*b));
                proof {
                    lemma_insert_all_single(m0, (ns, bool_text(*b)));
                }
            },
            JsonValue::Object(object_map) => {
                let mut i: usize = 0;
                while i < object_map.len()
                    invariant
                        i <= object_map@.len(),
                        *value == JsonValue::Object(*object_map),
                        lh == self.lh(),
                        d == self.discard(),
                        ns == namespace@,
                        props.wf(),
                        props.spec_map() == insert_all(
                            m0,
                            flatten_members(Some(ns), object_map@.take(i as int), lh, d),
                        ),
                    decreases object_map@.len() - i,
                {
                    let inner_namespace = Self::concat_namespace(
                        namespace,
                        object_map[i].0.as_str(),
                    );
                    proof {
                        vstd::std_specs::vec::axiom_vec_index_decreases(*object_map, i as int);
                        assert(decreases_to!(*value => (*value)->Object_0));
                        assert(decreases_to!(object_map[i as int] => object_map[i as int].1));
                    }
                    self.parse_value(inner_namespace.as_str(), &object_map[i].1, props);
                    proof {
                        let ms = object_map@;
                        assert(ms.take(i + 1).drop_last() =~= ms.take(i as int));
                        assert(ms.take(i + 1).last() == ms[i as int]);
                        lemma_insert_all_concat(
                            m0,
                            flatten_members(Some(ns), ms.take(i as int), lh, d),
                            flatten_value(
                                member_namespace(Some(ns), ms[i as int].0@),
                                ms[i as int].1,
                                lh,
                                d,
                            ),
                        );
                    }
                    i = i + 1;
                }
                assert(object_map@.take(object_map@.len() as int) =~= object_map@);
            },
            JsonValue::Array(values) => match self.0.list_handling() {
                ListHandling::SingleProp => {
                    if has_only_primitives(values) {
                        let list_val = join_primitives(values);
                        props.insert(PropKey::new(namespace), normalise(list_val, discard_wsp));
                        proof {
                            lemma_insert_all_single(
                                m0,
                                (ns, normalised(joined_text(values@), d)),
                            );
                        }
                    } else {
                        assert(insert_all(m0, Seq::empty()) == m0);
                    }
                },
                ListHandling::MultiProp => {
                    let mut i: usize = 0;
                    while i < values.len()
                        invariant
                            i <= values@.len(),
                            *value == JsonValue::Array(*values),
                            lh == self.lh(),
                            d == self.discard(),
                            ns == namespace@,
                            props.wf(),
                            props.spec_map() == insert_all(
                                m0,
                                flatten_elements(ns, values@.take(i as int), lh, d),
                            ),
                        decreases values@.len() - i,
                    {
                        let index = index_text(i);
                        let inner_namespace = Self::concat_namespace(namespace, index.as_str());
                        proof {
                            vstd::std_specs::vec::axiom_vec_index_decreases(*values, i as int);
                            assert(decreases_to!(*value => (*value)->Array_0));
                        }
                        self.parse_value(inner_namespace.as_str(), &values[i], props);
                        proof {
                            let vs = values@;
                            assert(vs.take(i + 1).drop_last() =~= vs.take(i as int));
                            assert(vs.take(i + 1).last() == vs[i as int]);
                            lemma_insert_all_concat(
                                m0,
                                flatten_elements(ns, vs.take(i as int), lh, d),
                                flatten_value(
                                    element_namespace(ns, i as nat),
                                    vs[i as int],
                                    lh,
                                    d,
                                ),
                            );
                        }
                        i = i + 1;
                    }
                    assert(values@.take(values@.len() as int) =~= values@);
                },
            },
        }
    }

    /// `namespace.sub_key`.
    fn concat_namespace(namespace: &str, sub_key: &str) -> (r: String)
        ensures
            r@ == namespace@ + seq!['.'] + sub_key@,
    {
        let mut inner_namespace = String::from_str(namespace);
        inner_namespace.push('.');
        inner_namespace.append(sub_key);
        inner_namespace
    }
}

} // verus!
