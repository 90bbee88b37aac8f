//! Keys of a `.properties` file: escaping of a raw namespace and the order of keys.
use vstd::prelude::*;
use core::cmp::Ordering;
use vstd::std_specs::iter::IteratorSpec;

verus! {

/// One character of a namespace as it stands in a key: space, `:` and `=`
/// get a backslash in front.
pub open spec fn escape_char(c: char) -> Seq<char> {
    if c == ' ' || c == ':' || c == '=' {
        seq!['\\', c]
    } else {
        seq![c]
    }
}

/// Each character of a namespace escaped in turn.
pub open spec fn escape_chars(s: Seq<char>) -> Seq<char>
    decreases s.len(),
{
    if s.len() == 0 {
        Seq::empty()
    } else {
        escape_chars(s.drop_last()) + escape_char(s.last())
    }
}

/// The key text of a raw namespace: a leading `#` gets a backslash, so that
/// the line is not read as a comment, and then every character is escaped.
pub open spec fn escape_key(s: Seq<char>) -> Seq<char> {
    if s.len() > 0 && s[0] == '#' {
        seq!['\\'] + escape_chars(s)
    } else {
        escape_chars(s)
    }
}

/// Strict lexicographic order of texts, character by character on the code
/// points; a proper prefix comes first.
pub open spec fn text_lt(a: Seq<char>, b: Seq<char>) -> bool
    decreases a.len(),
{
    if a.len() == 0 {
        b.len() > 0
    } else if b.len() == 0 {
        false
    } else if a[0] != b[0] {
        a[0] < b[0]
    } else {
        text_lt(a.drop_first(), b.drop_first())
    }
}

pub proof fn lemma_text_lt_irreflexive(a: Seq<char>)
    ensures
        !text_lt(a, a),
    decreases a.len(),
{
    if a.len() > 0 {
        lemma_text_lt_irreflexive(a.drop_first());
    }
}

pub proof fn lemma_text_lt_total(a: Seq<char>, b: Seq<char>)
    ensures
        a == b || text_lt(a, b) || text_lt(b, a),
        !(text_lt(a, b) && text_lt(b, a)),
    decreases a.len(),
{
    if a.len() > 0 && b.len() > 0 && a[0] == b[0] {
        lemma_text_lt_total(a.drop_first(), b.drop_first());
        if a.drop_first() == b.drop_first() {
            assert(a =~= seq![a[0]] + a.drop_first());
            assert(b =~= seq![b[0]] + b.drop_first());
        }
    } else if a.len() == 0 && b.len() == 0 {
        assert(a =~= b);
    }
}

pub proof fn lemma_text_lt_transitive(a: Seq<char>, b: Seq<char>, c: Seq<char>)
    requires
        text_lt(a, b),
        text_lt(b, c),
    ensures
        text_lt(a, c),
    decreases a.len(),
{
    if a.len() > 0 && a[0] == b[0] && b[0] == c[0] {
        lemma_text_lt_transitive(a.drop_first(), b.drop_first(), c.drop_first());
    }
}

/// Compares two texts in the order of [`text_lt`].
pub fn compare_text(a: &str, b: &str) -> (r: Ordering)
    ensures
        r == Ordering::Less <==> text_lt(a@, b@),
        r == Ordering::Equal <==> a@ == b@,
        r == Ordering::Greater <==> text_lt(b@, a@),
{
    proof {
        lemma_text_lt_total(a@, b@);
        lemma_text_lt_irreflexive(a@);
    }
    let mut ia = a.chars();
    let mut ib = b.chars();
    let ghost k: int = 0;
    loop
        invariant
            0 <= k <= a@.len(),
            k <= b@.len(),
            a@.take(k) == b@.take(k),
            ia.remaining() == a@.skip(k),
            ib.remaining() == b@.skip(k),
            text_lt(a@, b@) == text_lt(a@.skip(k), b@.skip(k)),
            text_lt(b@, a@) == text_lt(b@.skip(k), a@.skip(k)),
        decreases a@.len() - k,
    {
        let ca = ia.next();
        let cb = ib.next();
        match (ca, cb) {
            (None, None) => {
                assert(a@ =~= a@.take(k));
                assert(b@ =~= b@.take(k));
                return Ordering::Equal;
            },
            (None, Some(_)) => {
                return Ordering::Less;
            },
            (Some(_), None) => {
                return Ordering::Greater;
            },
            (Some(x), Some(y)) => {
                if x < y {
                    return Ordering::Less;
                } else if y < x {
                    return Ordering::Greater;
                }
                assert(x == y);
                proof {
                    assert(a@.skip(k).drop_first() =~= a@.skip(k + 1));
                    assert(b@.skip(k).drop_first() =~= b@.skip(k + 1));
                    assert(a@.take(k + 1) =~= a@.take(k).push(x));
                    assert(b@.take(k + 1) =~= b@.take(k).push(y));
                    k = k + 1;
                }
            },
        }
    }
}

/// A key of a `.properties` file: the escaped text of a namespace. Two keys
/// are equal when their texts are, and they are ordered as their texts.
#[derive(Eq)]
pub struct PropKey(String);

impl PartialEq for PropKey {
    fn eq(&self, other: &PropKey) -> (r: bool) {
        match compare_text(self.0.as_str(), other.0.as_str()) {
            Ordering::Equal => true,
            _ => false,
        }
    }
}

impl vstd::std_specs::cmp::PartialEqSpecImpl for PropKey {
    open spec fn obeys_eq_spec() -> bool {
        true
    }

    open spec fn eq_spec(&self, other: &PropKey) -> bool {
        self@ == other@
    }
}

impl PartialOrd for PropKey {
    fn partial_cmp(&self, other: &PropKey) -> (r: Option<Ordering>) {
        Some(compare_text(self.0.as_str(), other.0.as_str()))
    }
}

impl vstd::std_specs::cmp::PartialOrdSpecImpl for PropKey {
    open spec fn obeys_partial_cmp_spec() -> bool {
        true
    }

    open spec fn partial_cmp_spec(&self, other: &PropKey) -> Option<Ordering> {
        if text_lt(self@, other@) {
            Some(Ordering::Less)
        } else if self@ == other@ {
            Some(Ordering::Equal)
        } else {
            Some(Ordering::Greater)
        }
    }
}

impl View for PropKey {
    type V = Seq<char>;

    closed spec fn view(&self) -> Seq<char> {
        self.0@
    }
}

impl PropKey {
    /// Escapes a namespace for use as a key. This is the one place where
    /// escaping happens, and it never fails.
    pub fn new(s: &str) -> (k: PropKey)
        ensures
            k@ == escape_key(s@),
    {
        let mut inner = String::new();
        let mut at_start = true;
        for c in it: s.chars()
            invariant
                it.seq() == s@,
                at_start == (it.index() == 0),
                inner@ == escape_key(s@.take(it.index() as int)),
        {
            let ghost i = it.index() as int;
            if at_start && c == '#' {
                inner.push('\\');
            }
            if c == ' ' || c == ':' || c == '=' {
                inner.push('\\');
            }
            inner.push(c);
            at_start = false;
            proof {
                assert(s@.take(i + 1).drop_last() =~= s@.take(i));
                assert(s@.take(i + 1).last() == c);
                if i == 0 {
                    assert(s@.take(0) =~= Seq::<char>::empty());
                }
            }
        }
        assert(s@.take(s@.len() as int) =~= s@);
        PropKey(inner)
    }

    /// The escaped key text.
    pub fn as_str(&self) -> (r: &str)
        ensures
            r@ == self@,
    {
        self.0.as_str()
    }

    /// Compares two keys in the order of their texts.
    pub fn compare(&self, other: &PropKey) -> (r: Ordering)
        ensures
            r == Ordering::Less <==> text_lt(self@, other@),
            r == Ordering::Equal <==> self@ == other@,
            r == Ordering::Greater <==> text_lt(other@, self@),
    {
        compare_text(self.0.as_str(), other.0.as_str())
    }
}

} // verus!
