//! Character-level helpers: whitespace, leading-whitespace normalisation and
//! decimal rendering of indices.
use vstd::prelude::*;

verus! {

/// Relies on `String::push`: the character is appended at the end.
pub assume_specification[ std::string::String::push ](s: &mut std::string::String, ch: char)
    ensures
        final(s)@ == old(s)@.push(ch),
;

/// The Unicode `White_Space` property, the set that `char::is_whitespace` tests.
pub open spec fn is_white_space(c: char) -> bool {
    let u = c as u32;
    ||| 0x09 <= u <= 0x0d
    ||| u == 0x20
    ||| u == 0x85
    ||| u == 0xa0
    ||| u == 0x1680
    ||| 0x2000 <= u <= 0x200a
    ||| u == 0x2028
    ||| u == 0x2029
    ||| u == 0x202f
    ||| u == 0x205f
    ||| u == 0x3000
}

/// Tests a character for the Unicode `White_Space` property.
pub fn is_white_space_char(c: char) -> (r: bool)
    ensures
        r == is_white_space(c),
{
    let u = c as u32;
    (0x09 <= u && u <= 0x0d) || u == 0x20 || u == 0x85 || u == 0xa0 || u == 0x1680 || (0x2000
        <= u && u <= 0x200a) || u == 0x2028 || u == 0x2029 || u == 0x202f || u == 0x205f || u
        == 0x3000
}

/// Whether a text begins with a whitespace character.
pub open spec fn starts_with_white_space(s: Seq<char>) -> bool {
    s.len() > 0 && is_white_space(s[0])
}

/// The text with its leading whitespace removed.
pub open spec fn trim_start(s: Seq<char>) -> Seq<char>
    decreases s.len(),
{
    if starts_with_white_space(s) {
        trim_start(s.drop_first())
    } else {
        s
    }
}

/// A value prepared for the right-hand side of a `.properties` entry: leading
/// whitespace is either dropped or protected by one backslash; everything else,
/// trailing whitespace included, is kept.
pub open spec fn normalised(s: Seq<char>, discard_wsp: bool) -> Seq<char> {
    if !starts_with_white_space(s) {
        s
    } else if discard_wsp {
        trim_start(s)
    } else {
        seq!['\\'] + s
    }
}

proof fn lemma_trim_start_skip(s: Seq<char>, k: int)
    requires
        0 <= k <= s.len(),
        forall|j: int| 0 <= j < k ==> is_white_space(#[trigger] s[j]),
    ensures
        trim_start(s) == trim_start(s.skip(k)),
    decreases k,
{
    if k > 0 {
        assert(s.skip(1) =~= s.drop_first());
        lemma_trim_start_skip(s.drop_first(), k - 1);
        assert(s.drop_first().skip(k - 1) =~= s.skip(k));
    } else {
        assert(s.skip(0) =~= s);
    }
}

/// Normalises the leading whitespace of a value.
///
/// With `discard_wsp` the leading whitespace is trimmed (`"  bar"` becomes
/// `"bar"`); without it a backslash is put in front (`"  bar"` becomes
/// `"\  bar"`). A value that does not start with whitespace is returned as it is.
pub fn normalise(value: String, discard_wsp: bool) -> (r: String)
    ensures
        r@ == normalised(value@, discard_wsp),
{
    let s = value.as_str();
    let n = s.unicode_len();
    if n == 0 || !is_white_space_char(s.get_char(0)) {
        return value;
    }
    if discard_wsp {
        let mut k: usize = 1;
        while k < n && is_white_space_char(s.get_char(k))
            invariant
                1 <= k <= n,
                n == s@.len(),
                forall|j: int| 0 <= j < k ==> is_white_space(#[trigger] s@[j]),
            decreases n - k,
        {
            k = k + 1;
        }
        proof {
            lemma_trim_start_skip(s@, k as int);
        }
        let rest = s.substring_char(k, n);
        assert(rest@ =~= s@.skip(k as int));
        String::from_str(rest)
    } else {
        let mut r = String::new();
        r.push('\\');
        r.append(s);
        r
    }
}

/// The decimal digits of a natural number, most significant first.
pub open spec fn decimal(n: nat) -> Seq<char>
    decreases n,
{
    if n < 10 {
        seq![digit_char(n)]
    } else {
        decimal(n / 10) + seq![digit_char(n % 10)]
    }
}

pub open spec fn digit_char(d: nat) -> char {
    if d == 0 {
        '0'
    } else if d == 1 {
        '1'
    } else if d == 2 {
        '2'
    } else if d == 3 {
        '3'
    } else if d == 4 {
        '4'
    } else if d == 5 {
        '5'
    } else if d == 6 {
        '6'
    } else if d == 7 {
        '7'
    } else if d == 8 {
        '8'
    } else {
        '9'
    }
}

fn digit(d: usize) -> (c: char)
    requires
        d < 10,
    ensures
        c == digit_char(d as nat),
{
    if d == 0 {
        '0'
    } else if d == 1 {
        '1'
    } else if d == 2 {
        '2'
    } else if d == 3 {
        '3'
    } else if d == 4 {
        '4'
    } else if d == 5 {
        '5'
    } else if d == 6 {
        '6'
    } else if d == 7 {
        '7'
    } else if d == 8 {
        '8'
    } else {
        '9'
    }
}

/// Renders an index as decimal text, as used for the namespace of an array element.
pub fn index_text(n: usize) -> (r: String)
    ensures
        r@ == decimal(n as nat),
    decreases n,
{
    if n < 10 {
        let mut r = String::new();
        r.push(digit(n));
        r
    } else {
        let mut r = index_text(n / 10);
        r.push(digit(n % 10));
        r
    }
}

} // verus!
