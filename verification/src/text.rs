//! Character-level utilities shared by the segmenter, the tokenizer and the
//! resolver: whitespace trimming, string/character-vector conversions, and
//! ASCII lowercasing, each tied to a mathematical description over `Seq<char>`.

use vstd::prelude::*;
use vstd::string::*;

verus! {

/// The whitespace characters trimmed from line and segment boundaries.
pub open spec fn is_line_space(c: char) -> bool {
    c == ' ' || c == '\t' || c == '\n' || c == '\r'
}

/// `s` with its leading whitespace removed.
pub open spec fn trim_start_spec(s: Seq<char>) -> Seq<char>
    decreases s.len(),
{
    if s.len() > 0 && is_line_space(s[0]) {
        trim_start_spec(s.drop_first())
    } else {
        s
    }
}

/// `s` with its trailing whitespace removed.
pub open spec fn trim_end_spec(s: Seq<char>) -> Seq<char>
    decreases s.len(),
{
    if s.len() > 0 && is_line_space(s.last()) {
        trim_end_spec(s.drop_last())
    } else {
        s
    }
}

/// `s` with both leading and trailing whitespace removed.
pub open spec fn trim_spec(s: Seq<char>) -> Seq<char> {
    trim_end_spec(trim_start_spec(s))
}

/// Trimming the front keeps exactly the suffix that starts at the first
/// non-whitespace character.
proof fn lemma_trim_start_bound(s: Seq<char>, k: int)
    requires
        0 <= k <= s.len(),
        forall|j: int| 0 <= j < k ==> is_line_space(s[j]),
        k == s.len() || !is_line_space(s[k]),
    ensures
        trim_start_spec(s) == s.subrange(k, s.len() as int),
    decreases k,
{
    if k == 0 {
        assert(s.subrange(0, s.len() as int) =~= s);
    } else {
        let s1 = s.drop_first();
        assert(forall|j: int| 0 <= j < k - 1 ==> is_line_space(s1[j]));
        lemma_trim_start_bound(s1, k - 1);
        assert(s1.subrange(k - 1, s1.len() as int) =~= s.subrange(k, s.len() as int));
    }
}

/// Trimming the back keeps exactly the prefix that ends at the last
/// non-whitespace character.
proof fn lemma_trim_end_bound(s: Seq<char>, k: int)
    requires
        0 <= k <= s.len(),
        forall|j: int| k <= j < s.len() ==> is_line_space(s[j]),
        k == 0 || !is_line_space(s[k - 1]),
    ensures
        trim_end_spec(s) == s.subrange(0, k),
    decreases s.len() - k,
{
    if k == s.len() {
        assert(s.subrange(0, k) =~= s);
    } else {
        let s1 = s.drop_last();
        assert(is_line_space(s.last()));
        assert(forall|j: int| k <= j < s1.len() ==> is_line_space(s1[j]));
        lemma_trim_end_bound(s1, k);
        assert(s1.subrange(0, k) =~= s.subrange(0, k));
    }
}

/// A sequence without any whitespace character trims to itself.
pub(crate) proof fn lemma_trim_no_space(s: Seq<char>)
    requires
        forall|j: int| 0 <= j < s.len() ==> !is_line_space(s[j]),
    ensures
        trim_spec(s) == s,
{
    lemma_trim_start_bound(s, 0);
    assert(s.subrange(0, s.len() as int) =~= s);
    lemma_trim_end_bound(s, s.len() as int);
}

/// Whether `c` is one of the whitespace characters that trimming removes.
pub(crate) fn is_space_char(c: char) -> (r: bool)
    ensures
        r == is_line_space(c),
{
    c == ' ' || c == '\t' || c == '\n' || c == '\r'
}

/// The characters of `s`, in order, as a vector.
pub(crate) fn str_to_chars(s: &str) -> (r: Vec<char>)
    ensures
        r@ == s@,
{
    let n = s.unicode_len();
    let mut r: Vec<char> = Vec::new();
    let mut i: usize = 0;
    while i < n
        invariant
            n == s@.len(),
            i <= n,
            r@ == s@.subrange(0, i as int),
        decreases n - i,
    {
        r.push(s.get_char(i));
        assert(r@ =~= s@.subrange(0, i + 1));
        i += 1;
    }
    assert(s@.subrange(0, n as int) =~= s@);
    r
}

/// Relies on `String`'s `FromIterator<char>`: collecting characters yields
/// the string holding exactly those characters in order.
#[verifier::external_body]
pub(crate) fn chars_to_string(cs: &Vec<char>) -> (r: String)
    ensures
        r@ == cs@,
{
    cs.iter().collect()
}

/// `v` with leading and trailing whitespace characters removed.
pub(crate) fn trim_chars(v: &Vec<char>) -> (r: Vec<char>)
    ensures
        r@ == trim_spec(v@),
{
    let n = v.len();
    let mut a: usize = 0;
    while a < n && is_space_char(v[a])
        invariant
            a <= n,
            n == v@.len(),
            forall|j: int| 0 <= j < a ==> is_line_space(v@[j]),
        decreases n - a,
    {
        a += 1;
    }
    let mut b: usize = n;
    while b > a && is_space_char(v[b - 1])
        invariant
            a <= b <= n,
            n == v@.len(),
            forall|j: int| b <= j < n ==> is_line_space(v@[j]),
        decreases b,
    {
        b -= 1;
    }
    let mut r: Vec<char> = Vec::new();
    let mut i: usize = a;
    while i < b
        invariant
            a <= i <= b <= n,
            n == v@.len(),
            r@ == v@.subrange(a as int, i as int),
        decreases b - i,
    {
        r.push(v[i]);
        assert(r@ =~= v@.subrange(a as int, i + 1));
        i += 1;
    }
    proof {
        lemma_trim_start_bound(v@, a as int);
        let t = v@.subrange(a as int, n as int);
        assert(forall|j: int| (b - a) <= j < t.len() ==> is_line_space(#[trigger] t[j]));
        lemma_trim_end_bound(t, b - a);
        assert(t.subrange(0, b - a) =~= v@.subrange(a as int, b as int));
    }
    r
}

/// Whether the characters of `v` are exactly the characters of `s`.
pub(crate) fn chars_eq_str(v: &Vec<char>, s: &str) -> (r: bool)
    ensures
        r == (v@ == s@),
{
    let n = s.unicode_len();
    if v.len() != n {
        proof {
            if v@ == s@ {
                assert(v@.len() == s@.len());
            }
        }
        return false;
    }
    let mut i: usize = 0;
    while i < n
        invariant
            i <= n,
            n == s@.len(),
            v@.len() == n,
            forall|j: int| 0 <= j < i ==> v@[j] == s@[j],
        decreases n - i,
    {
        if v[i] != s.get_char(i) {
            proof {
                if v@ == s@ {
                    assert(v@[i as int] == s@[i as int]);
                }
            }
            return false;
        }
        i += 1;
    }
    proof {
        assert(v@ =~= s@);
    }
    true
}

/// The character sequences held by a sequence of strings, in order.
pub open spec fn views_of(ts: Seq<String>) -> Seq<Seq<char>> {
    Seq::new(ts.len(), |i: int| ts[i]@)
}

/// ASCII lowercasing of a single character: `A`..`Z` map to `a`..`z`, every
/// other character is unchanged.
pub open spec fn lower_char(c: char) -> char {
    if 65 <= c as u32 && c as u32 <= 90 {
        (((c as u32) + 32) as u8) as char
    } else {
        c
    }
}

/// `s` with each character ASCII-lowercased.
pub open spec fn lower_seq(s: Seq<char>) -> Seq<char> {
    Seq::new(s.len(), |i: int| lower_char(s[i]))
}

/// `v` with each character ASCII-lowercased.
pub(crate) fn lower_chars(v: &Vec<char>) -> (r: Vec<char>)
    ensures
        r@ == lower_seq(v@),
{
    let n = v.len();
    let mut r: Vec<char> = Vec::new();
    let mut i: usize = 0;
    while i < n
        invariant
            i <= n,
            n == v@.len(),
            r@ == lower_seq(v@).subrange(0, i as int),
        decreases n - i,
    {
        let c = v[i];
        let u = c as u32;
        let low: char = if 65 <= u && u <= 90 {
            ((u as u8) + 32) as char
        } else {
            c
        };
        assert(low == lower_char(c));
        r.push(low);
        assert(r@ =~= lower_seq(v@).subrange(0, i + 1));
        i += 1;
    }
    assert(lower_seq(v@).subrange(0, n as int) =~= lower_seq(v@));
    r
}

} // verus!
