//! Character-level helpers for the dotted names the checker works with.
//!
//! Member paths such as `s.a.b` are kept as single strings, so the analysis
//! needs to find the first and last `.`, split around them, test prefixes,
//! and join path pieces back together.  Everything here is specified over
//! the `Seq<char>` views of the strings involved.

use vstd::prelude::*;
use vstd::std_specs::iter::IteratorSpec;
use vstd::string::StringExecFns;

verus! {

/// True when `s` holds at least one occurrence of `c`.
pub open spec fn has_char(s: Seq<char>, c: char) -> bool {
    exists|i: int| 0 <= i < s.len() && s[i] == c
}

/// Index of the first occurrence of `c` in `s`; meaningful when `has_char(s, c)`.
pub open spec fn first_index_of(s: Seq<char>, c: char) -> int {
    choose|i: int| 0 <= i < s.len() && s[i] == c && (forall|j: int| 0 <= j < i ==> s[j] != c)
}

/// Index of the last occurrence of `c` in `s`; meaningful when `has_char(s, c)`.
pub open spec fn last_index_of(s: Seq<char>, c: char) -> int {
    choose|i: int|
        0 <= i < s.len() && s[i] == c && (forall|j: int| i < j < s.len() ==> s[j] != c)
}

/// The part of a dotted name before the first `.`; the whole name when it has none.
pub open spec fn first_segment(s: Seq<char>) -> Seq<char> {
    if has_char(s, '.') {
        s.subrange(0, first_index_of(s, '.'))
    } else {
        s
    }
}

/// The part of a dotted name before its last `.`; meaningful when it has one.
pub open spec fn parent_path(s: Seq<char>) -> Seq<char> {
    s.subrange(0, last_index_of(s, '.'))
}

/// The part of a dotted name after its last `.`; meaningful when it has one.
pub open spec fn last_segment(s: Seq<char>) -> Seq<char> {
    s.subrange(last_index_of(s, '.') + 1, s.len() as int)
}

/// `parts` joined with the separator `sep` between consecutive parts.
pub open spec fn join_with(parts: Seq<Seq<char>>, sep: Seq<char>) -> Seq<char>
    decreases parts.len(),
{
    if parts.len() == 0 {
        Seq::empty()
    } else if parts.len() == 1 {
        parts[0]
    } else {
        join_with(parts.drop_last(), sep) + sep + parts.last()
    }
}

/// A first occurrence of `c` is unique, so `first_index_of` is pinned by
/// the properties any witness shows.
pub proof fn lemma_first_index_unique(s: Seq<char>, c: char, i: int)
    requires
        0 <= i < s.len(),
        s[i] == c,
        forall|j: int| 0 <= j < i ==> s[j] != c,
    ensures
        first_index_of(s, c) == i,
{
    assert(has_char(s, c));
    let k = first_index_of(s, c);
    assert(0 <= k < s.len() && s[k] == c && (forall|j: int| 0 <= j < k ==> s[j] != c));
    if k < i {
        assert(s[k] != c);
    }
    if i < k {
        assert(s[i] != c);
    }
}

/// A last occurrence of `c` is unique as well.
pub proof fn lemma_last_index_unique(s: Seq<char>, c: char, i: int)
    requires
        0 <= i < s.len(),
        s[i] == c,
        forall|j: int| i < j < s.len() ==> s[j] != c,
    ensures
        last_index_of(s, c) == i,
{
    assert(has_char(s, c));
    let k = last_index_of(s, c);
    assert(0 <= k < s.len() && s[k] == c && (forall|j: int| k < j < s.len() ==> s[j] != c));
    if k < i {
        assert(s[i] != c);
    }
    if i < k {
        assert(s[k] != c);
    }
}

/// Where some occurrence of `c` exists, a first one does.
pub proof fn lemma_has_first(s: Seq<char>, c: char)
    requires
        has_char(s, c),
    ensures
        exists|i: int|
            0 <= i < s.len() && s[i] == c && (forall|j: int| 0 <= j < i ==> s[j] != c),
    decreases s.len(),
{
    if s[0] == c {
        assert(0 <= 0 < s.len() && s[0] == c && (forall|j: int| 0 <= j < 0 ==> s[j] != c));
    } else {
        let w = choose|w: int| 0 <= w < s.len() && s[w] == c;
        let sub = s.subrange(1, s.len() as int);
        assert(sub[w - 1] == c);
        assert(has_char(sub, c));
        lemma_has_first(sub, c);
        let k = choose|k: int|
            0 <= k < sub.len() && sub[k] == c && (forall|j: int| 0 <= j < k ==> sub[j] != c);
        assert(s[k + 1] == c);
        assert forall|j: int| 0 <= j < k + 1 implies s[j] != c by {
            if j >= 1 {
                assert(sub[j - 1] != c);
            }
        }
    }
}

/// Where some occurrence of `c` exists, a last one does.
pub proof fn lemma_has_last(s: Seq<char>, c: char)
    requires
        has_char(s, c),
    ensures
        exists|i: int|
            0 <= i < s.len() && s[i] == c && (forall|j: int| i < j < s.len() ==> s[j] != c),
    decreases s.len(),
{
    if s[s.len() - 1] == c {
        assert(0 <= s.len() - 1 < s.len() && s[s.len() - 1] == c && (forall|j: int|
            s.len() - 1 < j < s.len() ==> s[j] != c));
    } else {
        let w = choose|w: int| 0 <= w < s.len() && s[w] == c;
        let sub = s.subrange(0, s.len() - 1);
        assert(sub[w] == c);
        assert(has_char(sub, c));
        lemma_has_last(sub, c);
        let k = choose|k: int|
            0 <= k < sub.len() && sub[k] == c && (forall|j: int| k < j < sub.len() ==> sub[j] != c);
        assert(s[k] == c);
        assert forall|j: int| k < j < s.len() implies s[j] != c by {
            if j < s.len() - 1 {
                assert(sub[j] != c);
            }
        }
    }
}

/// A dotted name's parent path is strictly shorter than the name.
pub proof fn lemma_parent_shorter(s: Seq<char>)
    requires
        has_char(s, '.'),
    ensures
        0 <= last_index_of(s, '.') < s.len(),
        parent_path(s).len() < s.len(),
        parent_path(s) != s,
{
    lemma_has_last(s, '.');
    let d = last_index_of(s, '.');
    assert(0 <= d < s.len() && s[d] == '.');
    assert(parent_path(s).len() == d);
}

/// The first segment of a name holds no `.` itself.
pub proof fn lemma_first_segment_no_dot(s: Seq<char>)
    ensures
        !has_char(first_segment(s), '.'),
{
    if has_char(s, '.') {
        lemma_has_first(s, '.');
        let d = first_index_of(s, '.');
        assert(0 <= d < s.len() && s[d] == '.' && (forall|j: int| 0 <= j < d ==> s[j] != '.'));
        assert forall|j: int| 0 <= j < first_segment(s).len() implies first_segment(s)[j]
            != '.' by {
            assert(first_segment(s)[j] == s[j]);
        }
    }
}

/// The characters of `s`, in order, as a vector.
pub fn chars_vec(s: &str) -> (r: Vec<char>)
    ensures
        r@ == s@,
{
    broadcast use vstd::string::next_postcondition;
    broadcast use vstd::string::axiom_spec_iter;

    let mut it = s.chars();
    let mut r: Vec<char> = Vec::new();
    loop
        invariant
            it.obeys_prophetic_iter_laws(),
            IteratorSpec::decrease(&it) is Some,
            r@ + IteratorSpec::remaining(&it) == s@,
        ensures
            r@ == s@,
        decreases IteratorSpec::decrease(&it)->0,
    {
        match it.next() {
            Some(c) => {
                r.push(c);
                proof {
                    assert(r@ + IteratorSpec::remaining(&it) =~= s@);
                }
            },
            None => {
                proof {
                    assert(r@ =~= s@);
                }
                break ;
            },
        }
    }
    r
}

/// Relies on `String::push`: appends the given character to the end of the string.
#[verifier::external_body]
fn push_char(s: &mut String, c: char)
    ensures
        final(s)@ == old(s)@.push(c),
{
    s.push(c)
}

/// A string holding exactly the characters of `cs`, in order.
pub fn string_from_chars(cs: &[char]) -> (r: String)
    ensures
        r@ == cs@,
{
    let mut r = String::new();
    let n = cs.len();
    let mut i: usize = 0;
    while i < n
        invariant
            n == cs@.len(),
            i <= n,
            r@ == cs@.subrange(0, i as int),
        decreases n - i,
    {
        push_char(&mut r, cs[i]);
        proof {
            assert(cs@.subrange(0, i as int).push(cs@[i as int]) =~= cs@.subrange(
                0,
                i as int + 1,
            ));
        }
        i = i + 1;
    }
    proof {
        assert(cs@.subrange(0, n as int) =~= cs@);
    }
    r
}

/// `a` followed by `b`.
pub fn concat_str(a: &str, b: &str) -> (r: String)
    ensures
        r@ == a@ + b@,
{
    let mut r = a.to_owned();
    r.append(b);
    r
}

/// Whether `a` and `b` hold the same characters.
pub fn str_eq(a: &str, b: &str) -> (r: bool)
    ensures
        r == (a@ == b@),
{
    let ca = chars_vec(a);
    let cb = chars_vec(b);
    let n = ca.len();
    if n != cb.len() {
        proof {
            assert(a@ != b@);
        }
        return false;
    }
    let mut i: usize = 0;
    while i < n
        invariant
            n == ca@.len(),
            n == cb@.len(),
            ca@ == a@,
            cb@ == b@,
            i <= n,
            forall|j: int| 0 <= j < i ==> a@[j] == b@[j],
        decreases n - i,
    {
        if ca[i] != cb[i] {
            proof {
                assert(a@[i as int] != b@[i as int]);
            }
            return false;
        }
        i = i + 1;
    }
    proof {
        assert(a@ =~= b@);
    }
    true
}

/// Whether `s` holds a `.` anywhere.
pub fn contains_dot(s: &str) -> (r: bool)
    ensures
        r == has_char(s@, '.'),
{
    let cs = chars_vec(s);
    let n = cs.len();
    let mut i: usize = 0;
    while i < n
        invariant
            n == cs@.len(),
            cs@ == s@,
            i <= n,
            forall|j: int| 0 <= j < i ==> s@[j] != '.',
        decreases n - i,
    {
        if cs[i] == '.' {
            return true;
        }
        i = i + 1;
    }
    false
}

/// The piece of `name` before the first `.`, or all of `name` when it has none.
pub fn first_segment_of(name: &str) -> (r: String)
    ensures
        r@ == first_segment(name@),
{
    let cs = chars_vec(name);
    let n = cs.len();
    let mut i: usize = 0;
    while i < n
        invariant
            n == cs@.len(),
            cs@ == name@,
            i <= n,
            forall|j: int| 0 <= j < i ==> name@[j] != '.',
        decreases n - i,
    {
        if cs[i] == '.' {
            proof {
                lemma_first_index_unique(name@, '.', i as int);
            }
            return string_from_chars(vstd::slice::slice_subrange(cs.as_slice(), 0, i));
        }
        i = i + 1;
    }
    proof {
        assert(!has_char(name@, '.'));
        assert(cs@.subrange(0, n as int) =~= name@);
    }
    string_from_chars(cs.as_slice())
}

/// Splits `name` around its last `.`: the parent path and the final segment.
/// Returns `None` when `name` has no `.`.
pub fn split_last_segment(name: &str) -> (r: Option<(String, String)>)
    ensures
        match r {
            Option::Some(pair) => has_char(name@, '.') && pair.0@ == parent_path(name@)
                && pair.1@ == last_segment(name@) && pair.0@.len() < name@.len(),
            Option::None => !has_char(name@, '.'),
        },
{
    let cs = chars_vec(name);
    let n = cs.len();
    let mut i: usize = n;
    while i > 0
        invariant
            n == cs@.len(),
            cs@ == name@,
            i <= n,
            forall|j: int| i <= j < n ==> name@[j] != '.',
        decreases i,
    {
        i = i - 1;
        if cs[i] == '.' {
            proof {
                lemma_last_index_unique(name@, '.', i as int);
            }
            let parent = string_from_chars(vstd::slice::slice_subrange(cs.as_slice(), 0, i));
            let field = string_from_chars(vstd::slice::slice_subrange(cs.as_slice(), i + 1, n));
            return Option::Some((parent, field));
        }
    }
    proof {
        assert(!has_char(name@, '.'));
    }
    Option::None
}

/// Whether `prefix` is a prefix of `name`.
pub fn has_prefix(name: &str, prefix: &str) -> (r: bool)
    ensures
        r == prefix@.is_prefix_of(name@),
{
    let cs = chars_vec(name);
    let ps = chars_vec(prefix);
    let n = cs.len();
    let m = ps.len();
    if m > n {
        proof {
            assert(!prefix@.is_prefix_of(name@));
        }
        return false;
    }
    let mut i: usize = 0;
    while i < m
        invariant
            n == cs@.len(),
            m == ps@.len(),
            m <= n,
            cs@ == name@,
            ps@ == prefix@,
            i <= m,
            forall|j: int| 0 <= j < i ==> name@[j] == prefix@[j],
        decreases m - i,
    {
        if cs[i] != ps[i] {
            proof {
                assert(!prefix@.is_prefix_of(name@)) by {
                    assert(name@[i as int] != prefix@[i as int]);
                }
            }
            return false;
        }
        i = i + 1;
    }
    proof {
        assert(prefix@.is_prefix_of(name@)) by {
            assert(prefix@ =~= name@.subrange(0, m as int));
        }
    }
    true
}

/// A copy of the strings, value for value.
pub fn clone_strings(v: &Vec<String>) -> (r: Vec<String>)
    ensures
        r@ == v@,
{
    let n = v.len();
    let mut r: Vec<String> = Vec::new();
    let mut i: usize = 0;
    while i < n
        invariant
            n == v@.len(),
            i <= n,
            r@.len() == i,
            forall|j: int| 0 <= j < i ==> r@[j] == v@[j],
        decreases n - i,
    {
        r.push(v[i].clone());
        i = i + 1;
    }
    proof {
        assert(r@ =~= v@);
    }
    r
}

/// `parts` joined with `sep` between consecutive parts.
pub fn join_all(parts: &Vec<String>, sep: &str) -> (r: String)
    ensures
        r@ == join_with(parts.deep_view(), sep@),
{
    let n = parts.len();
    if n == 0 {
        return String::new();
    }
    let mut r: String = parts[0].clone();
    let mut i: usize = 1;
    while i < n
        invariant
            n == parts@.len(),
            1 <= i <= n,
            r@ == join_with(parts.deep_view().subrange(0, i as int), sep@),
        decreases n - i,
    {
        r.append(sep);
        r.append(parts[i].as_str());
        proof {
            let pv = parts.deep_view();
            assert(pv.subrange(0, i as int + 1).drop_last() =~= pv.subrange(0, i as int));
            assert(pv.subrange(0, i as int + 1).last() == pv[i as int]);
        }
        i = i + 1;
    }
    proof {
        assert(parts.deep_view().subrange(0, n as int) =~= parts.deep_view());
        assert(parts.deep_view().subrange(0, 1).drop_last() =~= Seq::<Seq<char>>::empty());
    }
    r
}

} // verus!
