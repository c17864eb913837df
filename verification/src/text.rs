//! Conversions between strings and character vectors, so the engine's
//! verified text processing can work char by char.

use vstd::prelude::*;

verus! {

/// Relies on str::chars (iterated to completion): the characters of the
/// string, in order.
#[verifier::external_body]
pub fn chars_of(s: &str) -> (r: Vec<char>)
    ensures
        r@ == s@,
{
    s.chars().collect()
}

/// Relies on String's FromIterator over char: the string holding exactly
/// the given characters, in order.
#[verifier::external_body]
pub fn string_from_chars(v: &Vec<char>) -> (r: String)
    ensures
        r@ == v@,
{
    v.iter().collect()
}


/// Index of the first occurrence of `sep` in `s`, or `s.len()` when there
/// is none.
pub open spec fn first_sep(s: Seq<char>, sep: char) -> nat
    decreases s.len(),
{
    if s.len() == 0 {
        0
    } else if s[0] == sep {
        0
    } else {
        1 + first_sep(s.drop_first(), sep)
    }
}

proof fn lemma_first_sep_at(s: Seq<char>, sep: char, k: int)
    requires
        0 <= k <= s.len(),
        forall|j: int| 0 <= j < k ==> s[j] != sep,
        k < s.len() ==> s[k] == sep,
    ensures
        first_sep(s, sep) == k,
    decreases k,
{
    if k == 0 {
    } else {
        lemma_first_sep_at(s.drop_first(), sep, k - 1);
    }
}

/// The `sep`-separated fields of `s`, in order; always at least one.
pub open spec fn split_on(s: Seq<char>, sep: char) -> Seq<Seq<char>>
    decreases s.len(),
{
    let k = first_sep(s, sep);
    if k >= s.len() {
        seq![s]
    } else {
        seq![s.take(k as int)] + split_on(s.skip(k as int + 1), sep)
    }
}

/// Characters `v[a .. b]` as a fresh vector.
pub fn chars_range(v: &Vec<char>, a: usize, b: usize) -> (r: Vec<char>)
    requires
        a <= b <= v@.len(),
    ensures
        r@ == v@.subrange(a as int, b as int),
{
    let mut r: Vec<char> = Vec::new();
    let mut k = a;
    while k < b
        invariant
            a <= k <= b <= v@.len(),
            r@ == v@.subrange(a as int, k as int),
        decreases b - k,
    {
        r.push(v[k]);
        proof {
            assert(r@ =~= v@.subrange(a as int, k as int + 1));
        }
        k += 1;
    }
    r
}

/// Splits `v[pos ..]` on `sep` into owned fields.
pub fn split_from(v: &Vec<char>, pos: usize, sep: char) -> (r: Vec<String>)
    requires
        pos <= v@.len(),
    ensures
        r@.map(|i: int, s: String| s@) == split_on(v@.skip(pos as int), sep),
        r@.len() >= 1,
    decreases v@.len() - pos,
{
    let n = v.len();
    let mut k = pos;
    while k < n && v[k] != sep
        invariant
            pos <= k <= n,
            n == v@.len(),
            forall|j: int| pos <= j < k ==> v@[j] != sep,
        decreases n - k,
    {
        k += 1;
    }
    let ghost s = v@.skip(pos as int);
    proof {
        assert forall|j: int| 0 <= j < k - pos implies s[j] != sep by {
            assert(s[j] == v@[pos + j]);
        }
        if k < n {
            assert(s[k - pos] == v@[k as int]);
        }
        lemma_first_sep_at(s, sep, k - pos);
    }
    let seg_chars = chars_range(v, pos, k);
    let seg = string_from_chars(&seg_chars);
    proof {
        assert(seg@ =~= s.take(k - pos));
    }
    if k == n {
        let r = vec![seg];
        proof {
            assert(s.take(k - pos) =~= s);
            assert(r@.map(|i: int, t: String| t@) =~= split_on(s, sep));
        }
        r
    } else {
        let mut rest = split_from(v, k + 1, sep);
        let mut r = vec![seg];
        r.append(&mut rest);
        proof {
            assert(s.skip((k - pos) + 1) =~= v@.skip(k + 1));
            assert(r@.map(|i: int, t: String| t@) =~= split_on(s, sep));
        }
        r
    }
}

} // verus!
