//! Small verified helpers on character vectors.

use vstd::prelude::*;

verus! {

/// Copy `corpus[a..b]` into a fresh vector.
pub fn copy_range(corpus: &Vec<char>, a: usize, b: usize) -> (r: Vec<char>)
    requires
        a <= b <= corpus.len(),
    ensures
        r@ == corpus@.subrange(a as int, b as int),
{
    let mut r: Vec<char> = Vec::new();
    let mut j = a;
    while j < b
        invariant
            a <= j <= b <= corpus.len(),
            r@ == corpus@.subrange(a as int, j as int),
        decreases b - j,
    {
        r.push(corpus[j]);
        proof {
            assert(corpus@.subrange(a as int, j + 1) =~= corpus@.subrange(a as int, j as int).push(
                corpus@[j as int],
            ));
        }
        j += 1;
    }
    r
}

/// Copy a whole character vector.
pub fn clone_chars(a: &Vec<char>) -> (r: Vec<char>)
    ensures
        r@ == a@,
{
    let r = copy_range(a, 0, a.len());
    proof {
        assert(a@.subrange(0, a@.len() as int) =~= a@);
    }
    r
}

/// Append `src` to the end of `dst`.
pub fn append_chars(dst: &mut Vec<char>, src: &Vec<char>)
    ensures
        final(dst)@ == old(dst)@ + src@,
{
    let ghost dst0 = dst@;
    let mut j: usize = 0;
    while j < src.len()
        invariant
            j <= src.len(),
            dst@ == dst0 + src@.subrange(0, j as int),
        decreases src.len() - j,
    {
        dst.push(src[j]);
        proof {
            assert(dst0 + src@.subrange(0, j + 1) =~= (dst0 + src@.subrange(0, j as int)).push(
                src@[j as int],
            ));
        }
        j += 1;
    }
    proof {
        assert(dst0 + src@.subrange(0, src@.len() as int) =~= dst0 + src@);
    }
}

/// Compare two character vectors for equal content.
pub fn chars_eq(a: &Vec<char>, b: &Vec<char>) -> (r: bool)
    ensures
        r == (a@ == b@),
{
    if a.len() != b.len() {
        return false;
    }
    let mut i: usize = 0;
    while i < a.len()
        invariant
            i <= a.len(),
            a@.len() == b@.len(),
            forall|t: int| 0 <= t < i ==> a@[t] == b@[t],
        decreases a.len() - i,
    {
        if a[i] != b[i] {
            return false;
        }
        i += 1;
    }
    proof {
        assert(a@ =~= b@);
    }
    true
}

/// Whether the vector holds the character `c` anywhere.
pub fn contains_char(v: &Vec<char>, c: char) -> (r: bool)
    ensures
        r == v@.contains(c),
{
    let mut i: usize = 0;
    while i < v.len()
        invariant
            i <= v.len(),
            forall|t: int| 0 <= t < i ==> v@[t] != c,
        decreases v.len() - i,
    {
        if v[i] == c {
            return true;
        }
        i += 1;
    }
    false
}

/// Whether the vector is non-empty and ends with a period character.
pub fn ends_with_period(v: &Vec<char>) -> (r: bool)
    ensures
        r == (v@.len() > 0 && v@.last() == '.'),
{
    if v.len() == 0 {
        false
    } else {
        v[v.len() - 1] == '.'
    }
}

} // verus!
