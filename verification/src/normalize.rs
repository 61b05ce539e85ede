//! The corpus normalizer: raw text becomes the canonical character sequence
//! the matrix is built from.
//!
//! Normalization replaces every newline and every soft hyphen with a space,
//! trims leading and trailing whitespace, and collapses every run of spaces
//! to a single space. [`spec_normalize`] states the whole transformation;
//! [`normalize_corpus`] returns exactly that sequence.

use vstd::prelude::*;

use crate::chars::copy_range;
use crate::unicode::{char_is_whitespace, is_whitespace_char};

verus! {

/// A newline or a soft hyphen becomes a space; everything else stays.
pub open spec fn canonical_char(c: char) -> char {
    if c == '\n' || c == '\u{ad}' {
        ' '
    } else {
        c
    }
}

/// Every character replaced by its canonical form.
pub open spec fn spec_replace(s: Seq<char>) -> Seq<char> {
    Seq::new(s.len(), |i: int| canonical_char(s[i]))
}

/// The sequence with leading whitespace removed.
pub open spec fn spec_trim_front(s: Seq<char>) -> Seq<char>
    decreases s.len(),
{
    if s.len() > 0 && is_whitespace_char(s.first()) {
        spec_trim_front(s.drop_first())
    } else {
        s
    }
}

/// The sequence with trailing whitespace removed.
pub open spec fn spec_trim_back(s: Seq<char>) -> Seq<char>
    decreases s.len(),
{
    if s.len() > 0 && is_whitespace_char(s.last()) {
        spec_trim_back(s.drop_last())
    } else {
        s
    }
}

/// Every run of spaces collapsed to a single space.
pub open spec fn spec_collapse(s: Seq<char>) -> Seq<char>
    decreases s.len(),
{
    if s.len() == 0 {
        Seq::empty()
    } else if s.len() >= 2 && s[0] == ' ' && s[1] == ' ' {
        spec_collapse(s.drop_first())
    } else {
        seq![s[0]] + spec_collapse(s.drop_first())
    }
}

/// The normalized form of a raw corpus: canonical characters, trimmed at both
/// ends, with space runs collapsed.
pub open spec fn spec_normalize(s: Seq<char>) -> Seq<char> {
    spec_collapse(spec_trim_back(spec_trim_front(spec_replace(s))))
}

/// Removing `k` leading whitespace characters, up to the first one that is
/// not whitespace, is what trimming the front does.
proof fn lemma_trim_front_skip(s: Seq<char>, k: int)
    requires
        0 <= k <= s.len(),
        forall|t: int| 0 <= t < k ==> is_whitespace_char(#[trigger] s[t]),
        k < s.len() ==> !is_whitespace_char(s[k]),
    ensures
        spec_trim_front(s) == s.skip(k),
    decreases k,
{
    if k == 0 {
        assert(s.skip(0) =~= s);
    } else {
        assert(is_whitespace_char(s.first()));
        assert forall|t: int| 0 <= t < k - 1 implies is_whitespace_char(
            #[trigger] s.drop_first()[t],
        ) by {
            assert(s.drop_first()[t] == s[t + 1]);
        }
        assert(k - 1 < s.drop_first().len() ==> s.drop_first()[k - 1] == s[k]);
        lemma_trim_front_skip(s.drop_first(), k - 1);
        assert(s.drop_first().skip(k - 1) =~= s.skip(k));
    }
}

/// Keeping the first `b` characters, where everything after them is
/// whitespace and the last kept one is not, is what trimming the back does.
proof fn lemma_trim_back_take(s: Seq<char>, b: int)
    requires
        0 <= b <= s.len(),
        forall|t: int| b <= t < s.len() ==> is_whitespace_char(#[trigger] s[t]),
        b > 0 ==> !is_whitespace_char(s[b - 1]),
    ensures
        spec_trim_back(s) == s.take(b),
    decreases s.len() - b,
{
    if b == s.len() {
        assert(s.take(b) =~= s);
    } else {
        assert(is_whitespace_char(s.last()));
        lemma_trim_back_take(s.drop_last(), b);
        assert(s.drop_last().take(b) =~= s.take(b));
    }
}

/// Normalize a raw corpus.
pub fn normalize_corpus(input: &Vec<char>) -> (r: Vec<char>)
    ensures
        r@ == spec_normalize(input@),
{
    // canonical characters
    let mut canon: Vec<char> = Vec::new();
    let n = input.len();
    let mut i: usize = 0;
    while i < n
        invariant
            i <= n,
            n == input@.len(),
            canon@ =~= spec_replace(input@).take(i as int),
        decreases n - i,
    {
        let c = input[i];
        let c2 = if c == '\n' || c == '\u{ad}' {
            ' '
        } else {
            c
        };
        canon.push(c2);
        proof {
            assert(spec_replace(input@).take(i + 1) =~= spec_replace(input@).take(i as int).push(
                canonical_char(input@[i as int]),
            ));
        }
        i += 1;
    }
    proof {
        assert(spec_replace(input@).take(n as int) =~= spec_replace(input@));
    }
    // trim the front
    let len = canon.len();
    let mut a: usize = 0;
    while a < len
        invariant
            a <= len,
            len == canon@.len(),
            forall|t: int| 0 <= t < a ==> is_whitespace_char(#[trigger] canon@[t]),
        ensures
            a <= len,
            forall|t: int| 0 <= t < a ==> is_whitespace_char(#[trigger] canon@[t]),
            a < len ==> !is_whitespace_char(canon@[a as int]),
        decreases len - a,
    {
        if !char_is_whitespace(canon[a]) {
            break ;
        }
        a += 1;
    }
    // trim the back
    let mut b: usize = len;
    while b > a
        invariant
            a <= b <= len,
            len == canon@.len(),
            forall|t: int| b <= t < len ==> is_whitespace_char(#[trigger] canon@[t]),
        ensures
            a <= b <= len,
            forall|t: int| b <= t < len ==> is_whitespace_char(#[trigger] canon@[t]),
            b > a ==> !is_whitespace_char(canon@[b - 1]),
        decreases b,
    {
        if !char_is_whitespace(canon[b - 1]) {
            break ;
        }
        b -= 1;
    }
    let trimmed = copy_range(&canon, a, b);
    proof {
        lemma_trim_front_skip(canon@, a as int);
        let sk = canon@.skip(a as int);
        assert forall|t: int| b - a <= t < sk.len() implies is_whitespace_char(
            #[trigger] sk[t],
        ) by {
            assert(sk[t] == canon@[t + a]);
        }
        if b > a {
            assert(sk[b - a - 1] == canon@[b - 1]);
        }
        if b == a && a < len {
            // unreachable: the front scan stopped at a non-whitespace
            // character, which the back scan cannot have stepped past
            assert(is_whitespace_char(canon@[a as int]));
            assert(false);
        }
        lemma_trim_back_take(sk, b - a);
        assert(sk.take(b - a) =~= canon@.subrange(a as int, b as int));
    }
    // collapse runs of spaces
    let tlen = trimmed.len();
    let mut out: Vec<char> = Vec::new();
    proof {
        assert(trimmed@.skip(0) =~= trimmed@);
        assert(out@ + spec_collapse(trimmed@) =~= spec_collapse(trimmed@));
    }
    let mut j: usize = 0;
    while j < tlen
        invariant
            j <= tlen,
            tlen == trimmed@.len(),
            out@ + spec_collapse(trimmed@.skip(j as int)) == spec_collapse(trimmed@),
        decreases tlen - j,
    {
        let ghost rest = trimmed@.skip(j as int);
        proof {
            assert(rest.len() > 0);
            assert(rest.drop_first() =~= trimmed@.skip(j + 1));
            assert(rest[0] == trimmed@[j as int]);
            if rest.len() >= 2 {
                assert(rest[1] == trimmed@[j + 1]);
            }
        }
        if j + 1 < tlen && trimmed[j] == ' ' && trimmed[j + 1] == ' ' {
            proof {
                assert(spec_collapse(rest) == spec_collapse(trimmed@.skip(j + 1)));
            }
        } else {
            let ghost out0 = out@;
            out.push(trimmed[j]);
            proof {
                assert(spec_collapse(rest) == seq![rest[0]] + spec_collapse(rest.drop_first()));
                assert(out@ =~= out0.push(trimmed@[j as int]));
                assert(out0 + (seq![rest[0]] + spec_collapse(rest.drop_first())) =~= out@
                    + spec_collapse(trimmed@.skip(j + 1)));
            }
        }
        j += 1;
    }
    proof {
        assert(trimmed@.skip(tlen as int) =~= Seq::<char>::empty());
        assert(out@ + Seq::<char>::empty() =~= out@);
    }
    out
}

} // verus!
