//! The flattened matrix: each key's weighted successor values expanded into a
//! multiplicity list, so that a uniform draw over list positions is a draw
//! over values proportional to their counts.
//!
//! Flattening is weight-preserving: for every key, the flattened list holds
//! each value exactly `count` times, and its length is the sum of the key's
//! counts. Both facts are stated in [`flatten_rel`], the postcondition of
//! [`flatten_adjacency_matrix`].

use vstd::prelude::*;

use crate::chars::{chars_eq, clone_chars};
use crate::matrix::{
    lemma_vals_count_absent, lemma_vals_count_push, vals_count, AdjacencyMatrix, KeyEntry,
    ValueCount,
};

verus! {

/// One key of the flattened matrix, with its multiplicity list of values.
pub struct FlatEntry {
    pub key: Vec<char>,
    pub values: Vec<Vec<char>>,
}

/// Mapping from keys to multiplicity lists of values.
pub struct FlatAdjacencyMatrix {
    pub entries: Vec<FlatEntry>,
}

// ---------------------------------------------------------------------------
// Specification
// ---------------------------------------------------------------------------

/// The views of a sequence of character vectors.
pub open spec fn views_of(s: Seq<Vec<char>>) -> Seq<Seq<char>> {
    Seq::new(s.len(), |i: int| s[i]@)
}

/// How many elements of `s` equal `v`.
pub open spec fn seq_count(s: Seq<Seq<char>>, v: Seq<char>) -> nat
    decreases s.len(),
{
    if s.len() == 0 {
        0
    } else {
        seq_count(s.drop_last(), v) + (if s.last() == v {
            1nat
        } else {
            0nat
        })
    }
}

/// The sum of the counts of a value list.
pub open spec fn sum_counts(vals: Seq<ValueCount>) -> nat
    decreases vals.len(),
{
    if vals.len() == 0 {
        0
    } else {
        sum_counts(vals.drop_last()) + vals.last().count as nat
    }
}

/// The value list of the first flat entry whose key matches, or the empty
/// sequence when no key matches.
pub open spec fn flat_vals(entries: Seq<FlatEntry>, key: Seq<char>) -> Seq<Vec<char>>
    decreases entries.len(),
{
    if entries.len() == 0 {
        Seq::empty()
    } else if entries.first().key@ == key {
        entries.first().values@
    } else {
        flat_vals(entries.drop_first(), key)
    }
}

/// Whether some flat entry holds `key`.
pub open spec fn flat_contains_key(entries: Seq<FlatEntry>, key: Seq<char>) -> bool {
    exists|i: int| 0 <= i < entries.len() && (#[trigger] entries[i]).key@ == key
}

/// Keys are pairwise distinct and every multiplicity list is non-empty.
pub open spec fn flat_wf(entries: Seq<FlatEntry>) -> bool {
    &&& forall|i: int| 0 <= i < entries.len() ==> (#[trigger] entries[i]).values@.len() >= 1
    &&& forall|i: int, j: int|
        0 <= i < j < entries.len() ==> (#[trigger] entries[i]).key@ != (#[trigger] entries[j]).key@
}

/// How one flat entry relates to the matrix entry it was built from: same
/// key, each value repeated exactly its count, total length the sum of the
/// counts, and no value from outside the matrix entry.
pub open spec fn flat_entry_rel(me: KeyEntry, fe: FlatEntry) -> bool {
    &&& fe.key@ == me.key@
    &&& fe.values@.len() == sum_counts(me.values@)
    &&& forall|v: Seq<char>| #[trigger] seq_count(views_of(fe.values@), v) == vals_count(me.values@, v)
    &&& forall|t: int|
        0 <= t < fe.values@.len() ==> exists|u: int|
            0 <= u < me.values@.len() && (#[trigger] fe.values@[t])@ == me.values@[u].value@
}

/// How the flattened matrix relates to the adjacency matrix: entry by entry,
/// in the same order.
pub open spec fn flat_rel(me: Seq<KeyEntry>, fe: Seq<FlatEntry>) -> bool {
    &&& fe.len() == me.len()
    &&& forall|i: int| 0 <= i < fe.len() ==> flat_entry_rel(me[i], #[trigger] fe[i])
}

// ---------------------------------------------------------------------------
// Lemmas
// ---------------------------------------------------------------------------

/// Appending one value raises only that value's multiplicity, by one.
proof fn lemma_seq_count_push(s: Seq<Seq<char>>, w: Seq<char>, v: Seq<char>)
    ensures
        seq_count(s.push(w), v) == seq_count(s, v) + (if w == v {
            1nat
        } else {
            0nat
        }),
{
    assert(s.push(w).drop_last() =~= s);
}

/// A prefix free of `entries[i].key` makes entry `i` the one `flat_vals` finds.
pub proof fn lemma_flat_vals_first_match(entries: Seq<FlatEntry>, i: int)
    requires
        0 <= i < entries.len(),
        forall|t: int| 0 <= t < i ==> (#[trigger] entries[t]).key@ != entries[i].key@,
    ensures
        flat_vals(entries, entries[i].key@) == entries[i].values@,
    decreases i,
{
    if i > 0 {
        assert(entries.first().key@ != entries[i].key@);
        assert forall|t: int| 0 <= t < i - 1 implies (#[trigger] entries.drop_first()[t]).key@
            != entries.drop_first()[i - 1].key@ by {
            assert(entries.drop_first()[t] == entries[t + 1]);
        }
        assert(entries.drop_first()[i - 1] == entries[i]);
        lemma_flat_vals_first_match(entries.drop_first(), i - 1);
    }
}

/// Find the index of the flat entry holding `key`, if any.
pub(crate) fn find_flat_key(entries: &Vec<FlatEntry>, key: &Vec<char>) -> (r: Option<usize>)
    ensures
        match r {
            Some(i) => i < entries@.len() && entries@[i as int].key@ == key@ && forall|t: int|
                0 <= t < i ==> (#[trigger] entries@[t]).key@ != key@,
            None => forall|t: int| 0 <= t < entries@.len() ==> (#[trigger] entries@[t]).key@ != key@,
        },
{
    let mut i: usize = 0;
    while i < entries.len()
        invariant
            i <= entries@.len(),
            forall|t: int| 0 <= t < i ==> (#[trigger] entries@[t]).key@ != key@,
        decreases entries@.len() - i,
    {
        if chars_eq(&entries[i].key, key) {
            return Some(i);
        }
        i += 1;
    }
    None
}

// ---------------------------------------------------------------------------
// Construction
// ---------------------------------------------------------------------------

/// Expand the values of one matrix entry into a multiplicity list.
fn flatten_values(me: &KeyEntry) -> (fv: Vec<Vec<char>>)
    requires
        forall|a: int, b: int|
            0 <= a < b < me.values@.len() ==> (#[trigger] me.values@[a]).value@ != (
            #[trigger] me.values@[b]).value@,
    ensures
        fv@.len() == sum_counts(me.values@),
        forall|v: Seq<char>| #[trigger] seq_count(views_of(fv@), v) == vals_count(me.values@, v),
        forall|t: int|
            0 <= t < fv@.len() ==> exists|u: int|
                0 <= u < me.values@.len() && (#[trigger] fv@[t])@ == me.values@[u].value@,
{
    let mut fv: Vec<Vec<char>> = Vec::new();
    proof {
        assert(views_of(fv@) =~= Seq::<Seq<char>>::empty());
        assert(me.values@.subrange(0, 0) =~= Seq::<ValueCount>::empty());
    }
    let n = me.values.len();
    let mut j: usize = 0;
    while j < n
        invariant
            j <= n,
            n == me.values@.len(),
            forall|a: int, b: int|
                0 <= a < b < me.values@.len() ==> (#[trigger] me.values@[a]).value@ != (
                #[trigger] me.values@[b]).value@,
            fv@.len() == sum_counts(me.values@.subrange(0, j as int)),
            forall|v: Seq<char>| #[trigger]
                seq_count(views_of(fv@), v) == vals_count(me.values@.subrange(0, j as int), v),
            forall|t: int|
                0 <= t < fv@.len() ==> exists|u: int|
                    0 <= u < me.values@.len() && (#[trigger] fv@[t])@ == me.values@[u].value@,
        decreases n - j,
    {
        let ghost prefix = me.values@.subrange(0, j as int);
        let ghost vc = me.values@[j as int];
        let c = me.values[j].count;
        let mut r: usize = 0;
        while r < c
            invariant
                r <= c,
                j < n,
                n == me.values@.len(),
                c == me.values@[j as int].count,
                vc == me.values@[j as int],
                prefix == me.values@.subrange(0, j as int),
                fv@.len() == sum_counts(prefix) + r,
                forall|v: Seq<char>| #[trigger]
                    seq_count(views_of(fv@), v) == vals_count(prefix, v) + (if v == vc.value@ {
                        r as nat
                    } else {
                        0nat
                    }),
                forall|t: int|
                    0 <= t < fv@.len() ==> exists|u: int|
                        0 <= u < me.values@.len() && (#[trigger] fv@[t])@ == me.values@[u].value@,
                forall|a: int, b: int|
                    0 <= a < b < me.values@.len() ==> (#[trigger] me.values@[a]).value@ != (
                    #[trigger] me.values@[b]).value@,
            decreases c - r,
        {
            let ghost fv0 = fv@;
            let copy = clone_chars(&me.values[j].value);
            fv.push(copy);
            proof {
                assert(fv@ =~= fv0.push(copy));
                assert(views_of(fv@) =~= views_of(fv0).push(vc.value@));
                assert forall|v: Seq<char>| #[trigger] seq_count(views_of(fv@), v) == vals_count(
                    prefix,
                    v,
                ) + (if v == vc.value@ {
                    (r + 1) as nat
                } else {
                    0nat
                }) by {
                    lemma_seq_count_push(views_of(fv0), vc.value@, v);
                }
            }
            r += 1;
        }
        proof {
            // the value at position j does not occur in the prefix
            assert forall|t: int| 0 <= t < prefix.len() implies (#[trigger] prefix[t]).value@
                != vc.value@ by {
                assert(prefix[t] == me.values@[t]);
            }
            assert(r == c);
            assert(me.values@.subrange(0, j + 1) =~= prefix.push(vc));
            assert forall|v: Seq<char>| #[trigger] seq_count(views_of(fv@), v) == vals_count(
                me.values@.subrange(0, j + 1),
                v,
            ) by {
                lemma_vals_count_push(prefix, vc, v);
                if v == vc.value@ {
                    lemma_vals_count_absent(prefix, v);
                }
            }
            assert(me.values@.subrange(0, j + 1).drop_last() =~= prefix);
            assert(sum_counts(me.values@.subrange(0, j + 1)) == sum_counts(prefix) + vc.count);
        }
        j += 1;
    }
    proof {
        assert(me.values@.subrange(0, n as int) =~= me.values@);
    }
    fv
}

/// Flatten the adjacency matrix into multiplicity lists.
///
/// For every key, each value appears in the list exactly as many times as its
/// stored count; the list's length is therefore the sum of the key's counts.
pub fn flatten_adjacency_matrix(matrix: &AdjacencyMatrix) -> (f: FlatAdjacencyMatrix)
    requires
        forall|i: int|
            0 <= i < matrix.entries@.len() ==> forall|a: int, b: int|
                0 <= a < b < (#[trigger] matrix.entries@[i]).values@.len() ==> (
                #[trigger] matrix.entries@[i].values@[a]).value@ != (
                #[trigger] matrix.entries@[i].values@[b]).value@,
    ensures
        flat_rel(matrix.entries@, f.entries@),
{
    let mut out: Vec<FlatEntry> = Vec::new();
    let n = matrix.entries.len();
    let mut i: usize = 0;
    while i < n
        invariant
            i <= n,
            n == matrix.entries@.len(),
            out@.len() == i,
            forall|i0: int|
                0 <= i0 < matrix.entries@.len() ==> forall|a: int, b: int|
                    0 <= a < b < (#[trigger] matrix.entries@[i0]).values@.len() ==> (
                    #[trigger] matrix.entries@[i0].values@[a]).value@ != (
                    #[trigger] matrix.entries@[i0].values@[b]).value@,
            forall|t: int| 0 <= t < i ==> flat_entry_rel(matrix.entries@[t], #[trigger] out@[t]),
        decreases n - i,
    {
        let me = &matrix.entries[i];
        let fv = flatten_values(me);
        let key = clone_chars(&me.key);
        out.push(FlatEntry { key, values: fv });
        i += 1;
    }
    FlatAdjacencyMatrix { entries: out }
}

} // verus!
