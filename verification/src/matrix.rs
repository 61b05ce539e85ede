//! The weighted adjacency matrix: a frequency table mapping each fixed-length
//! key window of the corpus to every value window that follows it, with the
//! exact number of times that pairing occurs.
//!
//! The matrix is an association list with unique keys, so that each lookup
//! and each count is pinned down exactly by the contracts below. The central
//! statement is the postcondition of [`create_weighted_adjacency_matrix`]:
//! for every key and value, the stored count equals the number of corpus
//! windows that pair them.

use vstd::prelude::*;

use crate::chars::{chars_eq, copy_range};

verus! {

/// One successor value of a key, with its exact occurrence count.
pub struct ValueCount {
    pub value: Vec<char>,
    pub count: usize,
}

/// One key of the matrix, with its weighted successor values.
pub struct KeyEntry {
    pub key: Vec<char>,
    pub values: Vec<ValueCount>,
}

/// Frequency table mapping keys to weighted successor values.
pub struct AdjacencyMatrix {
    pub entries: Vec<KeyEntry>,
}

// ---------------------------------------------------------------------------
// Specification: lookups in association lists
// ---------------------------------------------------------------------------

/// The count associated with `val`: the count of the first entry whose value
/// matches, or 0 when none matches.
pub open spec fn vals_count(vals: Seq<ValueCount>, val: Seq<char>) -> nat
    decreases vals.len(),
{
    if vals.len() == 0 {
        0
    } else if vals.first().value@ == val {
        vals.first().count as nat
    } else {
        vals_count(vals.drop_first(), val)
    }
}

/// The value list of the first entry whose key matches, or the empty sequence
/// when no key matches.
pub open spec fn mat_vals(entries: Seq<KeyEntry>, key: Seq<char>) -> Seq<ValueCount>
    decreases entries.len(),
{
    if entries.len() == 0 {
        Seq::empty()
    } else if entries.first().key@ == key {
        entries.first().values@
    } else {
        mat_vals(entries.drop_first(), key)
    }
}

/// The count the matrix stores for the pair `(key, val)`.
pub open spec fn mat_count(entries: Seq<KeyEntry>, key: Seq<char>, val: Seq<char>) -> nat {
    vals_count(mat_vals(entries, key), val)
}

/// Whether some entry of the matrix holds `key`.
pub open spec fn mat_contains_key(entries: Seq<KeyEntry>, key: Seq<char>) -> bool {
    exists|i: int| 0 <= i < entries.len() && (#[trigger] entries[i]).key@ == key
}

// ---------------------------------------------------------------------------
// Specification: well-formedness
// ---------------------------------------------------------------------------

/// Counts are positive and values are pairwise distinct.
pub open spec fn vals_ok(vals: Seq<ValueCount>) -> bool {
    &&& forall|t: int| 0 <= t < vals.len() ==> (#[trigger] vals[t]).count >= 1
    &&& forall|a: int, b: int|
        0 <= a < b < vals.len() ==> (#[trigger] vals[a]).value@ != (#[trigger] vals[b]).value@
}

/// Keys are pairwise distinct and every key has a non-empty, well-formed
/// value list.
pub open spec fn mat_ok(entries: Seq<KeyEntry>) -> bool {
    &&& forall|i: int|
        0 <= i < entries.len() ==> (#[trigger] entries[i]).values@.len() >= 1 && vals_ok(
            entries[i].values@,
        )
    &&& forall|i: int, j: int|
        0 <= i < j < entries.len() ==> (#[trigger] entries[i]).key@ != (#[trigger] entries[j]).key@
}

/// Well-formed and dimensioned: every key has `key_len` characters and every
/// value has `val_len` characters.
pub open spec fn mat_wf(entries: Seq<KeyEntry>, key_len: nat, val_len: nat) -> bool {
    &&& mat_ok(entries)
    &&& forall|i: int| 0 <= i < entries.len() ==> (#[trigger] entries[i]).key@.len() == key_len
    &&& forall|i: int, t: int|
        0 <= i < entries.len() && 0 <= t < entries[i].values@.len() ==> (#[trigger] entries[i].values@[t]).value@.len()
            == val_len
}

// ---------------------------------------------------------------------------
// Specification: windows of the corpus
// ---------------------------------------------------------------------------

/// The key part of the window starting at offset `i`.
pub open spec fn window_key(corpus: Seq<char>, i: int, key_len: int) -> Seq<char> {
    corpus.subrange(i, i + key_len)
}

/// The value part of the window starting at offset `i`.
pub open spec fn window_val(corpus: Seq<char>, i: int, key_len: int, val_len: int) -> Seq<char> {
    corpus.subrange(i + key_len, i + key_len + val_len)
}

/// How many of the first `n` windows of the corpus pair `key` with `val`.
pub open spec fn window_count_upto(
    corpus: Seq<char>,
    key_len: int,
    val_len: int,
    key: Seq<char>,
    val: Seq<char>,
    n: int,
) -> nat
    decreases n,
{
    if n <= 0 {
        0
    } else {
        window_count_upto(corpus, key_len, val_len, key, val, n - 1) + (if window_key(
            corpus,
            n - 1,
            key_len,
        ) == key && window_val(corpus, n - 1, key_len, val_len) == val {
            1nat
        } else {
            0nat
        })
    }
}

/// How many windows a corpus of length `len` has (non-positive when the
/// corpus is shorter than one window).
pub open spec fn num_windows(len: int, key_len: int, val_len: int) -> int {
    len - (key_len + val_len) + 1
}

/// How many windows of the whole corpus pair `key` with `val`.
pub open spec fn window_count(
    corpus: Seq<char>,
    key_len: int,
    val_len: int,
    key: Seq<char>,
    val: Seq<char>,
) -> nat {
    window_count_upto(
        corpus,
        key_len,
        val_len,
        key,
        val,
        num_windows(corpus.len() as int, key_len, val_len),
    )
}

// ---------------------------------------------------------------------------
// Lemmas about association-list lookups
// ---------------------------------------------------------------------------

/// A prefix free of `vals[j].value` makes entry `j` the one `vals_count` finds.
proof fn lemma_vals_count_first_match(vals: Seq<ValueCount>, j: int)
    requires
        0 <= j < vals.len(),
        forall|t: int| 0 <= t < j ==> (#[trigger] vals[t]).value@ != vals[j].value@,
    ensures
        vals_count(vals, vals[j].value@) == vals[j].count as nat,
    decreases j,
{
    if j > 0 {
        assert(vals.first().value@ != vals[j].value@);
        assert forall|t: int| 0 <= t < j - 1 implies (#[trigger] vals.drop_first()[t]).value@
            != vals.drop_first()[j - 1].value@ by {
            assert(vals.drop_first()[t] == vals[t + 1]);
        }
        assert(vals.drop_first()[j - 1] == vals[j]);
        lemma_vals_count_first_match(vals.drop_first(), j - 1);
    }
}

/// A value held by no entry has count 0.
pub proof fn lemma_vals_count_absent(vals: Seq<ValueCount>, v: Seq<char>)
    requires
        forall|t: int| 0 <= t < vals.len() ==> (#[trigger] vals[t]).value@ != v,
    ensures
        vals_count(vals, v) == 0,
    decreases vals.len(),
{
    if vals.len() > 0 {
        lemma_vals_count_absent(vals.drop_first(), v);
    }
}

/// Replacing the first entry that holds a value changes only that value's count.
proof fn lemma_vals_count_update(vals: Seq<ValueCount>, j: int, vc: ValueCount, v: Seq<char>)
    requires
        0 <= j < vals.len(),
        forall|t: int| 0 <= t < j ==> (#[trigger] vals[t]).value@ != vals[j].value@,
        vc.value@ == vals[j].value@,
    ensures
        vals_count(vals.update(j, vc), v) == if v == vc.value@ {
            vc.count as nat
        } else {
            vals_count(vals, v)
        },
    decreases j,
{
    let upd = vals.update(j, vc);
    if j == 0 {
        assert(upd.first() == vc);
        assert(upd.drop_first() =~= vals.drop_first());
    } else {
        assert(upd.first() == vals.first());
        assert(vals.first().value@ != vals[j].value@);
        assert forall|t: int| 0 <= t < j - 1 implies (#[trigger] vals.drop_first()[t]).value@
            != vals.drop_first()[j - 1].value@ by {
            assert(vals.drop_first()[t] == vals[t + 1]);
        }
        assert(vals.drop_first()[j - 1] == vals[j]);
        lemma_vals_count_update(vals.drop_first(), j - 1, vc, v);
        assert(upd.drop_first() =~= vals.drop_first().update(j - 1, vc));
    }
}

/// Appending an entry for a fresh value changes only that value's count.
pub proof fn lemma_vals_count_push(vals: Seq<ValueCount>, vc: ValueCount, v: Seq<char>)
    requires
        forall|t: int| 0 <= t < vals.len() ==> (#[trigger] vals[t]).value@ != vc.value@,
    ensures
        vals_count(vals.push(vc), v) == if v == vc.value@ {
            vc.count as nat
        } else {
            vals_count(vals, v)
        },
    decreases vals.len(),
{
    let p = vals.push(vc);
    if vals.len() == 0 {
        assert(p.first() == vc);
        assert(p.drop_first() =~= Seq::<ValueCount>::empty());
        if v != vc.value@ {
            assert(vals_count(p, v) == vals_count(p.drop_first(), v));
            assert(vals_count(p.drop_first(), v) == 0);
        }
    } else {
        assert(p.first() == vals.first());
        assert forall|t: int| 0 <= t < vals.drop_first().len() implies (#[trigger] vals.drop_first()[t]).value@
            != vc.value@ by {
            assert(vals.drop_first()[t] == vals[t + 1]);
        }
        lemma_vals_count_push(vals.drop_first(), vc, v);
        assert(p.drop_first() =~= vals.drop_first().push(vc));
        if p.first().value@ != v {
            assert(vals_count(p, v) == vals_count(p.drop_first(), v));
            assert(vals_count(vals, v) == vals_count(vals.drop_first(), v));
        }
    }
}

/// A prefix free of `entries[i].key` makes entry `i` the one `mat_vals` finds.
pub proof fn lemma_mat_vals_first_match(entries: Seq<KeyEntry>, i: int)
    requires
        0 <= i < entries.len(),
        forall|t: int| 0 <= t < i ==> (#[trigger] entries[t]).key@ != entries[i].key@,
    ensures
        mat_vals(entries, entries[i].key@) == entries[i].values@,
    decreases i,
{
    if i > 0 {
        assert(entries.first().key@ != entries[i].key@);
        assert forall|t: int| 0 <= t < i - 1 implies (#[trigger] entries.drop_first()[t]).key@
            != entries.drop_first()[i - 1].key@ by {
            assert(entries.drop_first()[t] == entries[t + 1]);
        }
        assert(entries.drop_first()[i - 1] == entries[i]);
        lemma_mat_vals_first_match(entries.drop_first(), i - 1);
    }
}

/// A key held by no entry has the empty value list.
pub proof fn lemma_mat_vals_absent(entries: Seq<KeyEntry>, k: Seq<char>)
    requires
        forall|t: int| 0 <= t < entries.len() ==> (#[trigger] entries[t]).key@ != k,
    ensures
        mat_vals(entries, k) == Seq::<ValueCount>::empty(),
    decreases entries.len(),
{
    if entries.len() > 0 {
        lemma_mat_vals_absent(entries.drop_first(), k);
    }
}

/// Replacing the first entry that holds a key, keeping its key, changes only
/// that key's value list.
proof fn lemma_mat_vals_update(entries: Seq<KeyEntry>, i: int, e: KeyEntry, k: Seq<char>)
    requires
        0 <= i < entries.len(),
        forall|t: int| 0 <= t < i ==> (#[trigger] entries[t]).key@ != entries[i].key@,
        e.key@ == entries[i].key@,
    ensures
        mat_vals(entries.update(i, e), k) == if k == e.key@ {
            e.values@
        } else {
            mat_vals(entries, k)
        },
    decreases i,
{
    let upd = entries.update(i, e);
    if i == 0 {
        assert(upd.first() == e);
        assert(upd.drop_first() =~= entries.drop_first());
    } else {
        assert(upd.first() == entries.first());
        assert(entries.first().key@ != entries[i].key@);
        assert forall|t: int| 0 <= t < i - 1 implies (#[trigger] entries.drop_first()[t]).key@
            != entries.drop_first()[i - 1].key@ by {
            assert(entries.drop_first()[t] == entries[t + 1]);
        }
        assert(entries.drop_first()[i - 1] == entries[i]);
        lemma_mat_vals_update(entries.drop_first(), i - 1, e, k);
        assert(upd.drop_first() =~= entries.drop_first().update(i - 1, e));
    }
}

/// Appending an entry for a fresh key changes only that key's value list.
proof fn lemma_mat_vals_push(entries: Seq<KeyEntry>, e: KeyEntry, k: Seq<char>)
    requires
        forall|t: int| 0 <= t < entries.len() ==> (#[trigger] entries[t]).key@ != e.key@,
    ensures
        mat_vals(entries.push(e), k) == if k == e.key@ {
            e.values@
        } else {
            mat_vals(entries, k)
        },
    decreases entries.len(),
{
    let p = entries.push(e);
    if entries.len() == 0 {
        assert(p.first() == e);
        assert(p.drop_first() =~= Seq::<KeyEntry>::empty());
        if k != e.key@ {
            assert(mat_vals(p, k) == mat_vals(p.drop_first(), k));
            assert(mat_vals(p.drop_first(), k) == Seq::<ValueCount>::empty());
        }
    } else {
        assert(p.first() == entries.first());
        assert forall|t: int| 0 <= t < entries.drop_first().len() implies (#[trigger] entries.drop_first()[t]).key@
            != e.key@ by {
            assert(entries.drop_first()[t] == entries[t + 1]);
        }
        lemma_mat_vals_push(entries.drop_first(), e, k);
        assert(p.drop_first() =~= entries.drop_first().push(e));
        if p.first().key@ != k {
            assert(mat_vals(p, k) == mat_vals(p.drop_first(), k));
            assert(mat_vals(entries, k) == mat_vals(entries.drop_first(), k));
        }
    }
}

/// The count of the first `n` windows never exceeds `n`.
proof fn lemma_window_count_upto_le(
    corpus: Seq<char>,
    key_len: int,
    val_len: int,
    key: Seq<char>,
    val: Seq<char>,
    n: int,
)
    requires
        n >= 0,
    ensures
        window_count_upto(corpus, key_len, val_len, key, val, n) <= n,
    decreases n,
{
    if n > 0 {
        lemma_window_count_upto_le(corpus, key_len, val_len, key, val, n - 1);
    }
}

// ---------------------------------------------------------------------------
// Executable lookups
// ---------------------------------------------------------------------------

/// Find the index of the entry holding `key`, if any.
fn find_key(entries: &Vec<KeyEntry>, key: &Vec<char>) -> (r: Option<usize>)
    ensures
        match r {
            Some(i) => i < entries@.len() && entries@[i as int].key@ == key@ && forall|t: int|
                0 <= t < i ==> (#[trigger] entries@[t]).key@ != key@,
            None => forall|t: int| 0 <= t < entries@.len() ==> (#[trigger] entries@[t]).key@ != key@,
        },
{
    let mut i: usize = 0;
    while i < entries.len()
        invariant
            i <= entries@.len(),
            forall|t: int| 0 <= t < i ==> (#[trigger] entries@[t]).key@ != key@,
        decreases entries@.len() - i,
    {
        if chars_eq(&entries[i].key, key) {
            return Some(i);
        }
        i += 1;
    }
    None
}

/// Find the index of the value entry holding `val`, if any.
fn find_val(vals: &Vec<ValueCount>, val: &Vec<char>) -> (r: Option<usize>)
    ensures
        match r {
            Some(j) => j < vals@.len() && vals@[j as int].value@ == val@ && forall|t: int|
                0 <= t < j ==> (#[trigger] vals@[t]).value@ != val@,
            None => forall|t: int| 0 <= t < vals@.len() ==> (#[trigger] vals@[t]).value@ != val@,
        },
{
    let mut j: usize = 0;
    while j < vals.len()
        invariant
            j <= vals@.len(),
            forall|t: int| 0 <= t < j ==> (#[trigger] vals@[t]).value@ != val@,
        decreases vals@.len() - j,
    {
        if chars_eq(&vals[j].value, val) {
            return Some(j);
        }
        j += 1;
    }
    None
}

// ---------------------------------------------------------------------------
// Construction
// ---------------------------------------------------------------------------

/// Record one more occurrence of the pair `(key, val)`.
fn bump(m: &mut AdjacencyMatrix, key: Vec<char>, val: Vec<char>)
    requires
        mat_wf(old(m).entries@, key@.len(), val@.len()),
        mat_count(old(m).entries@, key@, val@) < usize::MAX,
    ensures
        mat_wf(final(m).entries@, key@.len(), val@.len()),
        forall|k: Seq<char>, v: Seq<char>|
            #[trigger] mat_count(final(m).entries@, k, v) == mat_count(old(m).entries@, k, v) + (
            if k == key@ && v == val@ {
                1nat
            } else {
                0nat
            }),
        final(m).entries@.len() >= 1,
        final(m).entries@.len() >= old(m).entries@.len(),
{
    let ghost entries0 = m.entries@;
    match find_key(&m.entries, &key) {
        Some(i) => {
            proof {
                lemma_mat_vals_first_match(entries0, i as int);
            }
            let mut entry = KeyEntry { key: Vec::new(), values: Vec::new() };
            m.entries.set_and_swap(i, &mut entry);
            let ghost vals0 = entry.values@;
            match find_val(&entry.values, &val) {
                Some(j) => {
                    proof {
                        lemma_vals_count_first_match(vals0, j as int);
                    }
                    let c = entry.values[j].count;
                    let vc = ValueCount { value: val, count: c + 1 };
                    let ghost vcg = vc;
                    entry.values.set(j, vc);
                    let ghost entry1 = entry;
                    m.entries.set(i, entry);
                    proof {
                        assert(m.entries@ =~= entries0.update(i as int, entry1));
                        assert forall|k: Seq<char>, v: Seq<char>| #[trigger] mat_count(
                            m.entries@,
                            k,
                            v,
                        ) == mat_count(entries0, k, v) + (if k == entry1.key@ && v == vcg.value@ {
                            1nat
                        } else {
                            0nat
                        }) by {
                            lemma_mat_vals_update(entries0, i as int, entry1, k);
                            if k == entry1.key@ {
                                lemma_vals_count_update(vals0, j as int, vcg, v);
                            }
                        }
                    }
                },
                None => {
                    proof {
                        lemma_vals_count_absent(vals0, val@);
                    }
                    let vc = ValueCount { value: val, count: 1 };
                    let ghost vcg = vc;
                    entry.values.push(vc);
                    let ghost entry1 = entry;
                    m.entries.set(i, entry);
                    proof {
                        assert(m.entries@ =~= entries0.update(i as int, entry1));
                        assert(entry1.values@ =~= vals0.push(vcg));
                        assert forall|k: Seq<char>, v: Seq<char>| #[trigger] mat_count(
                            m.entries@,
                            k,
                            v,
                        ) == mat_count(entries0, k, v) + (if k == entry1.key@ && v == vcg.value@ {
                            1nat
                        } else {
                            0nat
                        }) by {
                            lemma_mat_vals_update(entries0, i as int, entry1, k);
                            if k == entry1.key@ {
                                lemma_vals_count_push(vals0, vcg, v);
                            }
                        }
                    }
                },
            }
        },
        None => {
            proof {
                lemma_mat_vals_absent(entries0, key@);
            }
            let mut values: Vec<ValueCount> = Vec::new();
            values.push(ValueCount { value: val, count: 1 });
            let entry = KeyEntry { key, values };
            let ghost entry1 = entry;
            m.entries.push(entry);
            proof {
                assert(m.entries@ =~= entries0.push(entry1));
                assert forall|k: Seq<char>, v: Seq<char>| #[trigger] mat_count(m.entries@, k, v)
                    == mat_count(entries0, k, v) + (if k == entry1.key@ && v
                    == entry1.values@[0].value@ {
                    1nat
                } else {
                    0nat
                }) by {
                    lemma_mat_vals_push(entries0, entry1, k);
                    if k == entry1.key@ {
                        if v == entry1.values@[0].value@ {
                            lemma_vals_count_first_match(entry1.values@, 0);
                        } else {
                            lemma_vals_count_absent(entry1.values@, v);
                        }
                        lemma_vals_count_absent(Seq::<ValueCount>::empty(), v);
                    }
                }
            }
        },
    }
}

/// Build the weighted adjacency matrix of the corpus.
///
/// A window of `key_len + val_len` characters slides over the corpus at every
/// offset; its first `key_len` characters form the key and the rest the value.
/// The matrix stores, for every key and value, exactly how many windows pair
/// them: no window is skipped and nothing else is counted.
pub fn create_weighted_adjacency_matrix(corpus: &Vec<char>, key_len: u8, val_len: u8) -> (m:
    AdjacencyMatrix)
    requires
        key_len >= 1,
        val_len >= 1,
    ensures
        mat_wf(m.entries@, key_len as nat, val_len as nat),
        forall|k: Seq<char>, v: Seq<char>| #[trigger]
            mat_count(m.entries@, k, v) == window_count(
                corpus@,
                key_len as int,
                val_len as int,
                k,
                v,
            ),
        corpus@.len() >= key_len as int + val_len as int ==> m.entries@.len() >= 1,
{
    let width = key_len as usize + val_len as usize;
    let mut m = AdjacencyMatrix { entries: Vec::new() };
    if corpus.len() < width {
        proof {
            assert(forall|k: Seq<char>, v: Seq<char>| #[trigger]
                mat_count(m.entries@, k, v) == 0);
            assert(num_windows(corpus@.len() as int, key_len as int, val_len as int) <= 0);
        }
        return m;
    }
    let clen = corpus.len();
    let n_windows = clen - width + 1;
    let mut i: usize = 0;
    while i < n_windows
        invariant
            key_len >= 1,
            val_len >= 1,
            width == key_len as int + val_len as int,
            clen == corpus@.len(),
            corpus@.len() >= width,
            n_windows == num_windows(corpus@.len() as int, key_len as int, val_len as int),
            i <= n_windows,
            mat_wf(m.entries@, key_len as nat, val_len as nat),
            forall|k: Seq<char>, v: Seq<char>| #[trigger]
                mat_count(m.entries@, k, v) == window_count_upto(
                    corpus@,
                    key_len as int,
                    val_len as int,
                    k,
                    v,
                    i as int,
                ),
            i >= 1 ==> m.entries@.len() >= 1,
        decreases n_windows - i,
    {
        let key = copy_range(corpus, i, i + key_len as usize);
        let val = copy_range(corpus, i + key_len as usize, i + width);
        proof {
            assert(key@ == window_key(corpus@, i as int, key_len as int));
            assert(val@ == window_val(corpus@, i as int, key_len as int, val_len as int));
            lemma_window_count_upto_le(
                corpus@,
                key_len as int,
                val_len as int,
                key@,
                val@,
                i as int,
            );
        }
        bump(&mut m, key, val);
        i += 1;
    }
    m
}

// ---------------------------------------------------------------------------
// Read access
// ---------------------------------------------------------------------------

impl AdjacencyMatrix {
    /// The number of distinct keys.
    pub fn num_keys(&self) -> (r: usize)
        ensures
            r == self.entries@.len(),
    {
        self.entries.len()
    }

    /// The stored count for the pair `(key, val)`; 0 when the pair is absent.
    pub fn count_of(&self, key: &Vec<char>, val: &Vec<char>) -> (c: usize)
        ensures
            c as nat == mat_count(self.entries@, key@, val@),
    {
        match find_key(&self.entries, key) {
            Some(i) => {
                proof {
                    lemma_mat_vals_first_match(self.entries@, i as int);
                }
                match find_val(&self.entries[i].values, val) {
                    Some(j) => {
                        proof {
                            lemma_vals_count_first_match(self.entries@[i as int].values@, j as int);
                        }
                        self.entries[i].values[j].count
                    },
                    None => {
                        proof {
                            lemma_vals_count_absent(self.entries@[i as int].values@, val@);
                        }
                        0
                    },
                }
            },
            None => {
                proof {
                    lemma_mat_vals_absent(self.entries@, key@);
                }
                0
            },
        }
    }

    /// The number of distinct values recorded for `key`; 0 when the key is
    /// absent.
    pub fn num_vals_of(&self, key: &Vec<char>) -> (r: usize)
        ensures
            r == mat_vals(self.entries@, key@).len(),
    {
        match find_key(&self.entries, key) {
            Some(i) => {
                proof {
                    lemma_mat_vals_first_match(self.entries@, i as int);
                }
                self.entries[i].values.len()
            },
            None => {
                proof {
                    lemma_mat_vals_absent(self.entries@, key@);
                }
                0
            },
        }
    }
}

} // verus!
