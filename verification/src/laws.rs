//! Laws of the sampler, stated over the same spec functions its contracts
//! use and proved from them.

use vstd::prelude::*;

use crate::flatten::{flat_contains_key, flat_vals, flat_wf, views_of, FlatEntry};
use crate::random::RandomSource;
use crate::sampler::{spec_chain, spec_grow, spec_next_value, spec_suffix};

verus! {

/// Every value of the flattened matrix has exactly `val_len` characters.
pub open spec fn flat_val_lens(flat: Seq<FlatEntry>, val_len: nat) -> bool {
    forall|i: int, t: int|
        0 <= i < flat.len() && 0 <= t < flat[i].values@.len() ==> (#[trigger] flat[i].values@[t])@.len()
            == val_len
}

/// A contained key is held by some entry, and the lookup finds that entry's
/// value list.
pub proof fn lemma_flat_vals_of_contained(flat: Seq<FlatEntry>, key: Seq<char>)
    requires
        flat_contains_key(flat, key),
    ensures
        exists|i: int|
            0 <= i < flat.len() && (#[trigger] flat[i]).key@ == key && flat_vals(flat, key)
                == flat[i].values@,
    decreases flat.len(),
{
    if flat.first().key@ == key {
        assert(0 <= 0 < flat.len() && flat[0].key@ == key && flat_vals(flat, key)
            == flat[0].values@);
    } else {
        let j = choose|j: int| 0 <= j < flat.len() && (#[trigger] flat[j]).key@ == key;
        assert(j >= 1);
        assert(flat.drop_first()[j - 1] == flat[j]);
        assert(flat_contains_key(flat.drop_first(), key));
        lemma_flat_vals_of_contained(flat.drop_first(), key);
        let i0 = choose|i0: int|
            0 <= i0 < flat.drop_first().len() && (#[trigger] flat.drop_first()[i0]).key@ == key
                && flat_vals(flat.drop_first(), key) == flat.drop_first()[i0].values@;
        assert(flat.drop_first()[i0] == flat[i0 + 1]);
        assert(0 <= i0 + 1 < flat.len() && flat[i0 + 1].key@ == key && flat_vals(flat, key)
            == flat[i0 + 1].values@);
    }
}

/// Uniform selection with the deterministic stub source that always yields 0
/// selects the first element of the key's list.
pub proof fn lemma_stub_selects_first(flat: Seq<FlatEntry>, key_len: int, sentence: Seq<char>)
    requires
        flat_contains_key(flat, spec_suffix(sentence, key_len)),
        flat_vals(flat, spec_suffix(sentence, key_len)).len() >= 1,
    ensures
        ({
            let step = spec_next_value(flat, key_len, sentence, RandomSource::Fixed(0));
            let list = flat_vals(flat, spec_suffix(sentence, key_len));
            step is Ok && step->Ok_0.0 == views_of(list)[0]
        }),
{
    let list = flat_vals(flat, spec_suffix(sentence, key_len));
    let bound = list.len() as int;
    assert(bound >= 1);
    assert(0int % bound == 0);
    assert(RandomSource::Fixed(0).spec_index(bound) == 0int % bound);
}

/// A sampling step on a well-formed matrix hands back a value of `val_len`
/// characters.
proof fn lemma_step_val_len(
    flat: Seq<FlatEntry>,
    key_len: int,
    val_len: nat,
    sentence: Seq<char>,
    rng: RandomSource,
)
    requires
        flat_wf(flat),
        flat_val_lens(flat, val_len),
    ensures
        ({
            let step = spec_next_value(flat, key_len, sentence, rng);
            step is Ok ==> step->Ok_0.0.len() == val_len
        }),
{
    let key = spec_suffix(sentence, key_len);
    if flat_contains_key(flat, key) {
        lemma_flat_vals_of_contained(flat, key);
        let i = choose|i: int|
            0 <= i < flat.len() && (#[trigger] flat[i]).key@ == key && flat_vals(flat, key)
                == flat[i].values@;
        let list = flat_vals(flat, key);
        assert(list.len() >= 1);
        let idx = rng.spec_index(list.len() as int);
        assert(0 <= idx < list.len());
        assert(views_of(list)[idx] == list[idx]@);
        assert(list[idx]@.len() == val_len);
    }
}

/// A token chain appends exactly `n` values: on success the result is longer
/// than its seed by `n * val_len` characters, whatever the values hold.
pub proof fn lemma_chain_appends_exactly(
    flat: Seq<FlatEntry>,
    key_len: int,
    val_len: nat,
    sentence: Seq<char>,
    rng: RandomSource,
    n: nat,
)
    requires
        flat_wf(flat),
        flat_val_lens(flat, val_len),
    ensures
        spec_chain(flat, key_len, sentence, rng, n) matches Ok((s, _)) ==> s.len() == sentence.len()
            + n * val_len,
    decreases n,
{
    if n == 0 {
    } else {
        let step = spec_next_value(flat, key_len, sentence, rng);
        if step is Ok {
            let v = step->Ok_0.0;
            let rng2 = step->Ok_0.1;
            assert(spec_chain(flat, key_len, sentence, rng, n) == spec_chain(
                flat,
                key_len,
                sentence + v,
                rng2,
                (n - 1) as nat,
            ));
            lemma_step_val_len(flat, key_len, val_len, sentence, rng);
            lemma_chain_appends_exactly(flat, key_len, val_len, sentence + v, rng2, (n - 1) as nat);
            assert((sentence + v).len() == sentence.len() + val_len);
            assert(sentence.len() + val_len + (n - 1) * val_len == sentence.len() + n * val_len)
                by (nonlinear_arith)
                requires
                    n >= 1,
            ;
        } else {
            assert(spec_chain(flat, key_len, sentence, rng, n) is Err);
        }
    }
}

/// A sentence that finishes before its fuel runs out ends with a period: on
/// success the result either ends with '.' after at least one appended value,
/// or is the fuel-exhausted partial sentence of exactly `fuel` appended
/// values.
pub proof fn lemma_grow_terminal_period(
    flat: Seq<FlatEntry>,
    key_len: int,
    val_len: nat,
    sentence: Seq<char>,
    rng: RandomSource,
    fuel: nat,
)
    requires
        flat_wf(flat),
        flat_val_lens(flat, val_len),
        val_len >= 1,
    ensures
        spec_grow(flat, key_len, sentence, rng, fuel) matches Ok((s, _)) ==> ((s.len()
            > sentence.len() && s.last() == '.') || s.len() == sentence.len() + fuel * val_len),
    decreases fuel,
{
    if fuel == 0 {
        assert(spec_grow(flat, key_len, sentence, rng, fuel) == Ok::<
            (Seq<char>, RandomSource),
            RandomSource,
        >((sentence, rng)));
        assert(fuel * val_len == 0) by (nonlinear_arith)
            requires
                fuel == 0,
        ;
    } else {
        let step = spec_next_value(flat, key_len, sentence, rng);
        if step is Ok {
            let v = step->Ok_0.0;
            let rng2 = step->Ok_0.1;
            lemma_step_val_len(flat, key_len, val_len, sentence, rng);
            assert(v.len() == val_len >= 1);
            if v.last() == '.' {
                assert(spec_grow(flat, key_len, sentence, rng, fuel) == Ok::<
                    (Seq<char>, RandomSource),
                    RandomSource,
                >((sentence + v, rng2)));
                assert((sentence + v).last() == v.last());
            } else {
                assert(spec_grow(flat, key_len, sentence, rng, fuel) == spec_grow(
                    flat,
                    key_len,
                    sentence + v,
                    rng2,
                    (fuel - 1) as nat,
                ));
                lemma_grow_terminal_period(
                    flat,
                    key_len,
                    val_len,
                    sentence + v,
                    rng2,
                    (fuel - 1) as nat,
                );
                assert((sentence + v).len() == sentence.len() + val_len);
                assert(sentence.len() + val_len + (fuel - 1) * val_len == sentence.len() + fuel
                    * val_len) by (nonlinear_arith)
                    requires
                        fuel >= 1,
                ;
            }
        } else {
            assert(spec_grow(flat, key_len, sentence, rng, fuel) is Err);
        }
    }
}

} // verus!
