//! The sequence sampler: draws values from the flattened matrix and chains
//! them into token streams or sentences.
//!
//! Every draw comes from an injected [`RandomSource`], so each generation run
//! is a pure function of the matrix and the source's starting state. The spec
//! functions below state that function step by step, and every sampler's
//! postcondition says its result is exactly the spec's.

use vstd::prelude::*;

use crate::chars::{append_chars, clone_chars, copy_range, ends_with_period};
use crate::error::TextGenError;
use crate::flatten::{
    find_flat_key, flat_contains_key, flat_vals, flat_wf, lemma_flat_vals_first_match, views_of,
    FlatAdjacencyMatrix, FlatEntry,
};
use crate::random::RandomSource;
use crate::unicode::{char_is_uppercase, is_uppercase_char};

verus! {

/// The last `key_len` characters: the lookup key for the next step.
pub open spec fn spec_suffix(s: Seq<char>, key_len: int) -> Seq<char> {
    s.subrange(s.len() - key_len, s.len() as int)
}

/// One sampling step: look the suffix key up and draw one of its values.
/// Fails when the suffix never appeared as a key; the draw happens only on
/// success, so the source is advanced only then.
pub open spec fn spec_next_value(
    flat: Seq<FlatEntry>,
    key_len: int,
    sentence: Seq<char>,
    rng: RandomSource,
) -> Result<(Seq<char>, RandomSource), ()> {
    let key = spec_suffix(sentence, key_len);
    if flat_contains_key(flat, key) {
        let list = flat_vals(flat, key);
        Ok((views_of(list)[rng.spec_index(list.len() as int)], rng.spec_step()))
    } else {
        Err(())
    }
}

/// Growing a sentence: append drawn values until one ends with a period or
/// the fuel runs out; when the fuel runs out the partial sentence is the
/// result. A failed lookup fails the whole run, handing back the source's
/// state at the failure.
pub open spec fn spec_grow(
    flat: Seq<FlatEntry>,
    key_len: int,
    sentence: Seq<char>,
    rng: RandomSource,
    fuel: nat,
) -> Result<(Seq<char>, RandomSource), RandomSource>
    decreases fuel,
{
    if fuel == 0 {
        Ok((sentence, rng))
    } else {
        match spec_next_value(flat, key_len, sentence, rng) {
            Ok((v, rng2)) => {
                if v.len() > 0 && v.last() == '.' {
                    Ok((sentence + v, rng2))
                } else {
                    spec_grow(flat, key_len, sentence + v, rng2, (fuel - 1) as nat)
                }
            },
            Err(_) => Err(rng),
        }
    }
}

/// Chaining tokens: append exactly `remaining` drawn values, regardless of
/// punctuation.
pub open spec fn spec_chain(
    flat: Seq<FlatEntry>,
    key_len: int,
    sentence: Seq<char>,
    rng: RandomSource,
    remaining: nat,
) -> Result<(Seq<char>, RandomSource), RandomSource>
    decreases remaining,
{
    if remaining == 0 {
        Ok((sentence, rng))
    } else {
        match spec_next_value(flat, key_len, sentence, rng) {
            Ok((v, rng2)) => spec_chain(flat, key_len, sentence + v, rng2, (remaining - 1) as nat),
            Err(_) => Err(rng),
        }
    }
}

/// The seed of a sentence: a draw from the capitalized keys when there are
/// any, otherwise a draw from all keys.
pub open spec fn spec_seed(
    flat: Seq<FlatEntry>,
    capitalized: Seq<Seq<char>>,
    rng: RandomSource,
) -> Seq<char> {
    if capitalized.len() > 0 {
        capitalized[rng.spec_index(capitalized.len() as int)]
    } else {
        flat[rng.spec_index(flat.len() as int)].key@
    }
}

/// One whole sentence: seed, then grow.
pub open spec fn spec_sentence(
    flat: Seq<FlatEntry>,
    key_len: int,
    capitalized: Seq<Seq<char>>,
    rng: RandomSource,
    fuel: nat,
) -> Result<(Seq<char>, RandomSource), RandomSource> {
    spec_grow(flat, key_len, spec_seed(flat, capitalized, rng), rng.spec_step(), fuel)
}

/// `n` sentences, joined by single spaces.
pub open spec fn spec_sentences(
    flat: Seq<FlatEntry>,
    key_len: int,
    capitalized: Seq<Seq<char>>,
    rng: RandomSource,
    n: nat,
    fuel: nat,
) -> Result<(Seq<char>, RandomSource), RandomSource>
    decreases n,
{
    if n == 0 {
        Ok((Seq::empty(), rng))
    } else {
        match spec_sentence(flat, key_len, capitalized, rng, fuel) {
            Ok((s, rng2)) => {
                match spec_sentences(flat, key_len, capitalized, rng2, (n - 1) as nat, fuel) {
                    Ok((rest, rng3)) => Ok(
                        (
                            if n == 1 {
                                s
                            } else {
                                s + seq![' '] + rest
                            },
                            rng3,
                        ),
                    ),
                    Err(r) => Err(r),
                }
            },
            Err(r) => Err(r),
        }
    }
}

/// One token stream: seed with a drawn key, then chain `count` values.
pub open spec fn spec_token_run(
    flat: Seq<FlatEntry>,
    key_len: int,
    rng: RandomSource,
    count: nat,
) -> Result<(Seq<char>, RandomSource), RandomSource> {
    spec_chain(
        flat,
        key_len,
        flat[rng.spec_index(flat.len() as int)].key@,
        rng.spec_step(),
        count,
    )
}

/// The keys whose first character is uppercase, in matrix order.
pub open spec fn spec_capitalized(entries: Seq<FlatEntry>) -> Seq<Seq<char>>
    decreases entries.len(),
{
    if entries.len() == 0 {
        Seq::empty()
    } else {
        (if entries.first().key@.len() > 0 && is_uppercase_char(entries.first().key@.first()) {
            seq![entries.first().key@]
        } else {
            Seq::<Seq<char>>::empty()
        }) + spec_capitalized(entries.drop_first())
    }
}

/// Draw one value for the current sentence suffix.
///
/// The key is the last `key_len` characters of `sentence`; the call fails
/// with a lookup error exactly when that key is absent from the flattened
/// matrix, and otherwise returns the drawn element of the key's list.
pub fn get_rand_value(
    rng: &mut RandomSource,
    flat_matrix: &FlatAdjacencyMatrix,
    key_len: u8,
    sentence: &Vec<char>,
) -> (r: Result<Vec<char>, TextGenError>)
    requires
        key_len >= 1,
        sentence@.len() >= key_len as int,
        flat_wf(flat_matrix.entries@),
    ensures
        ({
            let step = spec_next_value(
                flat_matrix.entries@,
                key_len as int,
                sentence@,
                *old(rng),
            );
            match r {
                Ok(v) => step is Ok && v@ == step->Ok_0.0 && *final(rng) == step->Ok_0.1,
                Err(e) => step is Err && e == TextGenError::LookupError && *final(rng) == *old(
                    rng,
                ),
            }
        }),
{
    let key = copy_range(sentence, sentence.len() - key_len as usize, sentence.len());
    match find_flat_key(&flat_matrix.entries, &key) {
        Some(i) => {
            proof {
                lemma_flat_vals_first_match(flat_matrix.entries@, i as int);
            }
            let vals = &flat_matrix.entries[i].values;
            let idx = rng.next_index(vals.len());
            Ok(clone_chars(&vals[idx]))
        },
        None => {
            proof {
                assert(!flat_contains_key(flat_matrix.entries@, key@));
            }
            Err(TextGenError::LookupError)
        },
    }
}

/// Generate one sentence.
///
/// The sentence is seeded with a drawn capitalized key when any exists,
/// otherwise with a drawn key of the matrix, and grows by one drawn value per
/// step until a value ends with a period. When `max_steps` values have been
/// appended without one, the partial sentence is returned as it stands.
pub fn gen_sentence(
    rng: &mut RandomSource,
    flat_matrix: &FlatAdjacencyMatrix,
    capitalized_start: &Vec<Vec<char>>,
    key_len: u8,
    max_steps: u64,
) -> (r: Result<Vec<char>, TextGenError>)
    requires
        key_len >= 1,
        flat_wf(flat_matrix.entries@),
        flat_matrix.entries@.len() >= 1,
        forall|i: int|
            0 <= i < flat_matrix.entries@.len() ==> (#[trigger] flat_matrix.entries@[i]).key@.len()
                >= key_len as int,
        forall|t: int|
            0 <= t < capitalized_start@.len() ==> (#[trigger] capitalized_start@[t])@.len()
                >= key_len as int,
    ensures
        ({
            let run = spec_sentence(
                flat_matrix.entries@,
                key_len as int,
                views_of(capitalized_start@),
                *old(rng),
                max_steps as nat,
            );
            match r {
                Ok(s) => run is Ok && s@ == run->Ok_0.0 && *final(rng) == run->Ok_0.1,
                Err(e) => run is Err && e == TextGenError::LookupError && *final(rng) == run->Err_0,
            }
        }),
{
    let ghost flatv = flat_matrix.entries@;
    let ghost capv = views_of(capitalized_start@);
    let ghost rng0 = *rng;
    let mut sentence: Vec<char>;
    if capitalized_start.len() == 0 {
        let idx = rng.next_index(flat_matrix.entries.len());
        sentence = clone_chars(&flat_matrix.entries[idx].key);
    } else {
        let idx = rng.next_index(capitalized_start.len());
        sentence = clone_chars(&capitalized_start[idx]);
    }
    proof {
        assert(sentence@ == spec_seed(flatv, capv, rng0));
        assert(*rng == rng0.spec_step());
    }
    let ghost target = spec_grow(flatv, key_len as int, sentence@, *rng, max_steps as nat);
    let mut steps: u64 = 0;
    while steps < max_steps
        invariant
            key_len >= 1,
            flat_wf(flatv),
            flatv == flat_matrix.entries@,
            steps <= max_steps,
            sentence@.len() >= key_len as int,
            spec_grow(flatv, key_len as int, sentence@, *rng, (max_steps - steps) as nat)
                == target,
            target == spec_sentence(
                flat_matrix.entries@,
                key_len as int,
                views_of(capitalized_start@),
                *old(rng),
                max_steps as nat,
            ),
        decreases max_steps - steps,
    {
        let ghost sen0 = sentence@;
        let ghost rng_before = *rng;
        let ghost fuel = (max_steps - steps) as nat;
        match get_rand_value(rng, flat_matrix, key_len, &sentence) {
            Ok(v) => {
                proof {
                    let step = spec_next_value(flatv, key_len as int, sen0, rng_before);
                    assert(spec_grow(flatv, key_len as int, sen0, rng_before, fuel) == (if v@.len()
                        > 0 && v@.last() == '.' {
                        Ok::<(Seq<char>, RandomSource), RandomSource>((sen0 + v@, step->Ok_0.1))
                    } else {
                        spec_grow(
                            flatv,
                            key_len as int,
                            sen0 + v@,
                            step->Ok_0.1,
                            (fuel - 1) as nat,
                        )
                    }));
                }
                append_chars(&mut sentence, &v);
                steps += 1;
                if ends_with_period(&v) {
                    return Ok(sentence);
                }
            },
            Err(e) => {
                return Err(e);
            },
        }
    }
    Ok(sentence)
}

/// Chain exactly `count` drawn values onto a drawn seed key.
///
/// Punctuation never stops the chain: on success the result holds the seed
/// followed by `count` values. A failed lookup fails the run.
pub fn gen_token_stream(
    rng: &mut RandomSource,
    flat_matrix: &FlatAdjacencyMatrix,
    key_len: u8,
    count: u32,
) -> (r: Result<Vec<char>, TextGenError>)
    requires
        key_len >= 1,
        flat_wf(flat_matrix.entries@),
        flat_matrix.entries@.len() >= 1,
        forall|i: int|
            0 <= i < flat_matrix.entries@.len() ==> (#[trigger] flat_matrix.entries@[i]).key@.len()
                >= key_len as int,
    ensures
        ({
            let run = spec_token_run(flat_matrix.entries@, key_len as int, *old(rng), count as nat);
            match r {
                Ok(s) => run is Ok && s@ == run->Ok_0.0 && *final(rng) == run->Ok_0.1,
                Err(e) => run is Err && e == TextGenError::LookupError && *final(rng) == run->Err_0,
            }
        }),
{
    let ghost flatv = flat_matrix.entries@;
    let ghost rng0 = *rng;
    let idx = rng.next_index(flat_matrix.entries.len());
    let mut sequence = clone_chars(&flat_matrix.entries[idx].key);
    let ghost target = spec_chain(flatv, key_len as int, sequence@, *rng, count as nat);
    let mut i: u32 = 0;
    while i < count
        invariant
            key_len >= 1,
            flat_wf(flatv),
            flatv == flat_matrix.entries@,
            i <= count,
            sequence@.len() >= key_len as int,
            spec_chain(flatv, key_len as int, sequence@, *rng, (count - i) as nat) == target,
            target == spec_token_run(
                flat_matrix.entries@,
                key_len as int,
                *old(rng),
                count as nat,
            ),
        decreases count - i,
    {
        let ghost seq0 = sequence@;
        let ghost rng_before = *rng;
        let ghost remaining = (count - i) as nat;
        match get_rand_value(rng, flat_matrix, key_len, &sequence) {
            Ok(v) => {
                proof {
                    let step = spec_next_value(flatv, key_len as int, seq0, rng_before);
                    assert(spec_chain(flatv, key_len as int, seq0, rng_before, remaining)
                        == spec_chain(
                        flatv,
                        key_len as int,
                        seq0 + v@,
                        step->Ok_0.1,
                        (remaining - 1) as nat,
                    ));
                }
                append_chars(&mut sequence, &v);
                i += 1;
            },
            Err(e) => {
                return Err(e);
            },
        }
    }
    Ok(sequence)
}

/// Collect the keys whose first character is uppercase, in matrix order.
pub fn capitalized_keys(flat_matrix: &FlatAdjacencyMatrix) -> (r: Vec<Vec<char>>)
    ensures
        views_of(r@) == spec_capitalized(flat_matrix.entries@),
        forall|t: int|
            0 <= t < r@.len() ==> exists|i: int|
                0 <= i < flat_matrix.entries@.len() && (#[trigger] r@[t])@
                    == flat_matrix.entries@[i].key@,
{
    let ghost flatv = flat_matrix.entries@;
    let mut out: Vec<Vec<char>> = Vec::new();
    proof {
        assert(flatv.skip(0) =~= flatv);
        assert(views_of(out@) =~= Seq::<Seq<char>>::empty());
        assert(views_of(out@) + spec_capitalized(flatv) =~= spec_capitalized(flatv));
    }
    let n = flat_matrix.entries.len();
    let mut i: usize = 0;
    while i < n
        invariant
            i <= n,
            n == flatv.len(),
            flatv == flat_matrix.entries@,
            views_of(out@) + spec_capitalized(flatv.skip(i as int)) == spec_capitalized(flatv),
            forall|t: int|
                0 <= t < out@.len() ==> exists|ii: int|
                    0 <= ii < flatv.len() && (#[trigger] out@[t])@ == flatv[ii].key@,
        decreases n - i,
    {
        let ghost rest = flatv.skip(i as int);
        proof {
            assert(rest.len() > 0);
            assert(rest.first() == flatv[i as int]);
            assert(rest.drop_first() =~= flatv.skip(i + 1));
        }
        let entry = &flat_matrix.entries[i];
        let take_it = entry.key.len() > 0 && char_is_uppercase(entry.key[0]);
        if take_it {
            let ghost out0 = out@;
            out.push(clone_chars(&entry.key));
            proof {
                assert(views_of(out@) =~= views_of(out0).push(flatv[i as int].key@));
                assert(spec_capitalized(rest) == seq![rest.first().key@] + spec_capitalized(
                    rest.drop_first(),
                ));
                assert(views_of(out0) + spec_capitalized(rest) =~= views_of(out@)
                    + spec_capitalized(flatv.skip(i + 1)));
            }
        } else {
            proof {
                assert(spec_capitalized(rest) =~= Seq::<Seq<char>>::empty() + spec_capitalized(
                    rest.drop_first(),
                ));
                assert(spec_capitalized(rest) =~= spec_capitalized(flatv.skip(i + 1)));
            }
        }
        i += 1;
    }
    proof {
        assert(flatv.skip(n as int) =~= Seq::<FlatEntry>::empty());
        assert(views_of(out@) + Seq::<Seq<char>>::empty() =~= views_of(out@));
    }
    out
}

/// Generate the output text: one token stream in token mode, otherwise
/// `count` sentences joined by single spaces.
pub fn generate_sequences(
    rng: &mut RandomSource,
    flat_matrix: &FlatAdjacencyMatrix,
    token_mode: bool,
    count: u32,
    key_len: u8,
    max_steps: u64,
) -> (r: Result<Vec<char>, TextGenError>)
    requires
        key_len >= 1,
        flat_wf(flat_matrix.entries@),
        flat_matrix.entries@.len() >= 1,
        forall|i: int|
            0 <= i < flat_matrix.entries@.len() ==> (#[trigger] flat_matrix.entries@[i]).key@.len()
                >= key_len as int,
    ensures
        ({
            let run = if token_mode {
                spec_token_run(flat_matrix.entries@, key_len as int, *old(rng), count as nat)
            } else {
                spec_sentences(
                    flat_matrix.entries@,
                    key_len as int,
                    spec_capitalized(flat_matrix.entries@),
                    *old(rng),
                    count as nat,
                    max_steps as nat,
                )
            };
            match r {
                Ok(s) => run is Ok && s@ == run->Ok_0.0 && *final(rng) == run->Ok_0.1,
                Err(e) => run is Err && e == TextGenError::LookupError && *final(rng) == run->Err_0,
            }
        }),
{
    if token_mode {
        gen_token_stream(rng, flat_matrix, key_len, count)
    } else {
        let ghost flatv = flat_matrix.entries@;
        let ghost rng0 = *rng;
        let ghost fuel = max_steps as nat;
        let capitalized_start = capitalized_keys(flat_matrix);
        let ghost capv = spec_capitalized(flatv);
        let ghost target = spec_sentences(flatv, key_len as int, capv, rng0, count as nat, fuel);
        let mut out: Vec<char> = Vec::new();
        let mut i: u32 = 0;
        while i < count
            invariant
                key_len >= 1,
                flat_wf(flatv),
                flatv == flat_matrix.entries@,
                flatv.len() >= 1,
                forall|ii: int|
                    0 <= ii < flatv.len() ==> (#[trigger] flatv[ii]).key@.len() >= key_len as int,
                views_of(capitalized_start@) == capv,
                forall|t: int|
                    0 <= t < capitalized_start@.len() ==> (#[trigger] capitalized_start@[t])@.len()
                        >= key_len as int,
                i <= count,
                !token_mode,
                i == 0 ==> out@ == Seq::<char>::empty(),
                fuel == max_steps as nat,
                capv == spec_capitalized(flat_matrix.entries@),
                target == spec_sentences(
                    flat_matrix.entries@,
                    key_len as int,
                    spec_capitalized(flat_matrix.entries@),
                    *old(rng),
                    count as nat,
                    max_steps as nat,
                ),
                ({
                    let rem = spec_sentences(
                        flatv,
                        key_len as int,
                        capv,
                        *rng,
                        (count - i) as nat,
                        fuel,
                    );
                    match rem {
                        Ok((rest, rf)) => target == Ok::<
                            (Seq<char>, RandomSource),
                            RandomSource,
                        >(
                            (
                                if i == 0 {
                                    rest
                                } else if i == count {
                                    out@
                                } else {
                                    out@ + seq![' '] + rest
                                },
                                rf,
                            ),
                        ),
                        Err(rE) => target == Err::<(Seq<char>, RandomSource), RandomSource>(rE),
                    }
                }),
            decreases count - i,
        {
            let ghost rng_before = *rng;
            let ghost out0 = out@;
            let ghost n_rem = (count - i) as nat;
            match gen_sentence(rng, flat_matrix, &capitalized_start, key_len, max_steps) {
                Ok(s) => {
                    proof {
                        let sent = spec_sentence(flatv, key_len as int, capv, rng_before, fuel);
                        assert(sent is Ok && s@ == sent->Ok_0.0);
                    }
                    if i == 0 {
                        out = s;
                    } else {
                        out.push(' ');
                        append_chars(&mut out, &s);
                        proof {
                            assert(out@ =~= out0 + seq![' '] + s@);
                        }
                    }
                    i += 1;
                    proof {
                        let sent = spec_sentence(flatv, key_len as int, capv, rng_before, fuel);
                        let rem_old = spec_sentences(
                            flatv,
                            key_len as int,
                            capv,
                            rng_before,
                            n_rem,
                            fuel,
                        );
                        let rem_new = spec_sentences(
                            flatv,
                            key_len as int,
                            capv,
                            *rng,
                            (n_rem - 1) as nat,
                            fuel,
                        );
                        assert(sent is Ok && s@ == sent->Ok_0.0 && *rng == sent->Ok_0.1);
                        match rem_new {
                            Ok((rest2, rf2)) => {
                                assert(rem_old == Ok::<(Seq<char>, RandomSource), RandomSource>(
                                    (
                                        if n_rem == 1 {
                                            s@
                                        } else {
                                            s@ + seq![' '] + rest2
                                        },
                                        rf2,
                                    ),
                                ));
                                if i == 1 {
                                    // the first sentence: the output is the sentence itself
                                    assert(out@ == s@);
                                    if n_rem > 1 {
                                        assert(out@ + seq![' '] + rest2 =~= s@ + seq![' '] + rest2);
                                    }
                                } else {
                                    assert(out@ =~= out0 + seq![' '] + s@);
                                    if n_rem > 1 {
                                        assert(out0 + seq![' '] + (s@ + seq![' '] + rest2) =~= (
                                        out0 + seq![' '] + s@) + seq![' '] + rest2);
                                    }
                                }
                            },
                            Err(_) => {
                                assert(rem_old == rem_new);
                            },
                        }
                    }
                },
                Err(e) => {
                    proof {
                        let sent = spec_sentence(flatv, key_len as int, capv, rng_before, fuel);
                        let rem_old = spec_sentences(
                            flatv,
                            key_len as int,
                            capv,
                            rng_before,
                            n_rem,
                            fuel,
                        );
                        assert(sent is Err && *rng == sent->Err_0);
                        assert(rem_old == Err::<(Seq<char>, RandomSource), RandomSource>(
                            sent->Err_0,
                        ));
                    }
                    return Err(e);
                },
            }
        }
        proof {
            let rem = spec_sentences(flatv, key_len as int, capv, *rng, 0nat, fuel);
            assert(rem == Ok::<(Seq<char>, RandomSource), RandomSource>(
                (Seq::<char>::empty(), *rng),
            ));
            if count == 0 {
                assert(out@ =~= Seq::<char>::empty());
            }
        }
        Ok(out)
    }
}

} // verus!
