//! The orchestrator: one generation request from raw text to output.
//!
//! A request normalizes the corpus, rejects it when empty or shorter than one
//! window, builds the adjacency matrix, and then either hands the matrix back
//! (diagnostic dump mode) or flattens it and generates text. Token mode is
//! forced whenever the caller asks for it or the corpus holds no period, since
//! sentence mode could then never terminate on one.

use vstd::prelude::*;

use crate::chars::contains_char;
use crate::error::TextGenError;
use crate::flatten::{flat_rel, flat_wf, flatten_adjacency_matrix, FlatEntry};
use crate::matrix::{
    create_weighted_adjacency_matrix, mat_count, mat_wf, window_count, AdjacencyMatrix, KeyEntry,
};
use crate::normalize::{normalize_corpus, spec_normalize};
use crate::random::RandomSource;
use crate::sampler::{generate_sequences, spec_capitalized, spec_sentences, spec_token_run};

verus! {

/// The ceiling on values appended to one sentence; when it is reached the
/// partial sentence is returned as it stands.
pub const MAX_STEPS: u64 = 1000000;

/// What a successful request produces: generated text, or the adjacency
/// matrix itself in dump mode.
pub enum GenOutput {
    Text(Vec<char>),
    Matrix(AdjacencyMatrix),
}

/// How generated text relates to the corpus it was trained on: some adjacency
/// matrix with the corpus's exact window counts, flattened weight-preserving,
/// drives the sampler to exactly this outcome.
pub open spec fn spec_pipeline_output(
    corpus: Seq<char>,
    key_len: u8,
    val_len: u8,
    count: u32,
    token_mode: bool,
    rng0: RandomSource,
    r: Result<GenOutput, TextGenError>,
    rng1: RandomSource,
) -> bool {
    exists|me: Seq<KeyEntry>, fe: Seq<FlatEntry>|
        {
            &&& mat_wf(me, key_len as nat, val_len as nat)
            &&& #[trigger] flat_rel(me, fe)
            &&& forall|k: Seq<char>, v: Seq<char>| #[trigger]
                mat_count(me, k, v) == window_count(corpus, key_len as int, val_len as int, k, v)
            &&& me.len() >= 1
            &&& {
                let run = if token_mode || !corpus.contains('.') {
                    spec_token_run(fe, key_len as int, rng0, count as nat)
                } else {
                    spec_sentences(
                        fe,
                        key_len as int,
                        spec_capitalized(fe),
                        rng0,
                        count as nat,
                        MAX_STEPS as nat,
                    )
                };
                match r {
                    Ok(o) => o matches GenOutput::Text(t) && run is Ok && t@ == run->Ok_0.0
                        && rng1 == run->Ok_0.1,
                    Err(e) => e == TextGenError::LookupError && run is Err && rng1 == run->Err_0,
                }
            }
        }
}

/// Run one generation request.
///
/// The corpus is rejected exactly when its normalized form is empty or
/// shorter than `key_len + val_len` characters; in dump mode the matrix
/// itself is returned; otherwise text is generated, `count` tokens or
/// sentences of it.
pub fn generate(
    input: &Vec<char>,
    key_len: u8,
    val_len: u8,
    count: u32,
    token_mode: bool,
    source: bool,
    rng: &mut RandomSource,
) -> (r: Result<GenOutput, TextGenError>)
    requires
        key_len >= 1,
        val_len >= 1,
        count >= 1,
    ensures
        ({
            let corpus = spec_normalize(input@);
            let min = key_len as int + val_len as int;
            &&& ((corpus.len() == 0) <==> r == Err::<GenOutput, TextGenError>(
                TextGenError::EmptyCorpusError,
            ))
            &&& ((0 < corpus.len() < min) <==> r == Err::<GenOutput, TextGenError>(
                TextGenError::CorpusTooShortError((key_len + val_len) as usize),
            ))
            &&& (corpus.len() < min || source) ==> *final(rng) == *old(rng)
            &&& (source && corpus.len() >= min) ==> (r matches Ok(o) && o matches GenOutput::Matrix(m)
                && mat_wf(m.entries@, key_len as nat, val_len as nat) && m.entries@.len() >= 1
                && forall|k: Seq<char>, v: Seq<char>| #[trigger]
                mat_count(m.entries@, k, v) == window_count(
                    corpus,
                    key_len as int,
                    val_len as int,
                    k,
                    v,
                ))
            &&& (!source && corpus.len() >= min) ==> spec_pipeline_output(
                corpus,
                key_len,
                val_len,
                count,
                token_mode,
                *old(rng),
                r,
                *final(rng),
            )
        }),
{
    let corpus = normalize_corpus(input);
    let min_len = key_len as usize + val_len as usize;
    if corpus.len() == 0 {
        Err(TextGenError::EmptyCorpusError)
    } else if corpus.len() < min_len {
        Err(TextGenError::CorpusTooShortError(min_len))
    } else {
        let matrix = create_weighted_adjacency_matrix(&corpus, key_len, val_len);
        if source {
            Ok(GenOutput::Matrix(matrix))
        } else {
            let ghost me = matrix.entries@;
            proof {
                assert forall|i: int|
                    0 <= i < matrix.entries@.len() implies forall|a: int, b: int|
                        0 <= a < b < (#[trigger] matrix.entries@[i]).values@.len() ==> (
                        #[trigger] matrix.entries@[i].values@[a]).value@ != (
                        #[trigger] matrix.entries@[i].values@[b]).value@ by {}
            }
            let flat_matrix = flatten_adjacency_matrix(&matrix);
            let ghost fe = flat_matrix.entries@;
            proof {
                assert forall|i: int| 0 <= i < fe.len() implies (#[trigger] fe[i]).values@.len()
                    >= 1 by {
                    assert(fe[i].values@.len() == crate::flatten::sum_counts(me[i].values@));
                    assert(crate::flatten::sum_counts(me[i].values@)
                        == crate::flatten::sum_counts(me[i].values@.drop_last())
                        + me[i].values@.last().count as nat);
                }
                assert forall|i: int, j: int| 0 <= i < j < fe.len() implies (
                #[trigger] fe[i]).key@ != (#[trigger] fe[j]).key@ by {
                    assert(fe[i].key@ == me[i].key@);
                    assert(fe[j].key@ == me[j].key@);
                }
                assert(flat_wf(fe));
                assert forall|i: int| 0 <= i < fe.len() implies (#[trigger] fe[i]).key@.len()
                    >= key_len as int by {
                    assert(fe[i].key@ == me[i].key@);
                }
            }
            let has_period = contains_char(&corpus, '.');
            match generate_sequences(
                rng,
                &flat_matrix,
                token_mode || !has_period,
                count,
                key_len,
                MAX_STEPS,
            ) {
                Ok(text) => {
                    let r = Ok(GenOutput::Text(text));
                    proof {
                        assert(spec_pipeline_output(
                            corpus@,
                            key_len,
                            val_len,
                            count,
                            token_mode,
                            *old(rng),
                            r,
                            *rng,
                        )) by {
                            assert(flat_rel(me, fe));
                        }
                    }
                    r
                },
                Err(e) => {
                    let r = Err(e);
                    proof {
                        assert(spec_pipeline_output(
                            corpus@,
                            key_len,
                            val_len,
                            count,
                            token_mode,
                            *old(rng),
                            r,
                            *rng,
                        )) by {
                            assert(flat_rel(me, fe));
                        }
                    }
                    r
                },
            }
        }
    }
}

} // verus!
