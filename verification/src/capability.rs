use vstd::prelude::*;

use crate::config::GenError;
use crate::config::LOGIT_LIMIT;

verus! {

/// Every score is inside the fixed-point working range of the sampler.
pub open spec fn bounded_logits(l: Seq<i64>) -> bool {
    forall|i: int| 0 <= i < l.len() ==> -LOGIT_LIMIT <= #[trigger] l[i] <= LOGIT_LIMIT
}

/// The tokenizer capability: a fixed map between text and token sequences.
///
/// Decoding yields `None` while a token sequence does not yet form well-formed
/// text, for example while a multi-part text unit is still missing its tail.
pub trait Tokenizer: Sized {
    /// The token sequence this capability produces for a text.
    spec fn spec_encode(&self, text: Seq<char>) -> Seq<u32>;

    /// The text a token sequence decodes to, or `None` while it is ill-formed.
    spec fn spec_decode(&self, toks: Seq<u32>) -> Option<Seq<char>>;

    /// The vocabulary entry for a whole text unit, if the vocabulary has one.
    spec fn spec_id_for(&self, text: Seq<char>) -> Option<u32>;

    fn encode(&self, text: &Vec<char>) -> (r: Vec<u32>)
        ensures
            r@ == self.spec_encode(text@),
    ;

    fn decode(&self, toks: &Vec<u32>) -> (r: Option<Vec<char>>)
        ensures
            r matches Some(s) ==> self.spec_decode(toks@) == Some(s@),
            r is None ==> self.spec_decode(toks@) is None,
    ;

    fn id_for(&self, text: &Vec<char>) -> (r: Option<u32>)
        ensures
            r == self.spec_id_for(text@),
    ;
}

/// The model capability: per-vocabulary logits for the next token, given a
/// context slice and its position offset, plus the model's own incremental
/// state (its key/value cache), which advances on every call.
pub trait LanguageModel: Sized {
    /// The logits the model returns in its current state, or `None` when the
    /// forward pass fails for this input.
    spec fn spec_logits(&self, ctx: Seq<u32>, pos: int) -> Option<Seq<i64>>;

    /// The model's state after one forward call.
    spec fn spec_step(&self, ctx: Seq<u32>, pos: int) -> Self;

    fn forward(&mut self, ctx: &Vec<u32>, pos: usize) -> (r: Result<Vec<i64>, GenError>)
        ensures
            *final(self) == old(self).spec_step(ctx@, pos as int),
            r matches Ok(l) ==> old(self).spec_logits(ctx@, pos as int) == Some(l@),
            r matches Ok(l) ==> bounded_logits(l@),
            r is Err ==> old(self).spec_logits(ctx@, pos as int) is None,
            r is Err ==> r == Err::<Vec<i64>, GenError>(GenError::Inference),
    ;
}

/// The sampler capability: draws one token id from a logit vector, advancing
/// whatever internal state (such as a seeded random stream) it keeps.
pub trait Sampler: Sized {
    /// The token the sampler draws in its current state, or `None` when it
    /// cannot draw from these logits.
    spec fn spec_sample(&self, logits: Seq<i64>) -> Option<u32>;

    /// The sampler's state after one draw.
    spec fn spec_step(&self, logits: Seq<i64>) -> Self;

    fn sample(&mut self, logits: &Vec<i64>) -> (r: Result<u32, GenError>)
        ensures
            *final(self) == old(self).spec_step(logits@),
            r matches Ok(t) ==> old(self).spec_sample(logits@) == Some(t),
            r is Err ==> old(self).spec_sample(logits@) is None,
            r is Err ==> r == Err::<u32, GenError>(GenError::Sampling),
    ;
}

} // verus!
