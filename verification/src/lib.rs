//! An autoregressive text-generation driver: a generation loop that feeds a
//! language-model capability step by step, applies a repetition penalty,
//! samples the next token, and renders tokens to text through an incremental
//! detokenizer that never emits a text unit twice and defers units that are
//! not yet well formed.

pub mod capability;
pub mod config;
pub mod detok;
pub mod gen;
pub mod index;
pub mod pair;
pub mod penalty;
pub mod sampler;
pub mod script;
pub mod util;
pub mod vocab;

pub use capability::{bounded_logits, LanguageModel, Sampler, Tokenizer};
pub use detok::IncrementalDetokenizer;
pub use gen::GenerationLoop;
pub use index::{dedup_first, weight_files};
pub use pair::PairTokenizer;
pub use penalty::apply_repeat_penalty;
pub use sampler::GreedySampler;
pub use script::ScriptedModel;
pub use util::min_usize;
pub use vocab::VocabTokenizer;
pub use config::{
    throughput_millitokens_per_sec, GenError, GenerationConfig, ReportView, RunOutcome, RunReport,
    LOGIT_LIMIT, PENALTY_DISABLED,
};
