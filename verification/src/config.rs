use vstd::prelude::*;

verus! {

/// Fixed-point penalty scale equal to 1.0: this value leaves logits untouched.
pub const PENALTY_DISABLED: u32 = 1000;

/// Working range of a logit score handed to sampling, in fixed-point units.
/// Models are expected to return scores inside this range.
pub const LOGIT_LIMIT: i64 = 1_000_000_000;

/// A failure that is fatal to the generation run in which it occurs.
#[derive(Clone, Copy, Debug, PartialEq, Eq, Structural)]
pub enum GenError {
    /// The model's forward pass failed; the run state is not salvageable.
    Inference,
    /// The sampler could not draw a token from the logits it was given.
    Sampling,
}

/// Terminal state of one generation run.
#[derive(Clone, Copy, Debug, PartialEq, Eq, Structural)]
pub enum RunOutcome {
    /// The sampled token equalled the resolved stop token.
    Stopped,
    /// The token budget ran out before a stop token was sampled.
    BudgetExhausted,
    /// The model or the sampler failed mid-run; the run was aborted.
    Failed(GenError),
}

/// Immutable configuration of a generation run.
///
/// Temperature and nucleus threshold are carried in fixed-point form for the
/// sampler capability; a `None` temperature means greedy, deterministic
/// sampling. The repetition penalty scale is in thousandths, so
/// `PENALTY_DISABLED` (1000, that is 1.0) disables it. The scale must be
/// positive: a zero scale would have no finite fixed-point meaning.
pub struct GenerationConfig {
    pub seed: u64,
    pub temperature_micros: Option<u64>,
    pub top_p_micros: Option<u64>,
    pub repeat_penalty_millis: u32,
    pub repeat_last_n: usize,
    pub end_marker: Vec<char>,
}

impl GenerationConfig {
    /// The penalty scale is positive.
    pub open spec fn wf(&self) -> bool {
        self.repeat_penalty_millis >= 1
    }
}

/// Mathematical content of a `RunReport`.
pub ghost struct ReportView {
    pub text: Seq<char>,
    pub generated: nat,
    pub outcome: RunOutcome,
    pub stop_token: Option<u32>,
}

/// What one generation run delivered: every emitted text fragment in order,
/// the number of generated tokens, the terminal state, and the stop token
/// that was resolved for the run (`None` is the degraded mode that relies on
/// the budget alone).
#[derive(Clone, Debug, PartialEq, Eq)]
pub struct RunReport {
    pub text: Vec<char>,
    pub generated: usize,
    pub outcome: RunOutcome,
    pub stop_token: Option<u32>,
}

impl View for RunReport {
    type V = ReportView;

    open spec fn view(&self) -> ReportView {
        ReportView {
            text: self.text@,
            generated: self.generated as nat,
            outcome: self.outcome,
            stop_token: self.stop_token,
        }
    }
}

/// Throughput in millitokens per second, or `None` when no time elapsed and
/// the rate is undefined.
pub open spec fn spec_throughput(generated: nat, elapsed_micros: nat) -> Option<u128> {
    if elapsed_micros == 0 {
        None
    } else {
        Some(((generated * 1_000_000_000) / elapsed_micros) as u128)
    }
}

/// Generated-token throughput of a run, in millitokens per second.
pub fn throughput_millitokens_per_sec(generated: usize, elapsed_micros: u64) -> (r: Option<u128>)
    ensures
        r == spec_throughput(generated as nat, elapsed_micros as nat),
{
    if elapsed_micros == 0 {
        None
    } else {
        let num: u128 = (generated as u128) * 1_000_000_000;
        Some(num / (elapsed_micros as u128))
    }
}

} // verus!
