use vstd::prelude::*;

use crate::capability::LanguageModel;
use crate::capability::Sampler;
use crate::capability::Tokenizer;
use crate::config::GenError;
use crate::config::GenerationConfig;
use crate::config::ReportView;
use crate::config::RunOutcome;
use crate::config::RunReport;
use crate::detok::detok_flush;
use crate::detok::detok_next;
use crate::detok::detok_run;
use crate::detok::frag_or_empty;
use crate::detok::DetokView;
use crate::detok::IncrementalDetokenizer;
use crate::penalty::apply_repeat_penalty;
use crate::penalty::spec_sampler_input;
use crate::util::copy_chars;
use crate::util::copy_tokens;
use crate::util::min_usize;
use crate::util::push_all;
use crate::util::tokens_from;

verus! {

/// The generating state of a run: the model, the sampler, the accumulated
/// token sequence, and whether the model's cache has been primed by a first
/// full-context step.
pub ghost struct GenState<M, S> {
    pub model: M,
    pub sampler: S,
    pub toks: Seq<u32>,
    pub primed: bool,
}

/// What one generation step did.
pub enum StepEvent {
    /// The model or the sampler failed; the run aborts.
    Failed(GenError),
    /// The sampled token was the stop token; it is kept in the sequence but
    /// never rendered to text.
    Stopped,
    /// An ordinary token, to be rendered through the detokenizer.
    Token(u32),
}

/// Everything one run leaves behind: the delivered report and the final
/// model, sampler and detokenizer states.
pub ghost struct RunEnd<M, S> {
    pub report: ReportView,
    pub model: M,
    pub sampler: S,
    pub detok: DetokView,
}

/// The context slice a step feeds the model: the whole sequence on the first
/// step, only the latest token once the model's cache is primed.
pub open spec fn spec_context(toks: Seq<u32>, primed: bool) -> Seq<u32> {
    if primed && toks.len() >= 1 {
        toks.skip(toks.len() - 1)
    } else {
        toks
    }
}

/// One generation step: run the model, penalize, sample, and append.
pub open spec fn spec_gen_step<M: LanguageModel, S: Sampler>(
    st: GenState<M, S>,
    stop: Option<u32>,
    millis: u32,
    last_n: usize,
) -> (GenState<M, S>, StepEvent) {
    let ctx = spec_context(st.toks, st.primed);
    let pos = st.toks.len() - ctx.len();
    let m2 = st.model.spec_step(ctx, pos);
    match st.model.spec_logits(ctx, pos) {
        None => (
            GenState { model: m2, sampler: st.sampler, toks: st.toks, primed: st.primed },
            StepEvent::Failed(GenError::Inference),
        ),
        Some(raw) => {
            let input = spec_sampler_input(raw, st.toks, millis, last_n);
            let s2 = st.sampler.spec_step(input);
            match st.sampler.spec_sample(input) {
                None => (
                    GenState { model: m2, sampler: s2, toks: st.toks, primed: st.primed },
                    StepEvent::Failed(GenError::Sampling),
                ),
                Some(tk) => (
                    GenState { model: m2, sampler: s2, toks: st.toks.push(tk), primed: true },
                    if stop == Some(tk) {
                        StepEvent::Stopped
                    } else {
                        StepEvent::Token(tk)
                    },
                ),
            }
        },
    }
}

/// The remainder of a run: up to `steps` further generation steps, then the
/// final flush. A failure aborts at once, without flushing; a stop token or
/// an exhausted budget flushes the detokenizer and closes the run.
pub open spec fn spec_gen_loop<M: LanguageModel, S: Sampler, T: Tokenizer>(
    tok: T,
    st: GenState<M, S>,
    dv: DetokView,
    text: Seq<char>,
    generated: nat,
    steps: nat,
    stop: Option<u32>,
    millis: u32,
    last_n: usize,
) -> RunEnd<M, S>
    decreases steps,
{
    if steps == 0 {
        let fl = detok_flush(tok, dv);
        RunEnd {
            report: ReportView {
                text: text + frag_or_empty(fl.1),
                generated,
                outcome: RunOutcome::BudgetExhausted,
                stop_token: stop,
            },
            model: st.model,
            sampler: st.sampler,
            detok: fl.0,
        }
    } else {
        let stepped = spec_gen_step(st, stop, millis, last_n);
        let st2 = stepped.0;
        match stepped.1 {
            StepEvent::Failed(e) => RunEnd {
                report: ReportView {
                    text,
                    generated,
                    outcome: RunOutcome::Failed(e),
                    stop_token: stop,
                },
                model: st2.model,
                sampler: st2.sampler,
                detok: dv,
            },
            StepEvent::Stopped => {
                let fl = detok_flush(tok, dv);
                RunEnd {
                    report: ReportView {
                        text: text + frag_or_empty(fl.1),
                        generated: generated + 1,
                        outcome: RunOutcome::Stopped,
                        stop_token: stop,
                    },
                    model: st2.model,
                    sampler: st2.sampler,
                    detok: fl.0,
                }
            },
            StepEvent::Token(tk) => {
                let fed = detok_next(tok, dv, tk);
                spec_gen_loop(
                    tok,
                    st2,
                    fed.0,
                    text + frag_or_empty(fed.1),
                    generated + 1,
                    (steps - 1) as nat,
                    stop,
                    millis,
                    last_n,
                )
            },
        }
    }
}

/// A whole run as a function of its inputs: close the prompt with the end
/// marker, encode it, echo it through the detokenizer, resolve the stop
/// token, and generate up to `min(prompt tokens, max_new)` further tokens.
pub open spec fn spec_run<M: LanguageModel, S: Sampler, T: Tokenizer>(
    model: M,
    sampler: S,
    tok: T,
    cfg: GenerationConfig,
    prompt: Seq<char>,
    max_new: nat,
) -> RunEnd<M, S> {
    let closed = prompt + cfg.end_marker@;
    let ptoks = tok.spec_encode(closed);
    let echoed = detok_run(tok, ptoks);
    let stop = tok.spec_id_for(cfg.end_marker@);
    let steps: nat = if ptoks.len() <= max_new {
        ptoks.len()
    } else {
        max_new
    };
    spec_gen_loop(
        tok,
        GenState { model, sampler, toks: ptoks, primed: false },
        echoed.0,
        echoed.1,
        0,
        steps,
        stop,
        cfg.repeat_penalty_millis,
        cfg.repeat_last_n,
    )
}

/// With a zero budget, or a prompt that encodes to nothing, a run generates
/// no tokens and ends in `BudgetExhausted` right after the flush.
pub proof fn lemma_zero_budget<M: LanguageModel, S: Sampler, T: Tokenizer>(
    model: M,
    sampler: S,
    tok: T,
    cfg: GenerationConfig,
    prompt: Seq<char>,
    max_new: nat,
)
    requires
        max_new == 0 || tok.spec_encode(prompt + cfg.end_marker@).len() == 0,
    ensures
        spec_run(model, sampler, tok, cfg, prompt, max_new).report.outcome
            == RunOutcome::BudgetExhausted,
        spec_run(model, sampler, tok, cfg, prompt, max_new).report.generated == 0,
{
}

/// A sampled stop token is appended to the token sequence but never rendered:
/// the run ends as `Stopped` with the budget not yet exhausted, the
/// detokenizer never sees the stop token, and only the flush of text already
/// fed may still follow.
pub proof fn lemma_stop_token_not_emitted<M: LanguageModel, S: Sampler, T: Tokenizer>(
    tok: T,
    st: GenState<M, S>,
    dv: DetokView,
    text: Seq<char>,
    generated: nat,
    steps: nat,
    stop_tk: u32,
    millis: u32,
    last_n: usize,
    raw: Seq<i64>,
)
    requires
        steps >= 1,
        st.model.spec_logits(
            spec_context(st.toks, st.primed),
            st.toks.len() - spec_context(st.toks, st.primed).len(),
        ) == Some(raw),
        st.sampler.spec_sample(spec_sampler_input(raw, st.toks, millis, last_n)) == Some(stop_tk),
    ensures
        ({
            let end = spec_gen_loop(
                tok,
                st,
                dv,
                text,
                generated,
                steps,
                Some(stop_tk),
                millis,
                last_n,
            );
            &&& end.report.outcome == RunOutcome::Stopped
            &&& end.report.generated == generated + 1
            &&& end.detok == detok_flush(tok, dv).0
            &&& end.report.text == text + frag_or_empty(detok_flush(tok, dv).1)
        }),
{
}

/// Determinism: a run is a function of the initial model, sampler, tokenizer,
/// configuration, prompt and budget alone. With the greedy sampler — the
/// null-temperature policy — two runs from equal inputs deliver identical
/// reports, byte for byte.
pub proof fn lemma_deterministic<M: LanguageModel, S: Sampler, T: Tokenizer>(
    model: M,
    sampler: S,
    tok: T,
    cfg: GenerationConfig,
    prompt: Seq<char>,
    max_new: nat,
    r1: RunEnd<M, S>,
    r2: RunEnd<M, S>,
)
    requires
        r1 == spec_run(model, sampler, tok, cfg, prompt, max_new),
        r2 == spec_run(model, sampler, tok, cfg, prompt, max_new),
    ensures
        r1.report == r2.report,
{
}

/// Drives the step-by-step decode of one prompt: feed context to the model,
/// adjust the logits, sample, feed the token back, and render text through
/// the incremental detokenizer, until the stop token or the budget ends the
/// run.
pub struct GenerationLoop<M: LanguageModel, S: Sampler, T: Tokenizer> {
    pub model: M,
    pub sampler: S,
    pub detok: IncrementalDetokenizer<T>,
    pub config: GenerationConfig,
}

impl<M: LanguageModel, S: Sampler, T: Tokenizer> GenerationLoop<M, S, T> {
    pub fn new(model: M, sampler: S, tokenizer: T, config: GenerationConfig) -> (r: Self)
        ensures
            r.model == model,
            r.sampler == sampler,
            r.detok.tok() == tokenizer,
            r.config == config,
    {
        GenerationLoop { model, sampler, detok: IncrementalDetokenizer::new(tokenizer), config }
    }

    /// Run one prompt: echo it, then generate up to `max_new_tokens` tokens
    /// (capped by the prompt's own length), and deliver every emitted
    /// fragment, the generated-token count and the terminal state.
    pub fn run(&mut self, prompt: &Vec<char>, max_new_tokens: usize) -> (r: RunReport)
        requires
            old(self).config.wf(),
        ensures
            final(self).config == old(self).config,
            final(self).detok.tok() == old(self).detok.tok(),
            ({
                let end = spec_run(
                    old(self).model,
                    old(self).sampler,
                    old(self).detok.tok(),
                    old(self).config,
                    prompt@,
                    max_new_tokens as nat,
                );
                &&& r@ == end.report
                &&& final(self).model == end.model
                &&& final(self).sampler == end.sampler
                &&& final(self).detok@ == end.detok
            }),
    {
        let ghost m0 = self.model;
        let ghost s0 = self.sampler;
        let ghost tok0 = self.detok.tok();
        let ghost cfg0 = self.config;
        let ghost target = spec_run(m0, s0, tok0, cfg0, prompt@, max_new_tokens as nat);

        // Close the prompt with the end marker so the encoder treats it as a
        // finished unit, then echo it token by token through the same
        // incremental path the generated text will use.
        let mut closed = copy_chars(prompt);
        push_all(&mut closed, &self.config.end_marker);
        self.detok.reset();
        let ptoks = self.detok.encode(&closed);
        let ghost ptoks0 = ptoks@;

        let mut text: Vec<char> = Vec::new();
        let mut i: usize = 0;
        proof {
            assert(ptoks0.take(0) =~= Seq::<u32>::empty());
        }
        while i < ptoks.len()
            invariant
                i <= ptoks0.len(),
                ptoks@ == ptoks0,
                self.model == m0,
                self.sampler == s0,
                self.config == cfg0,
                self.detok.tok() == tok0,
                detok_run(tok0, ptoks0.take(i as int)).0 == self.detok@,
                detok_run(tok0, ptoks0.take(i as int)).1 == text@,
            decreases ptoks0.len() - i,
        {
            proof {
                assert(ptoks0.take(i + 1 as int).drop_last() =~= ptoks0.take(i as int));
                assert(ptoks0.take(i + 1 as int).last() == ptoks0[i as int]);
            }
            let t = ptoks[i];
            match self.detok.next_fragment(t) {
                Some(f) => {
                    push_all(&mut text, &f);
                },
                None => {
                    proof {
                        assert(text@ + Seq::<char>::empty() =~= text@);
                    }
                },
            }
            i = i + 1;
        }
        proof {
            assert(ptoks0.take(ptoks0.len() as int) =~= ptoks0);
        }

        // Resolve the stop token once; an unresolved marker is the degraded
        // mode that relies on the budget alone.
        let stop = self.detok.token_id_for(&self.config.end_marker);
        let count = min_usize(ptoks.len(), max_new_tokens);
        let millis = self.config.repeat_penalty_millis;
        let last_n = self.config.repeat_last_n;

        let mut toks = ptoks;
        let mut generated: usize = 0;
        let mut primed: bool = false;
        let mut k: usize = 0;
        let mut failed: Option<GenError> = None;
        let mut stopped: bool = false;

        while k < count
            invariant_except_break
                k <= count,
                generated == k,
                primed ==> toks@.len() >= 1,
                failed is None,
                !stopped,
                target == spec_gen_loop(
                    tok0,
                    GenState { model: self.model, sampler: self.sampler, toks: toks@, primed },
                    self.detok@,
                    text@,
                    generated as nat,
                    (count - k) as nat,
                    stop,
                    millis,
                    last_n,
                ),
            invariant
                self.config == cfg0,
                self.detok.tok() == tok0,
                millis == cfg0.repeat_penalty_millis,
                millis >= 1,
                last_n == cfg0.repeat_last_n,
            ensures
                self.config == cfg0,
                self.detok.tok() == tok0,
                failed matches Some(e) ==> target == (RunEnd {
                    report: ReportView {
                        text: text@,
                        generated: generated as nat,
                        outcome: RunOutcome::Failed(e),
                        stop_token: stop,
                    },
                    model: self.model,
                    sampler: self.sampler,
                    detok: self.detok@,
                }),
                failed is None && stopped ==> target == ({
                    let fl = detok_flush(tok0, self.detok@);
                    RunEnd {
                        report: ReportView {
                            text: text@ + frag_or_empty(fl.1),
                            generated: generated as nat,
                            outcome: RunOutcome::Stopped,
                            stop_token: stop,
                        },
                        model: self.model,
                        sampler: self.sampler,
                        detok: fl.0,
                    }
                }),
                failed is None && !stopped ==> target == ({
                    let fl = detok_flush(tok0, self.detok@);
                    RunEnd {
                        report: ReportView {
                            text: text@ + frag_or_empty(fl.1),
                            generated: generated as nat,
                            outcome: RunOutcome::BudgetExhausted,
                            stop_token: stop,
                        },
                        model: self.model,
                        sampler: self.sampler,
                        detok: fl.0,
                    }
                }),
            decreases count - k,
        {
            let ghost st_pre = GenState {
                model: self.model,
                sampler: self.sampler,
                toks: toks@,
                primed,
            };
            let ctx: Vec<u32> = if primed {
                tokens_from(&toks, toks.len() - 1)
            } else {
                copy_tokens(&toks)
            };
            proof {
                assert(ctx@ == spec_context(toks@, primed));
            }
            let pos = toks.len() - ctx.len();
            match self.model.forward(&ctx, pos) {
                Err(e) => {
                    failed = Some(e);
                    break ;
                },
                Ok(raw) => {
                    let input: Vec<i64> = if millis == crate::config::PENALTY_DISABLED {
                        raw
                    } else {
                        let start = if toks.len() >= last_n {
                            toks.len() - last_n
                        } else {
                            0
                        };
                        let recent = tokens_from(&toks, start);
                        proof {
                            if toks@.len() < last_n {
                                assert(toks@.skip(0) =~= toks@);
                            }
                        }
                        apply_repeat_penalty(&raw, &recent, millis)
                    };
                    proof {
                        assert(input@ == spec_sampler_input(raw@, toks@, millis, last_n));
                    }
                    match self.sampler.sample(&input) {
                        Err(e) => {
                            failed = Some(e);
                            break ;
                        },
                        Ok(tk) => {
                            toks.push(tk);
                            generated = generated + 1;
                            primed = true;
                            let is_stop = match stop {
                                Some(s) => tk == s,
                                None => false,
                            };
                            if is_stop {
                                stopped = true;
                                break ;
                            }
                            match self.detok.next_fragment(tk) {
                                Some(f) => {
                                    push_all(&mut text, &f);
                                },
                                None => {
                                    proof {
                                        assert(text@ + Seq::<char>::empty() =~= text@);
                                    }
                                },
                            }
                            k = k + 1;
                        },
                    }
                },
            }
        }

        match failed {
            Some(e) => {
                RunReport {
                    text,
                    generated,
                    outcome: RunOutcome::Failed(e),
                    stop_token: stop,
                }
            },
            None => {
                match self.detok.flush_rest() {
                    Some(f) => {
                        push_all(&mut text, &f);
                    },
                    None => {
                        proof {
                            assert(text@ + frag_or_empty(Option::<Seq<char>>::None) =~= text@);
                        }
                    },
                }
                let outcome = if stopped {
                    RunOutcome::Stopped
                } else {
                    RunOutcome::BudgetExhausted
                };
                RunReport { text, generated, outcome, stop_token: stop }
            },
        }
    }
}

} // verus!
