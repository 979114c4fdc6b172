use textgen::config::GenError;
use textgen::config::GenerationConfig;
use textgen::config::RunOutcome;
use textgen::config::PENALTY_DISABLED;
use textgen::gen::GenerationLoop;
use textgen::sampler::GreedySampler;
use textgen::script::ScriptedModel;
use textgen::throughput_millitokens_per_sec;
use textgen::vocab::VocabTokenizer;

fn chars(s: &str) -> Vec<char> {
    s.chars().collect()
}

fn demo_vocab() -> Vec<Vec<char>> {
    vec![
        chars("H"),
        chars("e"),
        chars("l"),
        chars("o"),
        chars("<eos>"),
        chars("a"),
        chars("b"),
        chars("w"),
    ]
}

fn config() -> GenerationConfig {
    GenerationConfig {
        seed: 299792458,
        temperature_micros: None,
        top_p_micros: None,
        repeat_penalty_millis: PENALTY_DISABLED,
        repeat_last_n: 64,
        end_marker: chars("<eos>"),
    }
}

/// A logit vector over the 8-entry demo vocabulary favoring one token id.
fn favoring(id: usize) -> Vec<i64> {
    let mut l = vec![0i64; 8];
    l[id] = 100;
    l
}

#[test]
fn scripted_run_stops_on_stop_token() {
    // The model favors token 7 ("w") twice, then favors the stop token.
    let script = vec![favoring(7), favoring(7), favoring(4)];
    let mut pipeline = GenerationLoop::new(
        ScriptedModel::new(script),
        GreedySampler { seed: 299792458 },
        VocabTokenizer::new(demo_vocab()),
        config(),
    );
    let started = std::time::Instant::now();
    let report = pipeline.run(&chars("Hello"), 10);
    let elapsed_micros = started.elapsed().as_micros().max(1) as u64;

    // Exactly three generated tokens; the run reached Stopped; the stop
    // token was never rendered to text.
    assert_eq!(report.generated, 3);
    assert_eq!(report.outcome, RunOutcome::Stopped);
    assert_eq!(report.stop_token, Some(4));
    assert_eq!(report.text, chars("Helloeoww"));

    // Throughput is a finite positive figure.
    let rate = throughput_millitokens_per_sec(report.generated, elapsed_micros);
    assert!(rate.is_some());
    assert!(rate.unwrap() > 0);
    let secs = elapsed_micros as f64 / 1_000_000.0f64;
    let tps = report.generated as f64 / secs;
    assert!(tps.is_finite());
    assert!(tps > 0.0f64);
}

#[test]
fn inference_failure_aborts_but_keeps_delivered_text() {
    // One scripted step only: the second forward pass fails.
    let script = vec![favoring(7)];
    let mut pipeline = GenerationLoop::new(
        ScriptedModel::new(script),
        GreedySampler { seed: 1 },
        VocabTokenizer::new(demo_vocab()),
        config(),
    );
    let report = pipeline.run(&chars("Hello"), 10);
    assert_eq!(report.outcome, RunOutcome::Failed(GenError::Inference));
    assert_eq!(report.generated, 1);
    // The fragment from the successful first step stays delivered.
    assert_eq!(report.text, chars("Helloeow"));
}

#[test]
fn zero_budget_generates_nothing() {
    let script = vec![favoring(7)];
    let mut pipeline = GenerationLoop::new(
        ScriptedModel::new(script),
        GreedySampler { seed: 1 },
        VocabTokenizer::new(demo_vocab()),
        config(),
    );
    let report = pipeline.run(&chars("Hello"), 0);
    assert_eq!(report.generated, 0);
    assert_eq!(report.outcome, RunOutcome::BudgetExhausted);
    // The echo also renders the marker characters the vocabulary knows.
    assert_eq!(report.text, chars("Helloeo"));
}

#[test]
fn empty_prompt_generates_nothing() {
    let script = vec![favoring(7)];
    let mut pipeline = GenerationLoop::new(
        ScriptedModel::new(script),
        GreedySampler { seed: 1 },
        VocabTokenizer::new(vec![chars("a")]),
        GenerationConfig {
            seed: 0,
            temperature_micros: None,
            top_p_micros: None,
            repeat_penalty_millis: PENALTY_DISABLED,
            repeat_last_n: 64,
            end_marker: chars("<eos>"),
        },
    );
    // Neither the empty prompt nor the marker's characters encode to tokens.
    let report = pipeline.run(&chars(""), 10);
    assert_eq!(report.generated, 0);
    assert_eq!(report.outcome, RunOutcome::BudgetExhausted);
    assert_eq!(report.text, chars(""));
}

#[test]
fn budget_exhaustion_without_stop_token() {
    // The model keeps favoring ordinary tokens; the budget ends the run.
    let script = vec![favoring(7), favoring(5), favoring(6), favoring(7), favoring(5)];
    let mut pipeline = GenerationLoop::new(
        ScriptedModel::new(script),
        GreedySampler { seed: 1 },
        VocabTokenizer::new(demo_vocab()),
        config(),
    );
    let report = pipeline.run(&chars("Hello"), 2);
    assert_eq!(report.generated, 2);
    assert_eq!(report.outcome, RunOutcome::BudgetExhausted);
    assert_eq!(report.text, chars("Helloeowa"));
}

#[test]
fn unresolved_stop_marker_is_degraded_mode() {
    // No "<eos>" entry in this vocabulary: the run relies on the budget.
    let vocab = vec![chars("H"), chars("e"), chars("l"), chars("o"), chars("w")];
    let script = vec![favoring(4), favoring(4), favoring(4)];
    let mut pipeline = GenerationLoop::new(
        ScriptedModel::new(script),
        GreedySampler { seed: 1 },
        VocabTokenizer::new(vocab),
        config(),
    );
    let report = pipeline.run(&chars("Hello"), 3);
    assert_eq!(report.stop_token, None);
    assert_eq!(report.outcome, RunOutcome::BudgetExhausted);
    assert_eq!(report.generated, 3);
    assert_eq!(report.text, chars("Helloeowww"));
}

#[test]
fn greedy_runs_are_deterministic() {
    let make = || {
        GenerationLoop::new(
            ScriptedModel::new(vec![favoring(7), favoring(7), favoring(4)]),
            GreedySampler { seed: 299792458 },
            VocabTokenizer::new(demo_vocab()),
            config(),
        )
    };
    let mut a = make();
    let mut b = make();
    let ra = a.run(&chars("Hello"), 10);
    let rb = b.run(&chars("Hello"), 10);
    assert_eq!(ra, rb);
}

#[test]
fn disabled_penalty_passes_raw_logits_through() {
    // Prompt token 2 ("l") is in the recent window. With the penalty
    // disabled the greedy draw follows the raw logits exactly.
    let vocab = vec![chars("a"), chars("b"), chars("l")];
    let script = vec![vec![0i64, 5, 9]];
    let mut pipeline = GenerationLoop::new(
        ScriptedModel::new(script),
        GreedySampler { seed: 1 },
        VocabTokenizer::new(vocab),
        GenerationConfig {
            seed: 1,
            temperature_micros: None,
            top_p_micros: None,
            repeat_penalty_millis: PENALTY_DISABLED,
            repeat_last_n: 64,
            end_marker: chars(""),
        },
    );
    let report = pipeline.run(&chars("l"), 1);
    assert_eq!(report.generated, 1);
    assert_eq!(report.text, chars("ll"));
}

#[test]
fn enabled_penalty_discourages_recent_tokens() {
    // Same setup, but a penalty of 2.0 halves the repeated token's score:
    // 9 becomes 4, so the draw falls to token 1 ("b").
    let vocab = vec![chars("a"), chars("b"), chars("l")];
    let script = vec![vec![0i64, 5, 9]];
    let mut pipeline = GenerationLoop::new(
        ScriptedModel::new(script),
        GreedySampler { seed: 1 },
        VocabTokenizer::new(vocab),
        GenerationConfig {
            seed: 1,
            temperature_micros: None,
            top_p_micros: None,
            repeat_penalty_millis: 2000,
            repeat_last_n: 64,
            end_marker: chars(""),
        },
    );
    let report = pipeline.run(&chars("l"), 1);
    assert_eq!(report.generated, 1);
    assert_eq!(report.text, chars("lb"));
}

#[test]
fn throughput_formula() {
    // Three tokens over one second: 3000 millitokens per second.
    assert_eq!(throughput_millitokens_per_sec(3, 1_000_000), Some(3000));
    // A zero elapsed time leaves the rate undefined.
    assert_eq!(throughput_millitokens_per_sec(3, 0), None);
    assert_eq!(throughput_millitokens_per_sec(0, 500), Some(0));
}
