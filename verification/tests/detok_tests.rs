use textgen::capability::Tokenizer;
use textgen::detok::IncrementalDetokenizer;
use textgen::pair::PairTokenizer;
use textgen::vocab::VocabTokenizer;

fn chars(s: &str) -> Vec<char> {
    s.chars().collect()
}

fn demo_vocab() -> Vec<Vec<char>> {
    vec![
        chars("H"),
        chars("e"),
        chars("l"),
        chars("o"),
        chars("<eos>"),
        chars("a"),
        chars("b"),
        chars("w"),
    ]
}

#[test]
fn encode_decode_roundtrip() {
    let tok = VocabTokenizer::new(demo_vocab());
    let toks = tok.encode(&chars("Hello"));
    assert_eq!(toks, vec![0, 1, 2, 2, 3]);
    let text = tok.decode(&toks).expect("well-formed tokens decode");
    assert_eq!(text, chars("Hello"));
}

#[test]
fn encode_skips_unknown_characters() {
    let tok = VocabTokenizer::new(demo_vocab());
    let toks = tok.encode(&chars("He?!o"));
    assert_eq!(toks, vec![0, 1, 3]);
}

#[test]
fn decode_fails_on_unknown_token() {
    let tok = VocabTokenizer::new(demo_vocab());
    assert_eq!(tok.decode(&vec![0, 99]), None);
}

#[test]
fn id_for_resolves_marker() {
    let tok = VocabTokenizer::new(demo_vocab());
    assert_eq!(tok.id_for(&chars("<eos>")), Some(4));
    assert_eq!(tok.id_for(&chars("H")), Some(0));
    assert_eq!(tok.id_for(&chars("missing")), None);
}

#[test]
fn segmentation_equivalence_on_a_run() {
    // Incremental fragments plus the flush equal the one-shot decode.
    let tok = VocabTokenizer::new(demo_vocab());
    let toks = vec![0u32, 1, 2, 2, 3, 7, 5, 6];
    let whole = tok.decode(&toks).expect("decodes");
    let mut detok = IncrementalDetokenizer::new(VocabTokenizer::new(demo_vocab()));
    let mut streamed: Vec<char> = Vec::new();
    for t in &toks {
        if let Some(f) = detok.next_fragment(*t) {
            streamed.extend(f);
        }
    }
    if let Some(rest) = detok.flush_rest() {
        streamed.extend(rest);
    }
    assert_eq!(streamed, whole);
}

#[test]
fn deferral_on_ill_formed_history() {
    // A token with no entry leaves the history ill-formed: emission defers.
    let mut detok = IncrementalDetokenizer::new(VocabTokenizer::new(demo_vocab()));
    assert_eq!(detok.next_fragment(0), Some(chars("H")));
    assert_eq!(detok.next_fragment(99), None);
    assert_eq!(detok.next_fragment(1), None);
    assert_eq!(detok.flush_rest(), None);
}

#[test]
fn reset_starts_a_fresh_stream() {
    let mut detok = IncrementalDetokenizer::new(VocabTokenizer::new(demo_vocab()));
    assert_eq!(detok.next_fragment(0), Some(chars("H")));
    detok.reset();
    assert_eq!(detok.next_fragment(1), Some(chars("e")));
    assert_eq!(detok.flush_rest(), None);
}

#[test]
fn flush_returns_pending_suffix() {
    // Nothing was emitted incrementally for the bad-free tail yet: feed one
    // token, emit, then flush with nothing pending.
    let mut detok = IncrementalDetokenizer::new(VocabTokenizer::new(demo_vocab()));
    assert_eq!(detok.next_fragment(4), Some(chars("<eos>")));
    assert_eq!(detok.flush_rest(), None);
}

#[test]
fn deferral_resolves_when_unit_completes() {
    // Each text unit spans two tokens: the first half defers, the second
    // completes the unit and releases the fragment.
    let mut detok = IncrementalDetokenizer::new(PairTokenizer::new());
    assert_eq!(detok.next_fragment(10), None);
    assert_eq!(detok.next_fragment(11), Some(vec!['#']));
    assert_eq!(detok.next_fragment(12), None);
    assert_eq!(detok.flush_rest(), None);
}

#[test]
fn paired_stream_matches_one_shot_decode() {
    let tok = PairTokenizer::new();
    let toks = vec![1u32, 2, 3, 4, 5, 6];
    let whole = tok.decode(&toks).expect("an even history decodes");
    let mut detok = IncrementalDetokenizer::new(PairTokenizer::new());
    let mut streamed: Vec<char> = Vec::new();
    for t in &toks {
        if let Some(f) = detok.next_fragment(*t) {
            streamed.extend(f);
        }
    }
    if let Some(rest) = detok.flush_rest() {
        streamed.extend(rest);
    }
    assert_eq!(streamed, whole);
}
