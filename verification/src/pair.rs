use vstd::prelude::*;

use crate::capability::Tokenizer;
use crate::detok::prefix_monotone;

verus! {

/// The one-character rendering of a completed token pair.
pub const PAIR_MARK: char = '#';

/// A tokenizer capability whose text units each span two tokens, the way a
/// byte-level vocabulary can split one character across neighbors: a history
/// of odd length is not yet well formed, and becomes decodable only once the
/// pending unit's second half arrives. Every completed pair renders as one
/// mark character; encoding spends two tokens per character.
pub struct PairTokenizer {}

impl PairTokenizer {
    pub fn new() -> (r: Self) {
        PairTokenizer {}
    }
}

/// The text of a fully paired history: one mark per pair.
pub open spec fn spec_pair_decode(toks: Seq<u32>) -> Option<Seq<char>> {
    if toks.len() % 2 == 1 {
        None
    } else {
        Some(Seq::new(toks.len() / 2, |i: int| PAIR_MARK))
    }
}

/// Pair decoding never rewrites already-decoded text.
pub proof fn lemma_pair_prefix_monotone(t: PairTokenizer)
    ensures
        prefix_monotone(t),
{
    assert forall|a: Seq<u32>, b: Seq<u32>|
        (#[trigger] t.spec_decode(a)) is Some && (#[trigger] t.spec_decode(b)) is Some
            && a.is_prefix_of(b) implies t.spec_decode(a)->Some_0.is_prefix_of(
        t.spec_decode(b)->Some_0,
    ) by {
        let sa = t.spec_decode(a)->Some_0;
        let sb = t.spec_decode(b)->Some_0;
        assert(sa =~= sb.subrange(0, sa.len() as int));
    }
}

impl Tokenizer for PairTokenizer {
    open spec fn spec_encode(&self, text: Seq<char>) -> Seq<u32> {
        Seq::new(2 * text.len(), |i: int| 0u32)
    }

    open spec fn spec_decode(&self, toks: Seq<u32>) -> Option<Seq<char>> {
        spec_pair_decode(toks)
    }

    open spec fn spec_id_for(&self, text: Seq<char>) -> Option<u32> {
        None
    }

    fn encode(&self, text: &Vec<char>) -> (r: Vec<u32>) {
        let mut r: Vec<u32> = Vec::new();
        let mut i: usize = 0;
        while i < text.len()
            invariant
                i <= text@.len(),
                r@.len() == 2 * i,
                forall|j: int| 0 <= j < r@.len() ==> r@[j] == 0u32,
            decreases text.len() - i,
        {
            r.push(0);
            r.push(0);
            i = i + 1;
        }
        proof {
            assert(r@ =~= self.spec_encode(text@));
        }
        r
    }

    fn decode(&self, toks: &Vec<u32>) -> (r: Option<Vec<char>>) {
        if toks.len() % 2 == 1 {
            return None;
        }
        let n = toks.len() / 2;
        let mut out: Vec<char> = Vec::new();
        let mut i: usize = 0;
        while i < n
            invariant
                i <= n,
                out@.len() == i,
                forall|j: int| 0 <= j < out@.len() ==> out@[j] == PAIR_MARK,
            decreases n - i,
        {
            out.push(PAIR_MARK);
            i = i + 1;
        }
        proof {
            assert(out@ =~= spec_pair_decode(toks@)->Some_0);
        }
        Some(out)
    }

    fn id_for(&self, text: &Vec<char>) -> (r: Option<u32>) {
        None
    }
}

} // verus!
