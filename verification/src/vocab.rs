use vstd::prelude::*;

use crate::capability::Tokenizer;
use crate::detok::detok_flush;
use crate::detok::detok_run;
use crate::detok::frag_or_empty;
use crate::detok::lemma_segmentation_equivalence;
use crate::detok::prefix_monotone;
use crate::util::chars_eq;
use crate::util::push_all;

verus! {

/// The first vocabulary entry equal to `text`, searching from position `k`.
pub open spec fn spec_find_entry(words: Seq<Seq<char>>, text: Seq<char>, k: int) -> Option<u32>
    decreases words.len() - k,
{
    if k < 0 || k >= words.len() {
        None
    } else if words[k] == text {
        Some(k as u32)
    } else {
        spec_find_entry(words, text, k + 1)
    }
}

/// The concatenation of the vocabulary entries of a token sequence, or
/// `None` as soon as a token has no entry.
pub open spec fn spec_vocab_decode(words: Seq<Seq<char>>, toks: Seq<u32>) -> Option<Seq<char>>
    decreases toks.len(),
{
    if toks.len() == 0 {
        Some(Seq::empty())
    } else {
        match spec_vocab_decode(words, toks.drop_last()) {
            None => None,
            Some(s) => if (toks.last() as int) < words.len() {
                Some(s + words[toks.last() as int])
            } else {
                None
            },
        }
    }
}

/// Character-wise encoding: each character maps to the first single-character
/// vocabulary entry that equals it; characters without one are skipped.
pub open spec fn spec_vocab_encode(words: Seq<Seq<char>>, text: Seq<char>) -> Seq<u32>
    decreases text.len(),
{
    if text.len() == 0 {
        Seq::empty()
    } else {
        let rest = spec_vocab_encode(words, text.drop_last());
        match spec_find_entry(words, seq![text.last()], 0) {
            Some(t) => rest.push(t),
            None => rest,
        }
    }
}

/// A table-driven tokenizer capability: token id `i` stands for the `i`-th
/// vocabulary entry. It decodes by concatenating entries, encodes character
/// by character, and resolves a whole text unit to the first entry equal to
/// it, so multi-character markers get ids of their own.
pub struct VocabTokenizer {
    pub vocab: Vec<Vec<char>>,
}

impl VocabTokenizer {
    /// The vocabulary as a sequence of texts.
    pub open spec fn words(&self) -> Seq<Seq<char>> {
        self.vocab@.map_values(|e: Vec<char>| e@)
    }

    pub fn new(vocab: Vec<Vec<char>>) -> (r: Self)
        ensures
            r.vocab == vocab,
    {
        VocabTokenizer { vocab }
    }

    /// The first vocabulary entry holding exactly this text.
    fn find_entry(&self, text: &Vec<char>) -> (r: Option<u32>)
        ensures
            r == spec_find_entry(self.words(), text@, 0),
    {
        let mut k: usize = 0;
        while k < self.vocab.len()
            invariant
                0 <= k <= self.vocab@.len(),
                spec_find_entry(self.words(), text@, 0) == spec_find_entry(
                    self.words(),
                    text@,
                    k as int,
                ),
            decreases self.vocab.len() - k,
        {
            assert(self.words()[k as int] == self.vocab@[k as int]@);
            if chars_eq(&self.vocab[k], text) {
                return Some(#[verifier::truncate] (k as u32));
            }
            k = k + 1;
        }
        None
    }
}

/// A decode failure of any prefix dooms the whole sequence: the bad token
/// stays in it.
proof fn lemma_vocab_decode_none_extends(words: Seq<Seq<char>>, toks: Seq<u32>, i: int)
    requires
        0 <= i <= toks.len(),
        spec_vocab_decode(words, toks.take(i)) is None,
    ensures
        spec_vocab_decode(words, toks) is None,
    decreases toks.len() - i,
{
    if i < toks.len() {
        assert(toks.take(i + 1).drop_last() =~= toks.take(i));
        lemma_vocab_decode_none_extends(words, toks, i + 1);
    } else {
        assert(toks.take(i) =~= toks);
    }
}

/// Of two well-formed sequences, one a prefix of the other, the shorter
/// one's text is a prefix of the longer one's.
proof fn lemma_vocab_decode_extends(words: Seq<Seq<char>>, a: Seq<u32>, b: Seq<u32>)
    requires
        a.is_prefix_of(b),
        spec_vocab_decode(words, a) is Some,
        spec_vocab_decode(words, b) is Some,
    ensures
        spec_vocab_decode(words, a)->Some_0.is_prefix_of(spec_vocab_decode(words, b)->Some_0),
    decreases b.len(),
{
    if a.len() == b.len() {
        assert(a =~= b);
    } else {
        let c = b.drop_last();
        assert(a.is_prefix_of(c)) by {
            assert(a =~= b.subrange(0, a.len() as int));
            assert(c.subrange(0, a.len() as int) =~= b.subrange(0, a.len() as int));
        }
        lemma_vocab_decode_extends(words, a, c);
        let sa = spec_vocab_decode(words, a)->Some_0;
        let sc = spec_vocab_decode(words, c)->Some_0;
        let sb = spec_vocab_decode(words, b)->Some_0;
        assert(sb == sc + words[b.last() as int]);
        assert(sa.is_prefix_of(sb)) by {
            assert(sa =~= sc.subrange(0, sa.len() as int));
            assert(sb.subrange(0, sa.len() as int) =~= sc.subrange(0, sa.len() as int));
        }
    }
}

/// The table tokenizer never rewrites already-decoded text, so the
/// segmentation-equivalence law applies to it.
pub proof fn lemma_vocab_prefix_monotone(t: VocabTokenizer)
    ensures
        prefix_monotone(t),
{
    assert forall|a: Seq<u32>, b: Seq<u32>|
        (#[trigger] t.spec_decode(a)) is Some && (#[trigger] t.spec_decode(b)) is Some
            && a.is_prefix_of(b) implies t.spec_decode(a)->Some_0.is_prefix_of(
        t.spec_decode(b)->Some_0,
    ) by {
        lemma_vocab_decode_extends(t.words(), a, b);
    }
}

/// Segmentation equivalence, specialized to the table tokenizer: for any
/// history it can decode at all, the incremental fragments plus the flush
/// are exactly the one-shot decode.
pub proof fn lemma_vocab_segmentation_equivalence(t: VocabTokenizer, toks: Seq<u32>)
    requires
        t.spec_decode(toks) is Some,
    ensures
        ({
            let run = detok_run(t, toks);
            run.1 + frag_or_empty(detok_flush(t, run.0).1) == t.spec_decode(toks)->Some_0
        }),
{
    lemma_vocab_prefix_monotone(t);
    lemma_segmentation_equivalence(t, toks);
}

impl Tokenizer for VocabTokenizer {
    open spec fn spec_encode(&self, text: Seq<char>) -> Seq<u32> {
        spec_vocab_encode(self.words(), text)
    }

    open spec fn spec_decode(&self, toks: Seq<u32>) -> Option<Seq<char>> {
        spec_vocab_decode(self.words(), toks)
    }

    open spec fn spec_id_for(&self, text: Seq<char>) -> Option<u32> {
        spec_find_entry(self.words(), text, 0)
    }

    fn encode(&self, text: &Vec<char>) -> (r: Vec<u32>) {
        let mut r: Vec<u32> = Vec::new();
        let mut i: usize = 0;
        while i < text.len()
            invariant
                i <= text@.len(),
                r@ == spec_vocab_encode(self.words(), text@.take(i as int)),
            decreases text.len() - i,
        {
            let mut key: Vec<char> = Vec::new();
            let c = text[i];
            key.push(c);
            assert(key@ =~= seq![text@[i as int]]);
            proof {
                assert(text@.take(i + 1 as int).drop_last() =~= text@.take(i as int));
                assert(text@.take(i + 1 as int).last() == text@[i as int]);
            }
            match self.find_entry(&key) {
                Some(t) => {
                    r.push(t);
                },
                None => {},
            }
            i = i + 1;
        }
        proof {
            assert(text@.take(text@.len() as int) =~= text@);
        }
        r
    }

    fn decode(&self, toks: &Vec<u32>) -> (r: Option<Vec<char>>) {
        let mut out: Vec<char> = Vec::new();
        let mut i: usize = 0;
        while i < toks.len()
            invariant
                i <= toks@.len(),
                spec_vocab_decode(self.words(), toks@.take(i as int)) == Some(out@),
            decreases toks.len() - i,
        {
            let t = toks[i];
            proof {
                assert(toks@.take(i + 1 as int).drop_last() =~= toks@.take(i as int));
                assert(toks@.take(i + 1 as int).last() == toks@[i as int]);
            }
            if (t as usize) >= self.vocab.len() {
                proof {
                    lemma_vocab_decode_none_extends(self.words(), toks@, i + 1);
                }
                return None;
            }
            assert(self.words()[t as int] == self.vocab@[t as int]@);
            push_all(&mut out, &self.vocab[t as usize]);
            i = i + 1;
        }
        proof {
            assert(toks@.take(toks@.len() as int) =~= toks@);
        }
        Some(out)
    }

    fn id_for(&self, text: &Vec<char>) -> (r: Option<u32>) {
        self.find_entry(text)
    }
}

} // verus!
