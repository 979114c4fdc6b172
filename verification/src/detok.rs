use vstd::prelude::*;

use crate::capability::Tokenizer;

verus! {

/// Mathematical state of the incremental detokenizer: the token history fed
/// so far, and how many decoded characters have already been emitted.
pub ghost struct DetokView {
    pub toks: Seq<u32>,
    pub emitted: nat,
}

/// The empty detokenizer state.
pub open spec fn detok_empty() -> DetokView {
    DetokView { toks: Seq::empty(), emitted: 0 }
}

/// The fragment text, or nothing when no fragment was emitted.
pub open spec fn frag_or_empty(f: Option<Seq<char>>) -> Seq<char> {
    match f {
        Some(s) => s,
        None => Seq::empty(),
    }
}

/// An exec fragment agrees with a spec fragment.
pub open spec fn frag_matches(r: Option<Vec<char>>, f: Option<Seq<char>>) -> bool {
    match r {
        Some(v) => f == Some(v@),
        None => f is None,
    }
}

/// One `next_fragment` transition: append the token, decode the whole
/// history, and emit the new suffix when the decode is well formed and
/// strictly longer than what was already emitted; otherwise defer.
pub open spec fn detok_next<T: Tokenizer>(tok: T, st: DetokView, token: u32) -> (DetokView, Option<
    Seq<char>,
>) {
    let toks2 = st.toks.push(token);
    match tok.spec_decode(toks2) {
        None => (DetokView { toks: toks2, emitted: st.emitted }, None),
        Some(d) => if d.len() > st.emitted {
            (DetokView { toks: toks2, emitted: d.len() }, Some(d.skip(st.emitted as int)))
        } else {
            (DetokView { toks: toks2, emitted: st.emitted }, None)
        },
    }
}

/// The final flush: decode the full history and hand out whatever suffix was
/// never emitted.
pub open spec fn detok_flush<T: Tokenizer>(tok: T, st: DetokView) -> (DetokView, Option<
    Seq<char>,
>) {
    match tok.spec_decode(st.toks) {
        None => (st, None),
        Some(d) => if d.len() > st.emitted {
            (DetokView { toks: st.toks, emitted: d.len() }, Some(d.skip(st.emitted as int)))
        } else {
            (st, None)
        },
    }
}

/// Feeding a whole token sequence one token at a time from the empty state:
/// the state reached, and the concatenation of every emitted fragment.
pub open spec fn detok_run<T: Tokenizer>(tok: T, toks: Seq<u32>) -> (DetokView, Seq<char>)
    decreases toks.len(),
{
    if toks.len() == 0 {
        (detok_empty(), Seq::empty())
    } else {
        let prev = detok_run(tok, toks.drop_last());
        let step = detok_next(tok, prev.0, toks.last());
        (step.0, prev.1 + frag_or_empty(step.1))
    }
}

/// Decoding never rewrites already-decoded text: of two well-formed token
/// sequences, one a prefix of the other, the shorter one's text is a prefix
/// of the longer one's.
pub open spec fn prefix_monotone<T: Tokenizer>(tok: T) -> bool {
    forall|a: Seq<u32>, b: Seq<u32>|
        (#[trigger] tok.spec_decode(a)) is Some && (#[trigger] tok.spec_decode(b)) is Some
            && a.is_prefix_of(b) ==> tok.spec_decode(a)->Some_0.is_prefix_of(
            tok.spec_decode(b)->Some_0,
        )
}

/// Invariant of an incremental decode under a prefix-monotone tokenizer: the
/// emitted text is exactly the decode of some prefix of the history.
pub proof fn lemma_detok_run_invariant<T: Tokenizer>(tok: T, toks: Seq<u32>)
    requires
        prefix_monotone(tok),
    ensures
        ({
            let (st, out) = detok_run(tok, toks);
            &&& st.toks == toks
            &&& st.emitted == out.len()
            &&& (out.len() == 0 && out == Seq::<char>::empty()) || (exists|j: int|
                0 <= j <= toks.len() && #[trigger] tok.spec_decode(toks.take(j)) == Some(out))
        }),
    decreases toks.len(),
{
    if toks.len() == 0 {
    } else {
        let short = toks.drop_last();
        lemma_detok_run_invariant(tok, short);
        let (st, out) = detok_run(tok, short);
        let token = toks.last();
        assert(st.toks.push(token) =~= toks);
        match tok.spec_decode(toks) {
            None => {
                carry_witness(tok, short, toks, out);
            },
            Some(d) => {
                if d.len() > st.emitted {
                    // A fragment is emitted: the new total text is exactly d.
                    if out.len() == 0 {
                        assert(out + d.skip(0) =~= d);
                        assert(toks.take(toks.len() as int) =~= toks);
                        assert(tok.spec_decode(toks.take(toks.len() as int)) == Some(
                            out + frag_or_empty(detok_next(tok, st, token).1),
                        ));
                    } else {
                        let j = choose|j: int|
                            0 <= j <= short.len() && #[trigger] tok.spec_decode(short.take(j))
                                == Some(out);
                        assert(short.take(j) =~= toks.take(j));
                        assert(toks.take(j).is_prefix_of(toks));
                        // prefix_monotone: out is a prefix of d
                        assert(out.is_prefix_of(d));
                        assert(out + d.skip(out.len() as int) =~= d);
                        assert(toks.take(toks.len() as int) =~= toks);
                        assert(tok.spec_decode(toks.take(toks.len() as int)) == Some(
                            out + frag_or_empty(detok_next(tok, st, token).1),
                        ));
                    }
                } else {
                    carry_witness(tok, short, toks, out);
                }
            },
        }
    }
}

/// A decode witness for a prefix of the shorter history still serves for the
/// longer history.
proof fn carry_witness<T: Tokenizer>(tok: T, short: Seq<u32>, toks: Seq<u32>, out: Seq<char>)
    requires
        short == toks.drop_last(),
        toks.len() >= 1,
        (out.len() == 0 && out == Seq::<char>::empty()) || (exists|j: int|
            0 <= j <= short.len() && #[trigger] tok.spec_decode(short.take(j)) == Some(out)),
    ensures
        (out.len() == 0 && out == Seq::<char>::empty()) || (exists|j: int|
            0 <= j <= toks.len() && #[trigger] tok.spec_decode(toks.take(j)) == Some(out)),
{
    if out.len() != 0 {
        let j = choose|j: int|
            0 <= j <= short.len() && #[trigger] tok.spec_decode(short.take(j)) == Some(out);
        assert(short.take(j) =~= toks.take(j));
        assert(tok.spec_decode(toks.take(j)) == Some(out));
    }
}

/// Segmentation equivalence: decoding a token sequence incrementally, one
/// token at a time, and concatenating every emitted fragment plus the final
/// flush yields exactly the text of decoding the whole sequence at once —
/// nothing is dropped, duplicated or reordered.
pub proof fn lemma_segmentation_equivalence<T: Tokenizer>(tok: T, toks: Seq<u32>)
    requires
        prefix_monotone(tok),
        tok.spec_decode(toks) is Some,
    ensures
        ({
            let (st, out) = detok_run(tok, toks);
            out + frag_or_empty(detok_flush(tok, st).1) == tok.spec_decode(toks)->Some_0
        }),
{
    lemma_detok_run_invariant(tok, toks);
    let (st, out) = detok_run(tok, toks);
    let d = tok.spec_decode(toks)->Some_0;
    if out.len() == 0 {
        if d.len() > 0 {
            assert(out + d.skip(0) =~= d);
        } else {
            assert(out + Seq::<char>::empty() =~= d);
        }
    } else {
        let j = choose|j: int|
            0 <= j <= toks.len() && #[trigger] tok.spec_decode(toks.take(j)) == Some(out);
        assert(toks.take(j).is_prefix_of(toks));
        assert(out.is_prefix_of(d));
        if d.len() > st.emitted {
            assert(out + d.skip(out.len() as int) =~= d);
        } else {
            assert(out =~= d);
            assert(out + Seq::<char>::empty() =~= d);
        }
    }
}

/// Characters of `v` from position `from` on, as a fresh vector.
fn tail_from(v: &Vec<char>, from: usize) -> (r: Vec<char>)
    requires
        from <= v.len(),
    ensures
        r@ == v@.skip(from as int),
{
    let mut r: Vec<char> = Vec::new();
    let mut i: usize = from;
    while i < v.len()
        invariant
            from <= i <= v.len(),
            r@ == v@.subrange(from as int, i as int),
        decreases v.len() - i,
    {
        let c = v[i];
        r.push(c);
        assert(r@ =~= v@.subrange(from as int, i + 1 as int));
        i = i + 1;
    }
    assert(r@ =~= v@.skip(from as int));
    r
}

/// Wraps a tokenizer capability and converts a growing token stream into a
/// never-repeating stream of text fragments, deferring any fragment whose
/// text is not yet well formed until later tokens complete it.
pub struct IncrementalDetokenizer<T: Tokenizer> {
    tokenizer: T,
    toks: Vec<u32>,
    emitted: usize,
}

impl<T: Tokenizer> IncrementalDetokenizer<T> {
    /// The wrapped tokenizer capability.
    pub closed spec fn tok(&self) -> T {
        self.tokenizer
    }

    /// The token history and emitted-character count.
    pub closed spec fn view(&self) -> DetokView {
        DetokView { toks: self.toks@, emitted: self.emitted as nat }
    }

    pub fn new(tokenizer: T) -> (r: Self)
        ensures
            r.tok() == tokenizer,
            r@ == detok_empty(),
    {
        IncrementalDetokenizer { tokenizer, toks: Vec::new(), emitted: 0 }
    }

    /// Start a new stream: clears the token history and the emitted count
    /// without touching the wrapped tokenizer.
    pub fn reset(&mut self)
        ensures
            final(self).tok() == old(self).tok(),
            final(self)@ == detok_empty(),
    {
        self.toks = Vec::new();
        self.emitted = 0;
    }

    /// Encode a text through the wrapped tokenizer.
    pub fn encode(&self, text: &Vec<char>) -> (r: Vec<u32>)
        ensures
            r@ == self.tok().spec_encode(text@),
    {
        self.tokenizer.encode(text)
    }

    /// Resolve the token id of a whole text unit, used for the stop marker.
    pub fn token_id_for(&self, text: &Vec<char>) -> (r: Option<u32>)
        ensures
            r == self.tok().spec_id_for(text@),
    {
        self.tokenizer.id_for(text)
    }

    /// Append one token and return the next printable fragment, or `None`
    /// when the decoded text did not safely grow yet and emission is
    /// deferred to a later call.
    pub fn next_fragment(&mut self, token: u32) -> (r: Option<Vec<char>>)
        ensures
            final(self).tok() == old(self).tok(),
            final(self)@ == detok_next(old(self).tok(), old(self)@, token).0,
            frag_matches(r, detok_next(old(self).tok(), old(self)@, token).1),
    {
        self.toks.push(token);
        match self.tokenizer.decode(&self.toks) {
            None => None,
            Some(d) => {
                if d.len() > self.emitted {
                    let frag = tail_from(&d, self.emitted);
                    self.emitted = d.len();
                    Some(frag)
                } else {
                    None
                }
            },
        }
    }

    /// Decode the full history once generation has stopped and return the
    /// suffix that was never emitted, if there is one.
    pub fn flush_rest(&mut self) -> (r: Option<Vec<char>>)
        ensures
            final(self).tok() == old(self).tok(),
            final(self)@ == detok_flush(old(self).tok(), old(self)@).0,
            frag_matches(r, detok_flush(old(self).tok(), old(self)@).1),
    {
        match self.tokenizer.decode(&self.toks) {
            None => None,
            Some(d) => {
                if d.len() > self.emitted {
                    let frag = tail_from(&d, self.emitted);
                    self.emitted = d.len();
                    Some(frag)
                } else {
                    None
                }
            },
        }
    }
}

} // verus!
