use vstd::prelude::*;

use crate::capability::Sampler;
use crate::config::GenError;

verus! {

/// The position of the greatest score, keeping the first of equal maxima.
pub open spec fn spec_argmax(l: Seq<i64>) -> int
    recommends
        l.len() > 0,
    decreases l.len(),
{
    if l.len() <= 1 {
        0
    } else {
        let prev = spec_argmax(l.drop_last());
        if l.last() > l[prev] {
            l.len() - 1
        } else {
            prev
        }
    }
}

/// The argmax is a position of the sequence, holds its maximum, and is the
/// first position where that maximum occurs.
pub proof fn lemma_argmax_properties(l: Seq<i64>)
    requires
        l.len() > 0,
    ensures
        0 <= spec_argmax(l) < l.len(),
        forall|i: int| 0 <= i < l.len() ==> #[trigger] l[i] <= l[spec_argmax(l)],
        forall|i: int| 0 <= i < spec_argmax(l) ==> #[trigger] l[i] < l[spec_argmax(l)],
    decreases l.len(),
{
    if l.len() > 1 {
        lemma_argmax_properties(l.drop_last());
        assert forall|i: int| 0 <= i < l.len() implies #[trigger] l[i] <= l[spec_argmax(l)] by {
            if i < l.len() - 1 {
                assert(l.drop_last()[i] == l[i]);
            }
        }
        assert forall|i: int| 0 <= i < spec_argmax(l) implies #[trigger] l[i] < l[spec_argmax(
            l,
        )] by {
            if i < l.len() - 1 {
                assert(l.drop_last()[i] == l[i]);
            }
        }
    }
}

/// First position of the greatest score in a non-empty vector.
pub fn argmax(l: &Vec<i64>) -> (r: usize)
    requires
        l.len() > 0,
    ensures
        r as int == spec_argmax(l@),
{
    let mut best: usize = 0;
    let mut k: usize = 1;
    while k < l.len()
        invariant
            1 <= k <= l@.len(),
            0 <= (best as int) < k,
            best as int == spec_argmax(l@.take(k as int)),
        decreases l.len() - k,
    {
        proof {
            assert(l@.take(k + 1 as int).drop_last() =~= l@.take(k as int));
            assert(l@.take(k + 1 as int).last() == l@[k as int]);
        }
        if l[k] > l[best] {
            best = k;
        }
        k = k + 1;
    }
    proof {
        assert(l@.take(l@.len() as int) =~= l@);
    }
    best
}

/// The deterministic, greedy sampling policy: a null temperature means the
/// draw is always the arg-max of the logits. Its state never changes, so
/// every draw is a pure function of the logits.
#[derive(Clone, Copy, Debug, PartialEq, Eq, Structural)]
pub struct GreedySampler {
    /// The seed is carried for interface parity; a greedy draw never uses it.
    pub seed: u64,
}

impl Sampler for GreedySampler {
    open spec fn spec_sample(&self, logits: Seq<i64>) -> Option<u32> {
        if logits.len() == 0 || logits.len() > u32::MAX as int {
            None
        } else {
            Some(spec_argmax(logits) as u32)
        }
    }

    open spec fn spec_step(&self, logits: Seq<i64>) -> Self {
        *self
    }

    fn sample(&mut self, logits: &Vec<i64>) -> (r: Result<u32, GenError>) {
        if logits.len() == 0 {
            Err(GenError::Sampling)
        } else if logits.len() > (u32::MAX as usize) {
            Err(GenError::Sampling)
        } else {
            let best = argmax(logits);
            proof {
                lemma_argmax_properties(logits@);
            }
            Ok(best as u32)
        }
    }
}

} // verus!
