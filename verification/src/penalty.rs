use vstd::prelude::*;

use crate::capability::bounded_logits;
use crate::config::LOGIT_LIMIT;
use crate::config::PENALTY_DISABLED;

verus! {

/// One penalized score: a positive logit is divided by the scale, a negative
/// one multiplied by it, keeping the adjustment consistent in log space.
/// The scale is in thousandths.
pub open spec fn spec_penalized(v: int, millis: int) -> int {
    if v >= 0 {
        (v * 1000) / millis
    } else {
        -(((-v) * millis) / 1000)
    }
}

/// The window of most recent tokens that the penalty considers.
pub open spec fn spec_recent_window(toks: Seq<u32>, last_n: int) -> Seq<u32> {
    if toks.len() - last_n >= 0 {
        toks.skip(toks.len() - last_n)
    } else {
        toks
    }
}

/// Logits after the repetition penalty: every token id that appears in the
/// recent window has its score penalized once; every other score is kept.
pub open spec fn spec_apply_penalty(logits: Seq<i64>, recent: Seq<u32>, millis: int) -> Seq<i64> {
    Seq::new(
        logits.len(),
        |i: int|
            if 0 <= i <= u32::MAX && recent.contains(i as u32) {
                spec_penalized(logits[i] as int, millis) as i64
            } else {
                logits[i]
            },
    )
}

/// What the sampler receives: the raw logits when the penalty is disabled,
/// the penalized logits otherwise.
pub open spec fn spec_sampler_input(
    logits: Seq<i64>,
    toks: Seq<u32>,
    millis: u32,
    last_n: usize,
) -> Seq<i64> {
    if millis == PENALTY_DISABLED {
        logits
    } else {
        spec_apply_penalty(logits, spec_recent_window(toks, last_n as int), millis as int)
    }
}

/// A disabled penalty is a no-op: the logits handed to the sampler are
/// exactly the model's output.
pub proof fn lemma_penalty_disabled_noop(logits: Seq<i64>, toks: Seq<u32>, last_n: usize)
    ensures
        spec_sampler_input(logits, toks, PENALTY_DISABLED, last_n) == logits,
{
}

/// One penalized score, computed exactly in 64-bit arithmetic.
fn penalized(v: i64, millis: u32) -> (r: i64)
    requires
        millis >= 1,
        -LOGIT_LIMIT <= v <= LOGIT_LIMIT,
    ensures
        r as int == spec_penalized(v as int, millis as int),
{
    if v >= 0 {
        let num: u64 = (v as u64) * 1000;
        (num / (millis as u64)) as i64
    } else {
        let mag: u64 = (-v) as u64;
        assert(mag * (millis as u64) <= 1_000_000_000u64 * 0xffff_ffffu64)
            by (nonlinear_arith)
            requires
                mag <= 1_000_000_000u64,
                millis <= 0xffff_ffffu32,
        ;
        let prod: u64 = mag * (millis as u64);
        -((prod / 1000) as i64)
    }
}

/// Membership in one more taken entry: the element itself, or the shorter
/// prefix already had it.
proof fn lemma_take_push_contains(s: Seq<u32>, k: int, id: u32)
    requires
        0 <= k < s.len(),
        s[k] == id,
    ensures
        forall|x: u32|
            #[trigger] s.take(k + 1).contains(x) == (s.take(k).contains(x) || x == id),
{
    assert(s.take(k + 1) =~= s.take(k).push(id));
    assert forall|x: u32| #[trigger] s.take(k + 1).contains(x) == (s.take(k).contains(x) || x
        == id) by {
        if s.take(k + 1).contains(x) {
            let idx = choose|idx: int|
                0 <= idx < s.take(k + 1).len() && #[trigger] s.take(k + 1)[idx] == x;
            if idx < k {
                assert(s.take(k)[idx] == x);
            } else {
                assert(x == id);
            }
        }
        if s.take(k).contains(x) {
            let idx = choose|idx: int| 0 <= idx < s.take(k).len() && #[trigger] s.take(k)[idx] == x;
            assert(s.take(k + 1)[idx] == x);
        }
        if x == id {
            assert(s.take(k + 1)[k] == x);
        }
    }
}

/// Whether `x` occurs among the first `k` entries of `v`.
fn contains_before(v: &Vec<u32>, k: usize, x: u32) -> (r: bool)
    requires
        k <= v.len(),
    ensures
        r == v@.take(k as int).contains(x),
{
    let mut i: usize = 0;
    while i < k
        invariant
            i <= k <= v@.len(),
            !v@.take(i as int).contains(x),
        decreases k - i,
    {
        if v[i] == x {
            assert(v@.take(k as int)[i as int] == x);
            return true;
        }
        assert(v@.take(i + 1 as int) =~= v@.take(i as int).push(v@[i as int]));
        i = i + 1;
    }
    false
}

/// Apply the repetition penalty: each token id that appears in `recent` has
/// its logit penalized once; all other logits are returned unchanged.
pub fn apply_repeat_penalty(logits: &Vec<i64>, recent: &Vec<u32>, millis: u32) -> (r: Vec<i64>)
    requires
        millis >= 1,
        bounded_logits(logits@),
    ensures
        r@ == spec_apply_penalty(logits@, recent@, millis as int),
{
    let mut out: Vec<i64> = Vec::new();
    let mut i: usize = 0;
    while i < logits.len()
        invariant
            i <= logits.len(),
            out@.len() == i,
            forall|j: int| 0 <= j < i ==> out@[j] == logits@[j],
        decreases logits.len() - i,
    {
        let v = logits[i];
        out.push(v);
        i = i + 1;
    }
    let mut k: usize = 0;
    while k < recent.len()
        invariant
            k <= recent.len(),
            millis >= 1,
            bounded_logits(logits@),
            out@.len() == logits@.len(),
            forall|j: int|
                0 <= j < logits@.len() ==> out@[j] == (if 0 <= j <= u32::MAX && recent@.take(
                    k as int,
                ).contains(j as u32) {
                    spec_penalized(logits@[j] as int, millis as int) as i64
                } else {
                    logits@[j]
                }),
        decreases recent.len() - k,
    {
        let id = recent[k];
        let fresh = !contains_before(recent, k, id);
        proof {
            assert(recent@.take(k + 1 as int) =~= recent@.take(k as int).push(recent@[k as int]));
        }
        if fresh && (id as usize) < logits.len() {
            let v = logits[id as usize];
            let nv = penalized(v, millis);
            out.set(id as usize, nv);
            proof {
                assert(nv == spec_penalized(logits@[id as int] as int, millis as int) as i64);
                lemma_take_push_contains(recent@, k as int, id);
                assert forall|j: int| 0 <= j < logits@.len() implies out@[j] == (if 0 <= j
                    <= u32::MAX && recent@.take(k + 1 as int).contains(j as u32) {
                    spec_penalized(logits@[j] as int, millis as int) as i64
                } else {
                    logits@[j]
                }) by {
                    if j != id as int && 0 <= j <= u32::MAX {
                        assert(j as u32 != id);
                        assert(recent@.take(k + 1 as int).contains(j as u32) == recent@.take(
                            k as int,
                        ).contains(j as u32));
                    }
                }
            }
        } else {
            proof {
                lemma_take_push_contains(recent@, k as int, id);
                assert forall|j: int| 0 <= j < logits@.len() implies out@[j] == (if 0 <= j
                    <= u32::MAX && recent@.take(k + 1 as int).contains(j as u32) {
                    spec_penalized(logits@[j] as int, millis as int) as i64
                } else {
                    logits@[j]
                }) by {
                    if 0 <= j <= u32::MAX {
                        if j as u32 == id {
                            assert(j == id as int);
                            if !fresh {
                                assert(recent@.take(k as int).contains(id));
                            }
                        } else {
                            assert(recent@.take(k + 1 as int).contains(j as u32) == recent@.take(
                                k as int,
                            ).contains(j as u32));
                        }
                    }
                }
            }
        }
        k = k + 1;
    }
    proof {
        assert(recent@.take(recent@.len() as int) =~= recent@);
        assert(out@ =~= spec_apply_penalty(logits@, recent@, millis as int));
    }
    out
}

} // verus!
