use vstd::prelude::*;

use crate::capability::bounded_logits;
use crate::capability::LanguageModel;
use crate::config::GenError;
use crate::config::LOGIT_LIMIT;

verus! {

/// Whether every score of a vector is inside the working range.
fn check_bounded(l: &Vec<i64>) -> (r: bool)
    ensures
        r == bounded_logits(l@),
{
    let mut i: usize = 0;
    while i < l.len()
        invariant
            i <= l@.len(),
            forall|j: int| 0 <= j < i ==> -LOGIT_LIMIT <= #[trigger] l@[j] <= LOGIT_LIMIT,
        decreases l.len() - i,
    {
        let v = l[i];
        if v < -LOGIT_LIMIT || v > LOGIT_LIMIT {
            return false;
        }
        i = i + 1;
    }
    true
}

/// A copy of a logit vector.
fn copy_logits(l: &Vec<i64>) -> (r: Vec<i64>)
    ensures
        r@ == l@,
{
    let mut r: Vec<i64> = Vec::new();
    let mut i: usize = 0;
    while i < l.len()
        invariant
            i <= l@.len(),
            r@ == l@.take(i as int),
        decreases l.len() - i,
    {
        let v = l[i];
        r.push(v);
        assert(r@ =~= l@.take(i + 1 as int));
        i = i + 1;
    }
    proof {
        assert(l@.take(l@.len() as int) =~= l@);
    }
    r
}

/// A model capability with a fixed script: the forward pass at step `k`
/// returns the `k`-th scripted logit vector, regardless of the context, and
/// fails once the script is exhausted or an entry leaves the working range.
/// Each call advances the step, mirroring a model's internal cache state.
pub struct ScriptedModel {
    pub script: Vec<Vec<i64>>,
    pub step: usize,
}

impl ScriptedModel {
    pub fn new(script: Vec<Vec<i64>>) -> (r: Self)
        ensures
            r.script == script,
            r.step == 0,
    {
        ScriptedModel { script, step: 0 }
    }
}

impl LanguageModel for ScriptedModel {
    open spec fn spec_logits(&self, ctx: Seq<u32>, pos: int) -> Option<Seq<i64>> {
        if self.step < self.script@.len() && bounded_logits(self.script@[self.step as int]@) {
            Some(self.script@[self.step as int]@)
        } else {
            None
        }
    }

    open spec fn spec_step(&self, ctx: Seq<u32>, pos: int) -> Self {
        ScriptedModel {
            script: self.script,
            step: if self.step < usize::MAX {
                (self.step + 1) as usize
            } else {
                usize::MAX
            },
        }
    }

    fn forward(&mut self, ctx: &Vec<u32>, pos: usize) -> (r: Result<Vec<i64>, GenError>) {
        let res: Result<Vec<i64>, GenError> = if self.step < self.script.len() {
            let ok = check_bounded(&self.script[self.step]);
            if ok {
                Ok(copy_logits(&self.script[self.step]))
            } else {
                Err(GenError::Inference)
            }
        } else {
            Err(GenError::Inference)
        };
        if self.step < usize::MAX {
            self.step = self.step + 1;
        }
        res
    }
}

} // verus!
