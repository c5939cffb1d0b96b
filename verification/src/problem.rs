//! One benchmark problem instance: immutable shape and identity, monotone
//! evaluation counters, best-value and final-target bookkeeping, and the
//! attached trigger engine's running state.

use vstd::prelude::*;
use vstd::string::*;
use crate::dec::{dec_lt, Dec};
use crate::triggers::{
    eval_fires, is_base_threshold, lemma_eval_fires_exactly_base_thresholds, target_fires,
    target_step, GapObservation, TriggerEngine,
};

verus! {

/// Why an evaluation call was rejected. A rejected call changes nothing.
#[derive(Clone, Copy, Debug, PartialEq, Eq, Structural)]
pub enum EvalError {
    DimensionMismatch,
    ObjectiveCountMismatch,
    ConstraintCountMismatch,
}

/// Region-of-interest bounds of one variable, `lower_m*10^e ..= upper_m*10^e`.
/// Both ends share the exponent, which keeps the midpoint exact.
#[derive(Clone, Copy, Debug, PartialEq, Eq, Structural)]
pub struct RoiDim {
    pub lower_m: i64,
    pub upper_m: i64,
    pub e: i32,
}

impl RoiDim {
    pub open spec fn wf(self) -> bool {
        &&& self.lower_m <= self.upper_m
        &&& -900000000000000000 <= self.lower_m
        &&& self.upper_m <= 900000000000000000
        &&& -1000000 < self.e < 1000000
    }

    /// The midpoint of the interval, exactly: the halved sum, with one more
    /// decimal digit when the sum is odd.
    pub open spec fn spec_midpoint(self) -> Dec {
        if (self.lower_m + self.upper_m) % 2 == 0 {
            Dec { m: ((self.lower_m + self.upper_m) / 2) as i64, e: self.e }
        } else {
            Dec { m: ((self.lower_m + self.upper_m) * 5) as i64, e: (self.e - 1) as i32 }
        }
    }

    pub fn midpoint(&self) -> (r: Dec)
        requires
            self.wf(),
        ensures
            r == self.spec_midpoint(),
    {
        let s: i64 = self.lower_m + self.upper_m;
        if s % 2 == 0 {
            Dec { m: s / 2, e: self.e }
        } else {
            Dec { m: s * 5, e: self.e - 1 }
        }
    }

    pub open spec fn lower(self) -> Dec {
        Dec { m: self.lower_m, e: self.e }
    }

    pub open spec fn upper(self) -> Dec {
        Dec { m: self.upper_m, e: self.e }
    }
}

/// One benchmark problem instance.
pub struct Problem {
    pub id_str: String,
    pub name_str: String,
    pub f_idx: usize,
    pub d_idx: usize,
    pub i_idx: usize,
    pub dim: usize,
    pub n_objectives: usize,
    pub n_constraints: usize,
    pub n_integer_vars: usize,
    pub roi: Vec<RoiDim>,
    pub optimum: Dec,
    pub final_target: Dec,
    pub initial: Option<Vec<Dec>>,
    pub n_evaluations: u64,
    pub n_constraint_evaluations: u64,
    pub best_observed: Option<Dec>,
    pub target_hit: bool,
    pub engine: Option<TriggerEngine>,
}

impl Problem {
    pub open spec fn wf(self) -> bool {
        &&& self.dim >= 1
        &&& self.n_objectives >= 1
        &&& self.roi@.len() == self.dim
        &&& forall|i: int| 0 <= i < self.roi@.len() ==> (#[trigger] self.roi@[i]).wf()
        &&& self.n_integer_vars <= self.dim
        &&& match self.initial {
            Option::Some(v) => v@.len() == self.dim,
            Option::None => true,
        }
        &&& match self.engine {
            Option::Some(e) => e.wf() && e.counts.last_count == self.n_evaluations,
            Option::None => true,
        }
    }

    /// The identifier handed to downstream tooling.
    pub fn id(&self) -> (r: &str)
        ensures
            r@ == self.id_str@,
    {
        self.id_str.as_str()
    }

    /// The display name of the problem.
    pub fn name(&self) -> (r: &str)
        ensures
            r@ == self.name_str@,
    {
        self.name_str.as_str()
    }

    pub fn function_index(&self) -> (r: usize)
        ensures
            r == self.f_idx,
    {
        self.f_idx
    }

    pub fn dimension_index(&self) -> (r: usize)
        ensures
            r == self.d_idx,
    {
        self.d_idx
    }

    pub fn instance_index(&self) -> (r: usize)
        ensures
            r == self.i_idx,
    {
        self.i_idx
    }

    pub fn dimension(&self) -> (r: usize)
        ensures
            r == self.dim,
    {
        self.dim
    }

    pub fn number_of_objectives(&self) -> (r: usize)
        ensures
            r == self.n_objectives,
    {
        self.n_objectives
    }

    pub fn number_of_constraints(&self) -> (r: usize)
        ensures
            r == self.n_constraints,
    {
        self.n_constraints
    }

    pub fn number_of_integer_variables(&self) -> (r: usize)
        ensures
            r == self.n_integer_vars,
    {
        self.n_integer_vars
    }

    pub fn evaluations(&self) -> (r: u64)
        ensures
            r == self.n_evaluations,
    {
        self.n_evaluations
    }

    pub fn evaluations_constraints(&self) -> (r: u64)
        ensures
            r == self.n_constraint_evaluations,
    {
        self.n_constraint_evaluations
    }

    /// Whether some earlier evaluation came in below the final target.
    /// Latches: once true it stays true for the problem's lifetime.
    pub fn final_target_hit(&self) -> (r: bool)
        ensures
            r == self.target_hit,
    {
        self.target_hit
    }

    /// The optimal value plus the final-target precision.
    pub fn final_target_value(&self) -> (r: Dec)
        ensures
            r == self.final_target,
    {
        self.final_target
    }

    /// The optimal function value of the problem.
    pub fn best_value(&self) -> (r: Dec)
        ensures
            r == self.optimum,
    {
        self.optimum
    }

    /// The best objective value observed so far, if any evaluation happened.
    pub fn best_observed(&self) -> (r: Option<Dec>)
        ensures
            r == self.best_observed,
    {
        self.best_observed
    }

    /// The per-dimension inclusive region-of-interest bounds.
    pub fn get_ranges_of_interest(&self) -> (r: Vec<(Dec, Dec)>)
        ensures
            r@.len() == self.roi@.len(),
            forall|i: int|
                0 <= i < r@.len() ==> #[trigger] r@[i] == (self.roi@[i].lower(),
                self.roi@[i].upper()),
    {
        let mut out: Vec<(Dec, Dec)> = Vec::new();
        let mut i: usize = 0;
        while i < self.roi.len()
            invariant
                i <= self.roi@.len(),
                out@.len() == i,
                forall|k: int|
                    0 <= k < i ==> #[trigger] out@[k] == (self.roi@[k].lower(),
                    self.roi@[k].upper()),
            decreases self.roi@.len() - i,
        {
            let rd = self.roi[i];
            out.push((Dec { m: rd.lower_m, e: rd.e }, Dec { m: rd.upper_m, e: rd.e }));
            i = i + 1;
        }
        out
    }

    /// A feasible starting point: the designated initial solution, or the
    /// midpoint of the region of interest.
    pub fn initial_solution(&self) -> (r: Vec<Dec>)
        requires
            self.wf(),
        ensures
            r@.len() == self.dim,
            match self.initial {
                Option::Some(v) => r@ == v@,
                Option::None => forall|i: int|
                    0 <= i < r@.len() ==> #[trigger] r@[i] == self.roi@[i].spec_midpoint(),
            },
    {
        match &self.initial {
            Option::Some(v) => {
                let mut out: Vec<Dec> = Vec::new();
                let mut i: usize = 0;
                while i < v.len()
                    invariant
                        i <= v@.len(),
                        out@ == v@.take(i as int),
                    decreases v@.len() - i,
                {
                    out.push(v[i]);
                    proof {
                        assert(out@ =~= v@.take(i as int + 1));
                    }
                    i = i + 1;
                }
                proof {
                    assert(v@.take(v@.len() as int) =~= v@);
                }
                out
            },
            Option::None => {
                let mut out: Vec<Dec> = Vec::new();
                let mut i: usize = 0;
                while i < self.roi.len()
                    invariant
                        self.wf(),
                        i <= self.roi@.len(),
                        out@.len() == i,
                        forall|k: int|
                            0 <= k < i ==> #[trigger] out@[k] == self.roi@[k].spec_midpoint(),
                    decreases self.roi@.len() - i,
                {
                    let rd = self.roi[i];
                    out.push(rd.midpoint());
                    i = i + 1;
                }
                out
            },
        }
    }

    /// Records one objective evaluation: the evaluation point `x`, the
    /// objective values `y` the underlying objective computation produced,
    /// and the discretized gap of `y[0]` to the optimum. Returns whether an
    /// attached observer logs this evaluation.
    ///
    /// Rejects calls whose buffer lengths do not match the problem shape;
    /// a rejected call leaves every counter and all trigger state untouched.
    pub fn evaluate_function(&mut self, x: &Vec<Dec>, y: &Vec<Dec>, gap: GapObservation) -> (r:
        Result<bool, EvalError>)
        requires
            old(self).wf(),
            old(self).n_evaluations < u64::MAX,
        ensures
            final(self).wf(),
            x@.len() != old(self).dim ==> r == Result::<bool, EvalError>::Err(
                EvalError::DimensionMismatch,
            ) && *final(self) == *old(self),
            x@.len() == old(self).dim && y@.len() != old(self).n_objectives ==> r
                == Result::<bool, EvalError>::Err(EvalError::ObjectiveCountMismatch)
                && *final(self) == *old(self),
            x@.len() == old(self).dim && y@.len() == old(self).n_objectives ==> {
                &&& r is Ok
                &&& final(self).n_evaluations == old(self).n_evaluations + 1
                &&& final(self).n_constraint_evaluations == old(self).n_constraint_evaluations
                &&& final(self).best_observed == (match old(self).best_observed {
                    Option::None => Option::Some(y@[0]),
                    Option::Some(b) => if dec_lt(y@[0], b) {
                        Option::Some(y@[0])
                    } else {
                        Option::Some(b)
                    },
                })
                &&& final(self).target_hit == (old(self).target_hit || dec_lt(
                    y@[0],
                    old(self).final_target,
                ))
                &&& final(self).dim == old(self).dim
                &&& final(self).n_objectives == old(self).n_objectives
                &&& final(self).n_constraints == old(self).n_constraints
                &&& final(self).n_integer_vars == old(self).n_integer_vars
                &&& final(self).id_str@ == old(self).id_str@
                &&& final(self).name_str@ == old(self).name_str@
                &&& final(self).f_idx == old(self).f_idx
                &&& final(self).d_idx == old(self).d_idx
                &&& final(self).i_idx == old(self).i_idx
                &&& final(self).roi@ == old(self).roi@
                &&& final(self).optimum == old(self).optimum
                &&& final(self).final_target == old(self).final_target
                &&& final(self).initial == old(self).initial
                &&& match old(self).engine {
                    Option::None => final(self).engine is None && r == Result::<
                        bool,
                        EvalError,
                    >::Ok(false),
                    Option::Some(eng) => {
                        &&& final(self).engine is Some
                        &&& final(self).engine.unwrap().targets == target_step(eng.targets, gap)
                        &&& r == Result::<bool, EvalError>::Ok(target_fires(eng.targets, gap)
                            || eval_fires(eng.counts, (old(self).n_evaluations + 1) as u64))
                        &&& final(self).engine.unwrap().counts.bases@ == eng.counts.bases@
                        &&& final(self).engine.unwrap().counts.dimension == eng.counts.dimension
                        &&& final(self).engine.unwrap().counts.marks@ == eng.counts.marks@
                    },
                }
            },
    {
        if x.len() != self.dim {
            return Err(EvalError::DimensionMismatch);
        }
        if y.len() != self.n_objectives {
            return Err(EvalError::ObjectiveCountMismatch);
        }
        self.n_evaluations = self.n_evaluations + 1;
        let y0 = y[0];
        match self.best_observed {
            Option::None => {
                self.best_observed = Some(y0);
            },
            Option::Some(b) => {
                if y0.lt(&b) {
                    self.best_observed = Some(y0);
                }
            },
        }
        if y0.lt(&self.final_target) {
            self.target_hit = true;
        }
        let count = self.n_evaluations;
        match &mut self.engine {
            Option::None => Ok(false),
            Option::Some(eng) => {
                let fired = eng.observe(gap, count);
                Ok(fired)
            },
        }
    }

    /// Records one constraint evaluation: checks the buffer shapes and
    /// advances the constraint counter. Does not touch objective bookkeeping
    /// or trigger state.
    pub fn evaluate_constraint(&mut self, x: &Vec<Dec>, g: &Vec<Dec>) -> (r: Result<
        (),
        EvalError,
    >)
        requires
            old(self).wf(),
            old(self).n_constraint_evaluations < u64::MAX,
        ensures
            final(self).wf(),
            x@.len() != old(self).dim ==> r == Result::<(), EvalError>::Err(
                EvalError::DimensionMismatch,
            ) && *final(self) == *old(self),
            x@.len() == old(self).dim && g@.len() != old(self).n_constraints ==> r == Result::<
                (),
                EvalError,
            >::Err(EvalError::ConstraintCountMismatch) && *final(self) == *old(self),
            x@.len() == old(self).dim && g@.len() == old(self).n_constraints ==> r == Result::<
                (),
                EvalError,
            >::Ok(()) && *final(self) == (Problem {
                n_constraint_evaluations: (old(self).n_constraint_evaluations + 1) as u64,
                ..*old(self)
            }),
    {
        if x.len() != self.dim {
            return Err(EvalError::DimensionMismatch);
        }
        if g.len() != self.n_constraints {
            return Err(EvalError::ConstraintCountMismatch);
        }
        self.n_constraint_evaluations = self.n_constraint_evaluations + 1;
        Ok(())
    }
}

/// The final-target flag after a run of evaluations whose first objective
/// values are `values`: exactly the fold that `evaluate_function` applies one
/// step of per call.
pub open spec fn target_hit_after(hit: bool, target: Dec, values: Seq<Dec>) -> bool
    decreases values.len(),
{
    if values.len() == 0 {
        hit
    } else {
        target_hit_after(hit || dec_lt(values[0], target), target, values.drop_first())
    }
}

/// Law: the final-target flag is false until some evaluation's first
/// objective value comes in below the final target, and remains true from
/// then on for every later evaluation.
pub proof fn lemma_final_target_hit_latches(hit: bool, target: Dec, values: Seq<Dec>)
    ensures
        target_hit_after(hit, target, values) == (hit || exists|i: int|
            0 <= i < values.len() && dec_lt(#[trigger] values[i], target)),
    decreases values.len(),
{
    if values.len() > 0 {
        let rest = values.drop_first();
        lemma_final_target_hit_latches(hit || dec_lt(values[0], target), target, rest);
        if exists|i: int| 0 <= i < rest.len() && dec_lt(#[trigger] rest[i], target) {
            let i = choose|i: int| 0 <= i < rest.len() && dec_lt(#[trigger] rest[i], target);
            assert(values[i + 1] == rest[i]);
        }
        if exists|i: int| 0 <= i < values.len() && dec_lt(#[trigger] values[i], target) {
            let i = choose|i: int| 0 <= i < values.len() && dec_lt(#[trigger] values[i], target);
            if i >= 1 {
                assert(rest[i - 1] == values[i]);
            }
        }
    }
}

/// Law: on a problem whose attached engine carries no extra marks, the count
/// trigger of the next evaluation fires exactly when the new evaluation count
/// is one of the base-derived thresholds `b * dimension * 10^p` — counts
/// ascend one at a time, so the firing counts are exactly that deduplicated
/// ascending sequence.
pub proof fn lemma_count_trigger_on_next_evaluation(p: Problem)
    requires
        p.wf(),
        p.engine is Some,
        p.engine.unwrap().counts.marks@.len() == 0,
        p.n_evaluations < u64::MAX,
    ensures
        eval_fires(p.engine.unwrap().counts, (p.n_evaluations + 1) as u64) == is_base_threshold(
            p.engine.unwrap().counts.bases@,
            p.engine.unwrap().counts.dimension,
            p.n_evaluations + 1,
        ),
{
    lemma_eval_fires_exactly_base_thresholds(
        p.engine.unwrap().counts,
        (p.n_evaluations + 1) as u64,
    );
}

} // verus!
