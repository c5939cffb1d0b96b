//! A suite: the ordered catalogue of benchmark problem instances, the
//! deterministic iteration cursor, and random access by
//! (function, dimension, instance) triple.

use vstd::prelude::*;
use vstd::string::*;
use crate::dec::Dec;
use crate::numfmt::{u64_digits, u64_string};
use crate::observer::Observer;
use crate::problem::{Problem, RoiDim};
use crate::triggers::initial_targets;

verus! {

/// The catalogue entry for one problem instance.
pub struct ProblemTemplate {
    pub function_name: String,
    pub function_index: usize,
    pub dimension_index: usize,
    pub instance_index: usize,
    pub dimension: usize,
    pub n_objectives: usize,
    pub n_constraints: usize,
    pub n_integer_vars: usize,
    pub roi: Vec<RoiDim>,
    pub optimum: Dec,
    pub final_target: Dec,
    pub initial: Option<Vec<Dec>>,
}

impl ProblemTemplate {
    pub open spec fn wf(self) -> bool {
        &&& self.dimension >= 1
        &&& self.n_objectives >= 1
        &&& self.roi@.len() == self.dimension
        &&& forall|i: int| 0 <= i < self.roi@.len() ==> (#[trigger] self.roi@[i]).wf()
        &&& self.n_integer_vars <= self.dimension
        &&& match self.initial {
            Option::Some(v) => v@.len() == self.dimension,
            Option::None => true,
        }
    }

    fn check(&self) -> (r: bool)
        ensures
            r == self.wf(),
    {
        if self.dimension < 1 || self.n_objectives < 1 || self.roi.len() != self.dimension
            || self.n_integer_vars > self.dimension {
            return false;
        }
        match &self.initial {
            Option::Some(v) => {
                if v.len() != self.dimension {
                    return false;
                }
            },
            Option::None => {},
        }
        let mut i: usize = 0;
        while i < self.roi.len()
            invariant
                i <= self.roi@.len(),
                forall|k: int| 0 <= k < i ==> (#[trigger] self.roi@[k]).wf(),
            decreases self.roi@.len() - i,
        {
            let rd = self.roi[i];
            if rd.lower_m > rd.upper_m || rd.lower_m < -900000000000000000i64 || rd.upper_m
                > 900000000000000000i64 || rd.e <= -1000000 || rd.e >= 1000000 {
                return false;
            }
            i = i + 1;
        }
        true
    }
}

/// The identifier of a problem: `{suite}_f{F}_i{I}_d{D}` for indexed suites,
/// `{function-name}_d{D}` for simple ones.
pub open spec fn problem_id_s(suite_name: Seq<char>, indexed: bool, t: ProblemTemplate) -> Seq<
    char,
> {
    if indexed {
        suite_name + "_f"@ + u64_digits(t.function_index as nat) + "_i"@ + u64_digits(
            t.instance_index as nat,
        ) + "_d"@ + u64_digits(t.dimension as nat)
    } else {
        t.function_name@ + "_d"@ + u64_digits(t.dimension as nat)
    }
}

/// What a freshly created problem looks like: the template's shape and
/// identity, zeroed counters and bookkeeping, and — when an observer is
/// attached — a fresh trigger engine with the observer's parameters.
pub open spec fn fresh_problem(
    p: Problem,
    suite_name: Seq<char>,
    indexed: bool,
    t: ProblemTemplate,
    observer: Option<Observer>,
) -> bool {
    &&& p.wf()
    &&& p.id_str@ == problem_id_s(suite_name, indexed, t)
    &&& p.name_str@ == t.function_name@
    &&& p.f_idx == t.function_index
    &&& p.d_idx == t.dimension_index
    &&& p.i_idx == t.instance_index
    &&& p.dim == t.dimension
    &&& p.n_objectives == t.n_objectives
    &&& p.n_constraints == t.n_constraints
    &&& p.n_integer_vars == t.n_integer_vars
    &&& p.roi@ == t.roi@
    &&& p.optimum == t.optimum
    &&& p.final_target == t.final_target
    &&& match (p.initial, t.initial) {
        (Option::Some(a), Option::Some(b)) => a@ == b@,
        (Option::None, Option::None) => true,
        _ => false,
    }
    &&& p.n_evaluations == 0
    &&& p.n_constraint_evaluations == 0
    &&& p.best_observed is None
    &&& !p.target_hit
    &&& match observer {
        Option::None => p.engine is None,
        Option::Some(o) => {
            &&& p.engine is Some
            &&& p.engine.unwrap().targets == initial_targets()
            &&& p.engine.unwrap().counts.last_count == 0
            &&& p.engine.unwrap().counts.bases@ == o.config.base_evaluation_triggers@
            &&& p.engine.unwrap().counts.dimension == t.dimension
            &&& p.engine.unwrap().counts.marks@ == o.evaluation_marks@
        },
    }
}

/// A suite: a named, ordered catalogue and the iteration cursor.
pub struct Suite {
    pub name: String,
    pub indexed: bool,
    pub templates: Vec<ProblemTemplate>,
    pub cursor: usize,
}

fn copy_dec_vec(v: &Vec<Dec>) -> (r: Vec<Dec>)
    ensures
        r@ == v@,
{
    let mut out: Vec<Dec> = Vec::new();
    let mut i: usize = 0;
    while i < v.len()
        invariant
            i <= v@.len(),
            out@ == v@.take(i as int),
        decreases v@.len() - i,
    {
        out.push(v[i]);
        proof {
            assert(out@ =~= v@.take(i as int + 1));
        }
        i = i + 1;
    }
    proof {
        assert(v@.take(v@.len() as int) =~= v@);
    }
    out
}

fn copy_roi_vec(v: &Vec<RoiDim>) -> (r: Vec<RoiDim>)
    ensures
        r@ == v@,
{
    let mut out: Vec<RoiDim> = Vec::new();
    let mut i: usize = 0;
    while i < v.len()
        invariant
            i <= v@.len(),
            out@ == v@.take(i as int),
        decreases v@.len() - i,
    {
        out.push(v[i]);
        proof {
            assert(out@ =~= v@.take(i as int + 1));
        }
        i = i + 1;
    }
    proof {
        assert(v@.take(v@.len() as int) =~= v@);
    }
    out
}

fn build_id(suite_name: &String, indexed: bool, t: &ProblemTemplate) -> (r: String)
    ensures
        r@ == problem_id_s(suite_name@, indexed, *t),
{
    if indexed {
        let mut s = suite_name.clone();
        s.append("_f");
        let f = u64_string(t.function_index as u64);
        s.append(f.as_str());
        s.append("_i");
        let ins = u64_string(t.instance_index as u64);
        s.append(ins.as_str());
        s.append("_d");
        let d = u64_string(t.dimension as u64);
        s.append(d.as_str());
        proof {
            assert(s@ =~= problem_id_s(suite_name@, indexed, *t));
        }
        s
    } else {
        let mut s = t.function_name.clone();
        s.append("_d");
        let d = u64_string(t.dimension as u64);
        s.append(d.as_str());
        proof {
            assert(s@ =~= problem_id_s(suite_name@, indexed, *t));
        }
        s
    }
}

fn build_problem(suite_name: &String, indexed: bool, t: &ProblemTemplate, observer: Option<
    &Observer,
>) -> (p: Problem)
    requires
        t.wf(),
        match observer {
            Option::Some(o) => o.wf(),
            Option::None => true,
        },
    ensures
        fresh_problem(
            p,
            suite_name@,
            indexed,
            *t,
            match observer {
                Option::Some(o) => Option::Some(*o),
                Option::None => Option::None,
            },
        ),
{
    let engine = match observer {
        Option::None => None,
        Option::Some(o) => match o.new_engine(t.dimension as u64) {
            Option::Some(e) => Some(e),
            Option::None => {
                proof {
                    assert(false);
                }
                None
            },
        },
    };
    let initial = match &t.initial {
        Option::Some(v) => Some(copy_dec_vec(v)),
        Option::None => None,
    };
    Problem {
        id_str: build_id(suite_name, indexed, t),
        name_str: t.function_name.clone(),
        f_idx: t.function_index,
        d_idx: t.dimension_index,
        i_idx: t.instance_index,
        dim: t.dimension,
        n_objectives: t.n_objectives,
        n_constraints: t.n_constraints,
        n_integer_vars: t.n_integer_vars,
        roi: copy_roi_vec(&t.roi),
        optimum: t.optimum,
        final_target: t.final_target,
        initial,
        n_evaluations: 0,
        n_constraint_evaluations: 0,
        best_observed: None,
        target_hit: false,
        engine,
    }
}

impl Suite {
    pub open spec fn wf(self) -> bool {
        &&& forall|i: int| 0 <= i < self.templates@.len() ==> (#[trigger] self.templates@[i]).wf()
        &&& self.cursor <= self.templates@.len()
    }

    /// Builds a suite from an explicit catalogue; every entry must be well
    /// formed. The cursor starts at the first entry.
    pub fn new(name: String, indexed: bool, templates: Vec<ProblemTemplate>) -> (r: Option<Suite>)
        ensures
            r is Some <==> forall|i: int|
                0 <= i < templates@.len() ==> (#[trigger] templates@[i]).wf(),
            r is Some ==> {
                let s = r.unwrap();
                &&& s.wf()
                &&& s.name@ == name@
                &&& s.indexed == indexed
                &&& s.templates@ == templates@
                &&& s.cursor == 0
            },
    {
        let mut i: usize = 0;
        while i < templates.len()
            invariant
                i <= templates@.len(),
                forall|k: int| 0 <= k < i ==> (#[trigger] templates@[k]).wf(),
            decreases templates@.len() - i,
        {
            if !templates[i].check() {
                return None;
            }
            i = i + 1;
        }
        Some(Suite { name, indexed, templates, cursor: 0 })
    }

    /// The number of catalogue entries.
    pub fn len(&self) -> (r: usize)
        ensures
            r == self.templates@.len(),
    {
        self.templates.len()
    }

    /// Advances the cursor and returns the next problem, pre-attached to the
    /// observer when one is given. Returns nothing once the catalogue is
    /// exhausted; the exhausted state is terminal (no wrap-around).
    pub fn next_problem(&mut self, observer: Option<&Observer>) -> (r: Option<Problem>)
        requires
            old(self).wf(),
            match observer {
                Option::Some(o) => o.wf(),
                Option::None => true,
            },
        ensures
            final(self).wf(),
            final(self).name@ == old(self).name@,
            final(self).indexed == old(self).indexed,
            final(self).templates@ == old(self).templates@,
            old(self).cursor >= old(self).templates@.len() ==> r is None && final(self).cursor
                == old(self).cursor,
            old(self).cursor < old(self).templates@.len() ==> {
                &&& final(self).cursor == old(self).cursor + 1
                &&& r is Some
                &&& fresh_problem(
                    r.unwrap(),
                    old(self).name@,
                    old(self).indexed,
                    old(self).templates@[old(self).cursor as int],
                    match observer {
                        Option::Some(o) => Option::Some(*o),
                        Option::None => Option::None,
                    },
                )
            },
    {
        if self.cursor >= self.templates.len() {
            return None;
        }
        let t = &self.templates[self.cursor];
        let p = build_problem(&self.name, self.indexed, t, observer);
        self.cursor = self.cursor + 1;
        Some(p)
    }

    /// Random access: the first catalogue entry with the given
    /// (function, dimension, instance) triple, bypassing the cursor. Fails
    /// when the triple is not part of the catalogue.
    pub fn problem_by_function_dimension_instance(
        &self,
        function: usize,
        dimension: usize,
        instance: usize,
        observer: Option<&Observer>,
    ) -> (r: Option<Problem>)
        requires
            self.wf(),
            match observer {
                Option::Some(o) => o.wf(),
                Option::None => true,
            },
        ensures
            r is Some <==> exists|j: int|
                0 <= j < self.templates@.len() && #[trigger] template_matches(
                    self.templates@[j],
                    function,
                    dimension,
                    instance,
                ),
            r is Some ==> exists|j: int|
                {
                    &&& 0 <= j < self.templates@.len()
                    &&& #[trigger] template_matches(self.templates@[j], function, dimension,
                    instance)
                    &&& forall|k: int|
                        0 <= k < j ==> !template_matches(
                            #[trigger] self.templates@[k],
                            function,
                            dimension,
                            instance,
                        )
                    &&& fresh_problem(
                        r.unwrap(),
                        self.name@,
                        self.indexed,
                        self.templates@[j],
                        match observer {
                            Option::Some(o) => Option::Some(*o),
                            Option::None => Option::None,
                        },
                    )
                },
    {
        let mut j: usize = 0;
        while j < self.templates.len()
            invariant
                self.wf(),
                match observer {
                    Option::Some(o) => o.wf(),
                    Option::None => true,
                },
                j <= self.templates@.len(),
                forall|k: int|
                    0 <= k < j ==> !template_matches(
                        #[trigger] self.templates@[k],
                        function,
                        dimension,
                        instance,
                    ),
            decreases self.templates@.len() - j,
        {
            let t = &self.templates[j];
            if t.function_index == function && t.dimension_index == dimension && t.instance_index
                == instance {
                let p = build_problem(&self.name, self.indexed, t, observer);
                proof {
                    assert(template_matches(
                        self.templates@[j as int],
                        function,
                        dimension,
                        instance,
                    ));
                }
                return Some(p);
            }
            j = j + 1;
        }
        None
    }
}

/// Whether a catalogue entry carries the given triple.
pub open spec fn template_matches(
    t: ProblemTemplate,
    function: usize,
    dimension: usize,
    instance: usize,
) -> bool {
    t.function_index == function && t.dimension_index == dimension && t.instance_index == instance
}

} // verus!
