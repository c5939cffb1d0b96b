//! The observer: immutable logging configuration, the result-folder policy,
//! and the per-problem trigger engines it hands out.

use vstd::prelude::*;
use vstd::string::*;
use crate::numfmt::{pad3_digits, pad3_string};
use crate::options::{
    default_config_v, parse_options, parse_options_s, valid_config, ObserverConfig,
};
use crate::triggers::{
    eval_fires, initial_targets, marks_strictly_ascending, target_fires, target_step,
    EvalTriggers, GapObservation, TargetTriggers, TriggerEngine,
};

verus! {

/// The known observer variants.
pub enum ObserverName {
    Bbob,
    BbobBiobj,
    Toy,
    NoObserver,
}

/// The wire name of each observer variant.
pub open spec fn observer_name_str(n: ObserverName) -> Seq<char> {
    match n {
        ObserverName::Bbob => "bbob"@,
        ObserverName::BbobBiobj => "bbob-biobj"@,
        ObserverName::Toy => "toy"@,
        ObserverName::NoObserver => "no-observer"@,
    }
}

impl ObserverName {
    /// Renders the variant as its wire name.
    pub fn as_str(&self) -> (r: &'static str)
        ensures
            r@ == observer_name_str(*self),
    {
        match self {
            ObserverName::Bbob => "bbob",
            ObserverName::BbobBiobj => "bbob-biobj",
            ObserverName::Toy => "toy",
            ObserverName::NoObserver => "no-observer",
        }
    }
}

/// Whether `name` is among the folder names already in use.
pub open spec fn folder_taken(existing: Seq<String>, name: Seq<char>) -> bool {
    exists|i: int| 0 <= i < existing.len() && #[trigger] existing[i]@ == name
}

/// The `k`-th fallback name: the requested name with a `_` and a three-digit
/// zero-padded counter.
pub open spec fn folder_candidate(requested: Seq<char>, k: nat) -> Seq<char> {
    requested + "_"@ + pad3_digits(k)
}

/// The first free fallback name at or after counter `k`; the counter space is
/// the three-digit suffixes `_001` through `_999`.
pub open spec fn resolve_folder_from(requested: Seq<char>, existing: Seq<String>, k: int) -> Option<
    Seq<char>,
>
    decreases 1000 - k when 1 <= k <= 1000
{
    if k > 999 {
        None
    } else if !folder_taken(existing, folder_candidate(requested, k as nat)) {
        Some(folder_candidate(requested, k as nat))
    } else {
        resolve_folder_from(requested, existing, k + 1)
    }
}

/// The folder the observer uses: the requested name when free, otherwise the
/// first free suffixed name.
pub open spec fn resolve_folder_s(requested: Seq<char>, existing: Seq<String>) -> Option<
    Seq<char>,
> {
    if !folder_taken(existing, requested) {
        Some(requested)
    } else {
        resolve_folder_from(requested, existing, 1)
    }
}

/// Law: a requested folder name that is free is used as given; when a later
/// construction finds that name taken and its first fallback free, the
/// fallback `_001` name is used — the two constructions never collide.
pub proof fn lemma_folder_resolution_succession(
    requested: Seq<char>,
    e1: Seq<String>,
    e2: Seq<String>,
)
    requires
        !folder_taken(e1, requested),
        folder_taken(e2, requested),
        !folder_taken(e2, folder_candidate(requested, 1)),
    ensures
        resolve_folder_s(requested, e1) == Some(requested),
        resolve_folder_s(requested, e2) == Some(folder_candidate(requested, 1)),
{
}

fn folder_taken_x(existing: &Vec<String>, name: &String) -> (r: bool)
    ensures
        r == folder_taken(existing@, name@),
{
    let mut i: usize = 0;
    while i < existing.len()
        invariant
            i <= existing@.len(),
            forall|k: int| 0 <= k < i ==> #[trigger] existing@[k]@ != name@,
        decreases existing@.len() - i,
    {
        if existing[i].eq(name) {
            return true;
        }
        i = i + 1;
    }
    false
}

fn make_candidate(requested: &String, k: u64) -> (r: String)
    requires
        1 <= k <= 999,
    ensures
        r@ == folder_candidate(requested@, k as nat),
{
    let mut s = requested.clone();
    s.append("_");
    let pad = pad3_string(k);
    s.append(pad.as_str());
    proof {
        assert(s@ =~= folder_candidate(requested@, k as nat));
    }
    s
}

/// Picks the folder name: the requested one, or the first free fallback.
pub fn resolve_folder(requested: &String, existing: &Vec<String>) -> (r: Option<String>)
    ensures
        match (r, resolve_folder_s(requested@, existing@)) {
            (Option::Some(f), Option::Some(fv)) => f@ == fv,
            (Option::None, Option::None) => true,
            _ => false,
        },
{
    if !folder_taken_x(existing, requested) {
        return Some(requested.clone());
    }
    let mut k: u64 = 1;
    while k <= 999
        invariant
            1 <= k <= 1000,
            folder_taken(existing@, requested@),
            resolve_folder_from(requested@, existing@, 1) == resolve_folder_from(
                requested@,
                existing@,
                k as int,
            ),
        decreases 1000 - k,
    {
        let cand = make_candidate(requested, k);
        if !folder_taken_x(existing, &cand) {
            proof {
                assert(resolve_folder_from(requested@, existing@, k as int) == Some(
                    folder_candidate(requested@, k as nat),
                ));
            }
            return Some(cand);
        }
        k = k + 1;
    }
    None
}

/// Ascending positive counts, fit to serve as extra evaluation marks.
pub open spec fn marks_ok(m: Seq<u64>) -> bool {
    marks_strictly_ascending(m) && (m.len() == 0 || m[0] >= 1)
}

fn marks_ok_x(m: &Vec<u64>) -> (r: bool)
    ensures
        r == marks_ok(m@),
{
    if m.len() == 0 {
        return true;
    }
    if m[0] == 0 {
        return false;
    }
    let mut j: usize = 0;
    while j < m.len() - 1
        invariant
            m@.len() >= 1,
            j < m@.len(),
            forall|k: int| 0 <= k < j ==> #[trigger] m@[k] < m@[k + 1],
        decreases m@.len() - j,
    {
        if m[j] >= m[j + 1] {
            return false;
        }
        j = j + 1;
    }
    proof {
        crate::triggers::lemma_adjacent_ascending(m@);
    }
    true
}

fn copy_counts(v: &Vec<u64>) -> (r: Vec<u64>)
    ensures
        r@ == v@,
{
    let mut out: Vec<u64> = Vec::new();
    let mut i: usize = 0;
    while i < v.len()
        invariant
            i <= v@.len(),
            out@ == v@.take(i as int),
        decreases v@.len() - i,
    {
        out.push(v[i]);
        proof {
            assert(out@ =~= v@.take(i as int + 1));
        }
        i = i + 1;
    }
    proof {
        assert(v@.take(v@.len() as int) =~= v@);
    }
    out
}

/// What the surrounding system supplies at observer construction: the folder
/// names already present in the output area, and the extra evaluation marks
/// realizing the logarithmically spaced per-decade counts.
pub struct ObserverEnv {
    pub existing_folders: Vec<String>,
    pub evaluation_marks: Vec<u64>,
}

/// An observer: parsed, validated, immutable configuration plus the resolved
/// result folder. Per-problem trigger running state lives in the engines it
/// hands out at problem creation.
pub struct Observer {
    pub name: ObserverName,
    pub config: ObserverConfig,
    pub result_folder: String,
    pub evaluation_marks: Vec<u64>,
}

impl Observer {
    pub open spec fn wf(self) -> bool {
        valid_config(self.config@) && marks_ok(self.evaluation_marks@)
    }

    /// Builds an observer from its option string. Returns nothing for the
    /// no-observer variant, a malformed or invalid option string, bad
    /// evaluation marks, or an exhausted folder-suffix space.
    pub fn new(name: ObserverName, options: &str, env: &ObserverEnv) -> (r: Option<Observer>)
        ensures
            r is Some <==> !(name is NoObserver) && match parse_options_s(
                options@,
                0,
                default_config_v(),
            ) {
                Option::Some(c) => valid_config(c) && marks_ok(env.evaluation_marks@)
                    && resolve_folder_s(c.result_folder, env.existing_folders@) is Some,
                Option::None => false,
            },
            r is Some ==> {
                let o = r.unwrap();
                &&& o.wf()
                &&& parse_options_s(options@, 0, default_config_v()) == Some(o.config@)
                &&& resolve_folder_s(o.config@.result_folder, env.existing_folders@) == Some(
                    o.result_folder@,
                )
                &&& o.evaluation_marks@ == env.evaluation_marks@
            },
    {
        if let ObserverName::NoObserver = name {
            return None;
        }
        let cfg = match parse_options(options) {
            Option::Some(c) => c,
            Option::None => {
                return None;
            },
        };
        if !cfg.validate() {
            return None;
        }
        if !marks_ok_x(&env.evaluation_marks) {
            return None;
        }
        let folder = match resolve_folder(&cfg.result_folder, &env.existing_folders) {
            Option::Some(f) => f,
            Option::None => {
                return None;
            },
        };
        Some(
            Observer {
                name,
                config: cfg,
                result_folder: folder,
                evaluation_marks: copy_counts(&env.evaluation_marks),
            },
        )
    }

    /// The folder chosen at construction; stable for the observer's lifetime.
    pub fn result_folder(&self) -> (r: &str)
        ensures
            r@ == self.result_folder@,
    {
        self.result_folder.as_str()
    }

    /// A fresh trigger engine for a problem of the given dimension: the
    /// engine parameters are shared, its running state is per problem.
    pub fn new_engine(&self, dimension: u64) -> (r: Option<TriggerEngine>)
        ensures
            self.wf() && dimension >= 1 ==> r is Some,
            dimension == 0 ==> r is None,
            r is Some ==> {
                let eng = r.unwrap();
                &&& eng.wf()
                &&& eng.targets == initial_targets()
                &&& eng.counts.last_count == 0
                &&& eng.counts.bases@ == self.config.base_evaluation_triggers@
                &&& eng.counts.dimension == dimension
                &&& eng.counts.marks@ == self.evaluation_marks@
            },
    {
        let bases = copy_counts(&self.config.base_evaluation_triggers);
        let marks = copy_counts(&self.evaluation_marks);
        match EvalTriggers::new(bases, dimension, marks) {
            Option::Some(counts) => Some(
                TriggerEngine { targets: TargetTriggers::new(), counts },
            ),
            Option::None => None,
        }
    }

    /// The evaluation pipeline's integration point: feeds one evaluation of
    /// an attached problem into that problem's trigger engine and returns
    /// whether to log it. The observer holds no running state of its own;
    /// the engine is the per-problem state handed out at attachment.
    pub fn on_evaluation(
        &self,
        engine: &mut TriggerEngine,
        gap: GapObservation,
        count: u64,
    ) -> (fired: bool)
        requires
            old(engine).wf(),
        ensures
            final(engine).wf(),
            fired == (target_fires(old(engine).targets, gap) || eval_fires(
                old(engine).counts,
                count,
            )),
            final(engine).targets == target_step(old(engine).targets, gap),
            final(engine).counts.bases@ == old(engine).counts.bases@,
            final(engine).counts.dimension == old(engine).counts.dimension,
            final(engine).counts.marks@ == old(engine).counts.marks@,
    {
        engine.observe(gap, count)
    }
}

} // verus!
