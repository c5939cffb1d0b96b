//! The trigger engine: pure decision logic that, for each evaluation, decides
//! whether a log record fires, from two independent sources combined with a
//! logical OR.
//!
//! *Target triggers* watch the gap between an observed objective value and the
//! problem's optimum on a logarithmic grid: with `N` targets per decade, the
//! grid level of a positive gap `g` is `ceil(N * log10(g))`. Discretizing a
//! gap onto that grid is floating-point work and happens at the caller's edge;
//! the engine receives the grid level (or the fact that the gap has fallen
//! below the target precision) as a [`GapObservation`] and advances a
//! monotonically shrinking frontier of not-yet-fired thresholds.
//!
//! *Evaluation-count triggers* fire when the evaluation counter reaches a
//! threshold `b * dimension * 10^p` for a configured base `b`, or one of the
//! extra logarithmically spaced per-decade marks supplied at construction.

use vstd::prelude::*;
use crate::dec::{dec_lt, lemma_pow10_mono, lemma_pow10_pos, pow10, Dec};

verus! {

/// What the trigger engine learns about one observed objective value: either
/// the gap to the optimum is at or below the target precision, or its grid
/// level `ceil(N * log10(gap))`.
#[derive(Clone, Copy, Debug, PartialEq, Eq, Structural)]
pub enum GapObservation {
    TargetReached,
    Level(i64),
}

/// Running state of the target-value triggers for one problem: the frontier
/// of already-consumed grid levels.
#[derive(Clone, Copy, Debug, PartialEq, Eq, Structural)]
pub struct TargetTriggers {
    pub has_fired: bool,
    pub last_level: i64,
    pub reached: bool,
}

/// The fresh target-trigger state: nothing consumed yet.
pub open spec fn initial_targets() -> TargetTriggers {
    TargetTriggers { has_fired: false, last_level: 0, reached: false }
}

/// A grid level is consumed when some earlier observation already fired at
/// that level or below, or the target precision was already reached (which
/// consumes every threshold).
pub open spec fn target_consumed(s: TargetTriggers, level: int) -> bool {
    s.reached || (s.has_fired && level >= s.last_level)
}

/// Whether an observation fires a target trigger in state `s`.
pub open spec fn target_fires(s: TargetTriggers, obs: GapObservation) -> bool {
    match obs {
        GapObservation::Level(k) => !target_consumed(s, k as int),
        GapObservation::TargetReached => !s.reached,
    }
}

/// The state after one observation.
pub open spec fn target_step(s: TargetTriggers, obs: GapObservation) -> TargetTriggers {
    match obs {
        GapObservation::Level(k) => if target_fires(s, obs) {
            TargetTriggers { has_fired: true, last_level: k, reached: s.reached }
        } else {
            s
        },
        GapObservation::TargetReached => TargetTriggers { reached: true, ..s },
    }
}

/// The state after a whole sequence of observations.
pub open spec fn target_run(s: TargetTriggers, obss: Seq<GapObservation>) -> TargetTriggers
    decreases obss.len(),
{
    if obss.len() == 0 {
        s
    } else {
        target_run(target_step(s, obss[0]), obss.drop_first())
    }
}

impl TargetTriggers {
    pub fn new() -> (r: TargetTriggers)
        ensures
            r == initial_targets(),
    {
        TargetTriggers { has_fired: false, last_level: 0, reached: false }
    }

    /// Feeds one observation: returns whether a target trigger fires, and
    /// consumes the crossed thresholds regardless.
    pub fn observe(&mut self, obs: GapObservation) -> (fired: bool)
        ensures
            *final(self) == target_step(*old(self), obs),
            fired == target_fires(*old(self), obs),
    {
        match obs {
            GapObservation::Level(k) => {
                if self.reached {
                    false
                } else if !self.has_fired {
                    self.has_fired = true;
                    self.last_level = k;
                    true
                } else if k < self.last_level {
                    self.last_level = k;
                    true
                } else {
                    false
                }
            },
            GapObservation::TargetReached => {
                let fired = !self.reached;
                self.reached = true;
                fired
            },
        }
    }
}

/// An observation that fires leaves its own level consumed.
pub proof fn lemma_target_fire_consumes(s: TargetTriggers, k: i64)
    ensures
        target_consumed(target_step(s, GapObservation::Level(k)), k as int),
{
}

/// Law: a consumed grid level stays consumed through any later observations.
pub proof fn lemma_target_consumption_monotone(
    s: TargetTriggers,
    obss: Seq<GapObservation>,
    level: int,
)
    requires
        target_consumed(s, level),
    ensures
        target_consumed(target_run(s, obss), level),
    decreases obss.len(),
{
    if obss.len() > 0 {
        lemma_target_consumption_monotone(target_step(s, obss[0]), obss.drop_first(), level);
    }
}

/// Law (monotone consumption): once a target threshold is consumed, no later
/// observation whose gap sits at that grid level or above ever fires again,
/// whatever happened in between.
pub proof fn lemma_target_no_refire(
    s: TargetTriggers,
    obss: Seq<GapObservation>,
    level: int,
    level2: i64,
)
    requires
        target_consumed(s, level),
        level2 >= level,
    ensures
        !target_fires(target_run(s, obss), GapObservation::Level(level2)),
{
    lemma_target_consumption_monotone(s, obss, level);
}

/// The observation for a gap that is exactly a power of ten, `10^e10`:
/// its grid level is exact there, `ceil(N * log10(10^e10)) == N * e10`.
/// Gaps below the target precision observe as the target being reached.
pub fn gap_observation_pow10(e10: i32, n_targets: u64, precision: Dec) -> (r: GapObservation)
    requires
        1 <= n_targets <= 1000000,
        -1000000 <= e10 <= 1000000,
    ensures
        r == if dec_lt(Dec { m: 1i64, e: e10 }, precision) {
            GapObservation::TargetReached
        } else {
            GapObservation::Level((n_targets * e10) as i64)
        },
{
    let gap = Dec { m: 1, e: e10 };
    if gap.lt(&precision) {
        GapObservation::TargetReached
    } else {
        proof {
            assert(-1000000000000int <= n_targets * e10 <= 1000000000000int) by (nonlinear_arith)
                requires
                    1 <= n_targets <= 1000000,
                    -1000000 <= e10 <= 1000000,
            ;
        }
        GapObservation::Level(n_targets as i64 * e10 as i64)
    }
}

/// Running state of the evaluation-count triggers for one problem.
///
/// For each base `b` the pending threshold is `b * dimension * 10^p`; crossing
/// it consumes it and every smaller one. `marks` carries the extra
/// logarithmically spaced per-decade counts, strictly ascending.
pub struct EvalTriggers {
    pub bases: Vec<u64>,
    pub dimension: u64,
    pub last_count: u64,
    pub next: Vec<u64>,
    pub powers: Vec<u64>,
    pub done: Vec<bool>,
    pub marks: Vec<u64>,
    pub mark_idx: usize,
}

pub open spec fn marks_strictly_ascending(m: Seq<u64>) -> bool {
    forall|i: int, j: int| 0 <= i < j < m.len() ==> #[trigger] m[i] < #[trigger] m[j]
}

/// The cursor of one base is the smallest not-yet-consumed threshold of that
/// base, or `done` when every remaining threshold overflows the counter type.
pub open spec fn base_cursor_ok(
    b: u64,
    d: u64,
    last: u64,
    nxt: u64,
    p: u64,
    done: bool,
) -> bool {
    &&& (p == 0 || b * d * pow10((p - 1) as nat) <= last)
    &&& if done {
        b * d * pow10(p as nat) > u64::MAX
    } else {
        nxt == b * d * pow10(p as nat) && nxt > last
    }
}

impl EvalTriggers {
    pub open spec fn wf(self) -> bool {
        &&& self.dimension >= 1
        &&& self.bases@.len() >= 1
        &&& self.next@.len() == self.bases@.len()
        &&& self.powers@.len() == self.bases@.len()
        &&& self.done@.len() == self.bases@.len()
        &&& forall|i: int| 0 <= i < self.bases@.len() ==> #[trigger] self.bases@[i] >= 1
        &&& forall|i: int|
            0 <= i < self.bases@.len() ==> #[trigger] base_cursor_ok(
                self.bases@[i],
                self.dimension,
                self.last_count,
                self.next@[i],
                self.powers@[i],
                self.done@[i],
            )
        &&& marks_strictly_ascending(self.marks@)
        &&& self.mark_idx <= self.marks@.len()
        &&& forall|j: int| 0 <= j < self.mark_idx ==> #[trigger] self.marks@[j] <= self.last_count
        &&& (self.mark_idx < self.marks@.len() ==> self.marks@[self.mark_idx as int]
            > self.last_count)
    }
}

/// Whether `v` is one of the base-derived counts `b * dim * 10^p`.
pub open spec fn is_base_threshold(bases: Seq<u64>, dim: u64, v: int) -> bool {
    exists|i: int, p: nat|
        0 <= i < bases.len() && v == #[trigger] (bases[i] * dim * pow10(p))
}

/// Whether feeding `count` fires an evaluation-count trigger: some base
/// threshold or extra mark lies in the half-open interval
/// `(last_count, count]`.
pub open spec fn eval_fires(e: EvalTriggers, count: u64) -> bool {
    ||| exists|v: int|
        e.last_count < v <= count && #[trigger] is_base_threshold(e.bases@, e.dimension, v)
    ||| exists|j: int| 0 <= j < e.marks@.len() && e.last_count < #[trigger] e.marks@[j] <= count
}

/// `10^20` does not fit the counter type; with it, base powers stay small.
proof fn lemma_pow10_u64_bound()
    ensures
        pow10(20) > u64::MAX,
{
    reveal_with_fuel(pow10, 21);
}

/// Base thresholds grow with the power.
proof fn lemma_base_threshold_mono(b: u64, d: u64, p: nat, q: nat)
    requires
        p <= q,
    ensures
        b * d * pow10(p) <= b * d * pow10(q),
{
    lemma_pow10_mono(p, q);
    assert(b * d * pow10(p) <= b * d * pow10(q)) by (nonlinear_arith)
        requires
            pow10(p) <= pow10(q),
            b >= 0,
            d >= 0,
    ;
}

/// A correct cursor decides exactly whether a base threshold lies in
/// `(last, count]`.
proof fn lemma_base_cursor_decides(b: u64, d: u64, last: u64, nxt: u64, p: u64, done: bool, count: u64)
    requires
        base_cursor_ok(b, d, last, nxt, p, done),
        b >= 1,
        d >= 1,
    ensures
        (!done && nxt <= count) == exists|q: nat| last < #[trigger] (b * d * pow10(q)) <= count,
{
    if !done && nxt <= count {
        assert(last < b * d * pow10(p as nat) <= count);
    } else {
        if exists|q: nat| last < #[trigger] (b * d * pow10(q)) <= count {
            let q = choose|q: nat| last < #[trigger] (b * d * pow10(q)) <= count;
            if q < p {
                lemma_base_threshold_mono(b, d, q, (p - 1) as nat);
                assert(false);
            } else {
                lemma_base_threshold_mono(b, d, p as nat, q);
                assert(false);
            }
        }
    }
}

impl EvalTriggers {
    /// Builds the evaluation-count trigger state for one problem dimension.
    /// Fails when a base is zero, the base list is empty, the dimension is
    /// zero, or the extra marks are not strictly ascending positive counts.
    pub fn new(bases: Vec<u64>, dimension: u64, marks: Vec<u64>) -> (r: Option<EvalTriggers>)
        ensures
            r is Some <==> {
                &&& bases@.len() >= 1
                &&& forall|i: int| 0 <= i < bases@.len() ==> #[trigger] bases@[i] >= 1
                &&& dimension >= 1
                &&& marks_strictly_ascending(marks@)
                &&& (marks@.len() == 0 || marks@[0] >= 1)
            },
            r is Some ==> {
                &&& r.unwrap().wf()
                &&& r.unwrap().bases@ == bases@
                &&& r.unwrap().dimension == dimension
                &&& r.unwrap().last_count == 0
                &&& r.unwrap().marks@ == marks@
            },
    {
        if bases.len() == 0 || dimension == 0 {
            return None;
        }
        let mut i: usize = 0;
        while i < bases.len()
            invariant
                i <= bases@.len(),
                forall|k: int| 0 <= k < i ==> #[trigger] bases@[k] >= 1,
            decreases bases@.len() - i,
        {
            if bases[i] == 0 {
                return None;
            }
            i = i + 1;
        }
        if marks.len() > 0 {
            let mut j: usize = 0;
            while j < marks.len() - 1
                invariant
                    marks@.len() >= 1,
                    j < marks@.len(),
                    forall|k: int| 0 <= k < j ==> #[trigger] marks@[k] < marks@[k + 1],
                decreases marks@.len() - j,
            {
                if marks[j] >= marks[j + 1] {
                    return None;
                }
                j = j + 1;
            }
        }
        proof {
            lemma_adjacent_ascending(marks@);
        }
        if marks.len() > 0 && marks[0] == 0 {
            return None;
        }
        let mut next: Vec<u64> = Vec::new();
        let mut powers: Vec<u64> = Vec::new();
        let mut done: Vec<bool> = Vec::new();
        let mut k: usize = 0;
        while k < bases.len()
            invariant
                k <= bases@.len(),
                next@.len() == k,
                powers@.len() == k,
                done@.len() == k,
                dimension >= 1,
                forall|i: int| 0 <= i < bases@.len() ==> #[trigger] bases@[i] >= 1,
                forall|i: int|
                    0 <= i < k ==> #[trigger] base_cursor_ok(
                        bases@[i],
                        dimension,
                        0,
                        next@[i],
                        powers@[i],
                        done@[i],
                    ),
            decreases bases@.len() - k,
        {
            let b = bases[k];
            match b.checked_mul(dimension) {
                Some(v) => {
                    proof {
                        assert(v * pow10(0) == v);
                        assert(v >= 1) by (nonlinear_arith)
                            requires
                                v == b * dimension,
                                b >= 1,
                                dimension >= 1,
                        ;
                    }
                    next.push(v);
                    powers.push(0);
                    done.push(false);
                },
                None => {
                    proof {
                        assert(b * dimension * pow10(0) == b * dimension);
                    }
                    next.push(0);
                    powers.push(0);
                    done.push(true);
                },
            }
            k = k + 1;
        }
        Some(EvalTriggers { bases, dimension, last_count: 0, next, powers, done, marks, mark_idx: 0 })
    }

    /// Feeds the new value of the evaluation counter. Fires when a threshold
    /// lies in `(last_count, count]`; consumes every threshold up to `count`
    /// (a single jump may consume several).
    pub fn observe(&mut self, count: u64) -> (fired: bool)
        requires
            old(self).wf(),
        ensures
            final(self).wf(),
            fired == eval_fires(*old(self), count),
            final(self).last_count == if count > old(self).last_count {
                count
            } else {
                old(self).last_count
            },
            final(self).bases@ == old(self).bases@,
            final(self).dimension == old(self).dimension,
            final(self).marks@ == old(self).marks@,
    {
        if count <= self.last_count {
            return false;
        }
        let ghost pre = *self;
        let mut fired = false;
        let n = self.bases.len();
        let mut i: usize = 0;
        while i < n
            invariant
                pre.wf(),
                self.bases@ == pre.bases@,
                self.dimension == pre.dimension,
                self.last_count == pre.last_count,
                self.marks@ == pre.marks@,
                self.mark_idx == pre.mark_idx,
                self.next@.len() == n,
                self.powers@.len() == n,
                self.done@.len() == n,
                n == self.bases@.len(),
                i <= n,
                count > self.last_count,
                forall|k: int|
                    #![trigger self.next@[k]]
                    #![trigger self.powers@[k]]
                    #![trigger self.done@[k]]
                    i <= k < n ==> self.next@[k] == pre.next@[k] && self.powers@[k]
                        == pre.powers@[k] && self.done@[k] == pre.done@[k],
                forall|k: int|
                    0 <= k < i ==> #[trigger] base_cursor_ok(
                        self.bases@[k],
                        self.dimension,
                        count,
                        self.next@[k],
                        self.powers@[k],
                        self.done@[k],
                    ),
                fired == exists|k: int|
                    0 <= k < i && !pre.done@[k] && #[trigger] pre.next@[k] <= count,
            decreases n - i,
        {
            if !self.done[i] && self.next[i] <= count {
                fired = true;
                let b = self.bases[i];
                let d = self.dimension;
                let mut nxt = self.next[i];
                let mut pw = self.powers[i];
                let mut dn = false;
                proof {
                    assert(base_cursor_ok(
                        pre.bases@[i as int],
                        pre.dimension,
                        pre.last_count,
                        pre.next@[i as int],
                        pre.powers@[i as int],
                        pre.done@[i as int],
                    ));
                    lemma_pow10_u64_bound();
                    lemma_pow10_pos(pw as nat);
                    assert(b * d * pow10(pw as nat) >= pow10(pw as nat)) by (nonlinear_arith)
                        requires
                            b >= 1,
                            d >= 1,
                            pow10(pw as nat) >= 1,
                    ;
                    if pw >= 20 {
                        lemma_pow10_mono(20, pw as nat);
                    }
                }
                while !dn && nxt <= count
                    invariant
                        b >= 1,
                        d >= 1,
                        pw <= 20,
                        !dn ==> pw < 20,
                        pow10(20) > u64::MAX,
                        pw == 0 || b * d * pow10((pw - 1) as nat) <= count,
                        if dn {
                            b * d * pow10(pw as nat) > u64::MAX
                        } else {
                            nxt == b * d * pow10(pw as nat)
                        },
                    decreases (if dn { 0int } else { 1int }), u64::MAX - nxt,
                {
                    match nxt.checked_mul(10) {
                        Some(v) => {
                            proof {
                                assert(nxt * 10 == b * d * pow10((pw + 1) as nat))
                                    by (nonlinear_arith)
                                    requires
                                        nxt == b * d * pow10(pw as nat),
                                        pow10((pw + 1) as nat) == 10 * pow10(pw as nat),
                                ;
                                lemma_pow10_pos((pw + 1) as nat);
                                assert(b * d * pow10((pw + 1) as nat) >= pow10((pw + 1) as nat))
                                    by (nonlinear_arith)
                                    requires
                                        b >= 1,
                                        d >= 1,
                                        pow10((pw + 1) as nat) >= 1,
                                ;
                                if pw + 1 >= 20 {
                                    lemma_pow10_mono(20, pw as nat + 1);
                                }
                            }
                            nxt = v;
                            pw = pw + 1;
                        },
                        None => {
                            proof {
                                assert(nxt * 10 == b * d * pow10((pw + 1) as nat))
                                    by (nonlinear_arith)
                                    requires
                                        nxt == b * d * pow10(pw as nat),
                                        pow10((pw + 1) as nat) == 10 * pow10(pw as nat),
                                ;
                            }
                            pw = pw + 1;
                            dn = true;
                        },
                    }
                }
                let ghost before_set = *self;
                self.next.set(i, nxt);
                self.powers.set(i, pw);
                self.done.set(i, dn);
                proof {
                    assert(base_cursor_ok(
                        self.bases@[i as int],
                        self.dimension,
                        count,
                        self.next@[i as int],
                        self.powers@[i as int],
                        self.done@[i as int],
                    ));
                    assert forall|k: int|
                        #![trigger self.next@[k]]
                        #![trigger self.powers@[k]]
                        #![trigger self.done@[k]]
                    i < k < n implies self.next@[k] == pre.next@[k]
                        && self.powers@[k] == pre.powers@[k] && self.done@[k]
                        == pre.done@[k] by {
                        assert(self.next@[k] == before_set.next@[k]);
                        assert(self.powers@[k] == before_set.powers@[k]);
                        assert(self.done@[k] == before_set.done@[k]);
                        assert(before_set.done@[k] == pre.done@[k]);
                    }
                }
            } else {
                proof {
                    assert(self.done@[i as int] == pre.done@[i as int]);
                    assert(base_cursor_ok(
                        pre.bases@[i as int],
                        pre.dimension,
                        pre.last_count,
                        pre.next@[i as int],
                        pre.powers@[i as int],
                        pre.done@[i as int],
                    ));
                    assert(base_cursor_ok(
                        self.bases@[i as int],
                        self.dimension,
                        count,
                        self.next@[i as int],
                        self.powers@[i as int],
                        self.done@[i as int],
                    ));
                }
            }
            i = i + 1;
        }
        let ghost mid = *self;
        let mut mark_fired = false;
        if self.mark_idx < self.marks.len() && self.marks[self.mark_idx] <= count {
            mark_fired = true;
        }
        while self.mark_idx < self.marks.len() && self.marks[self.mark_idx] <= count
            invariant
                pre.wf(),
                count > pre.last_count,
                self.bases@ == mid.bases@,
                self.dimension == mid.dimension,
                self.last_count == mid.last_count,
                self.marks@ == mid.marks@,
                self.next@ == mid.next@,
                self.powers@ == mid.powers@,
                self.done@ == mid.done@,
                self.marks@ == pre.marks@,
                marks_strictly_ascending(self.marks@),
                pre.mark_idx <= self.mark_idx <= self.marks@.len(),
                forall|j: int| 0 <= j < self.mark_idx ==> #[trigger] self.marks@[j] <= count,
            decreases self.marks@.len() - self.mark_idx,
        {
            self.mark_idx = self.mark_idx + 1;
        }
        self.last_count = count;
        proof {
            assert forall|j: int| 0 <= j < self.mark_idx implies #[trigger] self.marks@[j]
                <= self.last_count by {
                if j < pre.mark_idx {
                    assert(pre.marks@[j] <= pre.last_count);
                }
            }
            lemma_observe_summary(pre, *self, count, fired, mark_fired);
        }
        fired || mark_fired
    }
}

/// Strict ascension between neighbours gives strict ascension overall.
pub proof fn lemma_adjacent_ascending(m: Seq<u64>)
    requires
        forall|k: int| 0 <= k < m.len() - 1 ==> #[trigger] m[k] < m[k + 1],
    ensures
        marks_strictly_ascending(m),
{
    assert forall|i: int, j: int| 0 <= i < j < m.len() implies #[trigger] m[i] < #[trigger] m[j] by {
        lemma_adjacent_ascending_pair(m, i, j);
    }
}

proof fn lemma_adjacent_ascending_pair(m: Seq<u64>, i: int, j: int)
    requires
        forall|k: int| 0 <= k < m.len() - 1 ==> #[trigger] m[k] < m[k + 1],
        0 <= i < j < m.len(),
    ensures
        m[i] < m[j],
    decreases j - i,
{
    if i + 1 < j {
        lemma_adjacent_ascending_pair(m, i + 1, j);
    }
}

/// Ties the cursor walk back to the interval statement of `eval_fires`.
proof fn lemma_observe_summary(
    pre: EvalTriggers,
    post: EvalTriggers,
    count: u64,
    fired: bool,
    mark_fired: bool,
)
    requires
        pre.wf(),
        count > pre.last_count,
        post.bases@ == pre.bases@,
        post.dimension == pre.dimension,
        post.marks@ == pre.marks@,
        fired == exists|k: int|
            0 <= k < pre.bases@.len() && !pre.done@[k] && #[trigger] pre.next@[k] <= count,
        mark_fired == (pre.mark_idx < pre.marks@.len() && pre.marks@[pre.mark_idx as int]
            <= count),
    ensures
        (fired || mark_fired) == eval_fires(pre, count),
{
    let bs = pre.bases@;
    let d = pre.dimension;
    if fired {
        let k = choose|k: int|
            0 <= k < bs.len() && !pre.done@[k] && #[trigger] pre.next@[k] <= count;
        lemma_base_cursor_decides(
            bs[k],
            d,
            pre.last_count,
            pre.next@[k],
            pre.powers@[k],
            pre.done@[k],
            count,
        );
        let q = choose|q: nat| pre.last_count < #[trigger] (bs[k] * d * pow10(q)) <= count;
        assert(is_base_threshold(bs, d, bs[k] * d * pow10(q)));
        assert(eval_fires(pre, count));
    }
    if mark_fired {
        assert(pre.last_count < pre.marks@[pre.mark_idx as int] <= count);
        assert(eval_fires(pre, count));
    }
    if !fired && !mark_fired && eval_fires(pre, count) {
        if exists|v: int|
            pre.last_count < v <= count && #[trigger] is_base_threshold(bs, d, v) {
            let v = choose|v: int|
                pre.last_count < v <= count && #[trigger] is_base_threshold(bs, d, v);
            let (i, p): (int, nat) = choose|i: int, p: nat|
                0 <= i < bs.len() && v == #[trigger] (bs[i] * d * pow10(p));
            lemma_base_cursor_decides(
                bs[i],
                d,
                pre.last_count,
                pre.next@[i],
                pre.powers@[i],
                pre.done@[i],
                count,
            );
            assert(false);
        } else {
            let j = choose|j: int|
                0 <= j < pre.marks@.len() && pre.last_count < #[trigger] pre.marks@[j] <= count;
            if j < pre.mark_idx {
                assert(pre.marks@[j] <= pre.last_count);
            } else {
                assert(pre.mark_idx < pre.marks@.len());
                if pre.mark_idx < j {
                    assert(pre.marks@[pre.mark_idx as int] < pre.marks@[j]);
                }
            }
            assert(false);
        }
    }
}

/// Law: with a unit increment of the counter and no extra marks, the count
/// trigger fires exactly on the base-derived thresholds
/// `b * dimension * 10^p` — the merged sequence visits each such count once
/// (counts ascend, and equal thresholds from different bases fire as one).
pub proof fn lemma_eval_fires_exactly_base_thresholds(e: EvalTriggers, c: u64)
    requires
        e.wf(),
        e.marks@.len() == 0,
        c == e.last_count + 1,
    ensures
        eval_fires(e, c) == is_base_threshold(e.bases@, e.dimension, c as int),
{
    if eval_fires(e, c) {
        if exists|v: int|
            e.last_count < v <= c && #[trigger] is_base_threshold(e.bases@, e.dimension, v) {
            let v = choose|v: int|
                e.last_count < v <= c && #[trigger] is_base_threshold(e.bases@, e.dimension, v);
            assert(v == c as int);
        } else {
            assert(false);
        }
    }
    if is_base_threshold(e.bases@, e.dimension, c as int) {
        assert(e.last_count < c as int <= c);
        assert(eval_fires(e, c));
    }
}

/// One trigger engine: the per-problem running state of both trigger kinds.
pub struct TriggerEngine {
    pub targets: TargetTriggers,
    pub counts: EvalTriggers,
}

impl TriggerEngine {
    pub open spec fn wf(self) -> bool {
        self.counts.wf()
    }

    /// The decision for one evaluation: target triggers OR count triggers.
    /// Both sides advance their state on every call, whichever one fires.
    pub fn observe(&mut self, gap: GapObservation, count: u64) -> (fired: bool)
        requires
            old(self).wf(),
        ensures
            final(self).wf(),
            fired == (target_fires(old(self).targets, gap) || eval_fires(old(self).counts, count)),
            final(self).targets == target_step(old(self).targets, gap),
            final(self).counts.last_count == if count > old(self).counts.last_count {
                count
            } else {
                old(self).counts.last_count
            },
            final(self).counts.bases@ == old(self).counts.bases@,
            final(self).counts.dimension == old(self).counts.dimension,
            final(self).counts.marks@ == old(self).counts.marks@,
    {
        let target_fired = self.targets.observe(gap);
        let count_fired = self.counts.observe(count);
        target_fired || count_fired
    }
}

} // verus!
