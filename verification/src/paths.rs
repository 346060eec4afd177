//! The transition relation the search explores, and invariants that hold
//! along every path through it: committed durations only accumulate, no
//! duration is ever committed twice, and the middle station is never active
//! while a side station is mid-phase.

use vstd::prelude::*;

use crate::search::{
    lemma_advance_measure, lemma_min_makespan_ge_time, lemma_start_measure, min_makespan,
    min_makespan_jobs, opt_min, potential, root_view, unused_count,
};
use crate::state::{
    can_start, next_flush, spec_after_flush, spec_is_finish, spec_use_urinal, PackageV, StateV,
    Urinal,
};

verus! {

/// One time-advance move: the clock must really move, or the search does
/// not take the step.
pub open spec fn is_advance_step(a: StateV, b: StateV) -> bool {
    b == spec_after_flush(a) && b.time > a.time
}

/// One job-assignment move: an unassigned duration committed to an eligible
/// station.
pub open spec fn is_start_step(a: StateV, b: StateV, urinal: Urinal, d: u8) -> bool {
    &&& 1 <= d
    &&& (d as int) < a.package.used.len()
    &&& !a.package.used[d as int]
    &&& can_start(a.package, urinal)
    &&& b == spec_use_urinal(a, urinal, d as int)
}

/// One move of the search.
pub open spec fn is_step(a: StateV, b: StateV) -> bool {
    is_advance_step(a, b) || exists|urinal: Urinal, d: u8| is_start_step(a, b, urinal, d)
}

/// A sequence of states each of which follows from the one before it.
pub open spec fn is_path(t: Seq<StateV>) -> bool {
    forall|i: int| 0 <= i < t.len() - 1 ==> #[trigger] is_step(t[i], t[i + 1])
}

/// Every active station has a countdown running.
pub open spec fn stations_wf(p: PackageV) -> bool {
    &&& p.left.using ==> p.left.flush_time > 0
    &&& p.middle.using ==> p.middle.flush_time > 0
    &&& p.right.using ==> p.right.flush_time > 0
}

/// The asymmetric exclusion rule, as an invariant: while the middle station
/// is in its active phase, neither side station has any phase underway.
pub open spec fn middle_exclusion(p: PackageV) -> bool {
    p.middle.using ==> p.left.flush_time == 0 && p.right.flush_time == 0
}

/// One move preserves well-formedness and the exclusion invariant.
pub proof fn lemma_step_preserves_exclusion(a: StateV, b: StateV)
    requires
        is_step(a, b),
        stations_wf(a.package),
        middle_exclusion(a.package),
    ensures
        stations_wf(b.package),
        middle_exclusion(b.package),
{
    if is_advance_step(a, b) {
    } else {
        let (urinal, d): (Urinal, u8) = choose|urinal: Urinal, d: u8|
            is_start_step(a, b, urinal, d);
    }
}

/// Well-formedness and the exclusion invariant hold at every state of a
/// path that begins in a state satisfying them.
pub proof fn lemma_path_preserves_exclusion(t: Seq<StateV>, i: int)
    requires
        is_path(t),
        0 <= i < t.len(),
        stations_wf(t[0].package),
        middle_exclusion(t[0].package),
    ensures
        stations_wf(t[i].package),
        middle_exclusion(t[i].package),
    decreases i,
{
    if i > 0 {
        lemma_path_preserves_exclusion(t, i - 1);
        let k: int = i - 1;
        assert(is_step(t[k], t[k + 1]));
        lemma_step_preserves_exclusion(t[i - 1], t[i]);
    }
}

/// Eligibility respected: in every state the search can reach from the
/// root, the middle station is never in its active phase while either side
/// station still has a countdown running.
pub proof fn lemma_middle_excludes_sides(n: u8, t: Seq<StateV>, i: int)
    requires
        t.len() > 0,
        t[0] == root_view(n),
        is_path(t),
        0 <= i < t.len(),
    ensures
        t[i].package.middle.using ==> t[i].package.left.flush_time == 0
            && t[i].package.right.flush_time == 0,
{
    lemma_path_preserves_exclusion(t, i);
}

/// One move never clears a committed duration, and never changes how many
/// duration slots there are.
pub proof fn lemma_step_used_monotone(a: StateV, b: StateV)
    requires
        is_step(a, b),
    ensures
        b.package.used.len() == a.package.used.len(),
        forall|x: int|
            0 <= x < a.package.used.len() && a.package.used[x] ==> b.package.used[x],
{
    if is_advance_step(a, b) {
    } else {
        let (urinal, d): (Urinal, u8) = choose|urinal: Urinal, d: u8|
            is_start_step(a, b, urinal, d);
        assert(b.package.used == a.package.used.update(d as int, true));
    }
}

/// Committed durations only accumulate along a path.
pub proof fn lemma_path_used_monotone(t: Seq<StateV>, i: int, j: int)
    requires
        is_path(t),
        0 <= i <= j < t.len(),
    ensures
        t[j].package.used.len() == t[i].package.used.len(),
        forall|x: int|
            0 <= x < t[i].package.used.len() && t[i].package.used[x] ==> t[j].package.used[x],
    decreases j - i,
{
    if i < j {
        lemma_path_used_monotone(t, i, j - 1);
        let k: int = j - 1;
        assert(is_step(t[k], t[k + 1]));
        lemma_step_used_monotone(t[j - 1], t[j]);
    }
}

/// Duration uniqueness: along one path, two job-assignment moves never
/// commit the same duration.
pub proof fn lemma_duration_started_once(
    t: Seq<StateV>,
    i: int,
    j: int,
    ui: Urinal,
    uj: Urinal,
    di: u8,
    dj: u8,
)
    requires
        is_path(t),
        0 <= i < j,
        j + 1 < t.len(),
        is_start_step(t[i], t[i + 1], ui, di),
        is_start_step(t[j], t[j + 1], uj, dj),
    ensures
        di != dj,
{
    assert(t[i + 1].package.used == t[i].package.used.update(di as int, true));
    lemma_path_used_monotone(t, i + 1, j);
    if di == dj {
        assert(t[i + 1].package.used[di as int]);
        assert(t[j].package.used[di as int]);
        assert(false);
    }
}

/// Orders two optional makespans: whenever the second is achieved, the
/// first is achieved too, and no later.
pub open spec fn opt_le(a: Option<int>, b: Option<int>) -> bool {
    match b {
        Option::None => true,
        Option::Some(vb) => match a {
            Option::None => false,
            Option::Some(va) => va <= vb,
        },
    }
}

/// Assigning any duration `d` at or past the scan position can only match
/// or improve on the least makespan over the remaining assignments.
pub proof fn lemma_jobs_le_start(s: StateV, d0: int, d: int, urinal: Urinal)
    requires
        1 <= d0 <= d,
        d < s.package.used.len(),
        !s.package.used[d],
        can_start(s.package, urinal),
    ensures
        opt_le(min_makespan_jobs(s, d0), min_makespan(spec_use_urinal(s, urinal, d))),
    decreases d - d0,
{
    if d0 < d {
        lemma_jobs_le_start(s, d0 + 1, d, urinal);
    }
}

/// One move can only match or improve on the least makespan: whatever is
/// reachable after the move was already reachable before it.
pub proof fn lemma_step_min_makespan_le(a: StateV, b: StateV)
    requires
        is_step(a, b),
    ensures
        opt_le(min_makespan(a), min_makespan(b)),
{
    lemma_min_makespan_ge_time(b);
    if spec_is_finish(a.package) {
        assert(b.time >= a.time);
    } else if is_advance_step(a, b) {
    } else {
        let (urinal, d): (Urinal, u8) = choose|urinal: Urinal, d: u8|
            is_start_step(a, b, urinal, d);
        lemma_jobs_le_start(a, 1, d as int, urinal);
    }
}

/// Along a whole path, the least makespan from the first state bounds the
/// least makespan from every later state.
pub proof fn lemma_path_min_makespan_le(t: Seq<StateV>, i: int)
    requires
        is_path(t),
        0 <= i < t.len(),
    ensures
        opt_le(min_makespan(t[0]), min_makespan(t[i])),
    decreases i,
{
    if i > 0 {
        lemma_path_min_makespan_le(t, i - 1);
        let k: int = i - 1;
        assert(is_step(t[k], t[k + 1]));
        lemma_step_min_makespan_le(t[i - 1], t[i]);
    }
}

/// Optimality of the bound: no path reaches a complete state sooner than
/// the least makespan of the state it started from. In particular, paired
/// with the contract of `UrinalProblem::new`, no schedule for `n` jobs
/// completes before `best_answer`.
pub proof fn lemma_no_completion_beats_min_makespan(t: Seq<StateV>, i: int)
    requires
        is_path(t),
        0 <= i < t.len(),
        spec_is_finish(t[i].package),
    ensures
        opt_le(min_makespan(t[0]), Option::Some(t[i].time)),
{
    lemma_path_min_makespan_le(t, i);
}

/// Prefixing a path with one more move yields a path.
pub proof fn lemma_path_prepend(s: StateV, t: Seq<StateV>)
    requires
        is_path(t),
        t.len() > 0,
        is_step(s, t[0]),
    ensures
        is_path(seq![s] + t),
{
    let u = seq![s] + t;
    assert forall|i: int| 0 <= i < u.len() - 1 implies #[trigger] is_step(u[i], u[i + 1]) by {
        if i == 0 {
            assert(u[0] == s);
            assert(u[1] == t[0]);
        } else {
            let k: int = i - 1;
            assert(is_step(t[k], t[k + 1]));
            assert(u[i] == t[i - 1]);
            assert(u[i + 1] == t[i]);
        }
    }
}

/// A path from `s` that ends in a complete state at time `v`.
pub open spec fn completion_witness(s: StateV, v: int, t: Seq<StateV>) -> bool {
    &&& is_path(t)
    &&& t.len() > 0
    &&& t[0] == s
    &&& spec_is_finish(t.last().package)
    &&& t.last().time == v
}

/// When the least makespan over the remaining assignments is achieved, some
/// single assignment at or past the scan position achieves it.
pub proof fn lemma_jobs_achieved(s: StateV, d: int, v: int)
    requires
        min_makespan_jobs(s, d) == Option::Some(v),
    ensures
        exists|urinal: Urinal, dd: int|
            {
                &&& d <= dd < s.package.used.len()
                &&& 1 <= dd
                &&& !s.package.used[dd]
                &&& can_start(s.package, urinal)
                &&& #[trigger] min_makespan(spec_use_urinal(s, urinal, dd))
                    == Option::Some(v)
            },
    decreases s.package.used.len() - d,
{
    let rest = min_makespan_jobs(s, d + 1);
    if !s.package.used[d] {
        let via_left = if can_start(s.package, Urinal::Left) {
            min_makespan(spec_use_urinal(s, Urinal::Left, d))
        } else {
            Option::None
        };
        let via_right = if can_start(s.package, Urinal::Right) {
            min_makespan(spec_use_urinal(s, Urinal::Right, d))
        } else {
            Option::None
        };
        let via_middle = if can_start(s.package, Urinal::Middle) {
            min_makespan(spec_use_urinal(s, Urinal::Middle, d))
        } else {
            Option::None
        };
        if via_left == Option::Some(v) {
            assert(can_start(s.package, Urinal::Left));
        } else if via_right == Option::Some(v) {
            assert(can_start(s.package, Urinal::Right));
        } else if via_middle == Option::Some(v) {
            assert(can_start(s.package, Urinal::Middle));
        } else {
            lemma_jobs_achieved(s, d + 1, v);
        }
    } else {
        lemma_jobs_achieved(s, d + 1, v);
    }
}

/// The least makespan is achieved: whenever it exists, some path really
/// reaches a complete state at exactly that time. Together with
/// `lemma_no_completion_beats_min_makespan`, the least makespan of a state
/// is exactly the least time at which any path from it completes.
pub proof fn lemma_min_makespan_achieved(s: StateV, v: int)
    requires
        min_makespan(s) == Option::Some(v),
        s.package.used.len() <= 256,
    ensures
        exists|t: Seq<StateV>| #[trigger] completion_witness(s, v, t),
    decreases unused_count(s.package), potential(s.package),
{
    if spec_is_finish(s.package) {
        let t0 = seq![s];
        assert(completion_witness(s, v, t0));
    } else {
        let adv = spec_after_flush(s);
        let via_advance = if adv.time > s.time {
            min_makespan(adv)
        } else {
            Option::None
        };
        if via_advance == Option::Some(v) {
            lemma_advance_measure(s);
            lemma_min_makespan_achieved(adv, v);
            let t1: Seq<StateV> = choose|t: Seq<StateV>| #[trigger] completion_witness(adv, v, t);
            lemma_path_prepend(s, t1);
            let t0 = seq![s] + t1;
            assert(t0.last() == t1.last());
            assert(completion_witness(s, v, t0));
        } else {
            assert(min_makespan_jobs(s, 1) == Option::Some(v));
            lemma_jobs_achieved(s, 1, v);
            let (urinal, dd): (Urinal, int) = choose|urinal: Urinal, dd: int|
                {
                    &&& 1 <= dd < s.package.used.len()
                    &&& 1 <= dd
                    &&& !s.package.used[dd]
                    &&& can_start(s.package, urinal)
                    &&& #[trigger] min_makespan(spec_use_urinal(s, urinal, dd))
                        == Option::Some(v)
                };
            let child = spec_use_urinal(s, urinal, dd);
            lemma_start_measure(s, dd);
            lemma_min_makespan_achieved(child, v);
            let t1: Seq<StateV> = choose|t: Seq<StateV>|
                #[trigger] completion_witness(child, v, t);
            assert(is_start_step(s, child, urinal, dd as u8));
            lemma_path_prepend(s, t1);
            let t0 = seq![s] + t1;
            assert(t0.last() == t1.last());
            assert(completion_witness(s, v, t0));
        }
    }
}

/// A path from `s` that ends in a complete state.
pub open spec fn completes_from(s: StateV, t: Seq<StateV>) -> bool {
    &&& is_path(t)
    &&& t.len() > 0
    &&& t[0] == s
    &&& spec_is_finish(t.last().package)
}

/// From any state whose three stations are all fully idle (and whose
/// duration 0 is pre-marked), some path completes: run the remaining jobs
/// one after the other on the left station, waiting out each cooldown.
pub proof fn lemma_completion_reachable(s: StateV)
    requires
        !s.package.left.using && s.package.left.flush_time == 0,
        !s.package.middle.using && s.package.middle.flush_time == 0,
        !s.package.right.using && s.package.right.flush_time == 0,
        s.package.used.len() <= 256,
        s.package.used.len() > 0,
        s.package.used[0],
    ensures
        exists|t: Seq<StateV>| #[trigger] completes_from(s, t),
    decreases unused_count(s.package),
{
    let p = s.package;
    if exists|j: int| 0 <= j < p.used.len() && !p.used[j] {
        let d: int = choose|j: int| 0 <= j < p.used.len() && !p.used[j];
        assert(1 <= d < p.used.len());
        let s1 = spec_use_urinal(s, Urinal::Left, d);
        let s2 = spec_after_flush(s1);
        let s3 = spec_after_flush(s2);
        assert(next_flush(s1.package) == d);
        assert(next_flush(s2.package) == d);
        assert(s2.time == s1.time + d);
        assert(!s3.package.left.using && s3.package.left.flush_time == 0);
        lemma_start_measure(s, d);
        assert(unused_count(s1.package) == unused_count(s.package) - 1);
        assert(s3.package.used == s1.package.used);
        assert(unused_count(s3.package) == unused_count(s1.package));
        lemma_completion_reachable(s3);
        let t3: Seq<StateV> = choose|t: Seq<StateV>| #[trigger] completes_from(s3, t);
        assert(is_advance_step(s2, s3));
        lemma_path_prepend(s2, t3);
        let t2 = seq![s2] + t3;
        assert(is_advance_step(s1, s2));
        lemma_path_prepend(s1, t2);
        let t1 = seq![s1] + t2;
        assert(is_start_step(s, s1, Urinal::Left, d as u8));
        lemma_path_prepend(s, t1);
        let t0 = seq![s] + t1;
        assert(t0.last() == t3.last());
        assert(completes_from(s, t0));
    } else {
        let t0 = seq![s];
        assert(spec_is_finish(p));
        assert(completes_from(s, t0));
    }
}

/// The root always has a least makespan: some schedule completes, so the
/// search's answer is the time of a real schedule whenever it improves on
/// the initial bound.
pub proof fn lemma_root_has_min_makespan(n: u8)
    ensures
        min_makespan(root_view(n)) is Some,
{
    let s = root_view(n);
    assert(s.package.used[0]);
    lemma_completion_reachable(s);
    let t: Seq<StateV> = choose|t: Seq<StateV>| #[trigger] completes_from(s, t);
    lemma_no_completion_beats_min_makespan(t, t.len() - 1);
}

} // verus!
