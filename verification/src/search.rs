//! Exhaustive depth-first search with branch-and-bound pruning. From any
//! state the search tries the single time-advance transition and every
//! eligible job assignment, keeping the least completion time found so far
//! as the pruning bound. The contract of `bf` pins the search down exactly:
//! the bound it leaves behind is the minimum of the bound it was given and
//! the least makespan reachable from the state it was handed.

use vstd::prelude::*;

use crate::state::{
    can_start, next_flush, spec_after_flush, spec_is_finish, spec_use_urinal,
    step_station, Package, PackageV, State, StateV, Station, Urinal,
};

verus! {

/// How many durations strictly below `k` are still unassigned.
pub open spec fn unused_below(used: Seq<bool>, k: int) -> int
    decreases k,
{
    if k <= 0 {
        0
    } else {
        unused_below(used, k - 1) + (if used[k - 1] {
            0int
        } else {
            1int
        })
    }
}

/// How many durations are still unassigned: one part of the measure that
/// shrinks along every search path.
pub open spec fn unused_count(p: PackageV) -> int {
    unused_below(p.used, p.used.len() as int)
}

/// Time a station still blocks: its running countdown, plus the cooldown it
/// will still owe if it is in its active phase.
pub open spec fn station_potential(st: Station) -> int {
    st.flush_time + (if st.using {
        st.flush_duration as int
    } else {
        0int
    })
}

/// Total blocking time over the three stations: strictly shrinks whenever
/// the clock really advances, which bounds runs of time-advance steps.
pub open spec fn potential(p: PackageV) -> int {
    station_potential(p.left) + station_potential(p.middle) + station_potential(p.right)
}

pub proof fn lemma_unused_below_nonneg(used: Seq<bool>, k: int)
    ensures
        unused_below(used, k) >= 0,
    decreases k,
{
    if k > 0 {
        lemma_unused_below_nonneg(used, k - 1);
    }
}

pub proof fn lemma_unused_below_agree(a: Seq<bool>, b: Seq<bool>, k: int)
    requires
        forall|j: int| 0 <= j < k ==> a[j] == b[j],
    ensures
        unused_below(a, k) == unused_below(b, k),
    decreases k,
{
    if k > 0 {
        lemma_unused_below_agree(a, b, k - 1);
    }
}

/// Committing one unassigned duration lowers the unassigned count by one.
pub proof fn lemma_unused_below_update(used: Seq<bool>, d: int, k: int)
    requires
        0 <= d < k,
        k <= used.len(),
        !used[d],
    ensures
        unused_below(used.update(d, true), k) == unused_below(used, k) - 1,
    decreases k,
{
    let upd = used.update(d, true);
    if d == k - 1 {
        lemma_unused_below_agree(upd, used, k - 1);
    } else {
        lemma_unused_below_update(used, d, k - 1);
    }
}

pub proof fn lemma_step_station_potential(st: Station, delta: int)
    requires
        0 < delta,
        st.flush_time > 0 ==> delta <= st.flush_time,
    ensures
        station_potential(step_station(st, delta)) <= station_potential(st),
        st.flush_time > 0 ==> station_potential(step_station(st, delta)) <= station_potential(st)
            - delta,
{
}

/// When the time-advance transition really moves the clock, the total
/// blocking time strictly shrinks and the committed durations are untouched.
pub proof fn lemma_advance_measure(s: StateV)
    requires
        spec_after_flush(s).time > s.time,
    ensures
        potential(spec_after_flush(s).package) < potential(s.package),
        spec_after_flush(s).package.used == s.package.used,
        unused_count(spec_after_flush(s).package) == unused_count(s.package),
{
    let delta = next_flush(s.package);
    assert(delta > 0);
    lemma_step_station_potential(s.package.left, delta);
    lemma_step_station_potential(s.package.middle, delta);
    lemma_step_station_potential(s.package.right, delta);
    assert(s.package.left.flush_time > 0 || s.package.middle.flush_time > 0
        || s.package.right.flush_time > 0);
}

/// Least element of two optional values, where absence means "no schedule
/// completes down that branch".
pub open spec fn opt_min(a: Option<int>, b: Option<int>) -> Option<int> {
    match (a, b) {
        (Option::None, _) => b,
        (_, Option::None) => a,
        (Option::Some(x), Option::Some(y)) => Option::Some(
            if x <= y {
                x
            } else {
                y
            },
        ),
    }
}

/// A bound after taking an optional candidate into account: the candidate
/// replaces the bound only when it improves on it.
pub open spec fn best_with(b: int, o: Option<int>) -> int {
    match o {
        Option::None => b,
        Option::Some(v) => if v < b {
            v
        } else {
            b
        },
    }
}

/// Folding two candidates into a bound one after the other is the same as
/// folding in their minimum.
pub proof fn lemma_best_with_chain(b: int, x: Option<int>, y: Option<int>)
    ensures
        best_with(best_with(b, x), y) == best_with(b, opt_min(x, y)),
{
}

/// The least makespan over every schedule reachable from `s`: the time of
/// `s` itself when it is already complete, and otherwise the least makespan
/// over the time-advance successor (when the clock really moves) and every
/// eligible job assignment. `None` means no completion is reachable.
pub open spec fn min_makespan(s: StateV) -> Option<int>
    decreases unused_count(s.package), potential(s.package), s.package.used.len() as int + 1,
{
    if spec_is_finish(s.package) {
        Option::Some(s.time)
    } else {
        let adv = spec_after_flush(s);
        let via_advance = if adv.time > s.time {
            proof {
                lemma_advance_measure(s);
            }
            min_makespan(adv)
        } else {
            Option::None
        };
        opt_min(via_advance, min_makespan_jobs(s, 1))
    }
}

/// The least makespan over schedules whose first move assigns some duration
/// `d' >= d` to an eligible station.
pub open spec fn min_makespan_jobs(s: StateV, d: int) -> Option<int>
    decreases unused_count(s.package), potential(s.package), s.package.used.len() - d + 1,
{
    if d < 1 || d >= s.package.used.len() {
        Option::None
    } else {
        let rest = min_makespan_jobs(s, d + 1);
        if !s.package.used[d] {
            let via_left = if can_start(s.package, Urinal::Left) {
                proof {
                    lemma_start_measure(s, d);
                }
                min_makespan(spec_use_urinal(s, Urinal::Left, d))
            } else {
                Option::None
            };
            let via_right = if can_start(s.package, Urinal::Right) {
                proof {
                    lemma_start_measure(s, d);
                }
                min_makespan(spec_use_urinal(s, Urinal::Right, d))
            } else {
                Option::None
            };
            let via_middle = if can_start(s.package, Urinal::Middle) {
                proof {
                    lemma_start_measure(s, d);
                }
                min_makespan(spec_use_urinal(s, Urinal::Middle, d))
            } else {
                Option::None
            };
            opt_min(via_left, opt_min(via_right, opt_min(via_middle, rest)))
        } else {
            rest
        }
    }
}

/// Committing an unassigned duration lowers the unassigned count by one,
/// whichever station takes it.
pub proof fn lemma_start_measure(s: StateV, d: int)
    requires
        1 <= d < s.package.used.len(),
        !s.package.used[d],
    ensures
        forall|u: Urinal|
            #[trigger] unused_count(spec_use_urinal(s, u, d).package) == unused_count(s.package)
                - 1,
        unused_count(s.package) - 1 >= 0,
{
    let len = s.package.used.len() as int;
    lemma_unused_below_update(s.package.used, d, len);
    lemma_unused_below_nonneg(s.package.used.update(d, true), len);
    assert forall|u: Urinal|
        #[trigger] unused_count(spec_use_urinal(s, u, d).package) == unused_count(s.package)
            - 1 by {
        assert(spec_use_urinal(s, u, d).package.used == s.package.used.update(d, true));
    }
}

/// Is the optional value at least `t`?
pub open spec fn ge_time_opt(o: Option<int>, t: int) -> bool {
    match o {
        Option::None => true,
        Option::Some(v) => v >= t,
    }
}

/// Time never runs backwards: no schedule from `s` completes before the
/// time `s` has already reached.
pub proof fn lemma_min_makespan_ge_time(s: StateV)
    ensures
        ge_time_opt(min_makespan(s), s.time),
    decreases unused_count(s.package), potential(s.package), s.package.used.len() as int + 1,
{
    if !spec_is_finish(s.package) {
        let adv = spec_after_flush(s);
        if adv.time > s.time {
            lemma_advance_measure(s);
            lemma_min_makespan_ge_time(adv);
        }
        lemma_min_makespan_jobs_ge_time(s, 1);
    }
}

/// One search over all schedules for `n` jobs: the problem size and the
/// best (least) makespan found so far, used as the pruning bound.
pub struct UrinalProblem {
    pub n: u8,
    pub best_answer: u64,
}

/// The root state: time zero, all stations idle, only duration 0 pre-marked
/// as used.
pub open spec fn root_view(n: u8) -> StateV {
    StateV {
        time: 0,
        package: PackageV {
            left: Station { using: false, flush_time: 0, flush_duration: 0 },
            middle: Station { using: false, flush_time: 0, flush_duration: 0 },
            right: Station { using: false, flush_time: 0, flush_duration: 0 },
            used: Seq::new(n as nat + 1, |i: int| i == 0),
        },
    }
}

impl UrinalProblem {
    /// Run the whole search for problem size `n` (at least 1) and return the
    /// finished problem: `best_answer` is exactly the least makespan over
    /// every valid schedule, which always beats or matches the trivial
    /// initial bound `n * (n + 1)`.
    pub fn new(n: u8) -> (problem: UrinalProblem)
        requires
            1 <= n,
        ensures
            problem.n == n,
            problem.best_answer as int <= (n as int) * (n as int + 1),
            problem.best_answer as int == best_with(
                (n as int) * (n as int + 1),
                min_makespan(root_view(n)),
            ),
    {
        proof {
            assert((n as int) * (n as int + 1) <= 65280) by (nonlinear_arith)
                requires
                    n as int <= 255,
            ;
        }
        let bound: u64 = (n as u64) * (n as u64 + 1);

        let mut duration_used: Vec<bool> = Vec::new();
        duration_used.push(true);
        let mut i: usize = 1;
        while i <= n as usize
            invariant
                1 <= i <= n as usize + 1,
                duration_used@.len() == i as int,
                forall|j: int| 0 <= j < i ==> duration_used@[j] == (j == 0),
            decreases n as int + 1 - i,
        {
            duration_used.push(false);
            i = i + 1;
        }
        let start = State {
            time: 0,
            package: Package {
                left: Station { using: false, flush_time: 0, flush_duration: 0 },
                middle: Station { using: false, flush_time: 0, flush_duration: 0 },
                right: Station { using: false, flush_time: 0, flush_duration: 0 },
                duration_used,
            },
        };
        let mut problem = UrinalProblem { n, best_answer: bound };
        proof {
            assert(start@.package.used =~= root_view(n).package.used);
            assert(start@ =~= root_view(n));
        }
        problem.bf(start);
        problem
    }

    /// Explore every schedule reachable from `cur`, tightening
    /// `best_answer` whenever a completion beats it. The bound never grows,
    /// and on return it is exactly the bound it started from folded with
    /// the least makespan reachable from `cur`.
    pub fn bf(&mut self, cur: State)
        requires
            old(self).best_answer <= u64::MAX - 255,
            cur@.package.used.len() == old(self).n as int + 1,
        ensures
            final(self).n == old(self).n,
            final(self).best_answer <= old(self).best_answer,
            final(self).best_answer as int == best_with(
                old(self).best_answer as int,
                min_makespan(cur@),
            ),
        decreases unused_count(cur@.package), potential(cur@.package),
    {
        if cur.time >= self.best_answer {
            proof {
                lemma_min_makespan_ge_time(cur@);
            }
            return;
        }
        if cur.package.is_finish() {
            self.best_answer = cur.time;
            return;
        }

        let ghost b0: int = old(self).best_answer as int;

        let next = cur.after_flush();
        if next.time > cur.time {
            proof {
                lemma_advance_measure(cur@);
            }
            self.bf(next);
        }
        let ghost via_adv: Option<int> = if next@.time > cur@.time {
            min_makespan(next@)
        } else {
            Option::None
        };
        let ghost target: int = best_with(b0, min_makespan(cur@));
        proof {
            assert(min_makespan(cur@) == opt_min(via_adv, min_makespan_jobs(cur@, 1)));
            lemma_best_with_chain(b0, via_adv, min_makespan_jobs(cur@, 1));
            assert(best_with(self.best_answer as int, min_makespan_jobs(cur@, 1)) == target);
        }

        let mut d: usize = 1;
        while d < cur.package.duration_used.len()
            invariant
                1 <= d <= cur@.package.used.len(),
                cur@.package.used.len() == old(self).n as int + 1,
                self.n == old(self).n,
                self.best_answer <= old(self).best_answer,
                old(self).best_answer <= u64::MAX - 255,
                best_with(self.best_answer as int, min_makespan_jobs(cur@, d as int)) == target,
                target == best_with(old(self).best_answer as int, min_makespan(cur@)),
            decreases cur@.package.used.len() - d,
        {
            if !cur.package.duration_used[d] {
                let dur: u8 = d as u8;
                proof {
                    lemma_start_measure(cur@, d as int);
                }
                let ghost bd0: int = self.best_answer as int;

                let ghost v_left: Option<int> = if can_start(cur@.package, Urinal::Left) {
                    min_makespan(spec_use_urinal(cur@, Urinal::Left, d as int))
                } else {
                    Option::None
                };
                if !cur.package.middle.using && cur.package.left.flush_time == 0 {
                    let child = cur.use_urinal(Urinal::Left, dur);
                    self.bf(child);
                }
                let ghost b_l: int = self.best_answer as int;
                assert(b_l == best_with(bd0, v_left));

                let ghost v_right: Option<int> = if can_start(cur@.package, Urinal::Right) {
                    min_makespan(spec_use_urinal(cur@, Urinal::Right, d as int))
                } else {
                    Option::None
                };
                if !cur.package.middle.using && cur.package.right.flush_time == 0 {
                    let child = cur.use_urinal(Urinal::Right, dur);
                    self.bf(child);
                }
                let ghost b_r: int = self.best_answer as int;
                assert(b_r == best_with(b_l, v_right));

                let ghost v_middle: Option<int> = if can_start(cur@.package, Urinal::Middle) {
                    min_makespan(spec_use_urinal(cur@, Urinal::Middle, d as int))
                } else {
                    Option::None
                };
                if cur.package.left.flush_time == 0 && cur.package.right.flush_time == 0
                    && cur.package.middle.flush_time == 0 && !cur.package.middle.using {
                    let child = cur.use_urinal(Urinal::Middle, dur);
                    self.bf(child);
                }
                let ghost b_m: int = self.best_answer as int;
                assert(b_m == best_with(b_r, v_middle));

                proof {
                    let jnext = min_makespan_jobs(cur@, d as int + 1);
                    assert(min_makespan_jobs(cur@, d as int) == opt_min(
                        v_left,
                        opt_min(v_right, opt_min(v_middle, jnext)),
                    ));
                    lemma_best_with_chain(b_r, v_middle, jnext);
                    lemma_best_with_chain(b_l, v_right, opt_min(v_middle, jnext));
                    lemma_best_with_chain(bd0, v_left, opt_min(v_right, opt_min(v_middle, jnext)));
                }
            } else {
                proof {
                    assert(min_makespan_jobs(cur@, d as int) == min_makespan_jobs(
                        cur@,
                        d as int + 1,
                    ));
                }
            }
            d = d + 1;
        }
    }
}

pub proof fn lemma_min_makespan_jobs_ge_time(s: StateV, d: int)
    ensures
        ge_time_opt(min_makespan_jobs(s, d), s.time),
    decreases unused_count(s.package), potential(s.package), s.package.used.len() - d + 1,
{
    if 1 <= d && d < s.package.used.len() {
        lemma_min_makespan_jobs_ge_time(s, d + 1);
        if !s.package.used[d] {
            lemma_start_measure(s, d);
            if can_start(s.package, Urinal::Left) {
                lemma_min_makespan_ge_time(spec_use_urinal(s, Urinal::Left, d));
            }
            if can_start(s.package, Urinal::Right) {
                lemma_min_makespan_ge_time(spec_use_urinal(s, Urinal::Right, d));
            }
            if can_start(s.package, Urinal::Middle) {
                lemma_min_makespan_ge_time(spec_use_urinal(s, Urinal::Middle, d));
            }
        }
    }
}

} // verus!
