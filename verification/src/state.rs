//! The state of the scheduling problem: three stations, each either idle,
//! in the active phase of a job, or in the cooldown phase that follows it,
//! plus the set of job durations already committed. States are immutable;
//! the two transitions (`after_flush`, `use_urinal`) build fresh states.

use vstd::prelude::*;

verus! {

/// The three fixed station identities.
#[derive(Clone, Copy)]
pub enum Urinal {
    Left,
    Middle,
    Right,
}

/// Instantaneous occupancy of one station.
///
/// While a job's active phase runs here, `using` is true and `flush_time`
/// counts down from the job's duration. The instant it reaches zero the
/// station flips to its cooldown phase: `using` becomes false and
/// `flush_time` is reset to `flush_duration`. Only when that second
/// countdown reaches zero is the station fully idle (`flush_time == 0`).
#[derive(Clone, Copy)]
pub struct Station {
    /// True while a job's active phase runs here.
    pub using: bool,
    /// Time remaining in the current phase (active or cooldown); zero means
    /// the station is fully idle and assignable.
    pub flush_time: u8,
    /// The duration of the job that set the current cycle; both of its
    /// phases last this long.
    pub flush_duration: u8,
}

/// Occupancy of all three stations plus which durations are consumed.
pub struct Package {
    pub left: Station,
    pub middle: Station,
    pub right: Station,
    /// `duration_used[d]` is true once duration `d` has been committed to
    /// some station; index 0 is pre-marked, since 0 is not a real job.
    pub duration_used: Vec<bool>,
}

/// A search node: the elapsed time plus the occupancy package.
pub struct State {
    pub time: u64,
    pub package: Package,
}

/// Mathematical model of a `Package`.
#[verifier::ext_equal]
pub struct PackageV {
    pub left: Station,
    pub middle: Station,
    pub right: Station,
    pub used: Seq<bool>,
}

/// Mathematical model of a `State`; time is an unbounded integer.
#[verifier::ext_equal]
pub struct StateV {
    pub time: int,
    pub package: PackageV,
}

impl View for Package {
    type V = PackageV;

    open spec fn view(&self) -> PackageV {
        PackageV {
            left: self.left,
            middle: self.middle,
            right: self.right,
            used: self.duration_used@,
        }
    }
}

impl View for State {
    type V = StateV;

    open spec fn view(&self) -> StateV {
        StateV { time: self.time as int, package: self.package@ }
    }
}

/// The package with one station replaced.
pub open spec fn set_station(p: PackageV, urinal: Urinal, st: Station) -> PackageV {
    match urinal {
        Urinal::Left => PackageV { left: st, ..p },
        Urinal::Middle => PackageV { middle: st, ..p },
        Urinal::Right => PackageV { right: st, ..p },
    }
}

/// Minimum of two countdowns where zero means "no phase underway".
pub open spec fn min_active(a: int, b: int) -> int {
    if a == 0 {
        b
    } else if b == 0 {
        a
    } else if a <= b {
        a
    } else {
        b
    }
}

/// The time until something next changes: the least positive countdown,
/// or zero when no station has a phase underway.
pub open spec fn next_flush(p: PackageV) -> int {
    min_active(
        p.left.flush_time as int,
        min_active(p.middle.flush_time as int, p.right.flush_time as int),
    )
}

/// One station after `delta` time units pass. A station whose countdown
/// reaches zero while active flips to its cooldown phase; one that reaches
/// zero while cooling down simply stays idle.
pub open spec fn step_station(st: Station, delta: int) -> Station {
    if st.flush_time > 0 {
        if st.flush_time - delta == 0 && st.using {
            Station { using: false, flush_time: st.flush_duration, flush_duration: st.flush_duration }
        } else {
            Station {
                using: st.using,
                flush_time: (st.flush_time - delta) as u8,
                flush_duration: st.flush_duration,
            }
        }
    } else {
        st
    }
}

/// The state after fast-forwarding the clock to the next instant at which
/// something changes.
pub open spec fn spec_after_flush(s: StateV) -> StateV {
    let delta = next_flush(s.package);
    StateV {
        time: s.time + delta,
        package: PackageV {
            left: step_station(s.package.left, delta),
            middle: step_station(s.package.middle, delta),
            right: step_station(s.package.right, delta),
            used: s.package.used,
        },
    }
}

/// A station freshly committed to a job of duration `d`.
pub open spec fn started_station(d: int) -> Station {
    Station { using: true, flush_time: d as u8, flush_duration: d as u8 }
}

/// The state after committing duration `d` to the given station. Starting a
/// job is instantaneous: the elapsed time does not change.
pub open spec fn spec_use_urinal(s: StateV, urinal: Urinal, d: int) -> StateV {
    let p = set_station(s.package, urinal, started_station(d));
    StateV { time: s.time, package: PackageV { used: s.package.used.update(d, true), ..p } }
}

/// Eligibility of a station for a new job. A side station may start when it
/// is fully idle and the middle station is not in its active phase (the
/// middle merely cooling down does not block a side). The middle station's
/// rule is stricter: both sides must be fully idle, neither active nor
/// cooling down, and the middle itself must be free.
pub open spec fn can_start(p: PackageV, urinal: Urinal) -> bool {
    match urinal {
        Urinal::Left => !p.middle.using && p.left.flush_time == 0,
        Urinal::Right => !p.middle.using && p.right.flush_time == 0,
        Urinal::Middle => p.left.flush_time == 0 && p.right.flush_time == 0
            && p.middle.flush_time == 0 && !p.middle.using,
    }
}

/// A schedule is finished the instant no station is in its active phase and
/// every duration is committed. Deliberately, countdowns still running in a
/// cooldown phase do not delay completion: the makespan is the time at which
/// the last job stops blocking new starts, not the end of its cooldown.
pub open spec fn spec_is_finish(p: PackageV) -> bool {
    &&& !p.left.using
    &&& !p.middle.using
    &&& !p.right.using
    &&& forall|i: int| 0 <= i < p.used.len() ==> p.used[i]
}

/// A fresh copy of the committed-duration flags.
fn copy_flags(v: &Vec<bool>) -> (r: Vec<bool>)
    ensures
        r@ == v@,
{
    let mut r: Vec<bool> = Vec::new();
    let mut i: usize = 0;
    while i < v.len()
        invariant
            i <= v.len(),
            r@ == v@.subrange(0, i as int),
        decreases v.len() - i,
    {
        r.push(v[i]);
        proof {
            assert(r@ =~= v@.subrange(0, i as int + 1));
        }
        i = i + 1;
    }
    proof {
        assert(r@ =~= v@);
    }
    r
}

/// Executable counterpart of `min_active`.
fn min_active_time(a: u8, b: u8) -> (r: u8)
    ensures
        r as int == min_active(a as int, b as int),
{
    if a == 0 {
        b
    } else if b == 0 {
        a
    } else if a <= b {
        a
    } else {
        b
    }
}

/// Executable counterpart of `step_station`.
fn flush_station(st: Station, delta: u8) -> (r: Station)
    requires
        st.flush_time > 0 ==> delta <= st.flush_time,
    ensures
        r == step_station(st, delta as int),
{
    if st.flush_time > 0 {
        let t = st.flush_time - delta;
        if t == 0 && st.using {
            Station { using: false, flush_time: st.flush_duration, flush_duration: st.flush_duration }
        } else {
            Station { using: st.using, flush_time: t, flush_duration: st.flush_duration }
        }
    } else {
        st
    }
}

impl Package {
    /// True exactly when no station is in its active phase and every
    /// duration (index 0 included, which is pre-marked) is committed.
    pub fn is_finish(&self) -> (r: bool)
        ensures
            r == spec_is_finish(self@),
    {
        if self.left.using || self.middle.using || self.right.using {
            return false;
        }
        let mut i: usize = 0;
        while i < self.duration_used.len()
            invariant
                i <= self.duration_used.len(),
                forall|j: int| 0 <= j < i ==> self.duration_used@[j],
            decreases self.duration_used.len() - i,
        {
            if !self.duration_used[i] {
                proof {
                    assert(!self@.used[i as int]);
                }
                return false;
            }
            i = i + 1;
        }
        true
    }
}

impl State {
    /// Fast-forward the clock by the least positive countdown. Stations
    /// whose active phase ends flip into their cooldown phase; stations
    /// whose cooldown ends stay idle. When no phase is underway anywhere,
    /// nothing changes, the elapsed time included.
    pub fn after_flush(&self) -> (r: State)
        requires
            self.time <= u64::MAX - 255,
        ensures
            r@ == spec_after_flush(self@),
    {
        let delta = min_active_time(
            self.package.left.flush_time,
            min_active_time(self.package.middle.flush_time, self.package.right.flush_time),
        );
        let package = Package {
            left: flush_station(self.package.left, delta),
            middle: flush_station(self.package.middle, delta),
            right: flush_station(self.package.right, delta),
            duration_used: copy_flags(&self.package.duration_used),
        };
        let r = State { time: self.time + delta as u64, package };
        proof {
            assert(r@ =~= spec_after_flush(self@));
        }
        r
    }

    /// Commit an unused duration to an eligible, idle station. The caller
    /// is responsible for the preconditions; they are not re-checked here.
    pub fn use_urinal(&self, urinal: Urinal, duration: u8) -> (r: State)
        requires
            1 <= duration,
            (duration as int) < self@.package.used.len(),
            !self@.package.used[duration as int],
            can_start(self@.package, urinal),
        ensures
            r@ == spec_use_urinal(self@, urinal, duration as int),
    {
        let station = Station { using: true, flush_time: duration, flush_duration: duration };
        let mut duration_used = copy_flags(&self.package.duration_used);
        duration_used.set(duration as usize, true);
        let package = match urinal {
            Urinal::Left => Package {
                left: station,
                middle: self.package.middle,
                right: self.package.right,
                duration_used,
            },
            Urinal::Middle => Package {
                left: self.package.left,
                middle: station,
                right: self.package.right,
                duration_used,
            },
            Urinal::Right => Package {
                left: self.package.left,
                middle: self.package.middle,
                right: station,
                duration_used,
            },
        };
        let r = State { time: self.time, package };
        proof {
            assert(r@ =~= spec_use_urinal(self@, urinal, duration as int));
        }
        r
    }
}

/// Advancing time on a quiescent state — one where no countdown is running
/// anywhere — changes nothing at all; in particular the elapsed time stays
/// the same, which is what lets the search cut that branch off.
pub proof fn lemma_after_flush_quiescent(s: StateV)
    requires
        s.package.left.flush_time == 0,
        s.package.middle.flush_time == 0,
        s.package.right.flush_time == 0,
    ensures
        spec_after_flush(s) == s,
{
    assert(spec_after_flush(s) =~= s);
}

} // verus!
