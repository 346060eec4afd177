use urinal_schedule::state::{Package, State, Station, Urinal};

#[test]
fn is_finish_all_idle_all_used() {
    let package = Package {
        left: Station { using: false, flush_time: 0, flush_duration: 0 },
        middle: Station { using: false, flush_time: 0, flush_duration: 0 },
        right: Station { using: false, flush_time: 0, flush_duration: 0 },
        duration_used: vec![true, true, true],
    };
    assert!(package.is_finish());
}

#[test]
fn is_finish_ignores_pending_cooldown() {
    // A station still cooling down does not delay completion: the schedule
    // is finished the instant the last active phase ends.
    let package = Package {
        left: Station { using: false, flush_time: 4, flush_duration: 4 },
        middle: Station { using: false, flush_time: 0, flush_duration: 0 },
        right: Station { using: false, flush_time: 0, flush_duration: 0 },
        duration_used: vec![true, true, true, true, true],
    };
    assert!(package.is_finish());
}

#[test]
fn is_finish_false_while_active() {
    let package = Package {
        left: Station { using: true, flush_time: 2, flush_duration: 2 },
        middle: Station { using: false, flush_time: 0, flush_duration: 0 },
        right: Station { using: false, flush_time: 0, flush_duration: 0 },
        duration_used: vec![true, true, true],
    };
    assert!(!package.is_finish());
}

#[test]
fn is_finish_false_with_unused_duration() {
    let package = Package {
        left: Station { using: false, flush_time: 0, flush_duration: 0 },
        middle: Station { using: false, flush_time: 0, flush_duration: 0 },
        right: Station { using: false, flush_time: 0, flush_duration: 0 },
        duration_used: vec![true, false, true],
    };
    assert!(!package.is_finish());
}

#[test]
fn after_flush_advances_to_next_change() {
    let state = State {
        time: 10,
        package: Package {
            left: Station { using: true, flush_time: 2, flush_duration: 2 },
            middle: Station { using: false, flush_time: 0, flush_duration: 0 },
            right: Station { using: true, flush_time: 5, flush_duration: 5 },
            duration_used: vec![true, false, true, false, false, true],
        },
    };
    let next = state.after_flush();
    assert_eq!(next.time, 12);
    // The left station's active phase ended: it flips into its cooldown
    // phase, with the countdown reset to the job's duration.
    assert!(!next.package.left.using);
    assert_eq!(next.package.left.flush_time, 2);
    assert_eq!(next.package.left.flush_duration, 2);
    // The right station is still mid-active-phase.
    assert!(next.package.right.using);
    assert_eq!(next.package.right.flush_time, 3);
    // The committed durations are untouched.
    assert_eq!(next.package.duration_used, vec![true, false, true, false, false, true]);
}

#[test]
fn after_flush_retires_cooldown_without_reset() {
    let state = State {
        time: 7,
        package: Package {
            left: Station { using: false, flush_time: 3, flush_duration: 3 },
            middle: Station { using: false, flush_time: 0, flush_duration: 0 },
            right: Station { using: false, flush_time: 0, flush_duration: 0 },
            duration_used: vec![true, true, true, true],
        },
    };
    let next = state.after_flush();
    assert_eq!(next.time, 10);
    // A cooldown that runs out leaves the station fully idle.
    assert!(!next.package.left.using);
    assert_eq!(next.package.left.flush_time, 0);
}

#[test]
fn after_flush_on_quiescent_state_changes_nothing() {
    let state = State {
        time: 42,
        package: Package {
            left: Station { using: false, flush_time: 0, flush_duration: 2 },
            middle: Station { using: false, flush_time: 0, flush_duration: 1 },
            right: Station { using: false, flush_time: 0, flush_duration: 3 },
            duration_used: vec![true, false, false, true],
        },
    };
    let next = state.after_flush();
    assert_eq!(next.time, 42);
    assert!(!next.package.left.using);
    assert_eq!(next.package.left.flush_time, 0);
    assert_eq!(next.package.middle.flush_time, 0);
    assert_eq!(next.package.right.flush_time, 0);
    assert_eq!(next.package.duration_used, vec![true, false, false, true]);
}

#[test]
fn use_urinal_commits_duration() {
    let state = State {
        time: 5,
        package: Package {
            left: Station { using: false, flush_time: 0, flush_duration: 0 },
            middle: Station { using: false, flush_time: 0, flush_duration: 0 },
            right: Station { using: false, flush_time: 0, flush_duration: 0 },
            duration_used: vec![true, false, false, false],
        },
    };
    let next = state.use_urinal(Urinal::Left, 3);
    // Starting a job is instantaneous.
    assert_eq!(next.time, 5);
    assert!(next.package.left.using);
    assert_eq!(next.package.left.flush_time, 3);
    assert_eq!(next.package.left.flush_duration, 3);
    assert_eq!(next.package.duration_used, vec![true, false, false, true]);
    // The other stations are untouched.
    assert!(!next.package.middle.using);
    assert!(!next.package.right.using);
}

#[test]
fn middle_active_only_while_sides_fully_idle() {
    let root = State {
        time: 0,
        package: Package {
            left: Station { using: false, flush_time: 0, flush_duration: 0 },
            middle: Station { using: false, flush_time: 0, flush_duration: 0 },
            right: Station { using: false, flush_time: 0, flush_duration: 0 },
            duration_used: vec![true, false, false, false],
        },
    };
    // Both sides are fully idle, so the middle may take a job; while it is
    // active, neither side has any countdown running.
    let mid_running = root.use_urinal(Urinal::Middle, 1);
    assert!(mid_running.package.middle.using);
    assert_eq!(mid_running.package.left.flush_time, 0);
    assert_eq!(mid_running.package.right.flush_time, 0);
    // Its active phase ends: the middle flips into cooldown...
    let mid_cooling = mid_running.after_flush();
    assert!(!mid_cooling.package.middle.using);
    assert_eq!(mid_cooling.package.middle.flush_time, 1);
    // ...and a side may start even while the middle is still cooling down:
    // only the middle's active phase blocks the sides.
    let side_running = mid_cooling.use_urinal(Urinal::Left, 2);
    assert!(side_running.package.left.using);
    assert!(!side_running.package.middle.using);
    assert_eq!(side_running.package.middle.flush_time, 1);
}

#[test]
fn use_urinal_marks_each_duration_once() {
    let root = State {
        time: 0,
        package: Package {
            left: Station { using: false, flush_time: 0, flush_duration: 0 },
            middle: Station { using: false, flush_time: 0, flush_duration: 0 },
            right: Station { using: false, flush_time: 0, flush_duration: 0 },
            duration_used: vec![true, false, false],
        },
    };
    let one = root.use_urinal(Urinal::Left, 1);
    let two = one.use_urinal(Urinal::Right, 2);
    assert_eq!(two.package.duration_used, vec![true, true, true]);
    assert!(two.package.left.using);
    assert!(two.package.right.using);
    assert!(!two.package.middle.using);
}
