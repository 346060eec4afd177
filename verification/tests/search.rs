use urinal_schedule::search::UrinalProblem;
use urinal_schedule::state::{Package, State, Station};

#[test]
fn bound_never_increases() {
    // The pruning bound is monotone: exploring can only tighten it, and a
    // bound already below every reachable makespan is left untouched.
    let root = |n: u8| State {
        time: 0,
        package: Package {
            left: Station { using: false, flush_time: 0, flush_duration: 0 },
            middle: Station { using: false, flush_time: 0, flush_duration: 0 },
            right: Station { using: false, flush_time: 0, flush_duration: 0 },
            duration_used: {
                let mut used = vec![false; n as usize + 1];
                used[0] = true;
                used
            },
        },
    };
    let mut generous = UrinalProblem { n: 2, best_answer: 100 };
    generous.bf(root(2));
    assert_eq!(generous.best_answer, 2);

    let mut tight = UrinalProblem { n: 2, best_answer: 1 };
    tight.bf(root(2));
    assert_eq!(tight.best_answer, 1);
}

#[test]
fn known_small_values() {
    // Regression oracle: the least makespans for the first problem sizes,
    // derived by running the search exhaustively.
    assert_eq!(UrinalProblem::new(1).best_answer, 1);
    assert_eq!(UrinalProblem::new(2).best_answer, 2);
    assert_eq!(UrinalProblem::new(3).best_answer, 4);
    assert_eq!(UrinalProblem::new(4).best_answer, 7);
    assert_eq!(UrinalProblem::new(5).best_answer, 11);
}

#[test]
fn middle_rule_shapes_the_optimum() {
    // With five jobs the strict middle rule (both sides must be fully idle,
    // cooldowns included) forces a makespan of 11; a laxer rule that only
    // looked at the sides' active phases would reach 10.
    assert_eq!(UrinalProblem::new(5).best_answer, 11);
    assert_ne!(UrinalProblem::new(5).best_answer, 10);
}

#[test]
fn initial_bound_always_beaten_or_matched() {
    for n in 1..=6u8 {
        let problem = UrinalProblem::new(n);
        assert_eq!(problem.n, n);
        assert!(problem.best_answer <= (n as u64) * (n as u64 + 1));
    }
}

#[test]
fn best_makespan_monotone_in_problem_size() {
    // Adding a job can never make the schedule finish sooner.
    let mut previous: u64 = 0;
    for n in 1..=6u8 {
        let best = UrinalProblem::new(n).best_answer;
        assert!(best >= previous);
        previous = best;
    }
}

#[test]
fn single_job_runs_once() {
    // One job of duration 1: its active phase ends at time 1, and the
    // schedule is complete then, the pending cooldown notwithstanding.
    let problem = UrinalProblem::new(1);
    assert_eq!(problem.n, 1);
    assert_eq!(problem.best_answer, 1);
}
