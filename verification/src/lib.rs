//! Minimum-makespan search for scheduling jobs with distinct durations onto
//! three stations, where each job occupies a station for an active phase and
//! an equal-length cooldown phase, and the middle station excludes the two
//! side stations under an asymmetric rule.

pub mod paths;
pub mod search;
pub mod state;
