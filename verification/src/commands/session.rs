//! The decisions of the session commands: whether a session may still be
//! changed, when a practice attempt has to be (re)bound, and how the problem
//! counter moves. The commands read the session row, ask the practice module
//! for attempts, and write back what these functions decide.
use vstd::prelude::*;

use crate::text::{append_str, str_eq};

verus! {

/// The status of a session that no command changes any more.
pub const COMPLETED: &'static str = "completed";

pub open spec fn session_not_found(id: Seq<char>) -> Seq<char> {
    "Session not found: "@ + id
}

pub open spec fn session_completed(id: Seq<char>) -> Seq<char> {
    "Session is completed: "@ + id
}

/// A session may be changed when it exists (its status is known) and is not
/// completed.
pub fn check_mutable(id: &str, status: Option<&str>) -> (r: Result<(), String>)
    ensures
        status is None ==> (r matches Err(m) && m@ == session_not_found(id@)),
        status matches Some(s) ==> (s@ == COMPLETED@ <==> r is Err),
        status matches Some(s) ==> (s@ == COMPLETED@ ==> (r matches Err(m) && m@ == session_completed(id@))),
{
    match status {
        None => {
            let mut m = String::new();
            append_str(&mut m, "Session not found: ");
            append_str(&mut m, id);
            proof {
                reveal_strlit("Session not found: ");
            }
            Err(m)
        },
        Some(s) => {
            if str_eq(s, COMPLETED) {
                let mut m = String::new();
                append_str(&mut m, "Session is completed: ");
                append_str(&mut m, id);
                proof {
                    reveal_strlit("Session is completed: ");
                }
                Err(m)
            } else {
                Ok(())
            }
        },
    }
}

/// Reopening an open session binds a new attempt when none is bound or the
/// bound one is solved.
pub fn needs_new_attempt(current_attempt: &Option<String>, bound_is_solved: bool) -> (r: bool)
    ensures
        r == (current_attempt is None || bound_is_solved),
        r == needs_attempt_spec(opt_text(*current_attempt), bound_is_solved),
{
    current_attempt.is_none() || bound_is_solved
}

/// Law: starting a session again for the same concept keeps the session's
/// open attempt and its counter; once that attempt is solved, the attempt
/// started in its place is bound and the counter moves from 1 to 2.
pub proof fn lemma_restart_keeps_open_attempt(first: Seq<char>, next: Seq<char>, started: Option<Seq<char>>)
    ensures
        reopen_spec(Some(first), new_session_spec(Some(first)), needs_attempt_spec(Some(first), false), started)
            == (Some(first), Some(1int)),
        reopen_spec(Some(first), new_session_spec(Some(first)), needs_attempt_spec(Some(first), true), Some(next))
            == (Some(next), Some(2int)),
{
}

/// The attempt a session is bound to and its problem counter.
#[derive(Debug, Clone, PartialEq)]
pub struct AttemptBinding {
    pub attempt_id: Option<String>,
    pub problem_index: Option<i64>,
}

/// The counter, reading a missing one as `base`.
pub open spec fn index_or(problem_index: Option<i64>, base: int) -> int {
    match problem_index {
        Some(i) => i as int,
        None => base,
    }
}

/// The counter can be advanced by one.
pub open spec fn can_advance(problem_index: Option<i64>) -> bool {
    problem_index matches Some(i) ==> i < i64::MAX
}

/// Whether the counter can be advanced by one.
pub fn counter_can_advance(problem_index: Option<i64>) -> (r: bool)
    ensures
        r == can_advance(problem_index),
{
    match problem_index {
        Some(i) => i < i64::MAX,
        None => true,
    }
}

/// An optional text by its view.
pub open spec fn opt_text(s: Option<String>) -> Option<Seq<char>> {
    match s {
        Some(t) => Some(t@),
        None => None,
    }
}

/// An optional counter as an integer.
pub open spec fn opt_count(i: Option<i64>) -> Option<int> {
    match i {
        Some(v) => Some(v as int),
        None => None,
    }
}

/// Whether reopening binds a new attempt.
pub open spec fn needs_attempt_spec(current: Option<Seq<char>>, solved: bool) -> bool {
    current is None || solved
}

/// The binding after reopening: (attempt, counter).
pub open spec fn reopen_spec(
    current: Option<Seq<char>>,
    index: Option<int>,
    needs_attempt: bool,
    started: Option<Seq<char>>,
) -> (Option<Seq<char>>, Option<int>) {
    if !needs_attempt {
        (current, index)
    } else if started is Some {
        (started, Some(match index { Some(i) => i, None => 0 } + 1))
    } else {
        (started, index)
    }
}

/// The counter of a new session.
pub open spec fn new_session_spec(attempt: Option<Seq<char>>) -> Option<int> {
    if attempt is Some { Some(1) } else { None }
}

/// What reopening an open session binds: with `needs_attempt`, the attempt
/// that was just started (none when starting failed), the counter advancing
/// by one (from 0 when missing) only when one was started; otherwise the
/// session keeps its attempt and counter.
pub fn reopened_binding(
    current_attempt: Option<String>,
    problem_index: Option<i64>,
    needs_attempt: bool,
    started: Option<String>,
) -> (r: AttemptBinding)
    requires
        needs_attempt && started is Some ==> can_advance(problem_index),
    ensures
        !needs_attempt ==> r.attempt_id == current_attempt && r.problem_index == problem_index,
        needs_attempt ==> r.attempt_id == started,
        needs_attempt && started is Some ==> r.problem_index == Some((index_or(problem_index, 0) + 1) as i64),
        needs_attempt && started is None ==> r.problem_index == problem_index,
        (r.problem_index != problem_index) <==> (needs_attempt && started is Some),
        (opt_text(r.attempt_id), opt_count(r.problem_index)) == reopen_spec(
            opt_text(current_attempt),
            opt_count(problem_index),
            needs_attempt,
            opt_text(started),
        ),
{
    if !needs_attempt {
        return AttemptBinding { attempt_id: current_attempt, problem_index };
    }
    match started {
        Some(a) => {
            let base: i64 = match problem_index {
                Some(i) => i,
                None => 0,
            };
            AttemptBinding { attempt_id: Some(a), problem_index: Some(base + 1) }
        },
        None => AttemptBinding { attempt_id: None, problem_index },
    }
}

/// A new session counts its bound attempt as problem 1, and has no counter
/// when nothing was bound.
pub fn new_session_index(attempt: &Option<String>) -> (r: Option<i64>)
    ensures
        attempt is Some ==> r == Some(1i64),
        attempt is None ==> r is None,
        opt_count(r) == new_session_spec(opt_text(*attempt)),
{
    match attempt {
        Some(_) => Some(1),
        None => None,
    }
}

/// Moving on to the next problem: a started attempt replaces the bound one and
/// advances the counter by one (from 1 when missing); when none could be
/// started the session keeps its attempt and counter.
pub fn next_problem_binding(current_attempt: Option<String>, problem_index: Option<i64>, started: Option<String>) -> (r:
    AttemptBinding)
    requires
        started is Some ==> can_advance(problem_index),
    ensures
        started is Some ==> r.attempt_id == started && r.problem_index == Some((index_or(problem_index, 1) + 1) as i64),
        started is None ==> r.attempt_id == current_attempt && r.problem_index == problem_index,
        (r.problem_index != problem_index) <==> started is Some,
{
    match started {
        Some(a) => {
            let base: i64 = match problem_index {
                Some(i) => i,
                None => 1,
            };
            AttemptBinding { attempt_id: Some(a), problem_index: Some(base + 1) }
        },
        None => AttemptBinding { attempt_id: current_attempt, problem_index },
    }
}

pub open spec fn ready_summary(concept_name: Seq<char>) -> Seq<char> {
    "Ready to continue with "@ + concept_name + "."@
}

/// The resume summary of a new session on `concept_name`.
pub fn resume_summary(concept_name: &str) -> (r: String)
    ensures
        r@ == ready_summary(concept_name@),
{
    let mut m = String::new();
    append_str(&mut m, "Ready to continue with ");
    append_str(&mut m, concept_name);
    append_str(&mut m, ".");
    proof {
        reveal_strlit("Ready to continue with ");
        reveal_strlit(".");
    }
    m
}

} // verus!
