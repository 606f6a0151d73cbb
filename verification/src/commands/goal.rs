//! Editing a goal's text: an update keeps the text it replaces, and a revert
//! swaps the two back.
use vstd::prelude::*;

use crate::text::{append_str, trim, trim_string};

verus! {

/// A goal's text and the text it had before its last edit.
#[derive(Debug, Clone, PartialEq)]
pub struct GoalText {
    pub text: String,
    pub previous_text: Option<String>,
}

pub type GoalTextView = (Seq<char>, Option<Seq<char>>);

impl View for GoalText {
    type V = GoalTextView;

    open spec fn view(&self) -> GoalTextView {
        (
            self.text@,
            match self.previous_text {
                Some(p) => Some(p@),
                None => None,
            },
        )
    }
}

/// An update: the new text, trimmed; the old text becomes the previous one.
pub open spec fn update_spec(g: GoalTextView, new_text: Seq<char>) -> GoalTextView {
    (trim(new_text), Some(g.0))
}

/// A revert: the previous text comes back and the current one becomes the
/// previous one; there is nothing to revert without a previous text.
pub open spec fn revert_spec(g: GoalTextView) -> Option<GoalTextView> {
    match g.1 {
        Some(p) => Some((p, Some(g.0))),
        None => None,
    }
}

pub open spec fn goal_not_found(id: Seq<char>) -> Seq<char> {
    "Goal not found: "@ + id
}

pub open spec fn goal_without_previous(id: Seq<char>) -> Seq<char> {
    "Goal has no previous text: "@ + id
}

fn goal_message(prefix: &str, id: &str) -> (r: String)
    ensures
        r@ == prefix@ + id@,
{
    let mut m = String::new();
    append_str(&mut m, prefix);
    append_str(&mut m, id);
    m
}

/// Updates goal `id` (`None` when there is no such goal) to `new_text`.
pub fn updated_goal_text(id: &str, current: Option<GoalText>, new_text: &str) -> (r: Result<GoalText, String>)
    ensures
        current is None ==> (r matches Err(m) && m@ == goal_not_found(id@)),
        current matches Some(g) ==> (r matches Ok(u) && u@ == update_spec(g@, new_text@)),
{
    proof {
        reveal_strlit("Goal not found: ");
    }
    match current {
        None => Err(goal_message("Goal not found: ", id)),
        Some(g) => Ok(GoalText { text: trim_string(new_text), previous_text: Some(g.text) }),
    }
}

/// Reverts goal `id` (`None` when there is no such goal) to its previous text.
pub fn reverted_goal_text(id: &str, current: Option<GoalText>) -> (r: Result<GoalText, String>)
    ensures
        current is None ==> (r matches Err(m) && m@ == goal_not_found(id@)),
        current matches Some(g) ==> match revert_spec(g@) {
            Some(v) => r matches Ok(u) && u@ == v,
            None => r matches Err(m) && m@ == goal_without_previous(id@),
        },
{
    proof {
        reveal_strlit("Goal not found: ");
        reveal_strlit("Goal has no previous text: ");
    }
    match current {
        None => Err(goal_message("Goal not found: ", id)),
        Some(g) => match g.previous_text {
            None => Err(goal_message("Goal has no previous text: ", id)),
            Some(p) => Ok(GoalText { text: p, previous_text: Some(g.text) }),
        },
    }
}

/// Reverting an update brings back the text the goal had before it, and keeps
/// the (trimmed) updated text as the one to revert to again.
pub proof fn lemma_revert_undoes_update(g: GoalTextView, new_text: Seq<char>)
    ensures
        revert_spec(update_spec(g, new_text)) == Some((g.0, Some(trim(new_text)))),
{
}

/// Reverting twice returns a goal that has a previous text to where it was.
pub proof fn lemma_revert_twice_is_identity(g: GoalTextView)
    requires
        g.1 is Some,
    ensures
        revert_spec(g) matches Some(h) && revert_spec(h) == Some(g),
{
}

} // verus!
