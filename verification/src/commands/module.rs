//! What a module looks like from a workspace: its per-workspace state when
//! the workspace has one, and which visibilities switch it on.
use vstd::prelude::*;

use crate::text::str_eq;

use super::models::Module;

verus! {

/// The visibility that switches a module off in a workspace.
pub const HIDDEN: &'static str = "off";

/// A module seen from a workspace: the workspace's own enablement and
/// visibility when it has a row for the module; otherwise the module is not
/// enabled there and keeps its catalogue visibility.
pub fn in_workspace(module: Module, workspace_state: Option<(bool, String)>) -> (r: Module)
    ensures
        match workspace_state {
            Some((enabled, visibility)) => r == Module { enabled, visibility, ..module },
            None => r == Module { enabled: false, ..module },
        },
{
    let mut module = module;
    match workspace_state {
        Some((enabled, visibility)) => {
            module.enabled = enabled;
            module.visibility = visibility;
        },
        None => {
            module.enabled = false;
        },
    }
    module
}

/// Setting a module's visibility enables it unless the visibility is `off`.
pub fn visibility_enables(visibility: &str) -> (r: bool)
    ensures
        r == (visibility@ != HIDDEN@),
{
    !str_eq(visibility, HIDDEN)
}

} // verus!
