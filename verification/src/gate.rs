//! What decides on a held action, and the two forms of it that never ask.

use serde_json::Value;
use vstd::prelude::*;

verus! {

/// Decides whether a policy-guarded action may proceed. Called only for actions that need
/// approval; actions that the policy allows or denies outright never reach a gate.
pub trait ApprovalGate: Send {
    /// Whether the action may proceed.
    fn request(&self, action_id: &str, params: &Value) -> bool;
}

/// The safe default: denies everything that needs approval. With no interactive operator, a
/// guarded action is held rather than waved through.
pub struct DenyApproval;

impl ApprovalGate for DenyApproval {
    fn request(&self, _action_id: &str, _params: &Value) -> (approved: bool)
        ensures
            !approved,
    {
        false
    }
}

/// Approves everything that needs approval. For tests and explicitly trusted deployments only:
/// anywhere else it defeats approval.
pub struct AutoApprove;

impl ApprovalGate for AutoApprove {
    fn request(&self, _action_id: &str, _params: &Value) -> (approved: bool)
        ensures
            approved,
    {
        true
    }
}

/// The two forms that never ask give every request the same answer: one denies whatever is asked,
/// and the other approves it.
pub proof fn law_fixed_answers(
    deny: &DenyApproval,
    auto: &AutoApprove,
    action_id: &str,
    params: &Value,
    denied: bool,
    approved: bool,
)
    requires
        call_ensures(<DenyApproval as ApprovalGate>::request, (deny, action_id, params), denied),
        call_ensures(<AutoApprove as ApprovalGate>::request, (auto, action_id, params), approved),
    ensures
        !denied,
        approved,
{
}

} // verus!
