//! The per-account decision logic for the farming service.
//!
//! The HTTP transport, the authentication handshake and the JSON payloads
//! live with the shell: to the library they are an external collaborator
//! that is handed a request path and returns a payload or a transport
//! failure. Verified here is what the service operations decide: the strict
//! verify-then-claim order for completing tasks, and the request path each
//! task action uses.

use vstd::prelude::*;

verus! {

/// One step of completing an account's tasks.
#[derive(Clone, Debug)]
pub enum TaskStep {
    /// Ask the service to verify the task with this identifier.
    Check(String),
    /// Claim the reward for the task with this identifier.
    Claim(String),
}

/// Steps `2*i` and `2*i + 1` of `steps` verify and then claim the `i`-th
/// task of `ids`, in that order.
pub open spec fn step_pair_ok(steps: Seq<TaskStep>, ids: Seq<String>, i: int) -> bool {
    (match steps[2 * i] {
        TaskStep::Check(c) => c@ == ids[i]@,
        _ => false,
    }) && (match steps[2 * i + 1] {
        TaskStep::Claim(d) => d@ == ids[i]@,
        _ => false,
    })
}

/// Plans the completion of an account's task list: for each task, in the
/// listed order, first a verify step and then a claim step, strictly in
/// that sequence.
pub fn plan_task_actions(ids: &Vec<String>) -> (r: Vec<TaskStep>)
    ensures
        r@.len() == 2 * ids@.len(),
        forall|i: int| 0 <= i < ids@.len() ==> #[trigger] step_pair_ok(r@, ids@, i),
{
    let n = ids.len();
    let mut r: Vec<TaskStep> = Vec::new();
    let mut k: usize = 0;
    while k < n
        invariant
            k <= n,
            n == ids@.len(),
            r@.len() == 2 * k,
            forall|i: int| 0 <= i < k ==> #[trigger] step_pair_ok(r@, ids@, i),
        decreases n - k,
    {
        let check = TaskStep::Check(ids[k].clone());
        let claim = TaskStep::Claim(ids[k].clone());
        let ghost gcheck = check;
        let ghost gclaim = claim;
        let ghost r0 = r@;
        r.push(check);
        r.push(claim);
        proof {
            assert(r@ == r0.push(gcheck).push(gclaim));
            assert forall|i: int| 0 <= i < k + 1 implies #[trigger] step_pair_ok(r@, ids@, i) by {
                if i < k {
                    assert(step_pair_ok(r0, ids@, i));
                    assert(r@[2 * i] == r0[2 * i]);
                    assert(r@[2 * i + 1] == r0[2 * i + 1]);
                } else {
                    assert(r@[2 * i] == gcheck);
                    assert(r@[2 * i + 1] == gclaim);
                }
            }
        }
        k = k + 1;
    }
    r
}

/// The request path that asks the service to verify one task.
pub fn task_verify_url(id: &str) -> (r: String)
    ensures
        r@ == "https://api-miniapp.cephei.fi/tasks/"@ + id@ + "/verify"@,
{
    let mut s = String::from_str("https://api-miniapp.cephei.fi/tasks/");
    s.append(id);
    s.append("/verify");
    s
}

/// The request path that claims one task's reward.
pub fn task_claim_url(id: &str) -> (r: String)
    ensures
        r@ == "https://api-miniapp.cephei.fi/tasks/"@ + id@ + "/claim"@,
{
    let mut s = String::from_str("https://api-miniapp.cephei.fi/tasks/");
    s.append(id);
    s.append("/claim");
    s
}

} // verus!
