use cephei::cephei::{plan_task_actions, task_claim_url, task_verify_url, TaskStep};

#[test]
fn tasks_are_verified_then_claimed_in_order() {
    let ids = vec![String::from("11"), String::from("22")];
    let steps = plan_task_actions(&ids);
    assert_eq!(steps.len(), 4);
    assert!(matches!(steps[0], TaskStep::Check(ref id) if id == "11"));
    assert!(matches!(steps[1], TaskStep::Claim(ref id) if id == "11"));
    assert!(matches!(steps[2], TaskStep::Check(ref id) if id == "22"));
    assert!(matches!(steps[3], TaskStep::Claim(ref id) if id == "22"));
}

#[test]
fn no_tasks_plan_no_steps() {
    let ids: Vec<String> = Vec::new();
    assert_eq!(plan_task_actions(&ids).len(), 0);
}

#[test]
fn task_urls_embed_the_task_identifier() {
    assert_eq!(
        task_verify_url("abc"),
        "https://api-miniapp.cephei.fi/tasks/abc/verify"
    );
    assert_eq!(
        task_claim_url("abc"),
        "https://api-miniapp.cephei.fi/tasks/abc/claim"
    );
}
