use orchestraterm::domain::{
    EngineError, MemberStatus, PlanStatus, RecoveryPolicy, TaskStatus, TeamDisplayMode,
    TeamMessagePriority,
};
use orchestraterm::engine::EngineState;

fn team<'a>(st: &'a EngineState, id: &str) -> &'a orchestraterm::domain::AgentTeam {
    st.teams.iter().find(|t| t.id == id).expect("team must exist")
}

#[test]
fn create_and_list_sessions() {
    let mut st = EngineState::default();
    st.create_session("dev");
    let names = st.list_sessions();
    assert!(names.contains(&"default".to_string()));
    assert!(names.contains(&"dev".to_string()));
}

#[test]
fn delegation_only_blocks_lead_claim() {
    let mut st = EngineState::default();
    st.create_team("t1", TeamDisplayMode::Auto, true).unwrap();
    let lead = st.add_member("t1", "lead", "gpt-5", false, true).unwrap();
    st.add_task("t1", "Task A", vec![], vec!["src/main.rs".to_string()])
        .unwrap();
    let err = st.claim_task("t1", lead.id, 0).unwrap_err();
    assert!(err.message().contains("delegation-only"));
}

#[test]
fn plan_gate_blocks_claim_until_approved() {
    let mut st = EngineState::default();
    st.create_team("t1", TeamDisplayMode::InProcess, false).unwrap();
    let worker = st.add_member("t1", "w", "gpt-5", true, false).unwrap();
    st.add_task("t1", "Task A", vec![], vec![]).unwrap();
    assert!(st.claim_task("t1", worker.id, 0).is_err());
    st.submit_plan("t1", worker.id, "plan").unwrap();
    st.set_plan_status("t1", worker.id, PlanStatus::Approved).unwrap();
    assert!(st.claim_task("t1", worker.id, 0).is_ok());
}

#[test]
fn task_dependency_transitions_from_blocked_to_pending() {
    let mut st = EngineState::default();
    st.create_team("t1", TeamDisplayMode::SplitPane, false).unwrap();
    let worker = st.add_member("t1", "w", "gpt-5", false, false).unwrap();
    let t0 = st.add_task("t1", "A", vec![], vec![]).unwrap();
    let t1 = st.add_task("t1", "B", vec![t0.id], vec![]).unwrap();
    assert!(matches!(t1.status, TaskStatus::Blocked));
    st.claim_task("t1", worker.id, t0.id).unwrap();
    st.complete_task("t1", worker.id, t0.id, 100, 20, 10_000).unwrap();
    let tm = team(&st, "t1");
    let next = tm.tasks.iter().find(|t| t.id == t1.id).unwrap();
    assert!(matches!(next.status, TaskStatus::Pending));
}

#[test]
fn scenario_single_worker_lifecycle() {
    let mut st = EngineState::default();
    st.create_team("t1", TeamDisplayMode::Auto, false).unwrap();
    let w = st.add_member("t1", "w", "gpt-5", false, false).unwrap();
    assert_eq!(w.id, 0);
    let task = st.add_task("t1", "A", vec![], vec![]).unwrap();
    assert_eq!(task.id, 0);
    assert!(matches!(task.status, TaskStatus::Pending));
    st.claim_task("t1", 0, 0).unwrap();
    assert!(matches!(team(&st, "t1").tasks[0].status, TaskStatus::InProgress));
    st.complete_task("t1", 0, 0, 100, 20, 10_000).unwrap();
    let tm = team(&st, "t1");
    assert!(matches!(tm.tasks[0].status, TaskStatus::Done));
    assert_eq!(tm.members[0].input_tokens, 100);
    assert_eq!(tm.members[0].output_tokens, 20);
    assert_eq!(tm.members[0].cost_microusd, 10_000);
}

#[test]
fn scenario_delegation_only_keeps_task_pending() {
    let mut st = EngineState::default();
    st.create_team("t1", TeamDisplayMode::Auto, true).unwrap();
    let lead = st.add_member("t1", "lead", "gpt-5", false, true).unwrap();
    st.add_task("t1", "A", vec![], vec![]).unwrap();
    let err = st.claim_task("t1", lead.id, 0).unwrap_err();
    assert_eq!(err, EngineError::DelegationOnlyLead);
    assert!(matches!(team(&st, "t1").tasks[0].status, TaskStatus::Pending));
}

#[test]
fn scenario_file_conflict_blocks_second_claim() {
    let mut st = EngineState::default();
    st.create_team("t1", TeamDisplayMode::Auto, false).unwrap();
    st.add_member("t1", "w1", "gpt-5", false, false).unwrap();
    st.add_member("t1", "w2", "gpt-5", false, false).unwrap();
    st.add_task("t1", "A", vec![], vec!["src/main.rs".to_string()]).unwrap();
    st.add_task("t1", "B", vec![], vec!["src/main.rs".to_string()]).unwrap();
    st.claim_task("t1", 0, 0).unwrap();
    let err = st.claim_task("t1", 1, 1).unwrap_err();
    assert_eq!(err, EngineError::FileConflict);
    assert!(matches!(team(&st, "t1").tasks[0].status, TaskStatus::InProgress));
    assert!(matches!(team(&st, "t1").tasks[1].status, TaskStatus::Pending));
}

#[test]
fn file_conflict_normalizes_case_and_whitespace() {
    let mut st = EngineState::default();
    st.create_team("t1", TeamDisplayMode::Auto, false).unwrap();
    st.add_member("t1", "w1", "gpt-5", false, false).unwrap();
    st.add_member("t1", "w2", "gpt-5", false, false).unwrap();
    st.add_task("t1", "A", vec![], vec!["  SRC/Main.RS ".to_string()]).unwrap();
    st.add_task("t1", "B", vec![], vec!["src/main.rs".to_string()]).unwrap();
    st.claim_task("t1", 0, 0).unwrap();
    assert_eq!(st.claim_task("t1", 1, 1).unwrap_err(), EngineError::FileConflict);
}

#[test]
fn file_conflict_trims_unicode_whitespace() {
    let mut st = EngineState::default();
    st.create_team("t1", TeamDisplayMode::Auto, false).unwrap();
    st.add_member("t1", "w1", "gpt-5", false, false).unwrap();
    st.add_member("t1", "w2", "gpt-5", false, false).unwrap();
    st.add_task("t1", "A", vec![], vec!["\u{00A0}src/main.rs\u{2000}".to_string()])
        .unwrap();
    st.add_task("t1", "B", vec![], vec!["src/main.rs".to_string()]).unwrap();
    st.claim_task("t1", 0, 0).unwrap();
    assert_eq!(st.claim_task("t1", 1, 1).unwrap_err(), EngineError::FileConflict);
}

#[test]
fn whitespace_only_files_never_conflict() {
    let mut st = EngineState::default();
    st.create_team("t1", TeamDisplayMode::Auto, false).unwrap();
    st.add_member("t1", "w1", "gpt-5", false, false).unwrap();
    st.add_member("t1", "w2", "gpt-5", false, false).unwrap();
    st.add_task("t1", "A", vec![], vec!["   ".to_string()]).unwrap();
    st.add_task("t1", "B", vec![], vec!["   ".to_string()]).unwrap();
    st.claim_task("t1", 0, 0).unwrap();
    assert!(st.claim_task("t1", 1, 1).is_ok());
}

#[test]
fn auto_claim_picks_first_eligible_task() {
    let mut st = EngineState::default();
    st.create_team("t1", TeamDisplayMode::Auto, false).unwrap();
    st.add_member("t1", "w1", "gpt-5", false, false).unwrap();
    st.add_member("t1", "w2", "gpt-5", false, false).unwrap();
    st.add_task("t1", "A", vec![], vec!["a.rs".to_string()]).unwrap();
    st.add_task("t1", "B", vec![], vec!["a.rs".to_string()]).unwrap();
    st.add_task("t1", "C", vec![], vec!["c.rs".to_string()]).unwrap();
    assert_eq!(st.auto_claim_next_task("t1", 0).unwrap(), Some(0));
    // Task B conflicts with A, so the next eligible task is C.
    assert_eq!(st.auto_claim_next_task("t1", 1).unwrap(), Some(2));
    assert_eq!(st.auto_claim_next_task("t1", 1).unwrap(), None);
}

#[test]
fn complete_requires_assignee_and_progress() {
    let mut st = EngineState::default();
    st.create_team("t1", TeamDisplayMode::Auto, false).unwrap();
    st.add_member("t1", "w1", "gpt-5", false, false).unwrap();
    st.add_member("t1", "w2", "gpt-5", false, false).unwrap();
    st.add_task("t1", "A", vec![], vec![]).unwrap();
    assert_eq!(
        st.complete_task("t1", 0, 0, 0, 0, 0).unwrap_err(),
        EngineError::TaskNotInProgress
    );
    st.claim_task("t1", 0, 0).unwrap();
    assert_eq!(
        st.complete_task("t1", 1, 0, 0, 0, 0).unwrap_err(),
        EngineError::NotAssignee
    );
    assert!(st.complete_task("t1", 0, 0, 5, 6, 7).is_ok());
    let tm = team(&st, "t1");
    assert_eq!(tm.tasks[0].input_tokens, 5);
    assert_eq!(tm.tasks[0].output_tokens, 6);
    assert_eq!(tm.tasks[0].cost_microusd, 7);
}

#[test]
fn remove_member_auto_reassign_returns_tasks_to_pending() {
    let mut st = EngineState::default();
    st.create_team("t1", TeamDisplayMode::Auto, false).unwrap();
    st.add_member("t1", "w", "gpt-5", false, false).unwrap();
    st.add_task("t1", "A", vec![], vec![]).unwrap();
    st.claim_task("t1", 0, 0).unwrap();
    st.remove_member("t1", 0, "gone").unwrap();
    let tm = team(&st, "t1");
    assert!(matches!(tm.members[0].status, MemberStatus::Terminated));
    assert_eq!(tm.tasks[0].assignee, None);
    assert!(matches!(tm.tasks[0].status, TaskStatus::Pending));
}

#[test]
fn remove_member_manual_blocks_tasks_with_open_deps() {
    let mut st = EngineState::default();
    st.create_team("t1", TeamDisplayMode::Auto, false).unwrap();
    st.set_recovery_policy("t1", RecoveryPolicy::Manual).unwrap();
    st.add_member("t1", "w1", "gpt-5", false, false).unwrap();
    st.add_member("t1", "w2", "gpt-5", false, false).unwrap();
    st.add_task("t1", "A", vec![], vec![]).unwrap();
    st.add_task("t1", "B", vec![0], vec![]).unwrap();
    // Claim A with one worker so B's dependency stays open, then claim
    // nothing else; removing the worker leaves A unassigned and, with
    // B's dependency unresolved, B remains blocked.
    st.claim_task("t1", 0, 0).unwrap();
    st.remove_member("t1", 0, "gone").unwrap();
    let tm = team(&st, "t1");
    assert_eq!(tm.tasks[0].assignee, None);
    assert!(matches!(tm.tasks[1].status, TaskStatus::Blocked));
}

#[test]
fn restart_member_restores_active_status() {
    let mut st = EngineState::default();
    st.create_team("t1", TeamDisplayMode::Auto, false).unwrap();
    st.add_member("t1", "w", "gpt-5", false, false).unwrap();
    st.remove_member("t1", 0, "gone").unwrap();
    assert!(matches!(team(&st, "t1").members[0].status, MemberStatus::Terminated));
    st.restart_member("t1", 0).unwrap();
    let m = &team(&st, "t1").members[0];
    assert!(matches!(m.status, MemberStatus::Active));
    assert_eq!(m.terminated_at, None);
    assert_eq!(m.termination_reason, None);
}

#[test]
fn prune_terminated_strips_members_and_read_acknowledgements() {
    let mut st = EngineState::default();
    st.create_team("t1", TeamDisplayMode::Auto, false).unwrap();
    st.add_member("t1", "w1", "gpt-5", false, false).unwrap();
    st.add_member("t1", "w2", "gpt-5", false, false).unwrap();
    let msg = st
        .post_message("t1", Some(0), None, "hello", TeamMessagePriority::Normal)
        .unwrap();
    st.mark_message_read("t1", 0, msg.id).unwrap();
    st.mark_message_read("t1", 1, msg.id).unwrap();
    st.remove_member("t1", 0, "gone").unwrap();
    st.prune_terminated("t1").unwrap();
    let tm = team(&st, "t1");
    assert_eq!(tm.members.len(), 1);
    assert_eq!(tm.members[0].id, 1);
    assert_eq!(tm.messages[0].id, msg.id);
    assert_eq!(tm.messages[0].read_by, vec![1]);
    // Ids are never reused after a prune.
    let again = st.add_member("t1", "w3", "gpt-5", false, false).unwrap();
    assert_eq!(again.id, 2);
}

#[test]
fn message_visibility_and_unread_filtering() {
    let mut st = EngineState::default();
    st.create_team("t1", TeamDisplayMode::Auto, false).unwrap();
    st.add_member("t1", "a", "gpt-5", false, false).unwrap();
    st.add_member("t1", "b", "gpt-5", false, false).unwrap();
    st.post_message("t1", Some(0), None, "broadcast", TeamMessagePriority::Low)
        .unwrap();
    st.post_message("t1", Some(0), Some(1), "direct", TeamMessagePriority::High)
        .unwrap();
    let for_a = st.team_messages("t1", Some(0), false).unwrap();
    assert_eq!(for_a.len(), 1);
    assert_eq!(for_a[0].text, "broadcast");
    let for_b = st.team_messages("t1", Some(1), false).unwrap();
    assert_eq!(for_b.len(), 2);
    let all = st.team_messages("t1", None, false).unwrap();
    assert_eq!(all.len(), 2);
    st.mark_message_read("t1", 1, 0).unwrap();
    let unread_b = st.team_messages("t1", Some(1), true).unwrap();
    assert_eq!(unread_b.len(), 1);
    assert_eq!(unread_b[0].text, "direct");
}

#[test]
fn post_message_requires_active_parties() {
    let mut st = EngineState::default();
    st.create_team("t1", TeamDisplayMode::Auto, false).unwrap();
    st.add_member("t1", "a", "gpt-5", false, false).unwrap();
    assert_eq!(
        st.post_message("t1", Some(9), None, "x", TeamMessagePriority::Normal)
            .unwrap_err(),
        EngineError::UnknownMember
    );
    st.remove_member("t1", 0, "gone").unwrap();
    assert_eq!(
        st.post_message("t1", Some(0), None, "x", TeamMessagePriority::Normal)
            .unwrap_err(),
        EngineError::MemberNotActive
    );
}

#[test]
fn team_usage_sums_task_counters() {
    let mut st = EngineState::default();
    st.create_team("t1", TeamDisplayMode::Auto, false).unwrap();
    st.add_member("t1", "w", "gpt-5", false, false).unwrap();
    st.add_task("t1", "A", vec![], vec![]).unwrap();
    st.add_task("t1", "B", vec![], vec![]).unwrap();
    st.claim_task("t1", 0, 0).unwrap();
    st.complete_task("t1", 0, 0, 10, 20, 30).unwrap();
    st.claim_task("t1", 0, 1).unwrap();
    let u = st.team_usage("t1").unwrap();
    assert_eq!(u.input_tokens, 10);
    assert_eq!(u.output_tokens, 20);
    assert_eq!(u.cost_microusd, 30);
    assert_eq!(u.active_tasks, 1);
}

#[test]
fn unknown_and_duplicate_team_errors() {
    let mut st = EngineState::default();
    assert_eq!(
        st.claim_task("nope", 0, 0).unwrap_err(),
        EngineError::UnknownTeam
    );
    st.create_team("t1", TeamDisplayMode::Auto, false).unwrap();
    assert_eq!(
        st.create_team("t1", TeamDisplayMode::Auto, false).unwrap_err(),
        EngineError::TeamExists
    );
    assert_eq!(
        st.add_task("t1", "A", vec![7], vec![]).unwrap_err(),
        EngineError::UnknownDependency
    );
    assert_eq!(st.claim_task("t1", 3, 0).unwrap_err(), EngineError::UnknownMember);
    st.add_member("t1", "w", "gpt-5", false, false).unwrap();
    assert_eq!(st.claim_task("t1", 0, 9).unwrap_err(), EngineError::UnknownTask);
    assert_eq!(
        st.mark_message_read("t1", 0, 0).unwrap_err(),
        EngineError::UnknownMessage
    );
    st.cleanup_team("t1").unwrap();
    assert_eq!(st.cleanup_team("t1").unwrap_err(), EngineError::UnknownTeam);
}

#[test]
fn setters_change_team_policies() {
    let mut st = EngineState::default();
    st.create_team("t1", TeamDisplayMode::Auto, false).unwrap();
    st.set_team_mode("t1", TeamDisplayMode::SplitPane).unwrap();
    st.set_delegation_only("t1", true).unwrap();
    st.set_recovery_policy("t1", RecoveryPolicy::Manual).unwrap();
    let tm = team(&st, "t1");
    assert_eq!(tm.mode, TeamDisplayMode::SplitPane);
    assert!(tm.delegation_only);
    assert_eq!(tm.recovery_policy, RecoveryPolicy::Manual);
    st.set_active_session("default");
    assert_eq!(st.active_session.as_deref(), Some("default"));
}

#[test]
fn blocked_tasks_cannot_be_claimed() {
    let mut st = EngineState::default();
    st.create_team("t1", TeamDisplayMode::Auto, false).unwrap();
    st.add_member("t1", "w", "gpt-5", false, false).unwrap();
    st.add_task("t1", "A", vec![], vec![]).unwrap();
    st.add_task("t1", "B", vec![0], vec![]).unwrap();
    assert_eq!(st.claim_task("t1", 0, 1).unwrap_err(), EngineError::TaskNotPending);
}

#[test]
fn auto_claim_respects_the_plan_gate() {
    let mut st = EngineState::default();
    st.create_team("t1", TeamDisplayMode::Auto, false).unwrap();
    st.add_member("t1", "w", "gpt-5", true, false).unwrap();
    st.add_task("t1", "A", vec![], vec![]).unwrap();
    assert_eq!(
        st.auto_claim_next_task("t1", 0).unwrap_err(),
        EngineError::PlanApprovalRequired
    );
    st.submit_plan("t1", 0, "the plan").unwrap();
    let tm = team(&st, "t1");
    assert_eq!(tm.members[0].latest_plan.as_deref(), Some("the plan"));
    assert_eq!(tm.members[0].plan_status, PlanStatus::Planning);
    st.set_plan_status("t1", 0, PlanStatus::Approved).unwrap();
    assert_eq!(st.auto_claim_next_task("t1", 0).unwrap(), Some(0));
}

#[test]
fn mark_message_read_is_idempotent() {
    let mut st = EngineState::default();
    st.create_team("t1", TeamDisplayMode::Auto, false).unwrap();
    st.add_member("t1", "w", "gpt-5", false, false).unwrap();
    st.post_message("t1", None, None, "note", TeamMessagePriority::Normal).unwrap();
    st.mark_message_read("t1", 0, 0).unwrap();
    st.mark_message_read("t1", 0, 0).unwrap();
    assert_eq!(team(&st, "t1").messages[0].read_by, vec![0]);
}

#[test]
fn sessions_are_listed_in_ascending_name_order() {
    let mut st = EngineState::default();
    st.create_session("zeta");
    st.create_session("alpha");
    assert_eq!(
        st.list_sessions(),
        vec!["alpha".to_string(), "default".to_string(), "zeta".to_string()]
    );
}

#[test]
fn teams_are_listed_in_ascending_id_order() {
    let mut st = EngineState::default();
    st.create_team("zeta", TeamDisplayMode::Auto, false).unwrap();
    st.create_team("alpha", TeamDisplayMode::Auto, false).unwrap();
    let ids: Vec<String> = st.teams_snapshot().iter().map(|t| t.id.clone()).collect();
    assert_eq!(ids, vec!["alpha".to_string(), "zeta".to_string()]);
}
