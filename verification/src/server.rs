//! The wire protocol: a closed set of request variants, one response
//! envelope, and the dispatcher that routes a request to the store.
//!
//! The surrounding process reads one request per line, holds an
//! exclusive lock on the store, calls `dispatch`, persists, and writes
//! the response line. The dispatcher guarantees that every response
//! carries the post-mutation session and team lists, so clients always
//! observe a consistent snapshot.

use vstd::prelude::*;
use crate::domain::{
    EngineError,
    AgentTeam, PlanStatus, RecoveryPolicy, SessionV, TeamDisplayMode, TeamMessage, TeamV,
    TeamMessagePriority, TeamTask, TeamUsage,
};
use crate::engine::{
    EngineState, StateV, default_session_v, has_session, has_team, new_team_v,
    state_team_index, state_with_team, wf_state,
};
use crate::team::{
    add_member_post, add_task_check, add_task_post, auto_claim_ok, claim_check, claim_post,
    complete_check, complete_post, count_in_progress, execute_gate, has_member, mark_read_check,
    mark_read_post, member_gate, post_message_check, post_message_post, prune_post,
    remove_member_post, restart_member_post, selected_messages, set_plan_status_post,
    submit_plan_post, sum_sat,
};

verus! {

/// One request, as carried by a single JSON line.
pub enum ServerRequest {
    Ping,
    ListSessions,
    CreateSession { name: String },
    AttachSession { name: String },
    TeamList,
    TeamCreate { team_id: String, mode: TeamDisplayMode, delegation_only: bool },
    TeamAddMember {
        team_id: String,
        name: String,
        model: String,
        require_plan_approval: bool,
        is_lead: bool,
    },
    TeamAddTask { team_id: String, title: String, deps: Vec<usize>, touched_files: Vec<String> },
    TeamSubmitPlan { team_id: String, member_id: usize, plan: String },
    TeamClaimTask { team_id: String, member_id: usize, task_id: usize },
    TeamCompleteTask {
        team_id: String,
        member_id: usize,
        task_id: usize,
        input_tokens: u64,
        output_tokens: u64,
        cost_microusd: u64,
    },
    TeamSetPlanStatus { team_id: String, member_id: usize, status: PlanStatus },
    TeamAutoClaim { team_id: String, member_id: usize },
    TeamSetMode { team_id: String, mode: TeamDisplayMode },
    TeamSetDelegationOnly { team_id: String, delegation_only: bool },
    TeamSetRecoveryPolicy { team_id: String, recovery_policy: RecoveryPolicy },
    TeamRemoveMember { team_id: String, member_id: usize, reason: String },
    TeamRestartMember { team_id: String, member_id: usize },
    TeamCleanup { team_id: String },
    TeamPruneTerminated { team_id: String },
    TeamPostMessage {
        team_id: String,
        from_member: Option<usize>,
        to_member: Option<usize>,
        text: String,
        priority: TeamMessagePriority,
    },
    TeamListMessages { team_id: String, viewer_member: Option<usize>, unread_only: bool },
    TeamMarkMessageRead { team_id: String, member_id: usize, message_id: usize },
    TeamUsage { team_id: String },
}

/// The one response envelope.
pub struct ServerResponse {
    pub ok: bool,
    pub message: String,
    pub sessions: Vec<String>,
    pub teams: Vec<AgentTeam>,
    pub tasks: Vec<TeamTask>,
    pub messages: Vec<TeamMessage>,
    pub usage: Option<TeamUsage>,
}

impl ServerResponse {
    /// A success envelope with a message and nothing else.
    pub fn ok(message: &str) -> (r: Self)
        ensures
            r.ok == true,
            r.message@ == message@,
            r.sessions@.len() == 0,
            r.teams@.len() == 0,
            r.tasks@.len() == 0,
            r.messages@.len() == 0,
            r.usage is None,
    {
        ServerResponse {
            ok: true,
            message: message.to_owned(),
            sessions: Vec::new(),
            teams: Vec::new(),
            tasks: Vec::new(),
            messages: Vec::new(),
            usage: None,
        }
    }

    /// A failure envelope with a message and nothing else.
    pub fn err(message: &str) -> (r: Self)
        ensures
            r.ok == false,
            r.message@ == message@,
            r.sessions@.len() == 0,
            r.teams@.len() == 0,
            r.tasks@.len() == 0,
            r.messages@.len() == 0,
            r.usage is None,
    {
        ServerResponse {
            ok: false,
            message: message.to_owned(),
            sessions: Vec::new(),
            teams: Vec::new(),
            tasks: Vec::new(),
            messages: Vec::new(),
            usage: None,
        }
    }
}

/// A message of the form `<prefix><decimal id>`.
fn label_id(prefix: &str, id: u64) -> (r: String)
    ensures
        r@ == prefix@ + crate::domain::dec_digits(id as nat),
{
    prefix.to_owned().concat(crate::domain::u64_to_string(id).as_str())
}

/// A message of the form `<prefix><name>`.
fn label_name(prefix: &str, name: &str) -> (r: String)
    ensures
        r@ == prefix@ + name@,
{
    prefix.to_owned().concat(name)
}

/// A message of the form `<prefix><name> (id=<decimal id>)`.
fn label_name_id(prefix: &str, name: &str, id: u64) -> (r: String)
    ensures
        r@ == prefix@ + name@ + " (id="@ + crate::domain::dec_digits(id as nat) + ")"@,
{
    prefix.to_owned().concat(name).concat(" (id=").concat(
        crate::domain::u64_to_string(id).as_str(),
    ).concat(")")
}

/// The error description with the identifier the error is about, as
/// the responses spell it: the team id for team-level errors, the
/// member id for member gates, the task or message id for the rest.
pub open spec fn err_label_spec(
    e: EngineError,
    team_id: Seq<char>,
    member_id: Option<u64>,
    entity_id: Option<u64>,
) -> Seq<char> {
    match e {
        EngineError::UnknownTeam => crate::domain::error_text(e) + ": "@ + team_id,
        EngineError::TeamExists => crate::domain::error_text(e) + ": "@ + team_id,
        EngineError::UnknownMember | EngineError::MemberNotActive
            | EngineError::PlanApprovalRequired => match member_id {
            Some(m) => crate::domain::error_text(e) + ": "@ + crate::domain::dec_digits(
                m as nat,
            ),
            None => crate::domain::error_text(e),
        },
        EngineError::UnknownTask | EngineError::TaskNotPending
            | EngineError::TaskNotInProgress | EngineError::NotAssignee
            | EngineError::FileConflict | EngineError::UnknownMessage => match entity_id {
            Some(t) => crate::domain::error_text(e) + ": "@ + crate::domain::dec_digits(
                t as nat,
            ),
            None => crate::domain::error_text(e),
        },
        _ => crate::domain::error_text(e),
    }
}

fn err_label(e: EngineError, team_id: &str, member_id: Option<u64>, entity_id: Option<u64>)
    -> (r: String)
    ensures
        r@ == err_label_spec(e, team_id@, member_id, entity_id),
{
    match e {
        EngineError::UnknownTeam | EngineError::TeamExists => e.message().to_owned().concat(
            ": ",
        ).concat(team_id),
        EngineError::UnknownMember | EngineError::MemberNotActive
            | EngineError::PlanApprovalRequired => match member_id {
            Some(m) => e.message().to_owned().concat(": ").concat(
                crate::domain::u64_to_string(m).as_str(),
            ),
            None => e.message().to_owned(),
        },
        EngineError::UnknownTask | EngineError::TaskNotPending
            | EngineError::TaskNotInProgress | EngineError::NotAssignee
            | EngineError::FileConflict | EngineError::UnknownMessage => match entity_id {
            Some(t) => e.message().to_owned().concat(": ").concat(
                crate::domain::u64_to_string(t).as_str(),
            ),
            None => e.message().to_owned(),
        },
        _ => e.message().to_owned(),
    }
}

/// Routes one parsed request to the store. The store stays well-formed,
/// and the response is refreshed with the session list and the full
/// team list of the state after the mutation, whatever the operation
/// did.
#[verifier::rlimit(60)]
pub fn dispatch(state: &mut EngineState, req: ServerRequest) -> (r: ServerResponse)
    requires
        wf_state(old(state)@),
    ensures
        wf_state(final(state)@),
        crate::domain::strs_view(r.sessions@) == final(state)@.sessions.map_values(
            |s: SessionV| s.name,
        ),
        r.teams@.map_values(|t: AgentTeam| t@) == final(state)@.teams,
        match req {
            ServerRequest::Ping => r.ok && final(state)@ == old(state)@,
            ServerRequest::ListSessions => r.ok && final(state)@ == old(state)@,
            ServerRequest::TeamList => r.ok && final(state)@ == old(state)@,
            ServerRequest::CreateSession { name } => r.ok && (if has_session(
                old(state)@,
                name@,
            ) {
                final(state)@ == old(state)@
            } else {
                exists|k: int|
                    0 <= k <= old(state)@.sessions.len() && final(state)@ == (StateV {
                        sessions: #[trigger] old(state)@.sessions.insert(
                            k,
                            default_session_v(name@),
                        ),
                        active_session: Some(name@),
                        ..old(state)@
                    })
            }),
            ServerRequest::AttachSession { name } => r.ok && (if has_session(
                old(state)@,
                name@,
            ) {
                final(state)@ == (StateV { active_session: Some(name@), ..old(state)@ })
            } else {
                final(state)@ == old(state)@
            }),
            ServerRequest::TeamCreate { team_id, mode, delegation_only } => if has_team(
                old(state)@,
                team_id@,
            ) {
                !r.ok && final(state)@ == old(state)@
            } else {
                r.ok && exists|k: int|
                    0 <= k <= old(state)@.teams.len() && final(state)@ == (StateV {
                        teams: #[trigger] old(state)@.teams.insert(
                            k,
                            new_team_v(team_id@, mode, delegation_only),
                        ),
                        ..old(state)@
                    })
            },
            ServerRequest::TeamAddMember {
                team_id,
                name,
                model,
                require_plan_approval,
                is_lead,
            } => if !has_team(old(state)@, team_id@) {
                !r.ok && final(state)@ == old(state)@
            } else {
                let ti = state_team_index(old(state)@, team_id@);
                let t0 = old(state)@.teams[ti];
                if t0.next_member_id < usize::MAX {
                    r.ok && final(state)@ == state_with_team(
                        old(state)@,
                        ti,
                        add_member_post(t0, name@, model@, require_plan_approval, is_lead),
                    )
                } else {
                    !r.ok && final(state)@ == old(state)@
                }
            },
            ServerRequest::TeamAddTask { team_id, title, deps, touched_files } => if !has_team(
                old(state)@,
                team_id@,
            ) {
                !r.ok && final(state)@ == old(state)@
            } else {
                let ti = state_team_index(old(state)@, team_id@);
                let t0 = old(state)@.teams[ti];
                match add_task_check(t0, deps@) {
                    Some(e) => !r.ok && final(state)@ == old(state)@,
                    None => r.ok && exists|now: u64|
                        final(state)@ == state_with_team(
                            old(state)@,
                            ti,
                            #[trigger] add_task_post(
                                t0,
                                title@,
                                deps@,
                                crate::domain::strs_view(touched_files@),
                                now,
                            ),
                        ),
                }
            },
            ServerRequest::TeamSubmitPlan { team_id, member_id, plan } => if !has_team(
                old(state)@,
                team_id@,
            ) {
                !r.ok && final(state)@ == old(state)@
            } else {
                let ti = state_team_index(old(state)@, team_id@);
                let t0 = old(state)@.teams[ti];
                match member_gate(t0, member_id) {
                    Some(e) => !r.ok && final(state)@ == old(state)@,
                    None => r.ok && exists|now: u64|
                        final(state)@ == state_with_team(
                            old(state)@,
                            ti,
                            #[trigger] submit_plan_post(t0, member_id, plan@, now),
                        ),
                }
            },
            ServerRequest::TeamClaimTask { team_id, member_id, task_id } => if !has_team(
                old(state)@,
                team_id@,
            ) {
                !r.ok && final(state)@ == old(state)@
            } else {
                let ti = state_team_index(old(state)@, team_id@);
                let t0 = old(state)@.teams[ti];
                match claim_check(t0, member_id, task_id) {
                    Some(e) => !r.ok && final(state)@ == old(state)@,
                    None => r.ok && exists|now: u64|
                        final(state)@ == state_with_team(
                            old(state)@,
                            ti,
                            #[trigger] claim_post(t0, member_id, task_id, now),
                        ),
                }
            },
            ServerRequest::TeamCompleteTask {
                team_id,
                member_id,
                task_id,
                input_tokens,
                output_tokens,
                cost_microusd,
            } => if !has_team(old(state)@, team_id@) {
                !r.ok && final(state)@ == old(state)@
            } else {
                let ti = state_team_index(old(state)@, team_id@);
                let t0 = old(state)@.teams[ti];
                match complete_check(t0, member_id, task_id) {
                    Some(e) => !r.ok && final(state)@ == old(state)@,
                    None => r.ok && exists|now: u64|
                        final(state)@ == state_with_team(
                            old(state)@,
                            ti,
                            #[trigger] complete_post(
                                t0,
                                member_id,
                                task_id,
                                input_tokens,
                                output_tokens,
                                cost_microusd,
                                now,
                            ),
                        ),
                }
            },
            ServerRequest::TeamSetPlanStatus { team_id, member_id, status } => if !has_team(
                old(state)@,
                team_id@,
            ) {
                !r.ok && final(state)@ == old(state)@
            } else {
                let ti = state_team_index(old(state)@, team_id@);
                let t0 = old(state)@.teams[ti];
                match member_gate(t0, member_id) {
                    Some(e) => !r.ok && final(state)@ == old(state)@,
                    None => r.ok && exists|now: u64|
                        final(state)@ == state_with_team(
                            old(state)@,
                            ti,
                            #[trigger] set_plan_status_post(t0, member_id, status, now),
                        ),
                }
            },
            ServerRequest::TeamAutoClaim { team_id, member_id } => if !has_team(
                old(state)@,
                team_id@,
            ) {
                !r.ok && final(state)@ == old(state)@
            } else {
                let ti = state_team_index(old(state)@, team_id@);
                let t0 = old(state)@.teams[ti];
                match execute_gate(t0, member_id) {
                    Some(e) => !r.ok && final(state)@ == old(state)@,
                    None => r.ok && exists|now: u64, ro: Option<usize>|
                        #[trigger] auto_claim_ok(
                            t0,
                            final(state)@.teams[ti],
                            member_id,
                            now,
                            ro,
                        ) && final(state)@ == state_with_team(
                            old(state)@,
                            ti,
                            final(state)@.teams[ti],
                        ),
                }
            },
            ServerRequest::TeamSetMode { team_id, mode } => if !has_team(
                old(state)@,
                team_id@,
            ) {
                !r.ok && final(state)@ == old(state)@
            } else {
                let ti = state_team_index(old(state)@, team_id@);
                r.ok && final(state)@ == state_with_team(
                    old(state)@,
                    ti,
                    TeamV { mode, ..old(state)@.teams[ti] },
                )
            },
            ServerRequest::TeamSetDelegationOnly { team_id, delegation_only } => if !has_team(
                old(state)@,
                team_id@,
            ) {
                !r.ok && final(state)@ == old(state)@
            } else {
                let ti = state_team_index(old(state)@, team_id@);
                r.ok && final(state)@ == state_with_team(
                    old(state)@,
                    ti,
                    TeamV { delegation_only, ..old(state)@.teams[ti] },
                )
            },
            ServerRequest::TeamSetRecoveryPolicy { team_id, recovery_policy } => if !has_team(
                old(state)@,
                team_id@,
            ) {
                !r.ok && final(state)@ == old(state)@
            } else {
                let ti = state_team_index(old(state)@, team_id@);
                r.ok && final(state)@ == state_with_team(
                    old(state)@,
                    ti,
                    TeamV { recovery_policy, ..old(state)@.teams[ti] },
                )
            },
            ServerRequest::TeamRemoveMember { team_id, member_id, reason } => if !has_team(
                old(state)@,
                team_id@,
            ) {
                !r.ok && final(state)@ == old(state)@
            } else {
                let ti = state_team_index(old(state)@, team_id@);
                let t0 = old(state)@.teams[ti];
                if has_member(t0.members, member_id) {
                    r.ok && exists|now: u64|
                        final(state)@ == state_with_team(
                            old(state)@,
                            ti,
                            #[trigger] remove_member_post(t0, member_id, reason@, now),
                        )
                } else {
                    !r.ok && final(state)@ == old(state)@
                }
            },
            ServerRequest::TeamRestartMember { team_id, member_id } => if !has_team(
                old(state)@,
                team_id@,
            ) {
                !r.ok && final(state)@ == old(state)@
            } else {
                let ti = state_team_index(old(state)@, team_id@);
                let t0 = old(state)@.teams[ti];
                if has_member(t0.members, member_id) {
                    r.ok && final(state)@ == state_with_team(
                        old(state)@,
                        ti,
                        restart_member_post(t0, member_id),
                    )
                } else {
                    !r.ok && final(state)@ == old(state)@
                }
            },
            ServerRequest::TeamCleanup { team_id } => if !has_team(old(state)@, team_id@) {
                !r.ok && final(state)@ == old(state)@
            } else {
                r.ok && final(state)@ == (StateV {
                    teams: old(state)@.teams.remove(state_team_index(old(state)@, team_id@)),
                    ..old(state)@
                })
            },
            ServerRequest::TeamPruneTerminated { team_id } => if !has_team(
                old(state)@,
                team_id@,
            ) {
                !r.ok && final(state)@ == old(state)@
            } else {
                let ti = state_team_index(old(state)@, team_id@);
                r.ok && final(state)@ == state_with_team(
                    old(state)@,
                    ti,
                    prune_post(old(state)@.teams[ti]),
                )
            },
            ServerRequest::TeamPostMessage {
                team_id,
                from_member,
                to_member,
                text,
                priority,
            } => if !has_team(old(state)@, team_id@) {
                !r.ok && final(state)@ == old(state)@
            } else {
                let ti = state_team_index(old(state)@, team_id@);
                let t0 = old(state)@.teams[ti];
                match post_message_check(t0, from_member, to_member) {
                    Some(e) => !r.ok && final(state)@ == old(state)@,
                    None => r.ok && exists|now: u64|
                        final(state)@ == state_with_team(
                            old(state)@,
                            ti,
                            #[trigger] post_message_post(
                                t0,
                                from_member,
                                to_member,
                                text@,
                                priority,
                                now,
                            ),
                        ),
                }
            },
            ServerRequest::TeamListMessages { team_id, viewer_member, unread_only } => {
                final(state)@ == old(state)@ && (if !has_team(old(state)@, team_id@) {
                    !r.ok
                } else {
                    let t0 = old(state)@.teams[state_team_index(old(state)@, team_id@)];
                    match viewer_member {
                        Some(v) => if has_member(t0.members, v) {
                            r.ok && r.messages@.map_values(|m: TeamMessage| m@)
                                == selected_messages(t0.messages, viewer_member, unread_only)
                        } else {
                            !r.ok
                        },
                        None => r.ok && r.messages@.map_values(|m: TeamMessage| m@)
                            == selected_messages(t0.messages, viewer_member, unread_only),
                    }
                })
            },
            ServerRequest::TeamMarkMessageRead { team_id, member_id, message_id } => if !has_team(
                old(state)@,
                team_id@,
            ) {
                !r.ok && final(state)@ == old(state)@
            } else {
                let ti = state_team_index(old(state)@, team_id@);
                let t0 = old(state)@.teams[ti];
                match mark_read_check(t0, member_id, message_id) {
                    Some(e) => !r.ok && final(state)@ == old(state)@,
                    None => r.ok && final(state)@ == state_with_team(
                        old(state)@,
                        ti,
                        mark_read_post(t0, member_id, message_id),
                    ),
                }
            },
            ServerRequest::TeamUsage { team_id } => {
                final(state)@ == old(state)@ && (if !has_team(old(state)@, team_id@) {
                    !r.ok
                } else {
                    let t0 = old(state)@.teams[state_team_index(old(state)@, team_id@)];
                    r.ok && (r.usage matches Some(u) && u.input_tokens == sum_sat(
                        t0.tasks.map_values(|task: crate::domain::TaskV| task.input_tokens),
                    ) && u.output_tokens == sum_sat(
                        t0.tasks.map_values(|task: crate::domain::TaskV| task.output_tokens),
                    ) && u.cost_microusd == sum_sat(
                        t0.tasks.map_values(|task: crate::domain::TaskV| task.cost_microusd),
                    ) && u.active_tasks == count_in_progress(t0.tasks))
                })
            },
        },
{
    let mut r = match req {
        ServerRequest::Ping => ServerResponse::ok("pong"),
        ServerRequest::ListSessions => ServerResponse::ok("ok"),
        ServerRequest::CreateSession { name } => {
            state.create_session(name.as_str());
            ServerResponse::ok(label_name("created session: ", name.as_str()).as_str())
        },
        ServerRequest::AttachSession { name } => {
            state.set_active_session(name.as_str());
            ServerResponse::ok(label_name("active session: ", name.as_str()).as_str())
        },
        ServerRequest::TeamList => ServerResponse::ok("ok"),
        ServerRequest::TeamCreate { team_id, mode, delegation_only } => {
            match state.create_team(team_id.as_str(), mode, delegation_only) {
                Ok(()) => ServerResponse::ok(
                    label_name("created team: ", team_id.as_str()).as_str(),
                ),
                Err(e) => ServerResponse::err(
                    err_label(e, team_id.as_str(), None, None).as_str(),
                ),
            }
        },
        ServerRequest::TeamAddMember { team_id, name, model, require_plan_approval, is_lead } => {
            match state.add_member(
                team_id.as_str(),
                name.as_str(),
                model.as_str(),
                require_plan_approval,
                is_lead,
            ) {
                Ok(member) => ServerResponse::ok(
                    label_name_id("member added: ", member.name.as_str(), member.id as u64)
                        .as_str(),
                ),
                Err(e) => ServerResponse::err(
                    err_label(e, team_id.as_str(), None, None).as_str(),
                ),
            }
        },
        ServerRequest::TeamAddTask { team_id, title, deps, touched_files } => {
            match state.add_task(team_id.as_str(), title.as_str(), deps, touched_files) {
                Ok(task) => {
                    let mut resp = ServerResponse::ok(
                        label_name_id("task added: ", task.title.as_str(), task.id as u64)
                            .as_str(),
                    );
                    resp.tasks.push(task);
                    resp
                },
                Err(e) => ServerResponse::err(
                    err_label(e, team_id.as_str(), None, None).as_str(),
                ),
            }
        },
        ServerRequest::TeamSubmitPlan { team_id, member_id, plan } => {
            match state.submit_plan(team_id.as_str(), member_id, plan.as_str()) {
                Ok(()) => ServerResponse::ok(
                    label_id("plan submitted for member: ", member_id as u64).as_str(),
                ),
                Err(e) => ServerResponse::err(
                    err_label(e, team_id.as_str(), Some(member_id as u64), None).as_str(),
                ),
            }
        },
        ServerRequest::TeamClaimTask { team_id, member_id, task_id } => {
            match state.claim_task(team_id.as_str(), member_id, task_id) {
                Ok(()) => ServerResponse::ok(
                    label_id("task claimed: ", task_id as u64).as_str(),
                ),
                Err(e) => ServerResponse::err(
                    err_label(e, team_id.as_str(), Some(member_id as u64), Some(task_id as u64)).as_str(),
                ),
            }
        },
        ServerRequest::TeamCompleteTask {
            team_id,
            member_id,
            task_id,
            input_tokens,
            output_tokens,
            cost_microusd,
        } => {
            match state.complete_task(
                team_id.as_str(),
                member_id,
                task_id,
                input_tokens,
                output_tokens,
                cost_microusd,
            ) {
                Ok(()) => ServerResponse::ok(
                    label_id("task completed: ", task_id as u64).as_str(),
                ),
                Err(e) => ServerResponse::err(
                    err_label(e, team_id.as_str(), Some(member_id as u64), Some(task_id as u64)).as_str(),
                ),
            }
        },
        ServerRequest::TeamSetPlanStatus { team_id, member_id, status } => {
            match state.set_plan_status(team_id.as_str(), member_id, status) {
                Ok(()) => ServerResponse::ok(
                    label_id("member plan status updated: ", member_id as u64).as_str(),
                ),
                Err(e) => ServerResponse::err(
                    err_label(e, team_id.as_str(), Some(member_id as u64), None).as_str(),
                ),
            }
        },
        ServerRequest::TeamAutoClaim { team_id, member_id } => {
            match state.auto_claim_next_task(team_id.as_str(), member_id) {
                Ok(Some(claimed)) => ServerResponse::ok(
                    label_id("auto-claimed task: ", claimed as u64).as_str(),
                ),
                Ok(None) => ServerResponse::ok("no claimable task"),
                Err(e) => ServerResponse::err(
                    err_label(e, team_id.as_str(), Some(member_id as u64), None).as_str(),
                ),
            }
        },
        ServerRequest::TeamSetMode { team_id, mode } => {
            match state.set_team_mode(team_id.as_str(), mode) {
                Ok(()) => ServerResponse::ok("team mode updated"),
                Err(e) => ServerResponse::err(
                    err_label(e, team_id.as_str(), None, None).as_str(),
                ),
            }
        },
        ServerRequest::TeamSetDelegationOnly { team_id, delegation_only } => {
            match state.set_delegation_only(team_id.as_str(), delegation_only) {
                Ok(()) => ServerResponse::ok("delegation mode updated"),
                Err(e) => ServerResponse::err(
                    err_label(e, team_id.as_str(), None, None).as_str(),
                ),
            }
        },
        ServerRequest::TeamSetRecoveryPolicy { team_id, recovery_policy } => {
            match state.set_recovery_policy(team_id.as_str(), recovery_policy) {
                Ok(()) => ServerResponse::ok("recovery policy updated"),
                Err(e) => ServerResponse::err(
                    err_label(e, team_id.as_str(), None, None).as_str(),
                ),
            }
        },
        ServerRequest::TeamRemoveMember { team_id, member_id, reason } => {
            match state.remove_member(team_id.as_str(), member_id, reason.as_str()) {
                Ok(()) => ServerResponse::ok(
                    label_id("member terminated: ", member_id as u64).as_str(),
                ),
                Err(e) => ServerResponse::err(
                    err_label(e, team_id.as_str(), Some(member_id as u64), None).as_str(),
                ),
            }
        },
        ServerRequest::TeamRestartMember { team_id, member_id } => {
            match state.restart_member(team_id.as_str(), member_id) {
                Ok(()) => ServerResponse::ok(
                    label_id("member restarted: ", member_id as u64).as_str(),
                ),
                Err(e) => ServerResponse::err(
                    err_label(e, team_id.as_str(), Some(member_id as u64), None).as_str(),
                ),
            }
        },
        ServerRequest::TeamCleanup { team_id } => {
            match state.cleanup_team(team_id.as_str()) {
                Ok(()) => ServerResponse::ok(
                    label_name("team removed: ", team_id.as_str()).as_str(),
                ),
                Err(e) => ServerResponse::err(
                    err_label(e, team_id.as_str(), None, None).as_str(),
                ),
            }
        },
        ServerRequest::TeamPruneTerminated { team_id } => {
            match state.prune_terminated(team_id.as_str()) {
                Ok(()) => ServerResponse::ok("terminated members pruned"),
                Err(e) => ServerResponse::err(
                    err_label(e, team_id.as_str(), None, None).as_str(),
                ),
            }
        },
        ServerRequest::TeamPostMessage { team_id, from_member, to_member, text, priority } => {
            match state.post_message(
                team_id.as_str(),
                from_member,
                to_member,
                text.as_str(),
                priority,
            ) {
                Ok(msg) => {
                    let mut resp = ServerResponse::ok(
                        label_id("message posted: ", msg.id as u64).as_str(),
                    );
                    resp.messages.push(msg);
                    resp
                },
                Err(e) => ServerResponse::err(
                    err_label(e, team_id.as_str(), None, None).as_str(),
                ),
            }
        },
        ServerRequest::TeamListMessages { team_id, viewer_member, unread_only } => {
            match state.team_messages(team_id.as_str(), viewer_member, unread_only) {
                Ok(messages) => {
                    let mut resp = ServerResponse::ok("ok");
                    resp.messages = messages;
                    resp
                },
                Err(e) => ServerResponse::err(
                    err_label(e, team_id.as_str(), match viewer_member {
                    Some(v) => Some(v as u64),
                    None => None,
                }, None).as_str(),
                ),
            }
        },
        ServerRequest::TeamMarkMessageRead { team_id, member_id, message_id } => {
            match state.mark_message_read(team_id.as_str(), member_id, message_id) {
                Ok(()) => ServerResponse::ok("message marked as read"),
                Err(e) => ServerResponse::err(
                    err_label(e, team_id.as_str(), Some(member_id as u64), Some(message_id as u64)).as_str(),
                ),
            }
        },
        ServerRequest::TeamUsage { team_id } => {
            match state.team_usage(team_id.as_str()) {
                Ok(usage) => {
                    let mut resp = ServerResponse::ok("ok");
                    resp.usage = Some(usage);
                    resp
                },
                Err(e) => ServerResponse::err(
                    err_label(e, team_id.as_str(), None, None).as_str(),
                ),
            }
        },
    };
    r.sessions = state.list_sessions();
    r.teams = state.teams_snapshot();
    r
}

} // verus!
