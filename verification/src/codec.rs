//! A canonical JSON document for the aggregate root.
//!
//! `encode_state` renders the whole state as a JSON value tree and
//! `decode_state` reads one back, validating well-formedness. The
//! decoders are specified as functions on the tree itself (`dec_state`
//! and friends), and encoding ensures that decoding what was written
//! yields the original state field for field. Decoding checks each
//! object's keys against the canonical field names, in order.

use vstd::prelude::*;
use crate::domain::{
    MemberStatus, MemberV, MessageV, PaneState, PaneV, PlanStatus, RecoveryPolicy, SessionV,
    TaskStatus, TaskV, TeamDisplayMode, TeamMessagePriority, TeamV, WindowState, WindowV,
    str_eq,
};
use crate::engine::{EngineState, StateV, wf_state};

verus! {

/// A JSON value. Numbers are restricted to the unsigned integers the
/// document needs.
pub enum Json {
    Null,
    Bool(bool),
    UInt(u64),
    Str(String),
    Arr(Vec<Json>),
    Obj(Vec<(String, Json)>),
}

// ---------------------------------------------------------------------
// Decoding, specified on the tree.
// ---------------------------------------------------------------------

/// Reads an id that must fit a usize.
pub open spec fn dec_usize(j: Json) -> Option<usize> {
    match j {
        Json::UInt(n) => if n <= usize::MAX as u64 {
            Some(n as usize)
        } else {
            None
        },
        _ => None,
    }
}

/// Reads a 64-bit counter.
pub open spec fn dec_u64(j: Json) -> Option<u64> {
    match j {
        Json::UInt(n) => Some(n),
        _ => None,
    }
}

/// Reads a boolean.
pub open spec fn dec_bool(j: Json) -> Option<bool> {
    match j {
        Json::Bool(b) => Some(b),
        _ => None,
    }
}

/// Reads a string.
pub open spec fn dec_string(j: Json) -> Option<Seq<char>> {
    match j {
        Json::Str(s) => Some(s@),
        _ => None,
    }
}

/// Reads an optional counter; `null` stands for absence.
pub open spec fn dec_opt_u64(j: Json) -> Option<Option<u64>> {
    match j {
        Json::Null => Some(None),
        Json::UInt(n) => Some(Some(n)),
        _ => None,
    }
}

/// Reads an optional id; `null` stands for absence.
pub open spec fn dec_opt_usize(j: Json) -> Option<Option<usize>> {
    match j {
        Json::Null => Some(None),
        Json::UInt(n) => if n <= usize::MAX as u64 {
            Some(Some(n as usize))
        } else {
            None
        },
        _ => None,
    }
}

/// Reads an optional string; `null` stands for absence.
pub open spec fn dec_opt_string(j: Json) -> Option<Option<Seq<char>>> {
    match j {
        Json::Null => Some(None),
        Json::Str(s) => Some(Some(s@)),
        _ => None,
    }
}

/// Reads a display mode.
pub open spec fn dec_mode(j: Json) -> Option<TeamDisplayMode> {
    match dec_string(j) {
        Some(s) => if s == "in_process"@ {
            Some(TeamDisplayMode::InProcess)
        } else if s == "split_pane"@ {
            Some(TeamDisplayMode::SplitPane)
        } else if s == "auto"@ {
            Some(TeamDisplayMode::Auto)
        } else {
            None
        },
        None => None,
    }
}

/// Reads a recovery policy.
pub open spec fn dec_policy(j: Json) -> Option<RecoveryPolicy> {
    match dec_string(j) {
        Some(s) => if s == "auto_reassign"@ {
            Some(RecoveryPolicy::AutoReassign)
        } else if s == "manual"@ {
            Some(RecoveryPolicy::Manual)
        } else {
            None
        },
        None => None,
    }
}

/// Reads a member status.
pub open spec fn dec_member_status(j: Json) -> Option<MemberStatus> {
    match dec_string(j) {
        Some(s) => if s == "active"@ {
            Some(MemberStatus::Active)
        } else if s == "terminated"@ {
            Some(MemberStatus::Terminated)
        } else {
            None
        },
        None => None,
    }
}

/// Reads a plan status.
pub open spec fn dec_plan_status(j: Json) -> Option<PlanStatus> {
    match dec_string(j) {
        Some(s) => if s == "planning"@ {
            Some(PlanStatus::Planning)
        } else if s == "approved"@ {
            Some(PlanStatus::Approved)
        } else if s == "rejected"@ {
            Some(PlanStatus::Rejected)
        } else {
            None
        },
        None => None,
    }
}

/// Reads a task status.
pub open spec fn dec_task_status(j: Json) -> Option<TaskStatus> {
    match dec_string(j) {
        Some(s) => if s == "pending"@ {
            Some(TaskStatus::Pending)
        } else if s == "blocked"@ {
            Some(TaskStatus::Blocked)
        } else if s == "in_progress"@ {
            Some(TaskStatus::InProgress)
        } else if s == "done"@ {
            Some(TaskStatus::Done)
        } else {
            None
        },
        None => None,
    }
}

/// Reads a message priority.
pub open spec fn dec_priority(j: Json) -> Option<TeamMessagePriority> {
    match dec_string(j) {
        Some(s) => if s == "low"@ {
            Some(TeamMessagePriority::Low)
        } else if s == "normal"@ {
            Some(TeamMessagePriority::Normal)
        } else if s == "high"@ {
            Some(TeamMessagePriority::High)
        } else if s == "urgent"@ {
            Some(TeamMessagePriority::Urgent)
        } else {
            None
        },
        None => None,
    }
}

/// Reads a list of ids.
pub open spec fn dec_usize_seq(s: Seq<Json>) -> Option<Seq<usize>>
    decreases s.len(),
{
    if s.len() == 0 {
        Some(Seq::empty())
    } else {
        match (dec_usize_seq(s.drop_last()), dec_usize(s.last())) {
            (Some(r), Some(v)) => Some(r.push(v)),
            _ => None,
        }
    }
}

/// Reads a list of strings.
pub open spec fn dec_string_seq(s: Seq<Json>) -> Option<Seq<Seq<char>>>
    decreases s.len(),
{
    if s.len() == 0 {
        Some(Seq::empty())
    } else {
        match (dec_string_seq(s.drop_last()), dec_string(s.last())) {
            (Some(r), Some(v)) => Some(r.push(v)),
            _ => None,
        }
    }
}

/// Reads a pane record.
pub open spec fn dec_pane(j: Json) -> Option<PaneV> {
    match j {
        Json::Obj(o) => if o@.len() == 3 && o@[0].0@ == "id"@ && o@[1].0@ == "title"@ && o@[2].0@ == "cwd"@ {
            match (dec_usize(o@[0].1), dec_string(o@[1].1), dec_opt_string(o@[2].1)) {
                (Some(id), Some(title), Some(cwd)) => Some(PaneV { id, title, cwd }),
                _ => None,
            }
        } else {
            None
        },
        _ => None,
    }
}

/// Reads a list of pane records.
pub open spec fn dec_pane_seq(s: Seq<Json>) -> Option<Seq<PaneV>>
    decreases s.len(),
{
    if s.len() == 0 {
        Some(Seq::empty())
    } else {
        match (dec_pane_seq(s.drop_last()), dec_pane(s.last())) {
            (Some(r), Some(v)) => Some(r.push(v)),
            _ => None,
        }
    }
}

/// Reads an array of pane records.
pub open spec fn dec_pane_list(j: Json) -> Option<Seq<PaneV>> {
    match j {
        Json::Arr(items) => dec_pane_seq(items@),
        _ => None,
    }
}

/// Reads a window record.
pub open spec fn dec_window(j: Json) -> Option<WindowV> {
    match j {
        Json::Obj(o) => if o@.len() == 4 && o@[0].0@ == "id"@ && o@[1].0@ == "title"@ && o@[2].0@ == "panes"@ && o@[3].0@ == "active_pane"@ {
            match (
                dec_usize(o@[0].1),
                dec_string(o@[1].1),
                dec_pane_list(o@[2].1),
                dec_usize(o@[3].1),
            ) {
                (Some(id), Some(title), Some(panes), Some(active_pane)) => Some(
                    WindowV { id, title, panes, active_pane },
                ),
                _ => None,
            }
        } else {
            None
        },
        _ => None,
    }
}

/// Reads a list of window records.
pub open spec fn dec_window_seq(s: Seq<Json>) -> Option<Seq<WindowV>>
    decreases s.len(),
{
    if s.len() == 0 {
        Some(Seq::empty())
    } else {
        match (dec_window_seq(s.drop_last()), dec_window(s.last())) {
            (Some(r), Some(v)) => Some(r.push(v)),
            _ => None,
        }
    }
}

/// Reads a session record.
pub open spec fn dec_session(j: Json) -> Option<SessionV> {
    match j {
        Json::Obj(o) => if o@.len() == 3 && o@[0].0@ == "name"@ && o@[1].0@ == "windows"@ && o@[2].0@ == "active_window"@ {
            let windows = match o@[1].1 {
                Json::Arr(items) => dec_window_seq(items@),
                _ => None,
            };
            match (dec_string(o@[0].1), windows, dec_usize(o@[2].1)) {
                (Some(name), Some(ws), Some(active_window)) => Some(
                    SessionV { name, windows: ws, active_window },
                ),
                _ => None,
            }
        } else {
            None
        },
        _ => None,
    }
}

/// Reads the session mapping: a sequence of keyed entries whose key
/// must equal the record's own name.
pub open spec fn dec_session_entry_seq(s: Seq<(String, Json)>) -> Option<Seq<SessionV>>
    decreases s.len(),
{
    if s.len() == 0 {
        Some(Seq::empty())
    } else {
        match (dec_session_entry_seq(s.drop_last()), dec_session(s.last().1)) {
            (Some(r), Some(v)) => if s.last().0@ == v.name {
                Some(r.push(v))
            } else {
                None
            },
            _ => None,
        }
    }
}

/// Reads a member record.
pub open spec fn dec_member(j: Json) -> Option<MemberV> {
    match j {
        Json::Obj(o) => if o@.len() == 14 && o@[0].0@ == "id"@ && o@[1].0@ == "name"@ && o@[2].0@ == "model"@ && o@[3].0@ == "is_lead"@ && o@[4].0@ == "status"@ && o@[5].0@ == "terminated_at"@ && o@[6].0@ == "termination_reason"@ && o@[7].0@ == "require_plan_approval"@ && o@[8].0@ == "plan_status"@ && o@[9].0@ == "latest_plan"@ && o@[10].0@ == "plan_updated_at"@ && o@[11].0@ == "input_tokens"@ && o@[12].0@ == "output_tokens"@ && o@[13].0@ == "cost_microusd"@ {
            let id = dec_usize(o@[0].1);
            let name = dec_string(o@[1].1);
            let model = dec_string(o@[2].1);
            let is_lead = dec_bool(o@[3].1);
            let status = dec_member_status(o@[4].1);
            let terminated_at = dec_opt_u64(o@[5].1);
            let termination_reason = dec_opt_string(o@[6].1);
            let require_plan_approval = dec_bool(o@[7].1);
            let plan_status = dec_plan_status(o@[8].1);
            let latest_plan = dec_opt_string(o@[9].1);
            let plan_updated_at = dec_opt_u64(o@[10].1);
            let input_tokens = dec_u64(o@[11].1);
            let output_tokens = dec_u64(o@[12].1);
            let cost_microusd = dec_u64(o@[13].1);
            if id is Some && name is Some && model is Some && is_lead is Some && status is Some
                && terminated_at is Some && termination_reason is Some && require_plan_approval
                is Some && plan_status is Some && latest_plan is Some && plan_updated_at is Some
                && input_tokens is Some && output_tokens is Some && cost_microusd is Some {
                Some(
                    MemberV {
                        id: id->0,
                        name: name->0,
                        model: model->0,
                        is_lead: is_lead->0,
                        status: status->0,
                        terminated_at: terminated_at->0,
                        termination_reason: termination_reason->0,
                        require_plan_approval: require_plan_approval->0,
                        plan_status: plan_status->0,
                        latest_plan: latest_plan->0,
                        plan_updated_at: plan_updated_at->0,
                        input_tokens: input_tokens->0,
                        output_tokens: output_tokens->0,
                        cost_microusd: cost_microusd->0,
                    },
                )
            } else {
                None
            }
        } else {
            None
        },
        _ => None,
    }
}

/// Reads a list of member records.
pub open spec fn dec_member_seq(s: Seq<Json>) -> Option<Seq<MemberV>>
    decreases s.len(),
{
    if s.len() == 0 {
        Some(Seq::empty())
    } else {
        match (dec_member_seq(s.drop_last()), dec_member(s.last())) {
            (Some(r), Some(v)) => Some(r.push(v)),
            _ => None,
        }
    }
}

/// Reads a task record.
pub open spec fn dec_task(j: Json) -> Option<TaskV> {
    match j {
        Json::Obj(o) => if o@.len() == 11 && o@[0].0@ == "id"@ && o@[1].0@ == "title"@ && o@[2].0@ == "status"@ && o@[3].0@ == "assignee"@ && o@[4].0@ == "deps"@ && o@[5].0@ == "touched_files"@ && o@[6].0@ == "input_tokens"@ && o@[7].0@ == "output_tokens"@ && o@[8].0@ == "cost_microusd"@ && o@[9].0@ == "created_at"@ && o@[10].0@ == "updated_at"@ {
            let deps = match o@[4].1 {
                Json::Arr(items) => dec_usize_seq(items@),
                _ => None,
            };
            let touched_files = match o@[5].1 {
                Json::Arr(items) => dec_string_seq(items@),
                _ => None,
            };
            let id = dec_usize(o@[0].1);
            let title = dec_string(o@[1].1);
            let status = dec_task_status(o@[2].1);
            let assignee = dec_opt_usize(o@[3].1);
            let input_tokens = dec_u64(o@[6].1);
            let output_tokens = dec_u64(o@[7].1);
            let cost_microusd = dec_u64(o@[8].1);
            let created_at = dec_u64(o@[9].1);
            let updated_at = dec_u64(o@[10].1);
            if id is Some && title is Some && status is Some && assignee is Some && deps is Some
                && touched_files is Some && input_tokens is Some && output_tokens is Some
                && cost_microusd is Some && created_at is Some && updated_at is Some {
                Some(
                    TaskV {
                        id: id->0,
                        title: title->0,
                        status: status->0,
                        assignee: assignee->0,
                        deps: deps->0,
                        touched_files: touched_files->0,
                        input_tokens: input_tokens->0,
                        output_tokens: output_tokens->0,
                        cost_microusd: cost_microusd->0,
                        created_at: created_at->0,
                        updated_at: updated_at->0,
                    },
                )
            } else {
                None
            }
        } else {
            None
        },
        _ => None,
    }
}

/// Reads a list of task records.
pub open spec fn dec_task_seq(s: Seq<Json>) -> Option<Seq<TaskV>>
    decreases s.len(),
{
    if s.len() == 0 {
        Some(Seq::empty())
    } else {
        match (dec_task_seq(s.drop_last()), dec_task(s.last())) {
            (Some(r), Some(v)) => Some(r.push(v)),
            _ => None,
        }
    }
}

/// Reads a message record.
pub open spec fn dec_message(j: Json) -> Option<MessageV> {
    match j {
        Json::Obj(o) => if o@.len() == 7 && o@[0].0@ == "id"@ && o@[1].0@ == "from_member"@ && o@[2].0@ == "to_member"@ && o@[3].0@ == "text"@ && o@[4].0@ == "priority"@ && o@[5].0@ == "created_at"@ && o@[6].0@ == "read_by"@ {
            let read_by = match o@[6].1 {
                Json::Arr(items) => dec_usize_seq(items@),
                _ => None,
            };
            let id = dec_usize(o@[0].1);
            let from_member = dec_opt_usize(o@[1].1);
            let to_member = dec_opt_usize(o@[2].1);
            let text = dec_string(o@[3].1);
            let priority = dec_priority(o@[4].1);
            let created_at = dec_u64(o@[5].1);
            if id is Some && from_member is Some && to_member is Some && text is Some && priority
                is Some && created_at is Some && read_by is Some {
                Some(
                    MessageV {
                        id: id->0,
                        from_member: from_member->0,
                        to_member: to_member->0,
                        text: text->0,
                        priority: priority->0,
                        created_at: created_at->0,
                        read_by: read_by->0,
                    },
                )
            } else {
                None
            }
        } else {
            None
        },
        _ => None,
    }
}

/// Reads a list of message records.
pub open spec fn dec_message_seq(s: Seq<Json>) -> Option<Seq<MessageV>>
    decreases s.len(),
{
    if s.len() == 0 {
        Some(Seq::empty())
    } else {
        match (dec_message_seq(s.drop_last()), dec_message(s.last())) {
            (Some(r), Some(v)) => Some(r.push(v)),
            _ => None,
        }
    }
}

/// Reads a team record.
pub open spec fn dec_team(j: Json) -> Option<TeamV> {
    match j {
        Json::Obj(o) => if o@.len() == 10 && o@[0].0@ == "id"@ && o@[1].0@ == "mode"@ && o@[2].0@ == "delegation_only"@ && o@[3].0@ == "recovery_policy"@ && o@[4].0@ == "members"@ && o@[5].0@ == "tasks"@ && o@[6].0@ == "messages"@ && o@[7].0@ == "next_member_id"@ && o@[8].0@ == "next_task_id"@ && o@[9].0@ == "next_message_id"@ {
            let members = match o@[4].1 {
                Json::Arr(items) => dec_member_seq(items@),
                _ => None,
            };
            let tasks = match o@[5].1 {
                Json::Arr(items) => dec_task_seq(items@),
                _ => None,
            };
            let messages = match o@[6].1 {
                Json::Arr(items) => dec_message_seq(items@),
                _ => None,
            };
            let id = dec_string(o@[0].1);
            let mode = dec_mode(o@[1].1);
            let delegation_only = dec_bool(o@[2].1);
            let recovery_policy = dec_policy(o@[3].1);
            let next_member_id = dec_usize(o@[7].1);
            let next_task_id = dec_usize(o@[8].1);
            let next_message_id = dec_usize(o@[9].1);
            if id is Some && mode is Some && delegation_only is Some && recovery_policy is Some
                && members is Some && tasks is Some && messages is Some && next_member_id is Some
                && next_task_id is Some && next_message_id is Some {
                Some(
                    TeamV {
                        id: id->0,
                        mode: mode->0,
                        delegation_only: delegation_only->0,
                        recovery_policy: recovery_policy->0,
                        members: members->0,
                        tasks: tasks->0,
                        messages: messages->0,
                        next_member_id: next_member_id->0,
                        next_task_id: next_task_id->0,
                        next_message_id: next_message_id->0,
                    },
                )
            } else {
                None
            }
        } else {
            None
        },
        _ => None,
    }
}

/// Reads the team mapping: a sequence of keyed entries whose key must
/// equal the record's own id.
pub open spec fn dec_team_entry_seq(s: Seq<(String, Json)>) -> Option<Seq<TeamV>>
    decreases s.len(),
{
    if s.len() == 0 {
        Some(Seq::empty())
    } else {
        match (dec_team_entry_seq(s.drop_last()), dec_team(s.last().1)) {
            (Some(r), Some(v)) => if s.last().0@ == v.id {
                Some(r.push(v))
            } else {
                None
            },
            _ => None,
        }
    }
}

/// Reads the whole document: the session mapping, the active session
/// and the team mapping.
pub open spec fn dec_state(j: Json) -> Option<StateV> {
    match j {
        Json::Obj(o) => if o@.len() == 3 && o@[0].0@ == "sessions"@ && o@[1].0@ == "active_session"@ && o@[2].0@ == "teams"@ {
            let sessions = match o@[0].1 {
                Json::Obj(entries) => dec_session_entry_seq(entries@),
                _ => None,
            };
            let active_session = dec_opt_string(o@[1].1);
            let teams = match o@[2].1 {
                Json::Obj(entries) => dec_team_entry_seq(entries@),
                _ => None,
            };
            if sessions is Some && active_session is Some && teams is Some {
                Some(
                    StateV {
                        sessions: sessions->0,
                        active_session: active_session->0,
                        teams: teams->0,
                    },
                )
            } else {
                None
            }
        } else {
            None
        },
        _ => None,
    }
}

// ---------------------------------------------------------------------
// Encoding and decoding, executable: primitives.
// ---------------------------------------------------------------------

fn encode_usize(n: usize) -> (r: Json)
    ensures
        dec_usize(r) == Some(n),
{
    Json::UInt(n as u64)
}

fn encode_u64(n: u64) -> (r: Json)
    ensures
        dec_u64(r) == Some(n),
{
    Json::UInt(n)
}

fn encode_bool(b: bool) -> (r: Json)
    ensures
        dec_bool(r) == Some(b),
{
    Json::Bool(b)
}

fn encode_string(s: &String) -> (r: Json)
    ensures
        dec_string(r) == Some(s@),
{
    Json::Str(s.clone())
}

fn encode_opt_u64(o: Option<u64>) -> (r: Json)
    ensures
        dec_opt_u64(r) == Some(o),
{
    match o {
        None => Json::Null,
        Some(n) => Json::UInt(n),
    }
}

fn encode_opt_usize(o: Option<usize>) -> (r: Json)
    ensures
        dec_opt_usize(r) == Some(o),
{
    match o {
        None => Json::Null,
        Some(n) => Json::UInt(n as u64),
    }
}

fn encode_opt_string(o: &Option<String>) -> (r: Json)
    ensures
        dec_opt_string(r) == Some(crate::domain::opt_str_view(*o)),
{
    match o {
        None => Json::Null,
        Some(s) => Json::Str(s.clone()),
    }
}

fn decode_usize(j: &Json) -> (r: Option<usize>)
    ensures
        r == dec_usize(*j),
{
    match j {
        Json::UInt(n) => {
            if *n <= usize::MAX as u64 {
                Some(*n as usize)
            } else {
                None
            }
        },
        _ => None,
    }
}

fn decode_u64(j: &Json) -> (r: Option<u64>)
    ensures
        r == dec_u64(*j),
{
    match j {
        Json::UInt(n) => Some(*n),
        _ => None,
    }
}

fn decode_bool(j: &Json) -> (r: Option<bool>)
    ensures
        r == dec_bool(*j),
{
    match j {
        Json::Bool(b) => Some(*b),
        _ => None,
    }
}

fn decode_string(j: &Json) -> (r: Option<String>)
    ensures
        match dec_string(*j) {
            Some(v) => r matches Some(s) && s@ == v,
            None => r is None,
        },
{
    match j {
        Json::Str(s) => Some(s.clone()),
        _ => None,
    }
}

fn decode_opt_u64(j: &Json) -> (r: Option<Option<u64>>)
    ensures
        r == dec_opt_u64(*j),
{
    match j {
        Json::Null => Some(None),
        Json::UInt(n) => Some(Some(*n)),
        _ => None,
    }
}

fn decode_opt_usize(j: &Json) -> (r: Option<Option<usize>>)
    ensures
        r == dec_opt_usize(*j),
{
    match j {
        Json::Null => Some(None),
        Json::UInt(n) => {
            if *n <= usize::MAX as u64 {
                Some(Some(*n as usize))
            } else {
                None
            }
        },
        _ => None,
    }
}

fn key_is(o: &Vec<(String, Json)>, i: usize, name: &str) -> (r: bool)
    requires
        i < o@.len(),
    ensures
        r == (o@[i as int].0@ == name@),
{
    str_eq(o[i].0.as_str(), name)
}

fn decode_opt_string(j: &Json) -> (r: Option<Option<String>>)
    ensures
        match dec_opt_string(*j) {
            Some(None) => r == Some(None::<String>),
            Some(Some(v)) => r matches Some(o) && o matches Some(s) && s@ == v,
            None => r is None,
        },
{
    match j {
        Json::Null => Some(None),
        Json::Str(s) => Some(Some(s.clone())),
        _ => None,
    }
}

// ---------------------------------------------------------------------
// Encoding and decoding, executable: enums.
// ---------------------------------------------------------------------

fn encode_mode(m: TeamDisplayMode) -> (r: Json)
    ensures
        dec_mode(r) == Some(m),
{
    proof {
        reveal_strlit("in_process");
        reveal_strlit("split_pane");
        reveal_strlit("auto");
        assert("in_process"@.len() == 10);
        assert("split_pane"@.len() == 10);
        assert(("in_process"@)[0] == 'i');
        assert(("split_pane"@)[0] == 's');
        assert("auto"@.len() == 4);
    }
    match m {
        TeamDisplayMode::InProcess => Json::Str("in_process".to_owned()),
        TeamDisplayMode::SplitPane => Json::Str("split_pane".to_owned()),
        TeamDisplayMode::Auto => Json::Str("auto".to_owned()),
    }
}

fn decode_mode(j: &Json) -> (r: Option<TeamDisplayMode>)
    ensures
        r == dec_mode(*j),
{
    match j {
        Json::Str(s) => {
            if str_eq(s.as_str(), "in_process") {
                Some(TeamDisplayMode::InProcess)
            } else if str_eq(s.as_str(), "split_pane") {
                Some(TeamDisplayMode::SplitPane)
            } else if str_eq(s.as_str(), "auto") {
                Some(TeamDisplayMode::Auto)
            } else {
                None
            }
        },
        _ => None,
    }
}

fn encode_policy(p: RecoveryPolicy) -> (r: Json)
    ensures
        dec_policy(r) == Some(p),
{
    proof {
        reveal_strlit("auto_reassign");
        reveal_strlit("manual");
        assert("auto_reassign"@.len() == 13);
        assert("manual"@.len() == 6);
    }
    match p {
        RecoveryPolicy::AutoReassign => Json::Str("auto_reassign".to_owned()),
        RecoveryPolicy::Manual => Json::Str("manual".to_owned()),
    }
}

fn decode_policy(j: &Json) -> (r: Option<RecoveryPolicy>)
    ensures
        r == dec_policy(*j),
{
    match j {
        Json::Str(s) => {
            if str_eq(s.as_str(), "auto_reassign") {
                Some(RecoveryPolicy::AutoReassign)
            } else if str_eq(s.as_str(), "manual") {
                Some(RecoveryPolicy::Manual)
            } else {
                None
            }
        },
        _ => None,
    }
}

fn encode_member_status(st: MemberStatus) -> (r: Json)
    ensures
        dec_member_status(r) == Some(st),
{
    proof {
        reveal_strlit("active");
        reveal_strlit("terminated");
        assert("active"@.len() == 6);
        assert("terminated"@.len() == 10);
    }
    match st {
        MemberStatus::Active => Json::Str("active".to_owned()),
        MemberStatus::Terminated => Json::Str("terminated".to_owned()),
    }
}

fn decode_member_status(j: &Json) -> (r: Option<MemberStatus>)
    ensures
        r == dec_member_status(*j),
{
    match j {
        Json::Str(s) => {
            if str_eq(s.as_str(), "active") {
                Some(MemberStatus::Active)
            } else if str_eq(s.as_str(), "terminated") {
                Some(MemberStatus::Terminated)
            } else {
                None
            }
        },
        _ => None,
    }
}

fn encode_plan_status(st: PlanStatus) -> (r: Json)
    ensures
        dec_plan_status(r) == Some(st),
{
    proof {
        reveal_strlit("planning");
        reveal_strlit("approved");
        reveal_strlit("rejected");
        assert("planning"@.len() == 8);
        assert("approved"@.len() == 8);
        assert("rejected"@.len() == 8);
        assert(("planning"@)[0] == 'p');
        assert(("approved"@)[0] == 'a');
        assert(("rejected"@)[0] == 'r');
    }
    match st {
        PlanStatus::Planning => Json::Str("planning".to_owned()),
        PlanStatus::Approved => Json::Str("approved".to_owned()),
        PlanStatus::Rejected => Json::Str("rejected".to_owned()),
    }
}

fn decode_plan_status(j: &Json) -> (r: Option<PlanStatus>)
    ensures
        r == dec_plan_status(*j),
{
    match j {
        Json::Str(s) => {
            if str_eq(s.as_str(), "planning") {
                Some(PlanStatus::Planning)
            } else if str_eq(s.as_str(), "approved") {
                Some(PlanStatus::Approved)
            } else if str_eq(s.as_str(), "rejected") {
                Some(PlanStatus::Rejected)
            } else {
                None
            }
        },
        _ => None,
    }
}

fn encode_task_status(st: TaskStatus) -> (r: Json)
    ensures
        dec_task_status(r) == Some(st),
{
    proof {
        reveal_strlit("pending");
        reveal_strlit("blocked");
        reveal_strlit("in_progress");
        reveal_strlit("done");
        assert("pending"@.len() == 7);
        assert("blocked"@.len() == 7);
        assert("in_progress"@.len() == 11);
        assert("done"@.len() == 4);
        assert(("pending"@)[0] == 'p');
        assert(("blocked"@)[0] == 'b');
    }
    match st {
        TaskStatus::Pending => Json::Str("pending".to_owned()),
        TaskStatus::Blocked => Json::Str("blocked".to_owned()),
        TaskStatus::InProgress => Json::Str("in_progress".to_owned()),
        TaskStatus::Done => Json::Str("done".to_owned()),
    }
}

fn decode_task_status(j: &Json) -> (r: Option<TaskStatus>)
    ensures
        r == dec_task_status(*j),
{
    match j {
        Json::Str(s) => {
            if str_eq(s.as_str(), "pending") {
                Some(TaskStatus::Pending)
            } else if str_eq(s.as_str(), "blocked") {
                Some(TaskStatus::Blocked)
            } else if str_eq(s.as_str(), "in_progress") {
                Some(TaskStatus::InProgress)
            } else if str_eq(s.as_str(), "done") {
                Some(TaskStatus::Done)
            } else {
                None
            }
        },
        _ => None,
    }
}

fn encode_priority(p: TeamMessagePriority) -> (r: Json)
    ensures
        dec_priority(r) == Some(p),
{
    proof {
        reveal_strlit("low");
        reveal_strlit("normal");
        reveal_strlit("high");
        reveal_strlit("urgent");
        assert("low"@.len() == 3);
        assert("normal"@.len() == 6);
        assert("high"@.len() == 4);
        assert("urgent"@.len() == 6);
        assert(("normal"@)[0] == 'n');
        assert(("urgent"@)[0] == 'u');
    }
    match p {
        TeamMessagePriority::Low => Json::Str("low".to_owned()),
        TeamMessagePriority::Normal => Json::Str("normal".to_owned()),
        TeamMessagePriority::High => Json::Str("high".to_owned()),
        TeamMessagePriority::Urgent => Json::Str("urgent".to_owned()),
    }
}

fn decode_priority(j: &Json) -> (r: Option<TeamMessagePriority>)
    ensures
        r == dec_priority(*j),
{
    match j {
        Json::Str(s) => {
            if str_eq(s.as_str(), "low") {
                Some(TeamMessagePriority::Low)
            } else if str_eq(s.as_str(), "normal") {
                Some(TeamMessagePriority::Normal)
            } else if str_eq(s.as_str(), "high") {
                Some(TeamMessagePriority::High)
            } else if str_eq(s.as_str(), "urgent") {
                Some(TeamMessagePriority::Urgent)
            } else {
                None
            }
        },
        _ => None,
    }
}

// ---------------------------------------------------------------------
// Encoding and decoding, executable: lists of scalars.
// ---------------------------------------------------------------------

fn encode_usize_list(v: &Vec<usize>) -> (r: Json)
    ensures
        r matches Json::Arr(items) && dec_usize_seq(items@) == Some(v@),
{
    let mut items: Vec<Json> = Vec::new();
    let mut i: usize = 0;
    while i < v.len()
        invariant
            i <= v.len(),
            items@.len() == i,
            dec_usize_seq(items@) == Some(v@.subrange(0, i as int)),
        decreases v.len() - i,
    {
        let ghost prev = items@;
        items.push(encode_usize(v[i]));
        proof {
            assert(items@.drop_last() =~= prev);
            assert(v@.subrange(0, i + 1) =~= v@.subrange(0, i as int).push(v@[i as int]));
        }
        i = i + 1;
    }
    proof {
        assert(v@.subrange(0, v@.len() as int) =~= v@);
    }
    Json::Arr(items)
}

fn decode_usize_list(j: &Json) -> (r: Option<Vec<usize>>)
    ensures
        ({
            let d = match *j {
                Json::Arr(items) => dec_usize_seq(items@),
                _ => None,
            };
            match d {
                Some(v) => r matches Some(x) && x@ == v,
                None => r is None,
            }
        }),
{
    match j {
        Json::Arr(items) => {
            let mut out: Vec<usize> = Vec::new();
            let mut ok: bool = true;
            let mut i: usize = 0;
            while i < items.len()
                invariant
                    i <= items.len(),
                    match dec_usize_seq(items@.subrange(0, i as int)) {
                        Some(v) => ok && out@ == v,
                        None => !ok,
                    },
                decreases items.len() - i,
            {
                proof {
                    assert(items@.subrange(0, i + 1).drop_last() =~= items@.subrange(
                        0,
                        i as int,
                    ));
                    assert(items@.subrange(0, i + 1).last() == items@[i as int]);
                }
                match decode_usize(&items[i]) {
                    Some(n) => {
                        out.push(n);
                    },
                    None => {
                        ok = false;
                    },
                }
                i = i + 1;
            }
            proof {
                assert(items@.subrange(0, items@.len() as int) =~= items@);
            }
            if ok {
                Some(out)
            } else {
                None
            }
        },
        _ => None,
    }
}

fn encode_string_list(v: &Vec<String>) -> (r: Json)
    ensures
        r matches Json::Arr(items) && dec_string_seq(items@) == Some(
            crate::domain::strs_view(v@),
        ),
{
    let mut items: Vec<Json> = Vec::new();
    let mut i: usize = 0;
    while i < v.len()
        invariant
            i <= v.len(),
            items@.len() == i,
            dec_string_seq(items@) == Some(
                crate::domain::strs_view(v@.subrange(0, i as int)),
            ),
        decreases v.len() - i,
    {
        let ghost prev = items@;
        items.push(encode_string(&v[i]));
        proof {
            assert(items@.drop_last() =~= prev);
            assert(crate::domain::strs_view(v@.subrange(0, i + 1))
                =~= crate::domain::strs_view(v@.subrange(0, i as int)).push(v@[i as int]@));
        }
        i = i + 1;
    }
    proof {
        assert(v@.subrange(0, v@.len() as int) =~= v@);
        assert(crate::domain::strs_view(v@.subrange(0, v@.len() as int))
            =~= crate::domain::strs_view(v@));
    }
    Json::Arr(items)
}

fn decode_string_list(j: &Json) -> (r: Option<Vec<String>>)
    ensures
        ({
            let d = match *j {
                Json::Arr(items) => dec_string_seq(items@),
                _ => None,
            };
            match d {
                Some(v) => r matches Some(x) && crate::domain::strs_view(x@) == v,
                None => r is None,
            }
        }),
{
    match j {
        Json::Arr(items) => {
            let mut out: Vec<String> = Vec::new();
            let mut ok: bool = true;
            let mut i: usize = 0;
            while i < items.len()
                invariant
                    i <= items.len(),
                    match dec_string_seq(items@.subrange(0, i as int)) {
                        Some(v) => ok && crate::domain::strs_view(out@) == v,
                        None => !ok,
                    },
                decreases items.len() - i,
            {
                proof {
                    assert(items@.subrange(0, i + 1).drop_last() =~= items@.subrange(
                        0,
                        i as int,
                    ));
                    assert(items@.subrange(0, i + 1).last() == items@[i as int]);
                }
                let ghost prev = crate::domain::strs_view(out@);
                match decode_string(&items[i]) {
                    Some(s) => {
                        out.push(s);
                        proof {
                            assert(crate::domain::strs_view(out@) =~= prev.push(
                                out@[out@.len() - 1]@,
                            ));
                        }
                    },
                    None => {
                        ok = false;
                    },
                }
                i = i + 1;
            }
            proof {
                assert(items@.subrange(0, items@.len() as int) =~= items@);
            }
            if ok {
                Some(out)
            } else {
                None
            }
        },
        _ => None,
    }
}

// ---------------------------------------------------------------------
// Encoding and decoding, executable: session records.
// ---------------------------------------------------------------------

fn encode_pane(p: &PaneState) -> (r: Json)
    ensures
        dec_pane(r) == Some(p@),
{
    let mut o: Vec<(String, Json)> = Vec::new();
    o.push(("id".to_owned(), encode_usize(p.id)));
    o.push(("title".to_owned(), encode_string(&p.title)));
    o.push(("cwd".to_owned(), encode_opt_string(&p.cwd)));
    Json::Obj(o)
}

fn decode_pane(j: &Json) -> (r: Option<PaneState>)
    ensures
        match dec_pane(*j) {
            Some(v) => r matches Some(p) && p@ == v,
            None => r is None,
        },
{
    match j {
        Json::Obj(o) => {
            if o.len() != 3 {
                return None;
            }
            if !key_is(o, 0, "id") || !key_is(o, 1, "title") || !key_is(o, 2, "cwd") {
                return None;
            }
            let id = match decode_usize(&o[0].1) {
                Some(v) => v,
                None => {
                    return None;
                },
            };
            let title = match decode_string(&o[1].1) {
                Some(v) => v,
                None => {
                    return None;
                },
            };
            let cwd = match decode_opt_string(&o[2].1) {
                Some(v) => v,
                None => {
                    return None;
                },
            };
            Some(PaneState { id, title, cwd })
        },
        _ => None,
    }
}

fn encode_panes(v: &Vec<PaneState>) -> (r: Json)
    ensures
        r matches Json::Arr(items) && dec_pane_seq(items@) == Some(
            v@.map_values(|p: PaneState| p@),
        ),
{
    let mut items: Vec<Json> = Vec::new();
    let mut i: usize = 0;
    while i < v.len()
        invariant
            i <= v.len(),
            items@.len() == i,
            dec_pane_seq(items@) == Some(
                v@.subrange(0, i as int).map_values(|p: PaneState| p@),
            ),
        decreases v.len() - i,
    {
        let ghost prev = items@;
        items.push(encode_pane(&v[i]));
        proof {
            assert(items@.drop_last() =~= prev);
            assert(v@.subrange(0, i + 1).map_values(|p: PaneState| p@) =~= v@.subrange(
                0,
                i as int,
            ).map_values(|p: PaneState| p@).push(v@[i as int]@));
        }
        i = i + 1;
    }
    proof {
        assert(v@.subrange(0, v@.len() as int) =~= v@);
        assert(v@.subrange(0, v@.len() as int).map_values(|p: PaneState| p@)
            =~= v@.map_values(|p: PaneState| p@));
    }
    Json::Arr(items)
}

fn decode_panes(j: &Json) -> (r: Option<Vec<PaneState>>)
    ensures
        match dec_pane_list(*j) {
            Some(v) => r matches Some(x) && x@.map_values(|p: PaneState| p@) == v,
            None => r is None,
        },
{
    match j {
        Json::Arr(items) => {
            let mut out: Vec<PaneState> = Vec::new();
            let mut ok: bool = true;
            let mut i: usize = 0;
            while i < items.len()
                invariant
                    i <= items.len(),
                    match dec_pane_seq(items@.subrange(0, i as int)) {
                        Some(v) => ok && out@.map_values(|p: PaneState| p@) == v,
                        None => !ok,
                    },
                decreases items.len() - i,
            {
                proof {
                    assert(items@.subrange(0, i + 1).drop_last() =~= items@.subrange(
                        0,
                        i as int,
                    ));
                    assert(items@.subrange(0, i + 1).last() == items@[i as int]);
                }
                let ghost prev = out@.map_values(|p: PaneState| p@);
                match decode_pane(&items[i]) {
                    Some(p) => {
                        out.push(p);
                        proof {
                            assert(out@.map_values(|p2: PaneState| p2@) =~= prev.push(
                                out@[out@.len() - 1]@,
                            ));
                        }
                    },
                    None => {
                        ok = false;
                    },
                }
                i = i + 1;
            }
            proof {
                assert(items@.subrange(0, items@.len() as int) =~= items@);
            }
            if ok {
                Some(out)
            } else {
                None
            }
        },
        _ => None,
    }
}

fn encode_window(w: &WindowState) -> (r: Json)
    ensures
        dec_window(r) == Some(w@),
{
    let mut o: Vec<(String, Json)> = Vec::new();
    o.push(("id".to_owned(), encode_usize(w.id)));
    o.push(("title".to_owned(), encode_string(&w.title)));
    o.push(("panes".to_owned(), encode_panes(&w.panes)));
    o.push(("active_pane".to_owned(), encode_usize(w.active_pane)));
    Json::Obj(o)
}

fn decode_window(j: &Json) -> (r: Option<WindowState>)
    ensures
        match dec_window(*j) {
            Some(v) => r matches Some(w) && w@ == v,
            None => r is None,
        },
{
    match j {
        Json::Obj(o) => {
            if o.len() != 4 {
                return None;
            }
            if !key_is(o, 0, "id") || !key_is(o, 1, "title") || !key_is(o, 2, "panes") || !key_is(o, 3, "active_pane") {
                return None;
            }
            let id = match decode_usize(&o[0].1) {
                Some(v) => v,
                None => {
                    return None;
                },
            };
            let title = match decode_string(&o[1].1) {
                Some(v) => v,
                None => {
                    return None;
                },
            };
            let panes = match decode_panes(&o[2].1) {
                Some(v) => v,
                None => {
                    return None;
                },
            };
            let active_pane = match decode_usize(&o[3].1) {
                Some(v) => v,
                None => {
                    return None;
                },
            };
            Some(WindowState { id, title, panes, active_pane })
        },
        _ => None,
    }
}

fn encode_windows(v: &Vec<WindowState>) -> (r: Json)
    ensures
        r matches Json::Arr(items) && dec_window_seq(items@) == Some(
            v@.map_values(|w: WindowState| w@),
        ),
{
    let mut items: Vec<Json> = Vec::new();
    let mut i: usize = 0;
    while i < v.len()
        invariant
            i <= v.len(),
            items@.len() == i,
            dec_window_seq(items@) == Some(
                v@.subrange(0, i as int).map_values(|w: WindowState| w@),
            ),
        decreases v.len() - i,
    {
        let ghost prev = items@;
        items.push(encode_window(&v[i]));
        proof {
            assert(items@.drop_last() =~= prev);
            assert(v@.subrange(0, i + 1).map_values(|w: WindowState| w@) =~= v@.subrange(
                0,
                i as int,
            ).map_values(|w: WindowState| w@).push(v@[i as int]@));
        }
        i = i + 1;
    }
    proof {
        assert(v@.subrange(0, v@.len() as int) =~= v@);
        assert(v@.subrange(0, v@.len() as int).map_values(|w: WindowState| w@)
            =~= v@.map_values(|w: WindowState| w@));
    }
    Json::Arr(items)
}

fn decode_windows(j: &Json) -> (r: Option<Vec<WindowState>>)
    ensures
        ({
            let d = match *j {
                Json::Arr(items) => dec_window_seq(items@),
                _ => None,
            };
            match d {
                Some(v) => r matches Some(x) && x@.map_values(|w: WindowState| w@) == v,
                None => r is None,
            }
        }),
{
    match j {
        Json::Arr(items) => {
            let mut out: Vec<WindowState> = Vec::new();
            let mut ok: bool = true;
            let mut i: usize = 0;
            while i < items.len()
                invariant
                    i <= items.len(),
                    match dec_window_seq(items@.subrange(0, i as int)) {
                        Some(v) => ok && out@.map_values(|w: WindowState| w@) == v,
                        None => !ok,
                    },
                decreases items.len() - i,
            {
                proof {
                    assert(items@.subrange(0, i + 1).drop_last() =~= items@.subrange(
                        0,
                        i as int,
                    ));
                    assert(items@.subrange(0, i + 1).last() == items@[i as int]);
                }
                let ghost prev = out@.map_values(|w: WindowState| w@);
                match decode_window(&items[i]) {
                    Some(w) => {
                        out.push(w);
                        proof {
                            assert(out@.map_values(|w2: WindowState| w2@) =~= prev.push(
                                out@[out@.len() - 1]@,
                            ));
                        }
                    },
                    None => {
                        ok = false;
                    },
                }
                i = i + 1;
            }
            proof {
                assert(items@.subrange(0, items@.len() as int) =~= items@);
            }
            if ok {
                Some(out)
            } else {
                None
            }
        },
        _ => None,
    }
}

fn encode_session(s: &crate::domain::SessionState) -> (r: Json)
    ensures
        dec_session(r) == Some(s@),
{
    let mut o: Vec<(String, Json)> = Vec::new();
    o.push(("name".to_owned(), encode_string(&s.name)));
    o.push(("windows".to_owned(), encode_windows(&s.windows)));
    o.push(("active_window".to_owned(), encode_usize(s.active_window)));
    Json::Obj(o)
}

fn decode_session(j: &Json) -> (r: Option<crate::domain::SessionState>)
    ensures
        match dec_session(*j) {
            Some(v) => r matches Some(s) && s@ == v,
            None => r is None,
        },
{
    match j {
        Json::Obj(o) => {
            if o.len() != 3 {
                return None;
            }
            if !key_is(o, 0, "name") || !key_is(o, 1, "windows") || !key_is(o, 2, "active_window") {
                return None;
            }
            let name = match decode_string(&o[0].1) {
                Some(v) => v,
                None => {
                    return None;
                },
            };
            let windows = match decode_windows(&o[1].1) {
                Some(v) => v,
                None => {
                    return None;
                },
            };
            let active_window = match decode_usize(&o[2].1) {
                Some(v) => v,
                None => {
                    return None;
                },
            };
            Some(crate::domain::SessionState { name, windows, active_window })
        },
        _ => None,
    }
}

fn encode_sessions(v: &Vec<crate::domain::SessionState>) -> (r: Json)
    ensures
        r matches Json::Obj(entries) && dec_session_entry_seq(entries@) == Some(
            v@.map_values(|s: crate::domain::SessionState| s@),
        ),
{
    let mut entries: Vec<(String, Json)> = Vec::new();
    let mut i: usize = 0;
    while i < v.len()
        invariant
            i <= v.len(),
            entries@.len() == i,
            dec_session_entry_seq(entries@) == Some(
                v@.subrange(0, i as int).map_values(|s: crate::domain::SessionState| s@),
            ),
        decreases v.len() - i,
    {
        let ghost prev = entries@;
        entries.push((v[i].name.clone(), encode_session(&v[i])));
        proof {
            assert(entries@.drop_last() =~= prev);
            assert(entries@.last().0@ == v@[i as int]@.name);
            assert(v@.subrange(0, i + 1).map_values(|s: crate::domain::SessionState| s@)
                =~= v@.subrange(0, i as int).map_values(
                |s: crate::domain::SessionState| s@,
            ).push(v@[i as int]@));
        }
        i = i + 1;
    }
    proof {
        assert(v@.subrange(0, v@.len() as int) =~= v@);
        assert(v@.subrange(0, v@.len() as int).map_values(
            |s: crate::domain::SessionState| s@,
        ) =~= v@.map_values(|s: crate::domain::SessionState| s@));
    }
    Json::Obj(entries)
}

fn decode_sessions(j: &Json) -> (r: Option<Vec<crate::domain::SessionState>>)
    ensures
        ({
            let d = match *j {
                Json::Obj(entries) => dec_session_entry_seq(entries@),
                _ => None,
            };
            match d {
                Some(v) => r matches Some(x) && x@.map_values(
                    |s: crate::domain::SessionState| s@,
                ) == v,
                None => r is None,
            }
        }),
{
    match j {
        Json::Obj(entries) => {
            let mut out: Vec<crate::domain::SessionState> = Vec::new();
            let mut ok: bool = true;
            let mut i: usize = 0;
            while i < entries.len()
                invariant
                    i <= entries.len(),
                    match dec_session_entry_seq(entries@.subrange(0, i as int)) {
                        Some(v) => ok && out@.map_values(
                            |s: crate::domain::SessionState| s@,
                        ) == v,
                        None => !ok,
                    },
                decreases entries.len() - i,
            {
                proof {
                    assert(entries@.subrange(0, i + 1).drop_last() =~= entries@.subrange(
                        0,
                        i as int,
                    ));
                    assert(entries@.subrange(0, i + 1).last() == entries@[i as int]);
                }
                let ghost prev = out@.map_values(|s: crate::domain::SessionState| s@);
                match decode_session(&entries[i].1) {
                    Some(sess) => {
                        if str_eq(entries[i].0.as_str(), sess.name.as_str()) {
                            out.push(sess);
                            proof {
                                assert(out@.map_values(
                                    |s2: crate::domain::SessionState| s2@,
                                ) =~= prev.push(out@[out@.len() - 1]@));
                            }
                        } else {
                            ok = false;
                        }
                    },
                    None => {
                        ok = false;
                    },
                }
                i = i + 1;
            }
            proof {
                assert(entries@.subrange(0, entries@.len() as int) =~= entries@);
            }
            if ok {
                Some(out)
            } else {
                None
            }
        },
        _ => None,
    }
}

// ---------------------------------------------------------------------
// Encoding and decoding, executable: team records.
// ---------------------------------------------------------------------

fn encode_member(m: &crate::domain::MemberState) -> (r: Json)
    ensures
        dec_member(r) == Some(m@),
{
    let mut o: Vec<(String, Json)> = Vec::new();
    o.push(("id".to_owned(), encode_usize(m.id)));
    o.push(("name".to_owned(), encode_string(&m.name)));
    o.push(("model".to_owned(), encode_string(&m.model)));
    o.push(("is_lead".to_owned(), encode_bool(m.is_lead)));
    o.push(("status".to_owned(), encode_member_status(m.status)));
    o.push(("terminated_at".to_owned(), encode_opt_u64(m.terminated_at)));
    o.push(("termination_reason".to_owned(), encode_opt_string(&m.termination_reason)));
    o.push(("require_plan_approval".to_owned(), encode_bool(m.require_plan_approval)));
    o.push(("plan_status".to_owned(), encode_plan_status(m.plan_status)));
    o.push(("latest_plan".to_owned(), encode_opt_string(&m.latest_plan)));
    o.push(("plan_updated_at".to_owned(), encode_opt_u64(m.plan_updated_at)));
    o.push(("input_tokens".to_owned(), encode_u64(m.input_tokens)));
    o.push(("output_tokens".to_owned(), encode_u64(m.output_tokens)));
    o.push(("cost_microusd".to_owned(), encode_u64(m.cost_microusd)));
    Json::Obj(o)
}

fn decode_member(j: &Json) -> (r: Option<crate::domain::MemberState>)
    ensures
        match dec_member(*j) {
            Some(v) => r matches Some(m) && m@ == v,
            None => r is None,
        },
{
    match j {
        Json::Obj(o) => {
            if o.len() != 14 {
                return None;
            }
            if !key_is(o, 0, "id") || !key_is(o, 1, "name") || !key_is(o, 2, "model") || !key_is(o, 3, "is_lead") || !key_is(o, 4, "status") || !key_is(o, 5, "terminated_at") || !key_is(o, 6, "termination_reason") || !key_is(o, 7, "require_plan_approval") || !key_is(o, 8, "plan_status") || !key_is(o, 9, "latest_plan") || !key_is(o, 10, "plan_updated_at") || !key_is(o, 11, "input_tokens") || !key_is(o, 12, "output_tokens") || !key_is(o, 13, "cost_microusd") {
                return None;
            }
            let id = match decode_usize(&o[0].1) {
                Some(v) => v,
                None => {
                    return None;
                },
            };
            let name = match decode_string(&o[1].1) {
                Some(v) => v,
                None => {
                    return None;
                },
            };
            let model = match decode_string(&o[2].1) {
                Some(v) => v,
                None => {
                    return None;
                },
            };
            let is_lead = match decode_bool(&o[3].1) {
                Some(v) => v,
                None => {
                    return None;
                },
            };
            let status = match decode_member_status(&o[4].1) {
                Some(v) => v,
                None => {
                    return None;
                },
            };
            let terminated_at = match decode_opt_u64(&o[5].1) {
                Some(v) => v,
                None => {
                    return None;
                },
            };
            let termination_reason = match decode_opt_string(&o[6].1) {
                Some(v) => v,
                None => {
                    return None;
                },
            };
            let require_plan_approval = match decode_bool(&o[7].1) {
                Some(v) => v,
                None => {
                    return None;
                },
            };
            let plan_status = match decode_plan_status(&o[8].1) {
                Some(v) => v,
                None => {
                    return None;
                },
            };
            let latest_plan = match decode_opt_string(&o[9].1) {
                Some(v) => v,
                None => {
                    return None;
                },
            };
            let plan_updated_at = match decode_opt_u64(&o[10].1) {
                Some(v) => v,
                None => {
                    return None;
                },
            };
            let input_tokens = match decode_u64(&o[11].1) {
                Some(v) => v,
                None => {
                    return None;
                },
            };
            let output_tokens = match decode_u64(&o[12].1) {
                Some(v) => v,
                None => {
                    return None;
                },
            };
            let cost_microusd = match decode_u64(&o[13].1) {
                Some(v) => v,
                None => {
                    return None;
                },
            };
            Some(
                crate::domain::MemberState {
                    id,
                    name,
                    model,
                    is_lead,
                    status,
                    terminated_at,
                    termination_reason,
                    require_plan_approval,
                    plan_status,
                    latest_plan,
                    plan_updated_at,
                    input_tokens,
                    output_tokens,
                    cost_microusd,
                },
            )
        },
        _ => None,
    }
}

fn encode_members(v: &Vec<crate::domain::MemberState>) -> (r: Json)
    ensures
        r matches Json::Arr(items) && dec_member_seq(items@) == Some(
            v@.map_values(|m: crate::domain::MemberState| m@),
        ),
{
    let mut items: Vec<Json> = Vec::new();
    let mut i: usize = 0;
    while i < v.len()
        invariant
            i <= v.len(),
            items@.len() == i,
            dec_member_seq(items@) == Some(
                v@.subrange(0, i as int).map_values(|m: crate::domain::MemberState| m@),
            ),
        decreases v.len() - i,
    {
        let ghost prev = items@;
        items.push(encode_member(&v[i]));
        proof {
            assert(items@.drop_last() =~= prev);
            assert(v@.subrange(0, i + 1).map_values(|m: crate::domain::MemberState| m@)
                =~= v@.subrange(0, i as int).map_values(
                |m: crate::domain::MemberState| m@,
            ).push(v@[i as int]@));
        }
        i = i + 1;
    }
    proof {
        assert(v@.subrange(0, v@.len() as int) =~= v@);
        assert(v@.subrange(0, v@.len() as int).map_values(
            |m: crate::domain::MemberState| m@,
        ) =~= v@.map_values(|m: crate::domain::MemberState| m@));
    }
    Json::Arr(items)
}

fn decode_members(j: &Json) -> (r: Option<Vec<crate::domain::MemberState>>)
    ensures
        ({
            let d = match *j {
                Json::Arr(items) => dec_member_seq(items@),
                _ => None,
            };
            match d {
                Some(v) => r matches Some(x) && x@.map_values(
                    |m: crate::domain::MemberState| m@,
                ) == v,
                None => r is None,
            }
        }),
{
    match j {
        Json::Arr(items) => {
            let mut out: Vec<crate::domain::MemberState> = Vec::new();
            let mut ok: bool = true;
            let mut i: usize = 0;
            while i < items.len()
                invariant
                    i <= items.len(),
                    match dec_member_seq(items@.subrange(0, i as int)) {
                        Some(v) => ok && out@.map_values(
                            |m: crate::domain::MemberState| m@,
                        ) == v,
                        None => !ok,
                    },
                decreases items.len() - i,
            {
                proof {
                    assert(items@.subrange(0, i + 1).drop_last() =~= items@.subrange(
                        0,
                        i as int,
                    ));
                    assert(items@.subrange(0, i + 1).last() == items@[i as int]);
                }
                let ghost prev = out@.map_values(|m: crate::domain::MemberState| m@);
                match decode_member(&items[i]) {
                    Some(m) => {
                        out.push(m);
                        proof {
                            assert(out@.map_values(|m2: crate::domain::MemberState| m2@)
                                =~= prev.push(out@[out@.len() - 1]@));
                        }
                    },
                    None => {
                        ok = false;
                    },
                }
                i = i + 1;
            }
            proof {
                assert(items@.subrange(0, items@.len() as int) =~= items@);
            }
            if ok {
                Some(out)
            } else {
                None
            }
        },
        _ => None,
    }
}

fn encode_task(t: &crate::domain::TeamTask) -> (r: Json)
    ensures
        dec_task(r) == Some(t@),
{
    let mut o: Vec<(String, Json)> = Vec::new();
    o.push(("id".to_owned(), encode_usize(t.id)));
    o.push(("title".to_owned(), encode_string(&t.title)));
    o.push(("status".to_owned(), encode_task_status(t.status)));
    o.push(("assignee".to_owned(), encode_opt_usize(t.assignee)));
    o.push(("deps".to_owned(), encode_usize_list(&t.deps)));
    o.push(("touched_files".to_owned(), encode_string_list(&t.touched_files)));
    o.push(("input_tokens".to_owned(), encode_u64(t.input_tokens)));
    o.push(("output_tokens".to_owned(), encode_u64(t.output_tokens)));
    o.push(("cost_microusd".to_owned(), encode_u64(t.cost_microusd)));
    o.push(("created_at".to_owned(), encode_u64(t.created_at)));
    o.push(("updated_at".to_owned(), encode_u64(t.updated_at)));
    Json::Obj(o)
}

fn decode_task(j: &Json) -> (r: Option<crate::domain::TeamTask>)
    ensures
        match dec_task(*j) {
            Some(v) => r matches Some(t) && t@ == v,
            None => r is None,
        },
{
    match j {
        Json::Obj(o) => {
            if o.len() != 11 {
                return None;
            }
            if !key_is(o, 0, "id") || !key_is(o, 1, "title") || !key_is(o, 2, "status") || !key_is(o, 3, "assignee") || !key_is(o, 4, "deps") || !key_is(o, 5, "touched_files") || !key_is(o, 6, "input_tokens") || !key_is(o, 7, "output_tokens") || !key_is(o, 8, "cost_microusd") || !key_is(o, 9, "created_at") || !key_is(o, 10, "updated_at") {
                return None;
            }
            let id = match decode_usize(&o[0].1) {
                Some(v) => v,
                None => {
                    return None;
                },
            };
            let title = match decode_string(&o[1].1) {
                Some(v) => v,
                None => {
                    return None;
                },
            };
            let status = match decode_task_status(&o[2].1) {
                Some(v) => v,
                None => {
                    return None;
                },
            };
            let assignee = match decode_opt_usize(&o[3].1) {
                Some(v) => v,
                None => {
                    return None;
                },
            };
            let deps = match decode_usize_list(&o[4].1) {
                Some(v) => v,
                None => {
                    return None;
                },
            };
            let touched_files = match decode_string_list(&o[5].1) {
                Some(v) => v,
                None => {
                    return None;
                },
            };
            let input_tokens = match decode_u64(&o[6].1) {
                Some(v) => v,
                None => {
                    return None;
                },
            };
            let output_tokens = match decode_u64(&o[7].1) {
                Some(v) => v,
                None => {
                    return None;
                },
            };
            let cost_microusd = match decode_u64(&o[8].1) {
                Some(v) => v,
                None => {
                    return None;
                },
            };
            let created_at = match decode_u64(&o[9].1) {
                Some(v) => v,
                None => {
                    return None;
                },
            };
            let updated_at = match decode_u64(&o[10].1) {
                Some(v) => v,
                None => {
                    return None;
                },
            };
            Some(
                crate::domain::TeamTask {
                    id,
                    title,
                    status,
                    assignee,
                    deps,
                    touched_files,
                    input_tokens,
                    output_tokens,
                    cost_microusd,
                    created_at,
                    updated_at,
                },
            )
        },
        _ => None,
    }
}

fn encode_tasks(v: &Vec<crate::domain::TeamTask>) -> (r: Json)
    ensures
        r matches Json::Arr(items) && dec_task_seq(items@) == Some(
            v@.map_values(|t: crate::domain::TeamTask| t@),
        ),
{
    let mut items: Vec<Json> = Vec::new();
    let mut i: usize = 0;
    while i < v.len()
        invariant
            i <= v.len(),
            items@.len() == i,
            dec_task_seq(items@) == Some(
                v@.subrange(0, i as int).map_values(|t: crate::domain::TeamTask| t@),
            ),
        decreases v.len() - i,
    {
        let ghost prev = items@;
        items.push(encode_task(&v[i]));
        proof {
            assert(items@.drop_last() =~= prev);
            assert(v@.subrange(0, i + 1).map_values(|t: crate::domain::TeamTask| t@)
                =~= v@.subrange(0, i as int).map_values(
                |t: crate::domain::TeamTask| t@,
            ).push(v@[i as int]@));
        }
        i = i + 1;
    }
    proof {
        assert(v@.subrange(0, v@.len() as int) =~= v@);
        assert(v@.subrange(0, v@.len() as int).map_values(|t: crate::domain::TeamTask| t@)
            =~= v@.map_values(|t: crate::domain::TeamTask| t@));
    }
    Json::Arr(items)
}

fn decode_tasks(j: &Json) -> (r: Option<Vec<crate::domain::TeamTask>>)
    ensures
        ({
            let d = match *j {
                Json::Arr(items) => dec_task_seq(items@),
                _ => None,
            };
            match d {
                Some(v) => r matches Some(x) && x@.map_values(
                    |t: crate::domain::TeamTask| t@,
                ) == v,
                None => r is None,
            }
        }),
{
    match j {
        Json::Arr(items) => {
            let mut out: Vec<crate::domain::TeamTask> = Vec::new();
            let mut ok: bool = true;
            let mut i: usize = 0;
            while i < items.len()
                invariant
                    i <= items.len(),
                    match dec_task_seq(items@.subrange(0, i as int)) {
                        Some(v) => ok && out@.map_values(
                            |t: crate::domain::TeamTask| t@,
                        ) == v,
                        None => !ok,
                    },
                decreases items.len() - i,
            {
                proof {
                    assert(items@.subrange(0, i + 1).drop_last() =~= items@.subrange(
                        0,
                        i as int,
                    ));
                    assert(items@.subrange(0, i + 1).last() == items@[i as int]);
                }
                let ghost prev = out@.map_values(|t: crate::domain::TeamTask| t@);
                match decode_task(&items[i]) {
                    Some(t) => {
                        out.push(t);
                        proof {
                            assert(out@.map_values(|t2: crate::domain::TeamTask| t2@)
                                =~= prev.push(out@[out@.len() - 1]@));
                        }
                    },
                    None => {
                        ok = false;
                    },
                }
                i = i + 1;
            }
            proof {
                assert(items@.subrange(0, items@.len() as int) =~= items@);
            }
            if ok {
                Some(out)
            } else {
                None
            }
        },
        _ => None,
    }
}

fn encode_message(m: &crate::domain::TeamMessage) -> (r: Json)
    ensures
        dec_message(r) == Some(m@),
{
    let mut o: Vec<(String, Json)> = Vec::new();
    o.push(("id".to_owned(), encode_usize(m.id)));
    o.push(("from_member".to_owned(), encode_opt_usize(m.from_member)));
    o.push(("to_member".to_owned(), encode_opt_usize(m.to_member)));
    o.push(("text".to_owned(), encode_string(&m.text)));
    o.push(("priority".to_owned(), encode_priority(m.priority)));
    o.push(("created_at".to_owned(), encode_u64(m.created_at)));
    o.push(("read_by".to_owned(), encode_usize_list(&m.read_by)));
    Json::Obj(o)
}

fn decode_message(j: &Json) -> (r: Option<crate::domain::TeamMessage>)
    ensures
        match dec_message(*j) {
            Some(v) => r matches Some(m) && m@ == v,
            None => r is None,
        },
{
    match j {
        Json::Obj(o) => {
            if o.len() != 7 {
                return None;
            }
            if !key_is(o, 0, "id") || !key_is(o, 1, "from_member") || !key_is(o, 2, "to_member") || !key_is(o, 3, "text") || !key_is(o, 4, "priority") || !key_is(o, 5, "created_at") || !key_is(o, 6, "read_by") {
                return None;
            }
            let id = match decode_usize(&o[0].1) {
                Some(v) => v,
                None => {
                    return None;
                },
            };
            let from_member = match decode_opt_usize(&o[1].1) {
                Some(v) => v,
                None => {
                    return None;
                },
            };
            let to_member = match decode_opt_usize(&o[2].1) {
                Some(v) => v,
                None => {
                    return None;
                },
            };
            let text = match decode_string(&o[3].1) {
                Some(v) => v,
                None => {
                    return None;
                },
            };
            let priority = match decode_priority(&o[4].1) {
                Some(v) => v,
                None => {
                    return None;
                },
            };
            let created_at = match decode_u64(&o[5].1) {
                Some(v) => v,
                None => {
                    return None;
                },
            };
            let read_by = match decode_usize_list(&o[6].1) {
                Some(v) => v,
                None => {
                    return None;
                },
            };
            Some(
                crate::domain::TeamMessage {
                    id,
                    from_member,
                    to_member,
                    text,
                    priority,
                    created_at,
                    read_by,
                },
            )
        },
        _ => None,
    }
}

fn encode_messages(v: &Vec<crate::domain::TeamMessage>) -> (r: Json)
    ensures
        r matches Json::Arr(items) && dec_message_seq(items@) == Some(
            v@.map_values(|m: crate::domain::TeamMessage| m@),
        ),
{
    let mut items: Vec<Json> = Vec::new();
    let mut i: usize = 0;
    while i < v.len()
        invariant
            i <= v.len(),
            items@.len() == i,
            dec_message_seq(items@) == Some(
                v@.subrange(0, i as int).map_values(|m: crate::domain::TeamMessage| m@),
            ),
        decreases v.len() - i,
    {
        let ghost prev = items@;
        items.push(encode_message(&v[i]));
        proof {
            assert(items@.drop_last() =~= prev);
            assert(v@.subrange(0, i + 1).map_values(|m: crate::domain::TeamMessage| m@)
                =~= v@.subrange(0, i as int).map_values(
                |m: crate::domain::TeamMessage| m@,
            ).push(v@[i as int]@));
        }
        i = i + 1;
    }
    proof {
        assert(v@.subrange(0, v@.len() as int) =~= v@);
        assert(v@.subrange(0, v@.len() as int).map_values(
            |m: crate::domain::TeamMessage| m@,
        ) =~= v@.map_values(|m: crate::domain::TeamMessage| m@));
    }
    Json::Arr(items)
}

fn decode_messages(j: &Json) -> (r: Option<Vec<crate::domain::TeamMessage>>)
    ensures
        ({
            let d = match *j {
                Json::Arr(items) => dec_message_seq(items@),
                _ => None,
            };
            match d {
                Some(v) => r matches Some(x) && x@.map_values(
                    |m: crate::domain::TeamMessage| m@,
                ) == v,
                None => r is None,
            }
        }),
{
    match j {
        Json::Arr(items) => {
            let mut out: Vec<crate::domain::TeamMessage> = Vec::new();
            let mut ok: bool = true;
            let mut i: usize = 0;
            while i < items.len()
                invariant
                    i <= items.len(),
                    match dec_message_seq(items@.subrange(0, i as int)) {
                        Some(v) => ok && out@.map_values(
                            |m: crate::domain::TeamMessage| m@,
                        ) == v,
                        None => !ok,
                    },
                decreases items.len() - i,
            {
                proof {
                    assert(items@.subrange(0, i + 1).drop_last() =~= items@.subrange(
                        0,
                        i as int,
                    ));
                    assert(items@.subrange(0, i + 1).last() == items@[i as int]);
                }
                let ghost prev = out@.map_values(|m: crate::domain::TeamMessage| m@);
                match decode_message(&items[i]) {
                    Some(m) => {
                        out.push(m);
                        proof {
                            assert(out@.map_values(|m2: crate::domain::TeamMessage| m2@)
                                =~= prev.push(out@[out@.len() - 1]@));
                        }
                    },
                    None => {
                        ok = false;
                    },
                }
                i = i + 1;
            }
            proof {
                assert(items@.subrange(0, items@.len() as int) =~= items@);
            }
            if ok {
                Some(out)
            } else {
                None
            }
        },
        _ => None,
    }
}

fn encode_team(t: &crate::domain::AgentTeam) -> (r: Json)
    ensures
        dec_team(r) == Some(t@),
{
    let mut o: Vec<(String, Json)> = Vec::new();
    o.push(("id".to_owned(), encode_string(&t.id)));
    o.push(("mode".to_owned(), encode_mode(t.mode)));
    o.push(("delegation_only".to_owned(), encode_bool(t.delegation_only)));
    o.push(("recovery_policy".to_owned(), encode_policy(t.recovery_policy)));
    o.push(("members".to_owned(), encode_members(&t.members)));
    o.push(("tasks".to_owned(), encode_tasks(&t.tasks)));
    o.push(("messages".to_owned(), encode_messages(&t.messages)));
    o.push(("next_member_id".to_owned(), encode_usize(t.next_member_id)));
    o.push(("next_task_id".to_owned(), encode_usize(t.next_task_id)));
    o.push(("next_message_id".to_owned(), encode_usize(t.next_message_id)));
    Json::Obj(o)
}

fn decode_team(j: &Json) -> (r: Option<crate::domain::AgentTeam>)
    ensures
        match dec_team(*j) {
            Some(v) => r matches Some(t) && t@ == v,
            None => r is None,
        },
{
    match j {
        Json::Obj(o) => {
            if o.len() != 10 {
                return None;
            }
            if !key_is(o, 0, "id") || !key_is(o, 1, "mode") || !key_is(o, 2, "delegation_only") || !key_is(o, 3, "recovery_policy") || !key_is(o, 4, "members") || !key_is(o, 5, "tasks") || !key_is(o, 6, "messages") || !key_is(o, 7, "next_member_id") || !key_is(o, 8, "next_task_id") || !key_is(o, 9, "next_message_id") {
                return None;
            }
            let id = match decode_string(&o[0].1) {
                Some(v) => v,
                None => {
                    return None;
                },
            };
            let mode = match decode_mode(&o[1].1) {
                Some(v) => v,
                None => {
                    return None;
                },
            };
            let delegation_only = match decode_bool(&o[2].1) {
                Some(v) => v,
                None => {
                    return None;
                },
            };
            let recovery_policy = match decode_policy(&o[3].1) {
                Some(v) => v,
                None => {
                    return None;
                },
            };
            let members = match decode_members(&o[4].1) {
                Some(v) => v,
                None => {
                    return None;
                },
            };
            let tasks = match decode_tasks(&o[5].1) {
                Some(v) => v,
                None => {
                    return None;
                },
            };
            let messages = match decode_messages(&o[6].1) {
                Some(v) => v,
                None => {
                    return None;
                },
            };
            let next_member_id = match decode_usize(&o[7].1) {
                Some(v) => v,
                None => {
                    return None;
                },
            };
            let next_task_id = match decode_usize(&o[8].1) {
                Some(v) => v,
                None => {
                    return None;
                },
            };
            let next_message_id = match decode_usize(&o[9].1) {
                Some(v) => v,
                None => {
                    return None;
                },
            };
            Some(
                crate::domain::AgentTeam {
                    id,
                    mode,
                    delegation_only,
                    recovery_policy,
                    members,
                    tasks,
                    messages,
                    next_member_id,
                    next_task_id,
                    next_message_id,
                },
            )
        },
        _ => None,
    }
}

fn encode_teams(v: &Vec<crate::domain::AgentTeam>) -> (r: Json)
    ensures
        r matches Json::Obj(entries) && dec_team_entry_seq(entries@) == Some(
            v@.map_values(|t: crate::domain::AgentTeam| t@),
        ),
{
    let mut entries: Vec<(String, Json)> = Vec::new();
    let mut i: usize = 0;
    while i < v.len()
        invariant
            i <= v.len(),
            entries@.len() == i,
            dec_team_entry_seq(entries@) == Some(
                v@.subrange(0, i as int).map_values(|t: crate::domain::AgentTeam| t@),
            ),
        decreases v.len() - i,
    {
        let ghost prev = entries@;
        entries.push((v[i].id.clone(), encode_team(&v[i])));
        proof {
            assert(entries@.drop_last() =~= prev);
            assert(entries@.last().0@ == v@[i as int]@.id);
            assert(v@.subrange(0, i + 1).map_values(|t: crate::domain::AgentTeam| t@)
                =~= v@.subrange(0, i as int).map_values(
                |t: crate::domain::AgentTeam| t@,
            ).push(v@[i as int]@));
        }
        i = i + 1;
    }
    proof {
        assert(v@.subrange(0, v@.len() as int) =~= v@);
        assert(v@.subrange(0, v@.len() as int).map_values(
            |t: crate::domain::AgentTeam| t@,
        ) =~= v@.map_values(|t: crate::domain::AgentTeam| t@));
    }
    Json::Obj(entries)
}

fn decode_teams(j: &Json) -> (r: Option<Vec<crate::domain::AgentTeam>>)
    ensures
        ({
            let d = match *j {
                Json::Obj(entries) => dec_team_entry_seq(entries@),
                _ => None,
            };
            match d {
                Some(v) => r matches Some(x) && x@.map_values(
                    |t: crate::domain::AgentTeam| t@,
                ) == v,
                None => r is None,
            }
        }),
{
    match j {
        Json::Obj(entries) => {
            let mut out: Vec<crate::domain::AgentTeam> = Vec::new();
            let mut ok: bool = true;
            let mut i: usize = 0;
            while i < entries.len()
                invariant
                    i <= entries.len(),
                    match dec_team_entry_seq(entries@.subrange(0, i as int)) {
                        Some(v) => ok && out@.map_values(
                            |t: crate::domain::AgentTeam| t@,
                        ) == v,
                        None => !ok,
                    },
                decreases entries.len() - i,
            {
                proof {
                    assert(entries@.subrange(0, i + 1).drop_last() =~= entries@.subrange(
                        0,
                        i as int,
                    ));
                    assert(entries@.subrange(0, i + 1).last() == entries@[i as int]);
                }
                let ghost prev = out@.map_values(|t: crate::domain::AgentTeam| t@);
                match decode_team(&entries[i].1) {
                    Some(team) => {
                        if str_eq(entries[i].0.as_str(), team.id.as_str()) {
                            out.push(team);
                            proof {
                                assert(out@.map_values(
                                    |t2: crate::domain::AgentTeam| t2@,
                                ) =~= prev.push(out@[out@.len() - 1]@));
                            }
                        } else {
                            ok = false;
                        }
                    },
                    None => {
                        ok = false;
                    },
                }
                i = i + 1;
            }
            proof {
                assert(entries@.subrange(0, entries@.len() as int) =~= entries@);
            }
            if ok {
                Some(out)
            } else {
                None
            }
        },
        _ => None,
    }
}

// ---------------------------------------------------------------------
// The whole document.
// ---------------------------------------------------------------------

/// Renders the aggregate root as a canonical JSON document. Decoding
/// what was written yields the state back, field for field: that is the
/// round-trip guarantee of the persistence layer.
pub fn encode_state(s: &EngineState) -> (r: Json)
    ensures
        dec_state(r) == Some(s@),
{
    let mut o: Vec<(String, Json)> = Vec::new();
    o.push(("sessions".to_owned(), encode_sessions(&s.sessions)));
    o.push(("active_session".to_owned(), encode_opt_string(&s.active_session)));
    o.push(("teams".to_owned(), encode_teams(&s.teams)));
    Json::Obj(o)
}

/// Reads an aggregate root back from a document. Any structural
/// mismatch, and any document whose contents break the engine's
/// well-formedness invariant, is rejected.
pub fn decode_state(j: &Json) -> (r: Option<EngineState>)
    ensures
        match dec_state(*j) {
            Some(v) => if wf_state(v) {
                r matches Some(x) && x@ == v
            } else {
                r is None
            },
            None => r is None,
        },
        r matches Some(x) ==> wf_state(x@),
{
    match j {
        Json::Obj(o) => {
            if o.len() != 3 {
                return None;
            }
            if !key_is(o, 0, "sessions") || !key_is(o, 1, "active_session") || !key_is(o, 2, "teams") {
                return None;
            }
            let sessions = match decode_sessions(&o[0].1) {
                Some(v) => v,
                None => {
                    return None;
                },
            };
            let active_session = match decode_opt_string(&o[1].1) {
                Some(v) => v,
                None => {
                    return None;
                },
            };
            let teams = match decode_teams(&o[2].1) {
                Some(v) => v,
                None => {
                    return None;
                },
            };
            let st = EngineState { sessions, active_session, teams };
            if crate::engine::wf_check(&st) {
                Some(st)
            } else {
                None
            }
        },
        _ => None,
    }
}

} // verus!
