//! Parsing the command-line spellings of the engine's enums.

use vstd::prelude::*;
use crate::domain::{PlanStatus, RecoveryPolicy, TeamDisplayMode, TeamMessagePriority, str_eq};

verus! {

/// The display mode a command-line word names, if any.
pub open spec fn parse_mode_spec(v: Seq<char>) -> Option<TeamDisplayMode> {
    if v == "in_process"@ {
        Some(TeamDisplayMode::InProcess)
    } else if v == "split_pane"@ {
        Some(TeamDisplayMode::SplitPane)
    } else if v == "auto"@ {
        Some(TeamDisplayMode::Auto)
    } else {
        None
    }
}

/// Parses a display mode from its command-line spelling.
pub fn parse_mode(v: &str) -> (r: Option<TeamDisplayMode>)
    ensures
        r == parse_mode_spec(v@),
{
    if str_eq(v, "in_process") {
        Some(TeamDisplayMode::InProcess)
    } else if str_eq(v, "split_pane") {
        Some(TeamDisplayMode::SplitPane)
    } else if str_eq(v, "auto") {
        Some(TeamDisplayMode::Auto)
    } else {
        None
    }
}

/// The plan status a command-line word names, if any.
pub open spec fn parse_plan_status_spec(v: Seq<char>) -> Option<PlanStatus> {
    if v == "planning"@ {
        Some(PlanStatus::Planning)
    } else if v == "approved"@ {
        Some(PlanStatus::Approved)
    } else if v == "rejected"@ {
        Some(PlanStatus::Rejected)
    } else {
        None
    }
}

/// Parses a plan status from its command-line spelling.
pub fn parse_plan_status(v: &str) -> (r: Option<PlanStatus>)
    ensures
        r == parse_plan_status_spec(v@),
{
    if str_eq(v, "planning") {
        Some(PlanStatus::Planning)
    } else if str_eq(v, "approved") {
        Some(PlanStatus::Approved)
    } else if str_eq(v, "rejected") {
        Some(PlanStatus::Rejected)
    } else {
        None
    }
}

/// The recovery policy a command-line word names, if any.
pub open spec fn parse_recovery_policy_spec(v: Seq<char>) -> Option<RecoveryPolicy> {
    if v == "auto_reassign"@ {
        Some(RecoveryPolicy::AutoReassign)
    } else if v == "manual"@ {
        Some(RecoveryPolicy::Manual)
    } else {
        None
    }
}

/// Parses a recovery policy from its command-line spelling.
pub fn parse_recovery_policy(v: &str) -> (r: Option<RecoveryPolicy>)
    ensures
        r == parse_recovery_policy_spec(v@),
{
    if str_eq(v, "auto_reassign") {
        Some(RecoveryPolicy::AutoReassign)
    } else if str_eq(v, "manual") {
        Some(RecoveryPolicy::Manual)
    } else {
        None
    }
}

/// The message priority a command-line word names, if any.
pub open spec fn parse_message_priority_spec(v: Seq<char>) -> Option<TeamMessagePriority> {
    if v == "low"@ {
        Some(TeamMessagePriority::Low)
    } else if v == "normal"@ {
        Some(TeamMessagePriority::Normal)
    } else if v == "high"@ {
        Some(TeamMessagePriority::High)
    } else if v == "urgent"@ {
        Some(TeamMessagePriority::Urgent)
    } else {
        None
    }
}

/// Parses a message priority from its command-line spelling.
pub fn parse_message_priority(v: &str) -> (r: Option<TeamMessagePriority>)
    ensures
        r == parse_message_priority_spec(v@),
{
    if str_eq(v, "low") {
        Some(TeamMessagePriority::Low)
    } else if str_eq(v, "normal") {
        Some(TeamMessagePriority::Normal)
    } else if str_eq(v, "high") {
        Some(TeamMessagePriority::High)
    } else if str_eq(v, "urgent") {
        Some(TeamMessagePriority::Urgent)
    } else {
        None
    }
}

} // verus!
