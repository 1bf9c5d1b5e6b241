//! Per-team operations: the state machine on one team's members, tasks
//! and messages. Every mutating operation re-runs the automatic
//! dependency-blocking pass and preserves well-formedness.

use vstd::prelude::*;
use crate::domain::{
    AgentTeam, EngineError, MemberState, MemberStatus, MemberV, MessageV, PlanStatus,
    RecoveryPolicy, TaskStatus, TaskV, TeamMessage, TeamMessagePriority, TeamTask, TeamUsage,
    TeamV, blocking_consistent, dep_done, deps_ready, derived_status, task_id_exists, wf_team,
};
use crate::files::{claim_conflict, has_file_conflict};

verus! {

// ---------------------------------------------------------------------
// Looking records up by id.
// ---------------------------------------------------------------------

/// Whether a member with the id exists.
pub open spec fn has_member(members: Seq<MemberV>, id: usize) -> bool {
    exists|i: int| 0 <= i < members.len() && members[i].id == id
}

/// The index of the member with the id (unique under well-formedness).
pub open spec fn member_index(members: Seq<MemberV>, id: usize) -> int {
    choose|i: int| 0 <= i < members.len() && members[i].id == id
}

/// Whether a task with the id exists.
pub open spec fn has_task(tasks: Seq<TaskV>, id: usize) -> bool {
    task_id_exists(tasks, id)
}

/// The index of the task with the id (unique under well-formedness).
pub open spec fn task_index(tasks: Seq<TaskV>, id: usize) -> int {
    choose|i: int| 0 <= i < tasks.len() && tasks[i].id == id
}

/// Whether a message with the id exists.
pub open spec fn has_message(messages: Seq<MessageV>, id: usize) -> bool {
    exists|i: int| 0 <= i < messages.len() && messages[i].id == id
}

/// The index of the message with the id (unique under well-formedness).
pub open spec fn message_index(messages: Seq<MessageV>, id: usize) -> int {
    choose|i: int| 0 <= i < messages.len() && messages[i].id == id
}

pub proof fn lemma_member_index(members: Seq<MemberV>, i: int, id: usize)
    requires
        forall|a: int, b: int| 0 <= a < b < members.len() ==> members[a].id != members[b].id,
        0 <= i < members.len(),
        members[i].id == id,
    ensures
        has_member(members, id),
        member_index(members, id) == i,
{
    assert(has_member(members, id));
    let j = member_index(members, id);
    if j < i {
        assert(members[j].id != members[i].id);
    } else if i < j {
        assert(members[i].id != members[j].id);
    }
}

pub proof fn lemma_task_index(tasks: Seq<TaskV>, i: int, id: usize)
    requires
        forall|a: int, b: int| 0 <= a < b < tasks.len() ==> tasks[a].id != tasks[b].id,
        0 <= i < tasks.len(),
        tasks[i].id == id,
    ensures
        has_task(tasks, id),
        task_index(tasks, id) == i,
{
    assert(has_task(tasks, id));
    let j = task_index(tasks, id);
    if j < i {
        assert(tasks[j].id != tasks[i].id);
    } else if i < j {
        assert(tasks[i].id != tasks[j].id);
    }
}

pub proof fn lemma_message_index(messages: Seq<MessageV>, i: int, id: usize)
    requires
        forall|a: int, b: int| 0 <= a < b < messages.len() ==> messages[a].id != messages[b].id,
        0 <= i < messages.len(),
        messages[i].id == id,
    ensures
        has_message(messages, id),
        message_index(messages, id) == i,
{
    assert(has_message(messages, id));
    let j = message_index(messages, id);
    if j < i {
        assert(messages[j].id != messages[i].id);
    } else if i < j {
        assert(messages[i].id != messages[j].id);
    }
}

// ---------------------------------------------------------------------
// The automatic blocking pass, as a function on views.
// ---------------------------------------------------------------------

/// One task after the automatic pass: in-progress and done tasks are
/// untouched, every other task gets its dependency-derived status, with
/// `updated_at` bumped only on a change.
pub open spec fn refresh_one(tasks: Seq<TaskV>, t: TaskV, now: u64) -> TaskV {
    if t.status == TaskStatus::InProgress || t.status == TaskStatus::Done {
        t
    } else {
        let ns = derived_status(tasks, t);
        if ns == t.status {
            t
        } else {
            TaskV { status: ns, updated_at: now, ..t }
        }
    }
}

/// The whole task list after the automatic pass.
pub open spec fn refresh_tasks(tasks: Seq<TaskV>, now: u64) -> Seq<TaskV> {
    tasks.map_values(|t: TaskV| refresh_one(tasks, t, now))
}

/// The team with its task list replaced.
pub open spec fn team_with_tasks(t: TeamV, tasks: Seq<TaskV>) -> TeamV {
    TeamV { tasks, ..t }
}

/// What the automatic pass does and preserves: every field but status
/// and `updated_at` is kept, done-ness and in-progress-ness are kept,
/// and the result is blocking-consistent.
pub proof fn lemma_refresh(tasks: Seq<TaskV>, now: u64)
    ensures
        refresh_tasks(tasks, now).len() == tasks.len(),
        forall|i: int|
            0 <= i < tasks.len() ==> #[trigger] refresh_tasks(tasks, now)[i] == refresh_one(
                tasks,
                tasks[i],
                now,
            ),
        forall|i: int|
            0 <= i < tasks.len() ==> (#[trigger] refresh_tasks(tasks, now)[i]).id == tasks[i].id
                && refresh_tasks(tasks, now)[i].deps == tasks[i].deps && refresh_tasks(
                tasks,
                now,
            )[i].assignee == tasks[i].assignee && refresh_tasks(tasks, now)[i].touched_files
                == tasks[i].touched_files,
        forall|i: int|
            0 <= i < tasks.len() ==> ((#[trigger] refresh_tasks(tasks, now)[i]).status
                == TaskStatus::Done <==> tasks[i].status == TaskStatus::Done) && (refresh_tasks(
                tasks,
                now,
            )[i].status == TaskStatus::InProgress <==> tasks[i].status == TaskStatus::InProgress),
        forall|id: usize|
            #[trigger] dep_done(refresh_tasks(tasks, now), id) == dep_done(tasks, id),
        forall|id: usize|
            #[trigger] task_id_exists(refresh_tasks(tasks, now), id) == task_id_exists(tasks, id),
        blocking_consistent(refresh_tasks(tasks, now)),
{
    let rt = refresh_tasks(tasks, now);
    assert forall|id: usize| #[trigger] dep_done(rt, id) == dep_done(tasks, id) by {
        if dep_done(tasks, id) {
            let j = choose|j: int|
                0 <= j < tasks.len() && tasks[j].id == id && tasks[j].status == TaskStatus::Done;
            assert(rt[j].id == id && rt[j].status == TaskStatus::Done);
        }
        if dep_done(rt, id) {
            let j = choose|j: int|
                0 <= j < rt.len() && rt[j].id == id && rt[j].status == TaskStatus::Done;
            assert(tasks[j].id == id && tasks[j].status == TaskStatus::Done);
        }
    }
    assert forall|id: usize|
        #[trigger] task_id_exists(rt, id) == task_id_exists(tasks, id) by {
        if task_id_exists(tasks, id) {
            let j = choose|j: int| 0 <= j < tasks.len() && tasks[j].id == id;
            assert(rt[j].id == id);
        }
        if task_id_exists(rt, id) {
            let j = choose|j: int| 0 <= j < rt.len() && rt[j].id == id;
            assert(tasks[j].id == id);
        }
    }
    assert forall|i: int|
        0 <= i < rt.len() && (rt[i].status == TaskStatus::Pending || rt[i].status
            == TaskStatus::Blocked) implies rt[i].status == derived_status(rt, rt[i]) by {
        assert(rt[i] == refresh_one(tasks, tasks[i], now));
        assert(rt[i].status == derived_status(tasks, tasks[i]));
        assert(rt[i].deps == tasks[i].deps);
        assert forall|k: int| 0 <= k < rt[i].deps.len() implies (dep_done(rt, rt[i].deps[k])
            == dep_done(tasks, tasks[i].deps[k])) by {}
        if deps_ready(tasks, tasks[i]) {
            assert(deps_ready(rt, rt[i]));
        } else {
            let k = choose|k: int|
                0 <= k < tasks[i].deps.len() && !dep_done(tasks, tasks[i].deps[k]);
            assert(!dep_done(rt, rt[i].deps[k]));
            assert(!deps_ready(rt, rt[i]));
        }
    }
}

/// On a blocking-consistent task list the automatic pass changes
/// nothing.
pub proof fn lemma_refresh_noop(tasks: Seq<TaskV>, now: u64)
    requires
        blocking_consistent(tasks),
    ensures
        refresh_tasks(tasks, now) == tasks,
{
    assert(refresh_tasks(tasks, now) =~= tasks);
}

// ---------------------------------------------------------------------
// Exec lookup helpers.
// ---------------------------------------------------------------------

impl AgentTeam {
    /// Finds the index of the member with the id.
    pub fn find_member_idx(&self, member_id: usize) -> (r: Option<usize>)
        requires
            forall|a: int, b: int|
                0 <= a < b < self@.members.len() ==> self@.members[a].id != self@.members[b].id,
        ensures
            match r {
                Some(i) => i < self.members.len() && has_member(self@.members, member_id)
                    && member_index(self@.members, member_id) == i,
                None => !has_member(self@.members, member_id),
            },
    {
        let mut i: usize = 0;
        while i < self.members.len()
            invariant
                i <= self.members.len(),
                self@.members.len() == self.members@.len(),
                forall|a: int, b: int|
                    0 <= a < b < self@.members.len() ==> self@.members[a].id
                        != self@.members[b].id,
                forall|j: int| 0 <= j < i ==> self@.members[j].id != member_id,
            decreases self.members.len() - i,
        {
            if self.members[i].id == member_id {
                proof {
                    lemma_member_index(self@.members, i as int, member_id);
                }
                return Some(i);
            }
            i = i + 1;
        }
        None
    }

    /// Finds the index of the task with the id.
    pub fn find_task_idx(&self, task_id: usize) -> (r: Option<usize>)
        requires
            forall|a: int, b: int|
                0 <= a < b < self@.tasks.len() ==> self@.tasks[a].id != self@.tasks[b].id,
        ensures
            match r {
                Some(i) => i < self.tasks.len() && has_task(self@.tasks, task_id) && task_index(
                    self@.tasks,
                    task_id,
                ) == i,
                None => !has_task(self@.tasks, task_id),
            },
    {
        let mut i: usize = 0;
        while i < self.tasks.len()
            invariant
                i <= self.tasks.len(),
                self@.tasks.len() == self.tasks@.len(),
                forall|a: int, b: int|
                    0 <= a < b < self@.tasks.len() ==> self@.tasks[a].id != self@.tasks[b].id,
                forall|j: int| 0 <= j < i ==> self@.tasks[j].id != task_id,
            decreases self.tasks.len() - i,
        {
            if self.tasks[i].id == task_id {
                proof {
                    lemma_task_index(self@.tasks, i as int, task_id);
                }
                return Some(i);
            }
            i = i + 1;
        }
        None
    }

    /// Finds the index of the message with the id.
    pub fn find_message_idx(&self, message_id: usize) -> (r: Option<usize>)
        requires
            forall|a: int, b: int|
                0 <= a < b < self@.messages.len() ==> self@.messages[a].id
                    != self@.messages[b].id,
        ensures
            match r {
                Some(i) => i < self.messages.len() && has_message(self@.messages, message_id)
                    && message_index(self@.messages, message_id) == i,
                None => !has_message(self@.messages, message_id),
            },
    {
        let mut i: usize = 0;
        while i < self.messages.len()
            invariant
                i <= self.messages.len(),
                self@.messages.len() == self.messages@.len(),
                forall|a: int, b: int|
                    0 <= a < b < self@.messages.len() ==> self@.messages[a].id
                        != self@.messages[b].id,
                forall|j: int| 0 <= j < i ==> self@.messages[j].id != message_id,
            decreases self.messages.len() - i,
        {
            if self.messages[i].id == message_id {
                proof {
                    lemma_message_index(self@.messages, i as int, message_id);
                }
                return Some(i);
            }
            i = i + 1;
        }
        None
    }
}

// ---------------------------------------------------------------------
// The automatic blocking pass, executable.
// ---------------------------------------------------------------------

fn id_done(tasks: &Vec<TeamTask>, id: usize) -> (r: bool)
    ensures
        r == dep_done(tasks@.map_values(|t: TeamTask| t@), id),
{
    let ghost tv = tasks@.map_values(|t: TeamTask| t@);
    let mut i: usize = 0;
    while i < tasks.len()
        invariant
            i <= tasks.len(),
            tv == tasks@.map_values(|t: TeamTask| t@),
            forall|j: int| 0 <= j < i ==> !(tv[j].id == id && tv[j].status == TaskStatus::Done),
        decreases tasks.len() - i,
    {
        if tasks[i].id == id && tasks[i].status == TaskStatus::Done {
            proof {
                assert(tv[i as int].id == id && tv[i as int].status == TaskStatus::Done);
            }
            return true;
        }
        i = i + 1;
    }
    false
}

fn all_deps_done(tasks: &Vec<TeamTask>, deps: &Vec<usize>) -> (r: bool)
    ensures
        r == (forall|k: int|
            0 <= k < deps@.len() ==> dep_done(
                tasks@.map_values(|t: TeamTask| t@),
                #[trigger] deps@[k],
            )),
{
    let mut k: usize = 0;
    while k < deps.len()
        invariant
            k <= deps.len(),
            forall|j: int|
                0 <= j < k ==> dep_done(tasks@.map_values(|t: TeamTask| t@), #[trigger] deps@[j]),
        decreases deps.len() - k,
    {
        if !id_done(tasks, deps[k]) {
            return false;
        }
        k = k + 1;
    }
    true
}

impl AgentTeam {
    /// Recomputes the dependency-derived status of every task that is
    /// neither in progress nor done; idempotent. A dependency id that
    /// resolves to no task counts as unfinished; well-formedness rules
    /// such ids out, and both task creation and document decoding
    /// enforce it, so in a well-formed team every dependency resolves.
    pub fn refresh_blocking(&mut self, now: u64)
        ensures
            final(self)@ == team_with_tasks(old(self)@, final(self)@.tasks),
            final(self)@.tasks == refresh_tasks(old(self)@.tasks, now),
    {
        let ghost tv0 = self@.tasks;
        let mut blocked: Vec<bool> = Vec::new();
        let mut i: usize = 0;
        while i < self.tasks.len()
            invariant
                i <= self.tasks.len(),
                tv0 == self@.tasks,
                self@.tasks.len() == self.tasks@.len(),
                blocked@.len() == i,
                forall|j: int| 0 <= j < i ==> #[trigger] blocked@[j] == !deps_ready(tv0, tv0[j]),
            decreases self.tasks.len() - i,
        {
            let ready = all_deps_done(&self.tasks, &self.tasks[i].deps);
            proof {
                assert(self.tasks@[i as int]@.deps == self.tasks[i as int].deps@);
                assert(ready == deps_ready(tv0, tv0[i as int]));
            }
            blocked.push(!ready);
            i = i + 1;
        }
        let mut i: usize = 0;
        while i < self.tasks.len()
            invariant
                i <= self.tasks.len(),
                self.tasks@.len() == tv0.len(),
                blocked@.len() == tv0.len(),
                forall|j: int| 0 <= j < tv0.len() ==> #[trigger] blocked@[j] == !deps_ready(
                    tv0,
                    tv0[j],
                ),
                forall|j: int| i <= j < tv0.len() ==> #[trigger] self.tasks@[j]@ == tv0[j],
                forall|j: int|
                    0 <= j < i ==> #[trigger] self.tasks@[j]@ == refresh_one(tv0, tv0[j], now),
                self.id == old(self).id,
                self.mode == old(self).mode,
                self.delegation_only == old(self).delegation_only,
                self.recovery_policy == old(self).recovery_policy,
                self.members == old(self).members,
                self.messages == old(self).messages,
                self.next_member_id == old(self).next_member_id,
                self.next_task_id == old(self).next_task_id,
                self.next_message_id == old(self).next_message_id,
            decreases self.tasks.len() - i,
        {
            let st = self.tasks[i].status;
            proof {
                assert(self.tasks@[i as int]@ == tv0[i as int]);
                assert(st == tv0[i as int].status);
            }
            if st != TaskStatus::InProgress && st != TaskStatus::Done {
                let ns = if blocked[i] {
                    TaskStatus::Blocked
                } else {
                    TaskStatus::Pending
                };
                proof {
                    assert(ns == derived_status(tv0, tv0[i as int]));
                }
                if self.tasks[i].status != ns {
                    let t = &mut self.tasks[i];
                    t.status = ns;
                    t.updated_at = now;
                    proof {
                        assert(self.tasks@[i as int]@ == (TaskV {
                            status: ns,
                            updated_at: now,
                            ..tv0[i as int]
                        }));
                        assert(self.tasks@[i as int]@ == refresh_one(tv0, tv0[i as int], now));
                    }
                } else {
                    proof {
                        assert(self.tasks@[i as int]@ == refresh_one(tv0, tv0[i as int], now));
                    }
                }
            } else {
                proof {
                    assert(self.tasks@[i as int]@ == refresh_one(tv0, tv0[i as int], now));
                }
            }
            i = i + 1;
        }
        proof {
            assert(self@.tasks =~= refresh_tasks(tv0, now));
        }
    }
}

// ---------------------------------------------------------------------
// Admission gates.
// ---------------------------------------------------------------------

/// First failure of the member-level gate: the member must exist and be
/// active.
pub open spec fn member_gate(t: TeamV, member_id: usize) -> Option<EngineError> {
    if !has_member(t.members, member_id) {
        Some(EngineError::UnknownMember)
    } else if t.members[member_index(t.members, member_id)].status != MemberStatus::Active {
        Some(EngineError::MemberNotActive)
    } else {
        None
    }
}

/// First failure of the execution gate: member-level gate, then the
/// delegation-only restriction, then the plan-approval gate.
pub open spec fn execute_gate(t: TeamV, member_id: usize) -> Option<EngineError> {
    if member_gate(t, member_id) is Some {
        member_gate(t, member_id)
    } else {
        let m = t.members[member_index(t.members, member_id)];
        if t.delegation_only && m.is_lead {
            Some(EngineError::DelegationOnlyLead)
        } else if m.require_plan_approval && m.plan_status != PlanStatus::Approved {
            Some(EngineError::PlanApprovalRequired)
        } else {
            None
        }
    }
}

/// Why a claim of `task_id` by `member_id` is rejected, or `None` when
/// it is admissible.
pub open spec fn claim_check(t: TeamV, member_id: usize, task_id: usize) -> Option<EngineError> {
    if execute_gate(t, member_id) is Some {
        execute_gate(t, member_id)
    } else if !has_task(t.tasks, task_id) {
        Some(EngineError::UnknownTask)
    } else {
        let ti = task_index(t.tasks, task_id);
        if t.tasks[ti].status != TaskStatus::Pending {
            Some(EngineError::TaskNotPending)
        } else if claim_conflict(t.tasks, ti) {
            Some(EngineError::FileConflict)
        } else {
            None
        }
    }
}

/// The team after an admissible claim: the target task becomes
/// in-progress, assigned to the member, stamped with `now`.
pub open spec fn claim_post(t: TeamV, member_id: usize, task_id: usize, now: u64) -> TeamV {
    let ti = task_index(t.tasks, task_id);
    let task = t.tasks[ti];
    team_with_tasks(
        t,
        t.tasks.update(
            ti,
            TaskV {
                status: TaskStatus::InProgress,
                assignee: Some(member_id),
                updated_at: now,
                ..task
            },
        ),
    )
}

/// Why completing `task_id` by `member_id` is rejected, or `None` when
/// it is admissible.
pub open spec fn complete_check(t: TeamV, member_id: usize, task_id: usize) -> Option<
    EngineError,
> {
    if member_gate(t, member_id) is Some {
        member_gate(t, member_id)
    } else if !has_task(t.tasks, task_id) {
        Some(EngineError::UnknownTask)
    } else {
        let task = t.tasks[task_index(t.tasks, task_id)];
        if task.status != TaskStatus::InProgress {
            Some(EngineError::TaskNotInProgress)
        } else if task.assignee != Some(member_id) {
            Some(EngineError::NotAssignee)
        } else {
            None
        }
    }
}

/// Saturating addition on counters.
pub open spec fn sat_add(a: u64, b: u64) -> u64 {
    if a + b > u64::MAX {
        u64::MAX
    } else {
        (a + b) as u64
    }
}

/// The team after an admissible completion: the task is done, usage is
/// added to the task's and the member's counters, and dependents are
/// re-derived against the new done set.
pub open spec fn complete_post(
    t: TeamV,
    member_id: usize,
    task_id: usize,
    input_tokens: u64,
    output_tokens: u64,
    cost_microusd: u64,
    now: u64,
) -> TeamV {
    let ti = task_index(t.tasks, task_id);
    let mi = member_index(t.members, member_id);
    let task = t.tasks[ti];
    let m = t.members[mi];
    let done = TaskV {
        status: TaskStatus::Done,
        updated_at: now,
        input_tokens: sat_add(task.input_tokens, input_tokens),
        output_tokens: sat_add(task.output_tokens, output_tokens),
        cost_microusd: sat_add(task.cost_microusd, cost_microusd),
        ..task
    };
    let m2 = MemberV {
        input_tokens: sat_add(m.input_tokens, input_tokens),
        output_tokens: sat_add(m.output_tokens, output_tokens),
        cost_microusd: sat_add(m.cost_microusd, cost_microusd),
        ..m
    };
    TeamV {
        members: t.members.update(mi, m2),
        tasks: refresh_tasks(t.tasks.update(ti, done), now),
        ..t
    }
}

// ---------------------------------------------------------------------
// Lemmas about updating one task.
// ---------------------------------------------------------------------

/// Replacing a task by one with the same id keeps the set of task ids.
pub proof fn lemma_update_same_ids(tasks: Seq<TaskV>, i: int, t: TaskV)
    requires
        0 <= i < tasks.len(),
        tasks[i].id == t.id,
    ensures
        forall|id: usize|
            #[trigger] task_id_exists(tasks.update(i, t), id) == task_id_exists(tasks, id),
{
    let u = tasks.update(i, t);
    assert forall|id: usize|
        #[trigger] task_id_exists(u, id) == task_id_exists(tasks, id) by {
        if task_id_exists(tasks, id) {
            let j = choose|j: int| 0 <= j < tasks.len() && tasks[j].id == id;
            assert(u[j].id == id);
        }
        if task_id_exists(u, id) {
            let j = choose|j: int| 0 <= j < u.len() && u[j].id == id;
            assert(tasks[j].id == id);
        }
    }
}

/// Replacing a task by one with the same id and the same done-ness
/// keeps the done set.
pub proof fn lemma_update_same_done(tasks: Seq<TaskV>, i: int, t: TaskV)
    requires
        0 <= i < tasks.len(),
        tasks[i].id == t.id,
        (tasks[i].status == TaskStatus::Done) == (t.status == TaskStatus::Done),
    ensures
        forall|id: usize| #[trigger] dep_done(tasks.update(i, t), id) == dep_done(tasks, id),
{
    let u = tasks.update(i, t);
    assert forall|id: usize| #[trigger] dep_done(u, id) == dep_done(tasks, id) by {
        if dep_done(tasks, id) {
            let j = choose|j: int|
                0 <= j < tasks.len() && tasks[j].id == id && tasks[j].status == TaskStatus::Done;
            if j == i {
                assert(u[i].id == id && u[i].status == TaskStatus::Done);
            } else {
                assert(u[j].id == id && u[j].status == TaskStatus::Done);
            }
        }
        if dep_done(u, id) {
            let j = choose|j: int|
                0 <= j < u.len() && u[j].id == id && u[j].status == TaskStatus::Done;
            if j == i {
                assert(tasks[i].id == id && tasks[i].status == TaskStatus::Done);
            } else {
                assert(tasks[j].id == id && tasks[j].status == TaskStatus::Done);
            }
        }
    }
}

/// Replacing a task whose done set and dependencies are unchanged, by
/// one that is in progress or done, keeps blocking consistency.
pub proof fn lemma_bc_update_off(tasks: Seq<TaskV>, i: int, t: TaskV)
    requires
        0 <= i < tasks.len(),
        tasks[i].id == t.id,
        (tasks[i].status == TaskStatus::Done) == (t.status == TaskStatus::Done),
        t.status == TaskStatus::InProgress || t.status == TaskStatus::Done,
        blocking_consistent(tasks),
    ensures
        blocking_consistent(tasks.update(i, t)),
{
    let u = tasks.update(i, t);
    lemma_update_same_done(tasks, i, t);
    assert forall|j: int|
        0 <= j < u.len() && (u[j].status == TaskStatus::Pending || u[j].status
            == TaskStatus::Blocked) implies u[j].status == derived_status(u, u[j]) by {
        assert(j != i);
        assert(u[j] == tasks[j]);
        if deps_ready(tasks, tasks[j]) {
            assert(deps_ready(u, u[j]));
        } else {
            let k = choose|k: int|
                0 <= k < tasks[j].deps.len() && !dep_done(tasks, tasks[j].deps[k]);
            assert(!dep_done(u, u[j].deps[k]));
        }
    }
}

// ---------------------------------------------------------------------
// Gate checks, executable.
// ---------------------------------------------------------------------

impl AgentTeam {
    /// Checks that the member exists and is active; returns its index.
    fn check_member_active(&self, member_id: usize) -> (r: Result<usize, EngineError>)
        requires
            forall|a: int, b: int|
                0 <= a < b < self@.members.len() ==> self@.members[a].id != self@.members[b].id,
        ensures
            match r {
                Ok(mi) => member_gate(self@, member_id) is None && mi < self.members.len()
                    && member_index(self@.members, member_id) == mi as int
                    && self@.members[mi as int].id == member_id,
                Err(e) => member_gate(self@, member_id) == Some(e),
            },
    {
        let mi = match self.find_member_idx(member_id) {
            Some(mi) => mi,
            None => {
                return Err(EngineError::UnknownMember);
            },
        };
        if self.members[mi].status != MemberStatus::Active {
            return Err(EngineError::MemberNotActive);
        }
        Ok(mi)
    }

    /// Checks the full execution gate; returns the member's index.
    fn check_execute_gate(&self, member_id: usize) -> (r: Result<usize, EngineError>)
        requires
            forall|a: int, b: int|
                0 <= a < b < self@.members.len() ==> self@.members[a].id != self@.members[b].id,
        ensures
            match r {
                Ok(mi) => execute_gate(self@, member_id) is None && mi < self.members.len()
                    && member_index(self@.members, member_id) == mi as int
                    && self@.members[mi as int].id == member_id,
                Err(e) => execute_gate(self@, member_id) == Some(e),
            },
    {
        let mi = match self.check_member_active(member_id) {
            Ok(mi) => mi,
            Err(e) => {
                return Err(e);
            },
        };
        if self.delegation_only && self.members[mi].is_lead {
            return Err(EngineError::DelegationOnlyLead);
        }
        if self.members[mi].require_plan_approval && self.members[mi].plan_status
            != PlanStatus::Approved {
            return Err(EngineError::PlanApprovalRequired);
        }
        Ok(mi)
    }
}

// ---------------------------------------------------------------------
// Claiming and completing.
// ---------------------------------------------------------------------

impl AgentTeam {
    /// Claims a pending task for a member, subject to the execution
    /// gate and the file-conflict exclusion.
    pub fn claim_task(&mut self, member_id: usize, task_id: usize, now: u64) -> (r: Result<
        (),
        EngineError,
    >)
        requires
            wf_team(old(self)@),
        ensures
            wf_team(final(self)@),
            match claim_check(old(self)@, member_id, task_id) {
                Some(e) => r == Err::<(), EngineError>(e) && final(self)@ == old(self)@,
                None => r == Ok::<(), EngineError>(()) && final(self)@ == claim_post(
                    old(self)@,
                    member_id,
                    task_id,
                    now,
                ),
            },
    {
        let ghost t0 = self@;
        if let Err(e) = self.check_execute_gate(member_id) {
            return Err(e);
        }
        self.refresh_blocking(now);
        proof {
            lemma_refresh_noop(t0.tasks, now);
            assert(self@ =~= t0);
        }
        let ti = match self.find_task_idx(task_id) {
            Some(ti) => ti,
            None => {
                return Err(EngineError::UnknownTask);
            },
        };
        if self.tasks[ti].status != TaskStatus::Pending {
            return Err(EngineError::TaskNotPending);
        }
        if has_file_conflict(&self.tasks, ti) {
            return Err(EngineError::FileConflict);
        }
        let ghost pre = self@.tasks[ti as int];
        let t = &mut self.tasks[ti];
        t.status = TaskStatus::InProgress;
        t.assignee = Some(member_id);
        t.updated_at = now;
        proof {
            let nt = TaskV {
                status: TaskStatus::InProgress,
                assignee: Some(member_id),
                updated_at: now,
                ..pre
            };
            assert(self.tasks@[ti as int]@ == nt);
            assert(self@.tasks =~= t0.tasks.update(ti as int, nt));
            assert(self@ =~= claim_post(t0, member_id, task_id, now));
            lemma_update_same_ids(t0.tasks, ti as int, nt);
            lemma_bc_update_off(t0.tasks, ti as int, nt);
            assert(wf_team(self@));
        }
        Ok(())
    }

    /// Completes an in-progress task held by the calling member and
    /// accounts the supplied usage on the task and the member.
    pub fn complete_task(
        &mut self,
        member_id: usize,
        task_id: usize,
        input_tokens: u64,
        output_tokens: u64,
        cost_microusd: u64,
        now: u64,
    ) -> (r: Result<(), EngineError>)
        requires
            wf_team(old(self)@),
        ensures
            wf_team(final(self)@),
            match complete_check(old(self)@, member_id, task_id) {
                Some(e) => r == Err::<(), EngineError>(e) && final(self)@ == old(self)@,
                None => r == Ok::<(), EngineError>(()) && final(self)@ == complete_post(
                    old(self)@,
                    member_id,
                    task_id,
                    input_tokens,
                    output_tokens,
                    cost_microusd,
                    now,
                ),
            },
    {
        let ghost t0 = self@;
        let mi = match self.check_member_active(member_id) {
            Ok(mi) => mi,
            Err(e) => {
                return Err(e);
            },
        };
        let ti = match self.find_task_idx(task_id) {
            Some(ti) => ti,
            None => {
                return Err(EngineError::UnknownTask);
            },
        };
        if self.tasks[ti].status != TaskStatus::InProgress {
            return Err(EngineError::TaskNotInProgress);
        }
        let assignee_matches = match self.tasks[ti].assignee {
            Some(a) => a == member_id,
            None => false,
        };
        if !assignee_matches {
            return Err(EngineError::NotAssignee);
        }
        let ghost pre_task = self@.tasks[ti as int];
        let ghost pre_member = self@.members[mi as int];
        {
            let t = &mut self.tasks[ti];
            t.status = TaskStatus::Done;
            t.updated_at = now;
            t.input_tokens = t.input_tokens.saturating_add(input_tokens);
            t.output_tokens = t.output_tokens.saturating_add(output_tokens);
            t.cost_microusd = t.cost_microusd.saturating_add(cost_microusd);
        }
        {
            let m = &mut self.members[mi];
            m.input_tokens = m.input_tokens.saturating_add(input_tokens);
            m.output_tokens = m.output_tokens.saturating_add(output_tokens);
            m.cost_microusd = m.cost_microusd.saturating_add(cost_microusd);
        }
        let ghost done = TaskV {
            status: TaskStatus::Done,
            updated_at: now,
            input_tokens: sat_add(pre_task.input_tokens, input_tokens),
            output_tokens: sat_add(pre_task.output_tokens, output_tokens),
            cost_microusd: sat_add(pre_task.cost_microusd, cost_microusd),
            ..pre_task
        };
        let ghost m2 = MemberV {
            input_tokens: sat_add(pre_member.input_tokens, input_tokens),
            output_tokens: sat_add(pre_member.output_tokens, output_tokens),
            cost_microusd: sat_add(pre_member.cost_microusd, cost_microusd),
            ..pre_member
        };
        proof {
            assert(self.tasks@[ti as int]@ == done);
            assert(self.members@[mi as int]@ == m2);
            assert(self@.tasks =~= t0.tasks.update(ti as int, done));
            assert(self@.members =~= t0.members.update(mi as int, m2));
        }
        let ghost tasks1 = t0.tasks.update(ti as int, done);
        self.refresh_blocking(now);
        proof {
            lemma_update_same_ids(t0.tasks, ti as int, done);
            lemma_refresh(tasks1, now);
            assert(self@ =~= complete_post(
                t0,
                member_id,
                task_id,
                input_tokens,
                output_tokens,
                cost_microusd,
                now,
            ));
            assert forall|i: int, k: int|
                0 <= i < self@.tasks.len() && 0 <= k < self@.tasks[i].deps.len()
                    implies task_id_exists(self@.tasks, #[trigger] self@.tasks[i].deps[k]) by {
                assert(self@.tasks[i].deps == tasks1[i].deps);
                assert(tasks1[i].deps == t0.tasks[i].deps);
                assert(task_id_exists(t0.tasks, t0.tasks[i].deps[k]));
                assert(task_id_exists(tasks1, tasks1[i].deps[k]));
            }
            assert(wf_team(self@));
        }
        Ok(())
    }
}

// ---------------------------------------------------------------------
// Adding members and tasks; the plan gate.
// ---------------------------------------------------------------------

/// The member record created by an admission.
pub open spec fn new_member_v(
    t: TeamV,
    name: Seq<char>,
    model: Seq<char>,
    require_plan_approval: bool,
    is_lead: bool,
) -> MemberV {
    MemberV {
        id: t.next_member_id,
        name,
        model,
        is_lead,
        status: MemberStatus::Active,
        terminated_at: None,
        termination_reason: None,
        require_plan_approval,
        plan_status: if require_plan_approval {
            PlanStatus::Planning
        } else {
            PlanStatus::Approved
        },
        latest_plan: None,
        plan_updated_at: None,
        input_tokens: 0,
        output_tokens: 0,
        cost_microusd: 0,
    }
}

/// The team after adding a member.
pub open spec fn add_member_post(
    t: TeamV,
    name: Seq<char>,
    model: Seq<char>,
    require_plan_approval: bool,
    is_lead: bool,
) -> TeamV {
    TeamV {
        members: t.members.push(new_member_v(t, name, model, require_plan_approval, is_lead)),
        next_member_id: (t.next_member_id + 1) as usize,
        ..t
    }
}

/// The task record created by an addition, before the automatic pass.
pub open spec fn new_task_v(
    t: TeamV,
    title: Seq<char>,
    deps: Seq<usize>,
    touched_files: Seq<Seq<char>>,
    now: u64,
) -> TaskV {
    TaskV {
        id: t.next_task_id,
        title,
        status: TaskStatus::Pending,
        assignee: None,
        deps,
        touched_files,
        input_tokens: 0,
        output_tokens: 0,
        cost_microusd: 0,
        created_at: now,
        updated_at: now,
    }
}

/// Why adding a task is rejected, or `None` when it is admissible.
pub open spec fn add_task_check(t: TeamV, deps: Seq<usize>) -> Option<EngineError> {
    if exists|k: int| 0 <= k < deps.len() && !task_id_exists(t.tasks, deps[k]) {
        Some(EngineError::UnknownDependency)
    } else if t.next_task_id == usize::MAX {
        Some(EngineError::IdExhausted)
    } else {
        None
    }
}

/// The team after adding a task: the new record is appended and the
/// automatic pass derives its initial status.
pub open spec fn add_task_post(
    t: TeamV,
    title: Seq<char>,
    deps: Seq<usize>,
    touched_files: Seq<Seq<char>>,
    now: u64,
) -> TeamV {
    TeamV {
        tasks: refresh_tasks(t.tasks.push(new_task_v(t, title, deps, touched_files, now)), now),
        next_task_id: (t.next_task_id + 1) as usize,
        ..t
    }
}

/// The member after a plan submission.
pub open spec fn submit_plan_post(t: TeamV, member_id: usize, plan: Seq<char>, now: u64) -> TeamV {
    let mi = member_index(t.members, member_id);
    let m = t.members[mi];
    TeamV {
        members: t.members.update(
            mi,
            MemberV {
                latest_plan: Some(plan),
                plan_updated_at: Some(now),
                plan_status: PlanStatus::Planning,
                ..m
            },
        ),
        ..t
    }
}

/// The member after a plan-status decision.
pub open spec fn set_plan_status_post(
    t: TeamV,
    member_id: usize,
    status: PlanStatus,
    now: u64,
) -> TeamV {
    let mi = member_index(t.members, member_id);
    let m = t.members[mi];
    TeamV {
        members: t.members.update(
            mi,
            MemberV { plan_status: status, plan_updated_at: Some(now), ..m },
        ),
        ..t
    }
}

impl AgentTeam {
    /// Adds a member; it starts active, with the plan gate open only
    /// when no approval is required. The only failure is the machine
    /// limit on the id counter.
    pub fn add_member(
        &mut self,
        name: &str,
        model: &str,
        require_plan_approval: bool,
        is_lead: bool,
    ) -> (r: Result<MemberState, EngineError>)
        requires
            wf_team(old(self)@),
        ensures
            wf_team(final(self)@),
            match r {
                Ok(m) => old(self)@.next_member_id < usize::MAX && m@ == new_member_v(
                    old(self)@,
                    name@,
                    model@,
                    require_plan_approval,
                    is_lead,
                ) && final(self)@ == add_member_post(
                    old(self)@,
                    name@,
                    model@,
                    require_plan_approval,
                    is_lead,
                ),
                Err(e) => e == EngineError::IdExhausted && old(self)@.next_member_id == usize::MAX
                    && final(self)@ == old(self)@,
            },
    {
        if self.next_member_id == usize::MAX {
            return Err(EngineError::IdExhausted);
        }
        let plan_status = if require_plan_approval {
            PlanStatus::Planning
        } else {
            PlanStatus::Approved
        };
        let member = MemberState {
            id: self.next_member_id,
            name: name.to_owned(),
            model: model.to_owned(),
            is_lead,
            status: MemberStatus::Active,
            terminated_at: None,
            termination_reason: None,
            require_plan_approval,
            plan_status,
            latest_plan: None,
            plan_updated_at: None,
            input_tokens: 0,
            output_tokens: 0,
            cost_microusd: 0,
        };
        let ret = member.clone();
        self.next_member_id = self.next_member_id + 1;
        self.members.push(member);
        proof {
            assert(self@.members =~= old(self)@.members.push(ret@));
            assert(self@ =~= add_member_post(
                old(self)@,
                name@,
                model@,
                require_plan_approval,
                is_lead,
            ));
        }
        Ok(ret)
    }

    /// Adds a task with its dependencies and touched files; every
    /// dependency must already exist.
    pub fn add_task(
        &mut self,
        title: &str,
        deps: Vec<usize>,
        touched_files: Vec<String>,
        now: u64,
    ) -> (r: Result<TeamTask, EngineError>)
        requires
            wf_team(old(self)@),
        ensures
            wf_team(final(self)@),
            match add_task_check(old(self)@, deps@) {
                Some(e) => r matches Err(e2) && e2 == e && final(self)@ == old(self)@,
                None => r matches Ok(task) && final(self)@ == add_task_post(
                    old(self)@,
                    title@,
                    deps@,
                    crate::domain::strs_view(touched_files@),
                    now,
                ) && task@ == final(self)@.tasks[final(self)@.tasks.len() - 1],
            },
    {
        let ghost t0 = self@;
        let mut k: usize = 0;
        while k < deps.len()
            invariant
                k <= deps.len(),
                self == old(self),
                t0 == self@,
                wf_team(t0),
                forall|j: int| 0 <= j < k ==> task_id_exists(t0.tasks, #[trigger] deps@[j]),
            decreases deps.len() - k,
        {
            if self.find_task_idx(deps[k]).is_none() {
                return Err(EngineError::UnknownDependency);
            }
            k = k + 1;
        }
        if self.next_task_id == usize::MAX {
            return Err(EngineError::IdExhausted);
        }
        let ghost depsv = deps@;
        let ghost filesv = crate::domain::strs_view(touched_files@);
        let task = TeamTask {
            id: self.next_task_id,
            title: title.to_owned(),
            status: TaskStatus::Pending,
            assignee: None,
            deps,
            touched_files,
            input_tokens: 0,
            output_tokens: 0,
            cost_microusd: 0,
            created_at: now,
            updated_at: now,
        };
        self.next_task_id = self.next_task_id + 1;
        self.tasks.push(task);
        let ghost tasks1 = t0.tasks.push(new_task_v(t0, title@, depsv, filesv, now));
        proof {
            assert(self@.tasks =~= tasks1);
            assert forall|id: usize|
                task_id_exists(t0.tasks, id) implies #[trigger] task_id_exists(tasks1, id) by {
                let j = choose|j: int| 0 <= j < t0.tasks.len() && t0.tasks[j].id == id;
                assert(tasks1[j].id == id);
            }
        }
        self.refresh_blocking(now);
        proof {
            lemma_refresh(tasks1, now);
            assert(self@ =~= add_task_post(t0, title@, depsv, filesv, now));
            assert forall|i: int, j: int|
                0 <= i < j < self@.tasks.len() implies self@.tasks[i].id < self@.tasks[j].id by {
                assert(self@.tasks[i].id == tasks1[i].id);
                assert(self@.tasks[j].id == tasks1[j].id);
                if j == tasks1.len() - 1 {
                    assert(tasks1[i].id == t0.tasks[i].id);
                    assert(t0.tasks[i].id < t0.next_task_id);
                }
            }
            assert forall|i: int, k2: int|
                0 <= i < self@.tasks.len() && 0 <= k2 < self@.tasks[i].deps.len()
                    implies task_id_exists(self@.tasks, #[trigger] self@.tasks[i].deps[k2]) by {
                assert(self@.tasks[i].deps == tasks1[i].deps);
                assert(task_id_exists(tasks1, tasks1[i].deps[k2]));
            }
            assert(wf_team(self@));
        }
        let idx = self.tasks.len() - 1;
        let ret = self.tasks[idx].clone();
        Ok(ret)
    }

    /// Records a freshly submitted plan; the member's gate returns to
    /// the planning state until a decision is made.
    pub fn submit_plan(&mut self, member_id: usize, plan: &str, now: u64) -> (r: Result<
        (),
        EngineError,
    >)
        requires
            wf_team(old(self)@),
        ensures
            wf_team(final(self)@),
            match member_gate(old(self)@, member_id) {
                Some(e) => r == Err::<(), EngineError>(e) && final(self)@ == old(self)@,
                None => r == Ok::<(), EngineError>(()) && final(self)@ == submit_plan_post(
                    old(self)@,
                    member_id,
                    plan@,
                    now,
                ),
            },
    {
        let mi = match self.check_member_active(member_id) {
            Ok(mi) => mi,
            Err(e) => {
                return Err(e);
            },
        };
        let ghost pre = self@.members[mi as int];
        let m = &mut self.members[mi];
        m.latest_plan = Some(plan.to_owned());
        m.plan_updated_at = Some(now);
        m.plan_status = PlanStatus::Planning;
        proof {
            assert(self.members@[mi as int]@ == (MemberV {
                latest_plan: Some(plan@),
                plan_updated_at: Some(now),
                plan_status: PlanStatus::Planning,
                ..pre
            }));
            assert(self@.members =~= submit_plan_post(old(self)@, member_id, plan@, now).members);
            assert(self@ =~= submit_plan_post(old(self)@, member_id, plan@, now));
        }
        Ok(())
    }

    /// Sets the decision on a member's plan.
    pub fn set_plan_status(&mut self, member_id: usize, status: PlanStatus, now: u64) -> (r:
        Result<(), EngineError>)
        requires
            wf_team(old(self)@),
        ensures
            wf_team(final(self)@),
            match member_gate(old(self)@, member_id) {
                Some(e) => r == Err::<(), EngineError>(e) && final(self)@ == old(self)@,
                None => r == Ok::<(), EngineError>(()) && final(self)@ == set_plan_status_post(
                    old(self)@,
                    member_id,
                    status,
                    now,
                ),
            },
    {
        let mi = match self.check_member_active(member_id) {
            Ok(mi) => mi,
            Err(e) => {
                return Err(e);
            },
        };
        let ghost pre = self@.members[mi as int];
        let m = &mut self.members[mi];
        m.plan_status = status;
        m.plan_updated_at = Some(now);
        proof {
            assert(self.members@[mi as int]@ == (MemberV {
                plan_status: status,
                plan_updated_at: Some(now),
                ..pre
            }));
            assert(self@.members =~= set_plan_status_post(
                old(self)@,
                member_id,
                status,
                now,
            ).members);
            assert(self@ =~= set_plan_status_post(old(self)@, member_id, status, now));
        }
        Ok(())
    }
}

// ---------------------------------------------------------------------
// Member lifecycle and recovery.
// ---------------------------------------------------------------------

/// A task after its assignee was removed: open tasks of the member are
/// unassigned and reset per the recovery policy; everything else is
/// untouched. Note an open conflation: manual recovery and dependency
/// derivation share the one `Blocked` value, so the automatic pass that
/// follows re-derives a manually blocked task back to `Pending`
/// whenever its dependencies are all done. That is deliberate: the
/// same thing happens in every released build, and the behaviour is
/// kept rather than silently changed.
pub open spec fn reassign_one(
    task: TaskV,
    member_id: usize,
    policy: RecoveryPolicy,
    now: u64,
) -> TaskV {
    if task.assignee == Some(member_id) && task.status != TaskStatus::Done {
        TaskV {
            assignee: None,
            updated_at: now,
            status: if policy == RecoveryPolicy::AutoReassign {
                TaskStatus::Pending
            } else {
                TaskStatus::Blocked
            },
            ..task
        }
    } else {
        task
    }
}

/// The team after removing (terminating) a member: the record is marked
/// terminated, its open tasks are reset per the recovery policy, and
/// the automatic pass re-derives blocking.
pub open spec fn remove_member_post(
    t: TeamV,
    member_id: usize,
    reason: Seq<char>,
    now: u64,
) -> TeamV {
    let mi = member_index(t.members, member_id);
    let m = t.members[mi];
    let m2 = MemberV {
        status: MemberStatus::Terminated,
        terminated_at: Some(now),
        termination_reason: Some(reason),
        ..m
    };
    let tasks1 = t.tasks.map_values(
        |task: TaskV| reassign_one(task, member_id, t.recovery_policy, now),
    );
    TeamV { members: t.members.update(mi, m2), tasks: refresh_tasks(tasks1, now), ..t }
}

/// The team after restarting a member: active again, termination
/// metadata cleared; usage, plan state and task assignments untouched.
pub open spec fn restart_member_post(t: TeamV, member_id: usize) -> TeamV {
    let mi = member_index(t.members, member_id);
    let m = t.members[mi];
    TeamV {
        members: t.members.update(
            mi,
            MemberV {
                status: MemberStatus::Active,
                terminated_at: None,
                termination_reason: None,
                ..m
            },
        ),
        ..t
    }
}

/// The subsequence of active members, in order.
pub open spec fn active_members(members: Seq<MemberV>) -> Seq<MemberV>
    decreases members.len(),
{
    if members.len() == 0 {
        Seq::empty()
    } else {
        let rest = active_members(members.drop_last());
        if members.last().status == MemberStatus::Active {
            rest.push(members.last())
        } else {
            rest
        }
    }
}

/// Whether an active member with the id exists.
pub open spec fn active_id(members: Seq<MemberV>, id: usize) -> bool {
    exists|i: int|
        0 <= i < members.len() && members[i].id == id && members[i].status
            == MemberStatus::Active
}

/// A read-by set with the ids of non-active members removed, in order.
pub open spec fn retained_read_by(read_by: Seq<usize>, members: Seq<MemberV>) -> Seq<usize>
    decreases read_by.len(),
{
    if read_by.len() == 0 {
        Seq::empty()
    } else {
        let rest = retained_read_by(read_by.drop_last(), members);
        if active_id(members, read_by.last()) {
            rest.push(read_by.last())
        } else {
            rest
        }
    }
}

/// The team after pruning terminated members: they leave the member
/// list and every message's read-by set; tasks, messages and id
/// counters are untouched.
pub open spec fn prune_post(t: TeamV) -> TeamV {
    TeamV {
        members: active_members(t.members),
        messages: t.messages.map_values(
            |m: MessageV| MessageV { read_by: retained_read_by(m.read_by, t.members), ..m },
        ),
        ..t
    }
}

proof fn lemma_active_members(members: Seq<MemberV>, cap: usize)
    requires
        forall|a: int, b: int| 0 <= a < b < members.len() ==> members[a].id != members[b].id,
        forall|i: int| 0 <= i < members.len() ==> #[trigger] members[i].id < cap,
    ensures
        forall|i: int|
            0 <= i < active_members(members).len() ==> exists|j: int|
                0 <= j < members.len() && #[trigger] active_members(members)[i] == members[j],
        forall|a: int, b: int|
            0 <= a < b < active_members(members).len() ==> active_members(members)[a].id
                != active_members(members)[b].id,
        forall|i: int|
            0 <= i < active_members(members).len() ==> #[trigger] active_members(
                members,
            )[i].id < cap,
    decreases members.len(),
{
    if members.len() > 0 {
        let d = members.drop_last();
        lemma_active_members(d, cap);
        let rest = active_members(d);
        assert forall|i: int|
            0 <= i < rest.len() implies exists|j: int|
                0 <= j < members.len() && #[trigger] rest[i] == members[j] by {
            let j = choose|j: int| 0 <= j < d.len() && rest[i] == d[j];
            assert(members[j] == d[j]);
        }
        if members.last().status == MemberStatus::Active {
            let full = rest.push(members.last());
            assert forall|a: int, b: int|
                0 <= a < b < full.len() implies full[a].id != full[b].id by {
                if b == full.len() - 1 {
                    let j = choose|j: int| 0 <= j < members.len() && full[a] == members[j];
                    let ja = choose|j: int| 0 <= j < d.len() && rest[a] == d[j];
                    assert(full[a] == d[ja]);
                    assert(members[ja].id != members[members.len() - 1].id);
                }
            }
        }
    }
}

impl AgentTeam {
    /// Terminates a member with a reason; its open tasks are returned
    /// to the pool per the recovery policy. Because the trailing
    /// blocking pass re-derives every non-running task, a manually
    /// blocked task whose dependencies are all done ends up `Pending`
    /// again under either policy — the recovery policy is observable
    /// only while some dependency is open (see `reassign_one`).
    pub fn remove_member(&mut self, member_id: usize, reason: &str, now: u64) -> (r: Result<
        (),
        EngineError,
    >)
        requires
            wf_team(old(self)@),
        ensures
            wf_team(final(self)@),
            if has_member(old(self)@.members, member_id) {
                r == Ok::<(), EngineError>(()) && final(self)@ == remove_member_post(
                    old(self)@,
                    member_id,
                    reason@,
                    now,
                )
            } else {
                r == Err::<(), EngineError>(EngineError::UnknownMember) && final(self)@ == old(
                    self,
                )@
            },
    {
        let ghost t0 = self@;
        let mi = match self.find_member_idx(member_id) {
            Some(mi) => mi,
            None => {
                return Err(EngineError::UnknownMember);
            },
        };
        let ghost pre = self@.members[mi as int];
        {
            let m = &mut self.members[mi];
            m.status = MemberStatus::Terminated;
            m.terminated_at = Some(now);
            m.termination_reason = Some(reason.to_owned());
        }
        let ghost m2 = MemberV {
            status: MemberStatus::Terminated,
            terminated_at: Some(now),
            termination_reason: Some(reason@),
            ..pre
        };
        proof {
            assert(self.members@[mi as int]@ == m2);
            assert(self@.members =~= t0.members.update(mi as int, m2));
        }
        let ghost members1 = self@.members;
        let policy = self.recovery_policy;
        let mut i: usize = 0;
        while i < self.tasks.len()
            invariant
                i <= self.tasks.len(),
                self.tasks@.len() == t0.tasks.len(),
                policy == t0.recovery_policy,
                self@.members == members1,
                forall|j: int| i <= j < t0.tasks.len() ==> #[trigger] self.tasks@[j]@ == t0.tasks[j],
                forall|j: int|
                    0 <= j < i ==> #[trigger] self.tasks@[j]@ == reassign_one(
                        t0.tasks[j],
                        member_id,
                        t0.recovery_policy,
                        now,
                    ),
                self.id == old(self).id,
                self.mode == old(self).mode,
                self.delegation_only == old(self).delegation_only,
                self.recovery_policy == old(self).recovery_policy,
                self.messages == old(self).messages,
                self.next_member_id == old(self).next_member_id,
                self.next_task_id == old(self).next_task_id,
                self.next_message_id == old(self).next_message_id,
            decreases self.tasks.len() - i,
        {
            let assigned = match self.tasks[i].assignee {
                Some(a) => a == member_id,
                None => false,
            };
            if assigned && self.tasks[i].status != TaskStatus::Done {
                let ghost pre_t = self.tasks@[i as int]@;
                let ns = if policy == RecoveryPolicy::AutoReassign {
                    TaskStatus::Pending
                } else {
                    TaskStatus::Blocked
                };
                let t = &mut self.tasks[i];
                t.assignee = None;
                t.updated_at = now;
                t.status = ns;
                proof {
                    assert(pre_t == t0.tasks[i as int]);
                    assert(self.tasks@[i as int]@ == (TaskV {
                        assignee: None,
                        updated_at: now,
                        status: ns,
                        ..pre_t
                    }));
                    assert(self.tasks@[i as int]@ == reassign_one(
                        t0.tasks[i as int],
                        member_id,
                        t0.recovery_policy,
                        now,
                    ));
                }
            } else {
                proof {
                    assert(self.tasks@[i as int]@ == reassign_one(
                        t0.tasks[i as int],
                        member_id,
                        t0.recovery_policy,
                        now,
                    ));
                }
            }
            i = i + 1;
        }
        let ghost tasks1 = t0.tasks.map_values(
            |task: TaskV| reassign_one(task, member_id, t0.recovery_policy, now),
        );
        proof {
            assert(self@.tasks =~= tasks1);
        }
        self.refresh_blocking(now);
        proof {
            lemma_refresh(tasks1, now);
            assert(self@ =~= remove_member_post(t0, member_id, reason@, now));
            assert forall|i2: int, j2: int|
                0 <= i2 < j2 < self@.tasks.len() implies self@.tasks[i2].id
                    < self@.tasks[j2].id by {
                assert(self@.tasks[i2].id == tasks1[i2].id);
                assert(self@.tasks[j2].id == tasks1[j2].id);
                assert(tasks1[i2].id == t0.tasks[i2].id);
                assert(tasks1[j2].id == t0.tasks[j2].id);
            }
            assert forall|i2: int|
                0 <= i2 < self@.tasks.len() implies #[trigger] self@.tasks[i2].id
                    < self@.next_task_id by {
                assert(self@.tasks[i2].id == tasks1[i2].id);
                assert(tasks1[i2].id == t0.tasks[i2].id);
            }
            assert forall|i2: int, k2: int|
                0 <= i2 < self@.tasks.len() && 0 <= k2 < self@.tasks[i2].deps.len()
                    implies task_id_exists(self@.tasks, #[trigger] self@.tasks[i2].deps[k2]) by {
                assert(self@.tasks[i2].deps == tasks1[i2].deps);
                assert(tasks1[i2].deps == t0.tasks[i2].deps);
                assert(task_id_exists(t0.tasks, t0.tasks[i2].deps[k2]));
                let w = choose|w: int|
                    0 <= w < t0.tasks.len() && t0.tasks[w].id == t0.tasks[i2].deps[k2];
                assert(tasks1[w].id == t0.tasks[i2].deps[k2]);
                assert(task_id_exists(tasks1, tasks1[i2].deps[k2]));
            }
            assert(wf_team(self@));
        }
        Ok(())
    }

    /// Restores a terminated member to active; termination metadata is
    /// cleared, usage and plan state untouched.
    pub fn restart_member(&mut self, member_id: usize) -> (r: Result<(), EngineError>)
        requires
            wf_team(old(self)@),
        ensures
            wf_team(final(self)@),
            if has_member(old(self)@.members, member_id) {
                r == Ok::<(), EngineError>(()) && final(self)@ == restart_member_post(
                    old(self)@,
                    member_id,
                )
            } else {
                r == Err::<(), EngineError>(EngineError::UnknownMember) && final(self)@ == old(
                    self,
                )@
            },
    {
        let mi = match self.find_member_idx(member_id) {
            Some(mi) => mi,
            None => {
                return Err(EngineError::UnknownMember);
            },
        };
        let ghost pre = self@.members[mi as int];
        let m = &mut self.members[mi];
        m.status = MemberStatus::Active;
        m.terminated_at = None;
        m.termination_reason = None;
        proof {
            assert(self.members@[mi as int]@ == (MemberV {
                status: MemberStatus::Active,
                terminated_at: None,
                termination_reason: None,
                ..pre
            }));
            assert(self@.members =~= restart_member_post(old(self)@, member_id).members);
            assert(self@ =~= restart_member_post(old(self)@, member_id));
        }
        Ok(())
    }

    /// Deletes every terminated member for good, and strips their ids
    /// from every message's read-by set.
    pub fn prune_terminated(&mut self)
        requires
            wf_team(old(self)@),
        ensures
            wf_team(final(self)@),
            final(self)@ == prune_post(old(self)@),
    {
        let ghost t0 = self@;
        let mut kept: Vec<MemberState> = Vec::new();
        let mut i: usize = 0;
        while i < self.members.len()
            invariant
                i <= self.members.len(),
                t0 == self@,
                kept@.map_values(|m: MemberState| m@) == active_members(
                    t0.members.subrange(0, i as int),
                ),
            decreases self.members.len() - i,
        {
            proof {
                assert(t0.members.subrange(0, i + 1).drop_last() =~= t0.members.subrange(
                    0,
                    i as int,
                ));
            }
            if member_is_active(&self.members[i]) {
                kept.push(self.members[i].clone());
                proof {
                    assert(kept@.map_values(|m: MemberState| m@) =~= active_members(
                        t0.members.subrange(0, i as int),
                    ).push(t0.members[i as int]));
                }
            }
            i = i + 1;
        }
        proof {
            assert(t0.members.subrange(0, t0.members.len() as int) =~= t0.members);
        }
        let mut j: usize = 0;
        while j < self.messages.len()
            invariant
                j <= self.messages.len(),
                self.messages@.len() == t0.messages.len(),
                self.members == old(self).members,
                self@.members == t0.members,
                kept@.map_values(|m: MemberState| m@) == active_members(t0.members),
                forall|q: int|
                    j <= q < t0.messages.len() ==> #[trigger] self.messages@[q]@
                        == t0.messages[q],
                forall|q: int|
                    0 <= q < j ==> #[trigger] self.messages@[q]@ == (MessageV {
                        read_by: retained_read_by(t0.messages[q].read_by, t0.members),
                        ..t0.messages[q]
                    }),
                self.id == old(self).id,
                self.mode == old(self).mode,
                self.delegation_only == old(self).delegation_only,
                self.recovery_policy == old(self).recovery_policy,
                self.tasks == old(self).tasks,
                self.next_member_id == old(self).next_member_id,
                self.next_task_id == old(self).next_task_id,
                self.next_message_id == old(self).next_message_id,
            decreases self.messages.len() - j,
        {
            let ghost pre = self.messages@[j as int]@;
            let nrb = retain_active_ids(&self.members, &self.messages[j].read_by);
            let msg = &mut self.messages[j];
            msg.read_by = nrb;
            proof {
                assert(self.messages@[j as int]@ == (MessageV {
                    read_by: retained_read_by(t0.messages[j as int].read_by, t0.members),
                    ..t0.messages[j as int]
                }));
            }
            j = j + 1;
        }
        self.members = kept;
        proof {
            assert(self@.members =~= active_members(t0.members));
            assert(self@.messages =~= prune_post(t0).messages);
            assert(self@ =~= prune_post(t0));
            lemma_active_members(t0.members, t0.next_member_id);
            assert forall|i2: int|
                0 <= i2 < self@.tasks.len() && (self@.tasks[i2].status == TaskStatus::Pending
                    || self@.tasks[i2].status == TaskStatus::Blocked)
                    implies self@.tasks[i2].status == derived_status(
                    self@.tasks,
                    self@.tasks[i2],
                ) by {
                assert(blocking_consistent(t0.tasks));
                assert(self@.tasks == t0.tasks);
            }
            assert(wf_team(self@));
        }
    }
}

// ---------------------------------------------------------------------
// Messaging.
// ---------------------------------------------------------------------

/// Why posting a message is rejected, or `None` when it is admissible:
/// a named sender or recipient must resolve to an active member.
pub open spec fn post_message_check(
    t: TeamV,
    from_member: Option<usize>,
    to_member: Option<usize>,
) -> Option<EngineError> {
    let from_err = match from_member {
        Some(f) => member_gate(t, f),
        None => None,
    };
    if from_err is Some {
        from_err
    } else {
        let to_err = match to_member {
            Some(v) => member_gate(t, v),
            None => None,
        };
        if to_err is Some {
            to_err
        } else if t.next_message_id == usize::MAX {
            Some(EngineError::IdExhausted)
        } else {
            None
        }
    }
}

/// The message record created by a post.
pub open spec fn new_message_v(
    t: TeamV,
    from_member: Option<usize>,
    to_member: Option<usize>,
    text: Seq<char>,
    priority: TeamMessagePriority,
    now: u64,
) -> MessageV {
    MessageV {
        id: t.next_message_id,
        from_member,
        to_member,
        text,
        priority,
        created_at: now,
        read_by: Seq::empty(),
    }
}

/// The team after posting a message.
pub open spec fn post_message_post(
    t: TeamV,
    from_member: Option<usize>,
    to_member: Option<usize>,
    text: Seq<char>,
    priority: TeamMessagePriority,
    now: u64,
) -> TeamV {
    TeamV {
        messages: t.messages.push(new_message_v(t, from_member, to_member, text, priority, now)),
        next_message_id: (t.next_message_id + 1) as usize,
        ..t
    }
}

/// Visibility: broadcasts are visible to every viewer; directed
/// messages only to their recipient or to an unrestricted viewer.
pub open spec fn message_visible(m: MessageV, viewer: Option<usize>) -> bool {
    match viewer {
        None => true,
        Some(v) => m.to_member is None || m.to_member == Some(v),
    }
}

/// Whether a listing keeps the message: visible, and unread by the
/// viewer when only unread messages were asked for.
pub open spec fn message_selected(m: MessageV, viewer: Option<usize>, unread_only: bool) -> bool {
    message_visible(m, viewer) && (match viewer {
        Some(v) => !(unread_only && m.read_by.contains(v)),
        None => true,
    })
}

/// The subsequence of messages a listing returns, in order.
pub open spec fn selected_messages(
    messages: Seq<MessageV>,
    viewer: Option<usize>,
    unread_only: bool,
) -> Seq<MessageV>
    decreases messages.len(),
{
    if messages.len() == 0 {
        Seq::empty()
    } else {
        let rest = selected_messages(messages.drop_last(), viewer, unread_only);
        if message_selected(messages.last(), viewer, unread_only) {
            rest.push(messages.last())
        } else {
            rest
        }
    }
}

/// Why marking a message read is rejected, or `None`.
pub open spec fn mark_read_check(t: TeamV, member_id: usize, message_id: usize) -> Option<
    EngineError,
> {
    if member_gate(t, member_id) is Some {
        member_gate(t, member_id)
    } else if !has_message(t.messages, message_id) {
        Some(EngineError::UnknownMessage)
    } else {
        None
    }
}

/// The team after a read acknowledgement: the member id is appended to
/// the message's read-by set unless already present.
pub open spec fn mark_read_post(t: TeamV, member_id: usize, message_id: usize) -> TeamV {
    let j = message_index(t.messages, message_id);
    let m = t.messages[j];
    TeamV {
        messages: t.messages.update(
            j,
            MessageV {
                read_by: if m.read_by.contains(member_id) {
                    m.read_by
                } else {
                    m.read_by.push(member_id)
                },
                ..m
            },
        ),
        ..t
    }
}

impl AgentTeam {
    /// Posts a message to the team inbox, broadcast or directed.
    pub fn post_message(
        &mut self,
        from_member: Option<usize>,
        to_member: Option<usize>,
        text: &str,
        priority: TeamMessagePriority,
        now: u64,
    ) -> (r: Result<TeamMessage, EngineError>)
        requires
            wf_team(old(self)@),
        ensures
            wf_team(final(self)@),
            match post_message_check(old(self)@, from_member, to_member) {
                Some(e) => r matches Err(e2) && e2 == e && final(self)@ == old(self)@,
                None => r matches Ok(msg) && msg@ == new_message_v(
                    old(self)@,
                    from_member,
                    to_member,
                    text@,
                    priority,
                    now,
                ) && final(self)@ == post_message_post(
                    old(self)@,
                    from_member,
                    to_member,
                    text@,
                    priority,
                    now,
                ),
            },
    {
        if let Some(f) = from_member {
            if let Err(e) = self.check_member_active(f) {
                return Err(e);
            }
        }
        if let Some(v) = to_member {
            if let Err(e) = self.check_member_active(v) {
                return Err(e);
            }
        }
        if self.next_message_id == usize::MAX {
            return Err(EngineError::IdExhausted);
        }
        let msg = TeamMessage {
            id: self.next_message_id,
            from_member,
            to_member,
            text: text.to_owned(),
            priority,
            created_at: now,
            read_by: Vec::new(),
        };
        let ret = msg.clone();
        self.next_message_id = self.next_message_id + 1;
        self.messages.push(msg);
        proof {
            assert(ret@.read_by =~= Seq::<usize>::empty());
            assert(self@.messages =~= old(self)@.messages.push(ret@));
            assert(self@ =~= post_message_post(
                old(self)@,
                from_member,
                to_member,
                text@,
                priority,
                now,
            ));
        }
        Ok(ret)
    }

    /// Lists the messages a viewer may see, optionally only the unread
    /// ones; an absent viewer is unrestricted.
    pub fn team_messages(&self, viewer_member: Option<usize>, unread_only: bool) -> (r: Result<
        Vec<TeamMessage>,
        EngineError,
    >)
        requires
            wf_team(self@),
        ensures
            match viewer_member {
                Some(v) => !has_member(self@.members, v) ==> r == Err::<
                    Vec<TeamMessage>,
                    EngineError,
                >(EngineError::UnknownMember),
                None => true,
            },
            (match viewer_member {
                Some(v) => has_member(self@.members, v),
                None => true,
            }) ==> (r matches Ok(msgs) && msgs@.map_values(|m: TeamMessage| m@)
                == selected_messages(self@.messages, viewer_member, unread_only)),
    {
        if let Some(v) = viewer_member {
            if self.find_member_idx(v).is_none() {
                return Err(EngineError::UnknownMember);
            }
        }
        let mut out: Vec<TeamMessage> = Vec::new();
        let mut j: usize = 0;
        while j < self.messages.len()
            invariant
                j <= self.messages.len(),
                self@.messages.len() == self.messages@.len(),
                forall|q: int|
                    0 <= q < self.messages@.len() ==> #[trigger] self.messages@[q]@
                        == self@.messages[q],
                out@.map_values(|m: TeamMessage| m@) == selected_messages(
                    self@.messages.subrange(0, j as int),
                    viewer_member,
                    unread_only,
                ),
            decreases self.messages.len() - j,
        {
            proof {
                assert(self@.messages.subrange(0, j + 1).drop_last() =~= self@.messages.subrange(
                    0,
                    j as int,
                ));
            }
            let visible = match viewer_member {
                None => true,
                Some(v) => match self.messages[j].to_member {
                    None => true,
                    Some(t) => t == v,
                },
            };
            let unread_ok = match viewer_member {
                Some(v) => !(unread_only && ids_contain(&self.messages[j].read_by, v)),
                None => true,
            };
            proof {
                assert(visible == message_visible(self@.messages[j as int], viewer_member));
                assert((visible && unread_ok) == message_selected(
                    self@.messages[j as int],
                    viewer_member,
                    unread_only,
                ));
            }
            if visible && unread_ok {
                out.push(self.messages[j].clone());
                proof {
                    assert(out@.map_values(|m: TeamMessage| m@) =~= selected_messages(
                        self@.messages.subrange(0, j as int),
                        viewer_member,
                        unread_only,
                    ).push(self@.messages[j as int]));
                }
            }
            j = j + 1;
        }
        proof {
            assert(self@.messages.subrange(0, self@.messages.len() as int) =~= self@.messages);
        }
        Ok(out)
    }

    /// Acknowledges that a member has read a message; idempotent.
    pub fn mark_message_read(&mut self, member_id: usize, message_id: usize) -> (r: Result<
        (),
        EngineError,
    >)
        requires
            wf_team(old(self)@),
        ensures
            wf_team(final(self)@),
            match mark_read_check(old(self)@, member_id, message_id) {
                Some(e) => r == Err::<(), EngineError>(e) && final(self)@ == old(self)@,
                None => r == Ok::<(), EngineError>(()) && final(self)@ == mark_read_post(
                    old(self)@,
                    member_id,
                    message_id,
                ),
            },
    {
        if let Err(e) = self.check_member_active(member_id) {
            return Err(e);
        }
        let j = match self.find_message_idx(message_id) {
            Some(j) => j,
            None => {
                return Err(EngineError::UnknownMessage);
            },
        };
        let ghost pre = self@.messages[j as int];
        if !ids_contain(&self.messages[j].read_by, member_id) {
            let msg = &mut self.messages[j];
            msg.read_by.push(member_id);
            proof {
                assert(self.messages@[j as int]@ == (MessageV {
                    read_by: pre.read_by.push(member_id),
                    ..pre
                }));
                assert(self@.messages =~= mark_read_post(
                    old(self)@,
                    member_id,
                    message_id,
                ).messages);
                assert(self@ =~= mark_read_post(old(self)@, member_id, message_id));
            }
        } else {
            proof {
                assert(old(self)@.messages.update(j as int, pre) =~= old(self)@.messages);
                assert(self@ =~= mark_read_post(old(self)@, member_id, message_id));
            }
        }
        Ok(())
    }
}

// ---------------------------------------------------------------------
// Usage accounting.
// ---------------------------------------------------------------------

/// Saturating sum of a sequence of counters.
pub open spec fn sum_sat(s: Seq<u64>) -> u64
    decreases s.len(),
{
    if s.len() == 0 {
        0
    } else {
        sat_add(sum_sat(s.drop_last()), s.last())
    }
}

/// How many tasks are in progress.
pub open spec fn count_in_progress(tasks: Seq<TaskV>) -> int
    decreases tasks.len(),
{
    if tasks.len() == 0 {
        0
    } else {
        count_in_progress(tasks.drop_last()) + if tasks.last().status == TaskStatus::InProgress {
            1int
        } else {
            0int
        }
    }
}

impl AgentTeam {
    /// Sums token and cost counters over all tasks and counts the
    /// in-progress ones.
    pub fn team_usage(&self) -> (u: TeamUsage)
        ensures
            u.input_tokens == sum_sat(self@.tasks.map_values(|t: TaskV| t.input_tokens)),
            u.output_tokens == sum_sat(self@.tasks.map_values(|t: TaskV| t.output_tokens)),
            u.cost_microusd == sum_sat(self@.tasks.map_values(|t: TaskV| t.cost_microusd)),
            u.active_tasks == count_in_progress(self@.tasks),
    {
        let mut input_tokens: u64 = 0;
        let mut output_tokens: u64 = 0;
        let mut cost_microusd: u64 = 0;
        let mut active_tasks: u64 = 0;
        let mut i: usize = 0;
        while i < self.tasks.len()
            invariant
                i <= self.tasks.len(),
                self@.tasks.len() == self.tasks@.len(),
                forall|q: int|
                    0 <= q < self.tasks@.len() ==> #[trigger] self.tasks@[q]@ == self@.tasks[q],
                input_tokens == sum_sat(
                    self@.tasks.subrange(0, i as int).map_values(|t: TaskV| t.input_tokens),
                ),
                output_tokens == sum_sat(
                    self@.tasks.subrange(0, i as int).map_values(|t: TaskV| t.output_tokens),
                ),
                cost_microusd == sum_sat(
                    self@.tasks.subrange(0, i as int).map_values(|t: TaskV| t.cost_microusd),
                ),
                active_tasks == count_in_progress(self@.tasks.subrange(0, i as int)),
                active_tasks <= i,
            decreases self.tasks.len() - i,
        {
            proof {
                let s0 = self@.tasks.subrange(0, i as int);
                let s1 = self@.tasks.subrange(0, i + 1);
                assert(s1.drop_last() =~= s0);
                assert(s1.map_values(|t: TaskV| t.input_tokens).drop_last() =~= s0.map_values(
                    |t: TaskV| t.input_tokens,
                ));
                assert(s1.map_values(|t: TaskV| t.output_tokens).drop_last() =~= s0.map_values(
                    |t: TaskV| t.output_tokens,
                ));
                assert(s1.map_values(|t: TaskV| t.cost_microusd).drop_last() =~= s0.map_values(
                    |t: TaskV| t.cost_microusd,
                ));
            }
            input_tokens = input_tokens.saturating_add(self.tasks[i].input_tokens);
            output_tokens = output_tokens.saturating_add(self.tasks[i].output_tokens);
            cost_microusd = cost_microusd.saturating_add(self.tasks[i].cost_microusd);
            if self.tasks[i].status == TaskStatus::InProgress {
                active_tasks = active_tasks + 1;
            }
            i = i + 1;
        }
        proof {
            assert(self@.tasks.subrange(0, self@.tasks.len() as int) =~= self@.tasks);
        }
        TeamUsage { input_tokens, output_tokens, cost_microusd, active_tasks }
    }
}

// ---------------------------------------------------------------------
// Auto-claim.
// ---------------------------------------------------------------------

/// Whether the task at `i` could be claimed right now: pending and
/// free of file conflicts.
pub open spec fn claimable(tasks: Seq<TaskV>, i: int) -> bool {
    tasks[i].status == TaskStatus::Pending && !claim_conflict(tasks, i)
}

/// Whether `i` is the first claimable position.
pub open spec fn is_first_claimable(tasks: Seq<TaskV>, i: int) -> bool {
    0 <= i < tasks.len() && claimable(tasks, i) && forall|j: int| 0 <= j < i ==> !claimable(
        tasks,
        j,
    )
}

/// What a successful auto-claim scan did: either the first claimable
/// task was claimed and its id returned, or nothing qualified and the
/// team is unchanged.
pub open spec fn auto_claim_ok(
    t0: TeamV,
    t1: TeamV,
    member_id: usize,
    now: u64,
    r: Option<usize>,
) -> bool {
    if exists|i: int| is_first_claimable(t0.tasks, i) {
        exists|i: int|
            #[trigger] is_first_claimable(t0.tasks, i) && r == Some(t0.tasks[i].id) && t1
                == team_with_tasks(
                t0,
                t0.tasks.update(
                    i,
                    TaskV {
                        status: TaskStatus::InProgress,
                        assignee: Some(member_id),
                        updated_at: now,
                        ..t0.tasks[i]
                    },
                ),
            )
    } else {
        r is None && t1 == t0
    }
}

impl AgentTeam {
    /// Claims the first claimable task for the member, or reports that
    /// none qualifies; the member-level gates apply as for a claim.
    /// Well-formedness keeps task ids strictly increasing, so the first
    /// claimable position is the claimable task with the lowest id.
    pub fn auto_claim_next_task(&mut self, member_id: usize, now: u64) -> (r: Result<
        Option<usize>,
        EngineError,
    >)
        requires
            wf_team(old(self)@),
        ensures
            wf_team(final(self)@),
            match execute_gate(old(self)@, member_id) {
                Some(e) => r == Err::<Option<usize>, EngineError>(e) && final(self)@ == old(
                    self,
                )@,
                None => r matches Ok(ro) && auto_claim_ok(
                    old(self)@,
                    final(self)@,
                    member_id,
                    now,
                    ro,
                ),
            },
    {
        let ghost t0 = self@;
        if let Err(e) = self.check_execute_gate(member_id) {
            return Err(e);
        }
        self.refresh_blocking(now);
        proof {
            lemma_refresh_noop(t0.tasks, now);
            assert(self@ =~= t0);
        }
        let mut idx: usize = 0;
        while idx < self.tasks.len()
            invariant
                idx <= self.tasks.len(),
                self@ == t0,
                t0 == old(self)@,
                wf_team(t0),
                execute_gate(t0, member_id) is None,
                forall|j: int| 0 <= j < idx ==> !claimable(t0.tasks, j),
            decreases self.tasks.len() - idx,
        {
            if task_status_is_pending(&self.tasks[idx]) {
                if !has_file_conflict(&self.tasks, idx) {
                    let claimed_id = self.tasks[idx].id;
                    let ghost pre = self@.tasks[idx as int];
                    let t = &mut self.tasks[idx];
                    t.status = TaskStatus::InProgress;
                    t.assignee = Some(member_id);
                    t.updated_at = now;
                    proof {
                        let nt = TaskV {
                            status: TaskStatus::InProgress,
                            assignee: Some(member_id),
                            updated_at: now,
                            ..pre
                        };
                        assert(self.tasks@[idx as int]@ == nt);
                        assert(self@.tasks =~= t0.tasks.update(idx as int, nt));
                        assert(self@ =~= team_with_tasks(
                            t0,
                            t0.tasks.update(idx as int, nt),
                        ));
                        assert(is_first_claimable(t0.tasks, idx as int));
                        lemma_update_same_ids(t0.tasks, idx as int, nt);
                        lemma_bc_update_off(t0.tasks, idx as int, nt);
                        assert(wf_team(self@));
                        let wi = idx as int;
                        assert(is_first_claimable(t0.tasks, wi));
                        assert(claimed_id == t0.tasks[wi].id);
                        assert(self@ == team_with_tasks(
                            t0,
                            t0.tasks.update(
                                wi,
                                TaskV {
                                    status: TaskStatus::InProgress,
                                    assignee: Some(member_id),
                                    updated_at: now,
                                    ..t0.tasks[wi]
                                },
                            ),
                        ));
                        assert(auto_claim_ok(t0, self@, member_id, now, Some(claimed_id)));
                    }
                    return Ok(Some(claimed_id));
                }
            }
            idx = idx + 1;
        }
        proof {
            if exists|i: int| is_first_claimable(t0.tasks, i) {
                let i = choose|i: int| is_first_claimable(t0.tasks, i);
                assert(!claimable(t0.tasks, i));
                assert(false);
            }
            assert(auto_claim_ok(t0, self@, member_id, now, None::<usize>));
        }
        Ok(None)
    }
}

fn task_status_is_pending(task: &TeamTask) -> (r: bool)
    ensures
        r == (task@.status == TaskStatus::Pending),
{
    task.status == TaskStatus::Pending
}

fn ids_contain(v: &Vec<usize>, x: usize) -> (r: bool)
    ensures
        r == v@.contains(x),
{
    let mut i: usize = 0;
    while i < v.len()
        invariant
            i <= v.len(),
            forall|j: int| 0 <= j < i ==> v@[j] != x,
        decreases v.len() - i,
    {
        if v[i] == x {
            return true;
        }
        i = i + 1;
    }
    proof {
        assert(!v@.contains(x));
    }
    false
}

// ---------------------------------------------------------------------
// Checking well-formedness of untrusted data.
// ---------------------------------------------------------------------

fn has_task_with_id(tasks: &Vec<TeamTask>, id: usize) -> (r: bool)
    ensures
        r == task_id_exists(tasks@.map_values(|t: TeamTask| t@), id),
{
    let ghost tv = tasks@.map_values(|t: TeamTask| t@);
    let mut i: usize = 0;
    while i < tasks.len()
        invariant
            i <= tasks.len(),
            tv == tasks@.map_values(|t: TeamTask| t@),
            forall|j: int| 0 <= j < i ==> tv[j].id != id,
        decreases tasks.len() - i,
    {
        if tasks[i].id == id {
            proof {
                assert(tv[i as int].id == id);
            }
            return true;
        }
        i = i + 1;
    }
    false
}

impl AgentTeam {
    /// Checks every clause of team well-formedness, for data read from
    /// outside (a persisted document).
    pub fn wf_check_team(&self) -> (r: bool)
        ensures
            r == wf_team(self@),
    {
        let ghost t = self@;
        // Member ids: unique and below the counter.
        let mut i: usize = 0;
        while i < self.members.len()
            invariant
                i <= self.members.len(),
                t == self@,
                t.members.len() == self.members@.len(),
                forall|a: int, b: int|
                    0 <= a < i && a < b < t.members.len() ==> t.members[a].id
                        != t.members[b].id,
                forall|a: int| 0 <= a < i ==> #[trigger] t.members[a].id < t.next_member_id,
            decreases self.members.len() - i,
        {
            if self.members[i].id >= self.next_member_id {
                proof {
                    assert(t.members[i as int] == self.members@[i as int]@);
                    if wf_team(t) {
                        assert(t.members[i as int].id < t.next_member_id);
                    }
                    assert(!wf_team(t));
                }
                return false;
            }
            let mut k: usize = i + 1;
            while k < self.members.len()
                invariant
                    i < k <= self.members.len(),
                    t == self@,
                    t.members.len() == self.members@.len(),
                    forall|b: int| i < b < k ==> t.members[i as int].id != t.members[b].id,
                decreases self.members.len() - k,
            {
                if self.members[i].id == self.members[k].id {
                    proof {
                        assert(t.members[i as int] == self.members@[i as int]@);
                        assert(t.members[k as int] == self.members@[k as int]@);
                        assert(!wf_team(t));
                    }
                    return false;
                }
                k = k + 1;
            }
            i = i + 1;
        }
        // Task ids: unique and below the counter.
        let mut i: usize = 0;
        while i < self.tasks.len()
            invariant
                i <= self.tasks.len(),
                t == self@,
                t.tasks.len() == self.tasks@.len(),
                forall|a: int, b: int| 0 <= a < b < t.members.len() ==> t.members[a].id
                    != t.members[b].id,
                forall|a: int| 0 <= a < t.members.len() ==> #[trigger] t.members[a].id
                    < t.next_member_id,
                forall|a: int, b: int|
                    0 <= a < i && a < b < t.tasks.len() ==> t.tasks[a].id < t.tasks[b].id,
                forall|a: int| 0 <= a < i ==> #[trigger] t.tasks[a].id < t.next_task_id,
            decreases self.tasks.len() - i,
        {
            if self.tasks[i].id >= self.next_task_id {
                proof {
                    assert(t.tasks[i as int] == self.tasks@[i as int]@);
                    if wf_team(t) {
                        assert(t.tasks[i as int].id < t.next_task_id);
                    }
                    assert(!wf_team(t));
                }
                return false;
            }
            let mut k: usize = i + 1;
            while k < self.tasks.len()
                invariant
                    i < k <= self.tasks.len(),
                    t == self@,
                    t.tasks.len() == self.tasks@.len(),
                    forall|b: int| i < b < k ==> t.tasks[i as int].id < t.tasks[b].id,
                decreases self.tasks.len() - k,
            {
                if self.tasks[i].id >= self.tasks[k].id {
                    proof {
                        assert(t.tasks[i as int] == self.tasks@[i as int]@);
                        assert(t.tasks[k as int] == self.tasks@[k as int]@);
                        if wf_team(t) {
                            assert(t.tasks[i as int].id < t.tasks[k as int].id);
                        }
                        assert(!wf_team(t));
                    }
                    return false;
                }
                k = k + 1;
            }
            i = i + 1;
        }
        // Message ids: unique and below the counter.
        let mut i: usize = 0;
        while i < self.messages.len()
            invariant
                i <= self.messages.len(),
                t == self@,
                t.messages.len() == self.messages@.len(),
                forall|a: int, b: int| 0 <= a < b < t.members.len() ==> t.members[a].id
                    != t.members[b].id,
                forall|a: int| 0 <= a < t.members.len() ==> #[trigger] t.members[a].id
                    < t.next_member_id,
                forall|a: int, b: int| 0 <= a < b < t.tasks.len() ==> t.tasks[a].id
                    != t.tasks[b].id,
                forall|a: int| 0 <= a < t.tasks.len() ==> #[trigger] t.tasks[a].id
                    < t.next_task_id,
                forall|a: int, b: int|
                    0 <= a < i && a < b < t.messages.len() ==> t.messages[a].id
                        != t.messages[b].id,
                forall|a: int| 0 <= a < i ==> #[trigger] t.messages[a].id < t.next_message_id,
            decreases self.messages.len() - i,
        {
            if self.messages[i].id >= self.next_message_id {
                proof {
                    assert(t.messages[i as int] == self.messages@[i as int]@);
                    if wf_team(t) {
                        assert(t.messages[i as int].id < t.next_message_id);
                    }
                    assert(!wf_team(t));
                }
                return false;
            }
            let mut k: usize = i + 1;
            while k < self.messages.len()
                invariant
                    i < k <= self.messages.len(),
                    t == self@,
                    t.messages.len() == self.messages@.len(),
                    forall|b: int| i < b < k ==> t.messages[i as int].id != t.messages[b].id,
                decreases self.messages.len() - k,
            {
                if self.messages[i].id == self.messages[k].id {
                    proof {
                        assert(t.messages[i as int] == self.messages@[i as int]@);
                        assert(t.messages[k as int] == self.messages@[k as int]@);
                        assert(!wf_team(t));
                    }
                    return false;
                }
                k = k + 1;
            }
            i = i + 1;
        }
        // Every dependency resolves, and blocking is consistent.
        let mut i: usize = 0;
        while i < self.tasks.len()
            invariant
                i <= self.tasks.len(),
                t == self@,
                t.tasks.len() == self.tasks@.len(),
                forall|a: int, b: int| 0 <= a < b < t.members.len() ==> t.members[a].id
                    != t.members[b].id,
                forall|a: int| 0 <= a < t.members.len() ==> #[trigger] t.members[a].id
                    < t.next_member_id,
                forall|a: int, b: int| 0 <= a < b < t.tasks.len() ==> t.tasks[a].id
                    != t.tasks[b].id,
                forall|a: int| 0 <= a < t.tasks.len() ==> #[trigger] t.tasks[a].id
                    < t.next_task_id,
                forall|a: int, b: int| 0 <= a < b < t.messages.len() ==> t.messages[a].id
                    != t.messages[b].id,
                forall|a: int| 0 <= a < t.messages.len() ==> #[trigger] t.messages[a].id
                    < t.next_message_id,
                forall|a: int, k2: int|
                    0 <= a < i && 0 <= k2 < t.tasks[a].deps.len() ==> task_id_exists(
                        t.tasks,
                        #[trigger] t.tasks[a].deps[k2],
                    ),
                forall|a: int|
                    0 <= a < i && (t.tasks[a].status == TaskStatus::Pending || t.tasks[a].status
                        == TaskStatus::Blocked) ==> t.tasks[a].status == derived_status(
                        t.tasks,
                        t.tasks[a],
                    ),
            decreases self.tasks.len() - i,
        {
            let mut k: usize = 0;
            while k < self.tasks[i].deps.len()
                invariant
                    i < self.tasks@.len(),
                    k <= self.tasks[i as int].deps@.len(),
                    t == self@,
                    t.tasks.len() == self.tasks@.len(),
                    t.tasks[i as int].deps == self.tasks[i as int].deps@,
                    forall|k2: int|
                        0 <= k2 < k ==> task_id_exists(
                            t.tasks,
                            #[trigger] t.tasks[i as int].deps[k2],
                        ),
                decreases self.tasks[i as int].deps.len() - k,
            {
                if !has_task_with_id(&self.tasks, self.tasks[i].deps[k]) {
                    proof {
                        assert(!task_id_exists(t.tasks, t.tasks[i as int].deps[k as int]));
                        assert(!wf_team(t));
                    }
                    return false;
                }
                k = k + 1;
            }
            let st = self.tasks[i].status;
            if st == TaskStatus::Pending || st == TaskStatus::Blocked {
                let ready = all_deps_done(&self.tasks, &self.tasks[i].deps);
                proof {
                    assert(ready == deps_ready(t.tasks, t.tasks[i as int]));
                }
                let derived = if ready {
                    TaskStatus::Pending
                } else {
                    TaskStatus::Blocked
                };
                if st != derived {
                    proof {
                        assert(t.tasks[i as int].status != derived_status(
                            t.tasks,
                            t.tasks[i as int],
                        ));
                        assert(!blocking_consistent(t.tasks));
                    }
                    return false;
                }
            }
            i = i + 1;
        }
        proof {
            assert(wf_team(t));
        }
        true
    }
}

fn member_is_active(m: &MemberState) -> (r: bool)
    ensures
        r == (m@.status == MemberStatus::Active),
{
    m.status == MemberStatus::Active
}

fn retain_active_ids(members: &Vec<MemberState>, read_by: &Vec<usize>) -> (r: Vec<usize>)
    ensures
        r@ == retained_read_by(read_by@, members@.map_values(|m: MemberState| m@)),
{
    let ghost mv = members@.map_values(|m: MemberState| m@);
    let mut r: Vec<usize> = Vec::new();
    let mut k: usize = 0;
    while k < read_by.len()
        invariant
            k <= read_by.len(),
            mv == members@.map_values(|m: MemberState| m@),
            r@ == retained_read_by(read_by@.subrange(0, k as int), mv),
        decreases read_by.len() - k,
    {
        proof {
            assert(read_by@.subrange(0, k + 1).drop_last() =~= read_by@.subrange(0, k as int));
        }
        if is_active_id(members, read_by[k]) {
            r.push(read_by[k]);
        }
        k = k + 1;
    }
    proof {
        assert(read_by@.subrange(0, read_by@.len() as int) =~= read_by@);
    }
    r
}

fn is_active_id(members: &Vec<MemberState>, id: usize) -> (r: bool)
    ensures
        r == active_id(members@.map_values(|m: MemberState| m@), id),
{
    let ghost mv = members@.map_values(|m: MemberState| m@);
    let mut i: usize = 0;
    while i < members.len()
        invariant
            i <= members.len(),
            mv == members@.map_values(|m: MemberState| m@),
            forall|j: int|
                0 <= j < i ==> !(mv[j].id == id && mv[j].status == MemberStatus::Active),
        decreases members.len() - i,
    {
        if members[i].id == id && member_is_active(&members[i]) {
            proof {
                assert(mv[i as int].id == id && mv[i as int].status == MemberStatus::Active);
            }
            return true;
        }
        i = i + 1;
    }
    false
}

} // verus!
