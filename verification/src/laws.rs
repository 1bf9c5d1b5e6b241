//! The engine's governing laws, stated and proved over the views that
//! the operations' own contracts use.

use vstd::prelude::*;
use crate::domain::{
    MemberStatus, PlanStatus, RecoveryPolicy, TaskStatus, TeamV, blocking_consistent, dep_done,
    deps_ready, wf_team,
};
use crate::files::claim_conflict;
use crate::team::{
    active_id, active_members, claim_check, complete_check, complete_post, has_member, has_task,
    member_index, refresh_one, refresh_tasks, remove_member_post, prune_post, retained_read_by,
    reassign_one, sat_add, task_index,
};

verus! {

/// A task with declared dependencies is blocked exactly when one of
/// them is not yet done, and pending otherwise, whenever it is neither
/// in progress nor done. This holds of every well-formed team, and
/// every operation preserves well-formedness.
pub proof fn lemma_blocking_invariant(t: TeamV, i: int)
    requires
        wf_team(t),
        0 <= i < t.tasks.len(),
        t.tasks[i].status != TaskStatus::InProgress,
        t.tasks[i].status != TaskStatus::Done,
    ensures
        (t.tasks[i].status == TaskStatus::Blocked) <==> (exists|k: int|
            0 <= k < t.tasks[i].deps.len() && !dep_done(t.tasks, #[trigger] t.tasks[i].deps[k])),
        (t.tasks[i].status == TaskStatus::Pending) <==> deps_ready(t.tasks, t.tasks[i]),
{
    assert(t.tasks[i].status == TaskStatus::Pending || t.tasks[i].status == TaskStatus::Blocked);
    assert(blocking_consistent(t.tasks));
}

/// Claiming a task is admissible exactly when the member is active, is
/// not a lead of a delegation-only team, has its plan gate open, and
/// the task is pending with no touched-file overlap with any
/// in-progress task.
pub proof fn lemma_claim_admissible(t: TeamV, member_id: usize, task_id: usize)
    requires
        wf_team(t),
        has_member(t.members, member_id),
        has_task(t.tasks, task_id),
    ensures
        claim_check(t, member_id, task_id) is None <==> ({
            let m = t.members[member_index(t.members, member_id)];
            let task = t.tasks[task_index(t.tasks, task_id)];
            &&& m.status == MemberStatus::Active
            &&& !(t.delegation_only && m.is_lead)
            &&& (!m.require_plan_approval || m.plan_status == PlanStatus::Approved)
            &&& task.status == TaskStatus::Pending
            &&& !claim_conflict(t.tasks, task_index(t.tasks, task_id))
        }),
{
}

/// Completing a task requires it in progress and assigned to the
/// caller; afterwards it is done and the supplied non-negative usage is
/// added to both the task's and the member's counters, which therefore
/// never decrease. The additions saturate only at the machine limit
/// `u64::MAX`; below it they are the exact sums.
pub proof fn lemma_complete_usage(
    t: TeamV,
    member_id: usize,
    task_id: usize,
    input_tokens: u64,
    output_tokens: u64,
    cost_microusd: u64,
    now: u64,
)
    requires
        wf_team(t),
        complete_check(t, member_id, task_id) is None,
    ensures
        ({
            let ti = task_index(t.tasks, task_id);
            let mi = member_index(t.members, member_id);
            let t2 = complete_post(
                t,
                member_id,
                task_id,
                input_tokens,
                output_tokens,
                cost_microusd,
                now,
            );
            &&& t.tasks[ti].status == TaskStatus::InProgress
            &&& t.tasks[ti].assignee == Some(member_id)
            &&& t2.tasks.len() == t.tasks.len()
            &&& t2.tasks[ti].status == TaskStatus::Done
            &&& t2.tasks[ti].input_tokens == sat_add(t.tasks[ti].input_tokens, input_tokens)
            &&& t2.tasks[ti].output_tokens == sat_add(t.tasks[ti].output_tokens, output_tokens)
            &&& t2.tasks[ti].cost_microusd == sat_add(t.tasks[ti].cost_microusd, cost_microusd)
            &&& t2.members[mi].input_tokens == sat_add(t.members[mi].input_tokens, input_tokens)
            &&& t2.members[mi].output_tokens == sat_add(
                t.members[mi].output_tokens,
                output_tokens,
            )
            &&& t2.members[mi].cost_microusd == sat_add(
                t.members[mi].cost_microusd,
                cost_microusd,
            )
            &&& (t.tasks[ti].input_tokens + input_tokens <= u64::MAX ==> t2.tasks[ti].input_tokens
                == t.tasks[ti].input_tokens + input_tokens)
            &&& (t.members[mi].input_tokens + input_tokens <= u64::MAX
                ==> t2.members[mi].input_tokens == t.members[mi].input_tokens + input_tokens)
            &&& (t.tasks[ti].cost_microusd + cost_microusd <= u64::MAX ==> t2.tasks[ti].cost_microusd
                == t.tasks[ti].cost_microusd + cost_microusd)
            &&& t2.tasks[ti].input_tokens >= t.tasks[ti].input_tokens
            &&& t2.tasks[ti].output_tokens >= t.tasks[ti].output_tokens
            &&& t2.tasks[ti].cost_microusd >= t.tasks[ti].cost_microusd
            &&& t2.members[mi].input_tokens >= t.members[mi].input_tokens
            &&& t2.members[mi].output_tokens >= t.members[mi].output_tokens
            &&& t2.members[mi].cost_microusd >= t.members[mi].cost_microusd
        }),
{
    let ti = task_index(t.tasks, task_id);
    let done = crate::domain::TaskV {
        status: TaskStatus::Done,
        updated_at: now,
        input_tokens: sat_add(t.tasks[ti].input_tokens, input_tokens),
        output_tokens: sat_add(t.tasks[ti].output_tokens, output_tokens),
        cost_microusd: sat_add(t.tasks[ti].cost_microusd, cost_microusd),
        ..t.tasks[ti]
    };
    let tasks1 = t.tasks.update(ti, done);
    crate::team::lemma_refresh(tasks1, now);
    assert(refresh_tasks(tasks1, now)[ti] == refresh_one(tasks1, tasks1[ti], now));
    assert(refresh_one(tasks1, tasks1[ti], now) == done);
}

/// Removing a member returns its open tasks to the pool: unassigned,
/// and re-derived against the unchanged done set — pending under
/// auto-reassignment when every dependency is done, blocked whenever
/// one is not. Done tasks are untouched.
pub proof fn lemma_remove_recovery(
    t: TeamV,
    member_id: usize,
    reason: Seq<char>,
    now: u64,
    i: int,
)
    requires
        wf_team(t),
        has_member(t.members, member_id),
        0 <= i < t.tasks.len(),
    ensures
        ({
            let t2 = remove_member_post(t, member_id, reason, now);
            &&& t2.tasks.len() == t.tasks.len()
            &&& t2.tasks[i].id == t.tasks[i].id
            &&& (t.tasks[i].assignee == Some(member_id) && t.tasks[i].status != TaskStatus::Done
                ==> {
                &&& t2.tasks[i].assignee is None
                &&& (t.recovery_policy == RecoveryPolicy::AutoReassign && deps_ready(
                    t.tasks,
                    t.tasks[i],
                ) ==> t2.tasks[i].status == TaskStatus::Pending)
                &&& (!deps_ready(t.tasks, t.tasks[i]) ==> t2.tasks[i].status
                    == TaskStatus::Blocked)
            })
            &&& (t.tasks[i].status == TaskStatus::Done ==> t2.tasks[i] == t.tasks[i])
        }),
{
    let tasks1 = t.tasks.map_values(
        |task: crate::domain::TaskV| reassign_one(task, member_id, t.recovery_policy, now),
    );
    crate::team::lemma_refresh(tasks1, now);
    assert forall|id: usize| #[trigger] dep_done(tasks1, id) == dep_done(t.tasks, id) by {
        if dep_done(t.tasks, id) {
            let j = choose|j: int|
                0 <= j < t.tasks.len() && t.tasks[j].id == id && t.tasks[j].status
                    == TaskStatus::Done;
            assert(tasks1[j].id == id && tasks1[j].status == TaskStatus::Done);
        }
        if dep_done(tasks1, id) {
            let j = choose|j: int|
                0 <= j < tasks1.len() && tasks1[j].id == id && tasks1[j].status
                    == TaskStatus::Done;
            assert(t.tasks[j].id == id && t.tasks[j].status == TaskStatus::Done);
        }
    }
    let t2 = remove_member_post(t, member_id, reason, now);
    assert(t2.tasks[i] == refresh_one(tasks1, tasks1[i], now));
    assert(tasks1[i] == reassign_one(t.tasks[i], member_id, t.recovery_policy, now));
    if t.tasks[i].assignee == Some(member_id) && t.tasks[i].status != TaskStatus::Done {
        assert(tasks1[i].deps == t.tasks[i].deps);
        if deps_ready(t.tasks, t.tasks[i]) {
            assert(deps_ready(tasks1, tasks1[i]));
        } else {
            let k = choose|k: int|
                0 <= k < t.tasks[i].deps.len() && !dep_done(t.tasks, t.tasks[i].deps[k]);
            assert(!dep_done(tasks1, tasks1[i].deps[k]));
            assert(!deps_ready(tasks1, tasks1[i]));
        }
    }
}

/// Pruning terminated members keeps exactly the active members, in
/// order, strips non-active ids from every message's read-by set, and
/// leaves tasks and message identities untouched.
pub proof fn lemma_prune_terminated(t: TeamV)
    requires
        wf_team(t),
    ensures
        ({
            let t2 = prune_post(t);
            &&& t2.tasks == t.tasks
            &&& t2.messages.len() == t.messages.len()
            &&& forall|i: int|
                0 <= i < t2.members.len() ==> (#[trigger] t2.members[i]).status
                    == MemberStatus::Active
            &&& forall|i: int|
                0 <= i < t2.members.len() ==> exists|j: int|
                    0 <= j < t.members.len() && #[trigger] t2.members[i] == t.members[j]
            &&& forall|j: int|
                0 <= j < t.members.len() && (#[trigger] t.members[j]).status
                    == MemberStatus::Active ==> exists|i: int|
                    0 <= i < t2.members.len() && t2.members[i] == t.members[j]
            &&& forall|q: int|
                0 <= q < t.messages.len() ==> (#[trigger] t2.messages[q]).id == t.messages[q].id
                    && t2.messages[q].text == t.messages[q].text && t2.messages[q].from_member
                    == t.messages[q].from_member && t2.messages[q].to_member
                    == t.messages[q].to_member
            &&& forall|q: int, x: usize|
                0 <= q < t.messages.len() ==> (#[trigger] t2.messages[q].read_by.contains(x)
                    <==> t.messages[q].read_by.contains(x) && active_id(t.members, x))
        }),
{
    lemma_active_members_full(t.members);
    let t2 = prune_post(t);
    assert forall|q: int, x: usize|
        0 <= q < t.messages.len() implies (#[trigger] t2.messages[q].read_by.contains(x)
            <==> t.messages[q].read_by.contains(x) && active_id(t.members, x)) by {
        lemma_retained_read_by(t.messages[q].read_by, t.members, x);
        assert(t2.messages[q].read_by == retained_read_by(t.messages[q].read_by, t.members));
    }
}

proof fn lemma_active_members_full(members: Seq<crate::domain::MemberV>)
    ensures
        forall|i: int|
            0 <= i < active_members(members).len() ==> (#[trigger] active_members(
                members,
            )[i]).status == MemberStatus::Active,
        forall|i: int|
            0 <= i < active_members(members).len() ==> exists|j: int|
                0 <= j < members.len() && #[trigger] active_members(members)[i] == members[j],
        forall|j: int|
            0 <= j < members.len() && (#[trigger] members[j]).status == MemberStatus::Active
                ==> exists|i: int|
                0 <= i < active_members(members).len() && active_members(members)[i]
                    == members[j],
    decreases members.len(),
{
    if members.len() > 0 {
        let d = members.drop_last();
        lemma_active_members_full(d);
        let rest = active_members(d);
        assert forall|i: int|
            0 <= i < rest.len() implies exists|j: int|
                0 <= j < members.len() && #[trigger] rest[i] == members[j] by {
            let j = choose|j: int| 0 <= j < d.len() && rest[i] == d[j];
            assert(rest[i] == members[j]);
        }
        assert forall|j: int|
            0 <= j < members.len() && (#[trigger] members[j]).status == MemberStatus::Active
                implies exists|i: int|
                0 <= i < active_members(members).len() && active_members(members)[i]
                    == members[j] by {
            if j == members.len() - 1 {
                assert(active_members(members)[active_members(members).len() - 1]
                    == members[j]);
            } else {
                assert(d[j] == members[j]);
                let i = choose|i: int| 0 <= i < rest.len() && rest[i] == d[j];
                assert(active_members(members)[i] == members[j]);
            }
        }
    }
}

proof fn lemma_retained_read_by(
    read_by: Seq<usize>,
    members: Seq<crate::domain::MemberV>,
    x: usize,
)
    ensures
        retained_read_by(read_by, members).contains(x) <==> read_by.contains(x) && active_id(
            members,
            x,
        ),
    decreases read_by.len(),
{
    if read_by.len() > 0 {
        let d = read_by.drop_last();
        lemma_retained_read_by(d, members, x);
        let rest = retained_read_by(d, members);
        let full = retained_read_by(read_by, members);
        if read_by.contains(x) && active_id(members, x) {
            if d.contains(x) {
                let i = choose|i: int| 0 <= i < rest.len() && rest[i] == x;
                if active_id(members, read_by.last()) {
                    assert(full[i] == x);
                } else {
                    assert(full == rest);
                    assert(full[i] == x);
                }
                assert(full.contains(x));
            } else {
                let w = choose|w: int| 0 <= w < read_by.len() && read_by[w] == x;
                if w < read_by.len() - 1 {
                    assert(d[w] == x);
                    assert(d.contains(x));
                    assert(false);
                }
                assert(full[full.len() - 1] == x);
                assert(full.contains(x));
            }
        }
        if full.contains(x) {
            let i = choose|i: int| 0 <= i < full.len() && full[i] == x;
            if active_id(members, read_by.last()) {
                if i == full.len() - 1 {
                    assert(read_by.last() == x);
                    assert(read_by.contains(x));
                } else {
                    assert(rest[i] == x);
                    assert(rest.contains(x));
                    let w = choose|w: int| 0 <= w < d.len() && d[w] == x;
                    assert(read_by[w] == x);
                    assert(read_by.contains(x));
                }
            } else {
                assert(rest[i] == x);
                assert(rest.contains(x));
                let w = choose|w: int| 0 <= w < d.len() && d[w] == x;
                assert(read_by[w] == x);
                assert(read_by.contains(x));
            }
        }
    }
}

} // verus!
