//! Domain records for the task-orchestration engine: teams, members,
//! tasks and messages, together with their mathematical views and the
//! well-formedness invariant every store operation preserves.

use vstd::prelude::*;
use vstd::string::StringSliceAdditionalSpecFns;

verus! {

/// Presentation hint for a team; opaque to the engine's rules.
#[derive(Clone, Copy, PartialEq, Eq, Structural, Debug)]
pub enum TeamDisplayMode {
    InProcess,
    SplitPane,
    Auto,
}

/// What happens to a removed member's open tasks.
#[derive(Clone, Copy, PartialEq, Eq, Structural, Debug)]
pub enum RecoveryPolicy {
    AutoReassign,
    Manual,
}

impl Default for RecoveryPolicy {
    fn default() -> (r: Self)
        ensures
            r == RecoveryPolicy::AutoReassign,
    {
        RecoveryPolicy::AutoReassign
    }
}

/// Lifecycle state of a member.
#[derive(Clone, Copy, PartialEq, Eq, Structural, Debug)]
pub enum MemberStatus {
    Active,
    Terminated,
}

impl Default for MemberStatus {
    fn default() -> (r: Self)
        ensures
            r == MemberStatus::Active,
    {
        MemberStatus::Active
    }
}

/// State of a member's plan-approval gate.
#[derive(Clone, Copy, PartialEq, Eq, Structural, Debug)]
pub enum PlanStatus {
    Planning,
    Approved,
    Rejected,
}

/// Lifecycle state of a task.
#[derive(Clone, Copy, PartialEq, Eq, Structural, Debug)]
pub enum TaskStatus {
    Pending,
    Blocked,
    InProgress,
    Done,
}

/// Priority of an inbox message.
#[derive(Clone, Copy, PartialEq, Eq, Structural, Debug)]
pub enum TeamMessagePriority {
    Low,
    Normal,
    High,
    Urgent,
}

impl Default for TeamMessagePriority {
    fn default() -> (r: Self)
        ensures
            r == TeamMessagePriority::Normal,
    {
        TeamMessagePriority::Normal
    }
}

/// The plan status a member starts with when plan approval is required.
pub fn default_plan_status() -> (r: PlanStatus)
    ensures
        r == PlanStatus::Planning,
{
    PlanStatus::Planning
}

/// Everything a store operation can fail with. Domain errors leave the
/// state unchanged.
#[derive(Clone, Copy, PartialEq, Eq, Structural, Debug)]
pub enum EngineError {
    UnknownTeam,
    UnknownMember,
    UnknownTask,
    UnknownMessage,
    UnknownDependency,
    TeamExists,
    TaskNotPending,
    TaskNotInProgress,
    NotAssignee,
    MemberNotActive,
    DelegationOnlyLead,
    PlanApprovalRequired,
    FileConflict,
    IdExhausted,
}

/// The description each error carries.
pub open spec fn error_text(e: EngineError) -> Seq<char> {
    match e {
        EngineError::UnknownTeam => "unknown team"@,
        EngineError::UnknownMember => "unknown member id"@,
        EngineError::UnknownTask => "unknown task id"@,
        EngineError::UnknownMessage => "unknown message id"@,
        EngineError::UnknownDependency => "unknown dependency task id"@,
        EngineError::TeamExists => "team already exists"@,
        EngineError::TaskNotPending => "task is not pending"@,
        EngineError::TaskNotInProgress => "task is not in progress"@,
        EngineError::NotAssignee => "member is not assignee for task"@,
        EngineError::MemberNotActive => "member is not active"@,
        EngineError::DelegationOnlyLead => "delegation-only mode: lead member cannot execute tasks"@,
        EngineError::PlanApprovalRequired => "plan approval required for member"@,
        EngineError::FileConflict => "task has file conflict with another in-progress task"@,
        EngineError::IdExhausted => "id space exhausted"@,
    }
}

impl EngineError {
    /// Human-readable description, mirrored by the wire responses.
    pub fn message(&self) -> (r: &'static str)
        ensures
            r@ == error_text(*self),
    {
        match *self {
            EngineError::UnknownTeam => "unknown team",
            EngineError::UnknownMember => "unknown member id",
            EngineError::UnknownTask => "unknown task id",
            EngineError::UnknownMessage => "unknown message id",
            EngineError::UnknownDependency => "unknown dependency task id",
            EngineError::TeamExists => "team already exists",
            EngineError::TaskNotPending => "task is not pending",
            EngineError::TaskNotInProgress => "task is not in progress",
            EngineError::NotAssignee => "member is not assignee for task",
            EngineError::MemberNotActive => "member is not active",
            EngineError::DelegationOnlyLead => "delegation-only mode: lead member cannot execute tasks",
            EngineError::PlanApprovalRequired => "plan approval required for member",
            EngineError::FileConflict => "task has file conflict with another in-progress task",
            EngineError::IdExhausted => "id space exhausted",
        }
    }
}

/// The view of a sequence of strings: each string abstracted to its
/// character sequence.
pub open spec fn strs_view(v: Seq<String>) -> Seq<Seq<char>> {
    v.map_values(|s: String| s@)
}

/// The view of an optional string.
pub open spec fn opt_str_view(o: Option<String>) -> Option<Seq<char>> {
    match o {
        Some(s) => Some(s@),
        None => None,
    }
}

/// An addressable worker that can claim and complete tasks.
#[derive(Debug)]
pub struct MemberState {
    pub id: usize,
    pub name: String,
    pub model: String,
    pub is_lead: bool,
    pub status: MemberStatus,
    pub terminated_at: Option<u64>,
    pub termination_reason: Option<String>,
    pub require_plan_approval: bool,
    pub plan_status: PlanStatus,
    pub latest_plan: Option<String>,
    pub plan_updated_at: Option<u64>,
    pub input_tokens: u64,
    pub output_tokens: u64,
    pub cost_microusd: u64,
}

/// Mathematical view of a member.
pub ghost struct MemberV {
    pub id: usize,
    pub name: Seq<char>,
    pub model: Seq<char>,
    pub is_lead: bool,
    pub status: MemberStatus,
    pub terminated_at: Option<u64>,
    pub termination_reason: Option<Seq<char>>,
    pub require_plan_approval: bool,
    pub plan_status: PlanStatus,
    pub latest_plan: Option<Seq<char>>,
    pub plan_updated_at: Option<u64>,
    pub input_tokens: u64,
    pub output_tokens: u64,
    pub cost_microusd: u64,
}

impl View for MemberState {
    type V = MemberV;

    open spec fn view(&self) -> MemberV {
        MemberV {
            id: self.id,
            name: self.name@,
            model: self.model@,
            is_lead: self.is_lead,
            status: self.status,
            terminated_at: self.terminated_at,
            termination_reason: opt_str_view(self.termination_reason),
            require_plan_approval: self.require_plan_approval,
            plan_status: self.plan_status,
            latest_plan: opt_str_view(self.latest_plan),
            plan_updated_at: self.plan_updated_at,
            input_tokens: self.input_tokens,
            output_tokens: self.output_tokens,
            cost_microusd: self.cost_microusd,
        }
    }
}

impl Clone for MemberState {
    fn clone(&self) -> (r: Self)
        ensures
            r@ == self@,
    {
        MemberState {
            id: self.id,
            name: self.name.clone(),
            model: self.model.clone(),
            is_lead: self.is_lead,
            status: self.status,
            terminated_at: self.terminated_at,
            termination_reason: clone_opt_string(&self.termination_reason),
            require_plan_approval: self.require_plan_approval,
            plan_status: self.plan_status,
            latest_plan: clone_opt_string(&self.latest_plan),
            plan_updated_at: self.plan_updated_at,
            input_tokens: self.input_tokens,
            output_tokens: self.output_tokens,
            cost_microusd: self.cost_microusd,
        }
    }
}

/// A unit of work with dependencies, conflict-exclusion files and usage
/// counters.
#[derive(Debug)]
pub struct TeamTask {
    pub id: usize,
    pub title: String,
    pub status: TaskStatus,
    pub assignee: Option<usize>,
    pub deps: Vec<usize>,
    pub touched_files: Vec<String>,
    pub input_tokens: u64,
    pub output_tokens: u64,
    pub cost_microusd: u64,
    pub created_at: u64,
    pub updated_at: u64,
}

/// Mathematical view of a task.
pub ghost struct TaskV {
    pub id: usize,
    pub title: Seq<char>,
    pub status: TaskStatus,
    pub assignee: Option<usize>,
    pub deps: Seq<usize>,
    pub touched_files: Seq<Seq<char>>,
    pub input_tokens: u64,
    pub output_tokens: u64,
    pub cost_microusd: u64,
    pub created_at: u64,
    pub updated_at: u64,
}

impl View for TeamTask {
    type V = TaskV;

    open spec fn view(&self) -> TaskV {
        TaskV {
            id: self.id,
            title: self.title@,
            status: self.status,
            assignee: self.assignee,
            deps: self.deps@,
            touched_files: strs_view(self.touched_files@),
            input_tokens: self.input_tokens,
            output_tokens: self.output_tokens,
            cost_microusd: self.cost_microusd,
            created_at: self.created_at,
            updated_at: self.updated_at,
        }
    }
}

impl Clone for TeamTask {
    fn clone(&self) -> (r: Self)
        ensures
            r@ == self@,
    {
        let r = TeamTask {
            id: self.id,
            title: self.title.clone(),
            status: self.status,
            assignee: self.assignee,
            deps: clone_usize_vec(&self.deps),
            touched_files: clone_string_vec(&self.touched_files),
            input_tokens: self.input_tokens,
            output_tokens: self.output_tokens,
            cost_microusd: self.cost_microusd,
            created_at: self.created_at,
            updated_at: self.updated_at,
        };
        r
    }
}

/// An inbox message, broadcast or directed, with read acknowledgements.
#[derive(Debug)]
pub struct TeamMessage {
    pub id: usize,
    pub from_member: Option<usize>,
    pub to_member: Option<usize>,
    pub text: String,
    pub priority: TeamMessagePriority,
    pub created_at: u64,
    pub read_by: Vec<usize>,
}

/// Mathematical view of a message.
pub ghost struct MessageV {
    pub id: usize,
    pub from_member: Option<usize>,
    pub to_member: Option<usize>,
    pub text: Seq<char>,
    pub priority: TeamMessagePriority,
    pub created_at: u64,
    pub read_by: Seq<usize>,
}

impl View for TeamMessage {
    type V = MessageV;

    open spec fn view(&self) -> MessageV {
        MessageV {
            id: self.id,
            from_member: self.from_member,
            to_member: self.to_member,
            text: self.text@,
            priority: self.priority,
            created_at: self.created_at,
            read_by: self.read_by@,
        }
    }
}

impl Clone for TeamMessage {
    fn clone(&self) -> (r: Self)
        ensures
            r@ == self@,
    {
        TeamMessage {
            id: self.id,
            from_member: self.from_member,
            to_member: self.to_member,
            text: self.text.clone(),
            priority: self.priority,
            created_at: self.created_at,
            read_by: clone_usize_vec(&self.read_by),
        }
    }
}

/// An isolated namespace of members, tasks and messages with its own
/// policies and id counters.
#[derive(Debug)]
pub struct AgentTeam {
    pub id: String,
    pub mode: TeamDisplayMode,
    pub delegation_only: bool,
    pub recovery_policy: RecoveryPolicy,
    pub members: Vec<MemberState>,
    pub tasks: Vec<TeamTask>,
    pub messages: Vec<TeamMessage>,
    pub next_member_id: usize,
    pub next_task_id: usize,
    pub next_message_id: usize,
}

/// Mathematical view of a team.
pub ghost struct TeamV {
    pub id: Seq<char>,
    pub mode: TeamDisplayMode,
    pub delegation_only: bool,
    pub recovery_policy: RecoveryPolicy,
    pub members: Seq<MemberV>,
    pub tasks: Seq<TaskV>,
    pub messages: Seq<MessageV>,
    pub next_member_id: usize,
    pub next_task_id: usize,
    pub next_message_id: usize,
}

impl View for AgentTeam {
    type V = TeamV;

    open spec fn view(&self) -> TeamV {
        TeamV {
            id: self.id@,
            mode: self.mode,
            delegation_only: self.delegation_only,
            recovery_policy: self.recovery_policy,
            members: self.members@.map_values(|m: MemberState| m@),
            tasks: self.tasks@.map_values(|t: TeamTask| t@),
            messages: self.messages@.map_values(|m: TeamMessage| m@),
            next_member_id: self.next_member_id,
            next_task_id: self.next_task_id,
            next_message_id: self.next_message_id,
        }
    }
}

impl Clone for AgentTeam {
    fn clone(&self) -> (r: Self)
        ensures
            r@ == self@,
    {
        let mut members: Vec<MemberState> = Vec::new();
        let mut i: usize = 0;
        while i < self.members.len()
            invariant
                i <= self.members.len(),
                members@.len() == i,
                forall|j: int| 0 <= j < i ==> #[trigger] members@[j]@ == self.members@[j]@,
            decreases self.members.len() - i,
        {
            members.push(self.members[i].clone());
            i = i + 1;
        }
        let mut tasks: Vec<TeamTask> = Vec::new();
        let mut i: usize = 0;
        while i < self.tasks.len()
            invariant
                i <= self.tasks.len(),
                tasks@.len() == i,
                forall|j: int| 0 <= j < i ==> #[trigger] tasks@[j]@ == self.tasks@[j]@,
            decreases self.tasks.len() - i,
        {
            tasks.push(self.tasks[i].clone());
            i = i + 1;
        }
        let mut messages: Vec<TeamMessage> = Vec::new();
        let mut i: usize = 0;
        while i < self.messages.len()
            invariant
                i <= self.messages.len(),
                messages@.len() == i,
                forall|j: int| 0 <= j < i ==> #[trigger] messages@[j]@ == self.messages@[j]@,
            decreases self.messages.len() - i,
        {
            messages.push(self.messages[i].clone());
            i = i + 1;
        }
        let r = AgentTeam {
            id: self.id.clone(),
            mode: self.mode,
            delegation_only: self.delegation_only,
            recovery_policy: self.recovery_policy,
            members,
            tasks,
            messages,
            next_member_id: self.next_member_id,
            next_task_id: self.next_task_id,
            next_message_id: self.next_message_id,
        };
        proof {
            assert(r@.members =~= self@.members);
            assert(r@.tasks =~= self@.tasks);
            assert(r@.messages =~= self@.messages);
        }
        r
    }
}

/// Aggregated token and cost counters over a team's tasks.
#[derive(Debug)]
pub struct TeamUsage {
    pub input_tokens: u64,
    pub output_tokens: u64,
    pub cost_microusd: u64,
    pub active_tasks: u64,
}

impl Default for TeamUsage {
    fn default() -> (r: Self)
        ensures
            r.input_tokens == 0,
            r.output_tokens == 0,
            r.cost_microusd == 0,
            r.active_tasks == 0,
    {
        TeamUsage { input_tokens: 0, output_tokens: 0, cost_microusd: 0, active_tasks: 0 }
    }
}

impl Clone for TeamUsage {
    fn clone(&self) -> (r: Self)
        ensures
            r == *self,
    {
        TeamUsage {
            input_tokens: self.input_tokens,
            output_tokens: self.output_tokens,
            cost_microusd: self.cost_microusd,
            active_tasks: self.active_tasks,
        }
    }
}

/// Strict byte-wise lexicographic order.
pub open spec fn bytes_lt(a: Seq<u8>, b: Seq<u8>) -> bool
    decreases a.len(),
{
    if b.len() == 0 {
        false
    } else if a.len() == 0 {
        true
    } else if a[0] != b[0] {
        a[0] < b[0]
    } else {
        bytes_lt(a.drop_first(), b.drop_first())
    }
}

/// Strict order on names: byte-wise lexicographic over their UTF-8
/// encodings, the order std keeps string keys in.
pub open spec fn name_lt(a: Seq<char>, b: Seq<char>) -> bool {
    bytes_lt(vstd::utf8::encode_utf8(a), vstd::utf8::encode_utf8(b))
}

pub proof fn lemma_bytes_lt_total(a: Seq<u8>, b: Seq<u8>)
    ensures
        bytes_lt(a, b) || bytes_lt(b, a) || a == b,
    decreases a.len(),
{
    if a.len() == 0 && b.len() == 0 {
        assert(a =~= b);
    } else if a.len() > 0 && b.len() > 0 && a[0] == b[0] {
        let da = a.drop_first();
        let db = b.drop_first();
        lemma_bytes_lt_total(da, db);
        if da == db {
            assert(a.len() == b.len());
            assert forall|i: int| 0 <= i < a.len() implies a[i] == b[i] by {
                if i > 0 {
                    assert(a[i] == da[i - 1]);
                    assert(b[i] == db[i - 1]);
                }
            }
            assert(a =~= b);
        }
    }
}

pub proof fn lemma_bytes_lt_trans(a: Seq<u8>, b: Seq<u8>, c: Seq<u8>)
    requires
        bytes_lt(a, b),
        bytes_lt(b, c),
    ensures
        bytes_lt(a, c),
    decreases a.len(),
{
    if a.len() == 0 {
    } else if a[0] == b[0] && b[0] == c[0] {
        lemma_bytes_lt_trans(a.drop_first(), b.drop_first(), c.drop_first());
    }
}

/// The order on names is total: equal encodings mean equal names.
pub proof fn lemma_name_lt_total(a: Seq<char>, b: Seq<char>)
    ensures
        name_lt(a, b) || name_lt(b, a) || a == b,
{
    lemma_bytes_lt_total(vstd::utf8::encode_utf8(a), vstd::utf8::encode_utf8(b));
    if vstd::utf8::encode_utf8(a) == vstd::utf8::encode_utf8(b) {
        vstd::utf8::encode_utf8_decode_utf8(a);
        vstd::utf8::encode_utf8_decode_utf8(b);
    }
}

pub proof fn lemma_name_lt_trans(a: Seq<char>, b: Seq<char>, c: Seq<char>)
    requires
        name_lt(a, b),
        name_lt(b, c),
    ensures
        name_lt(a, c),
{
    lemma_bytes_lt_trans(
        vstd::utf8::encode_utf8(a),
        vstd::utf8::encode_utf8(b),
        vstd::utf8::encode_utf8(c),
    );
}

proof fn lemma_bytes_lt_at(a: Seq<u8>, b: Seq<u8>, i: int)
    requires
        0 <= i <= a.len(),
        i <= b.len(),
        forall|j: int| 0 <= j < i ==> a[j] == b[j],
        i == a.len() || i == b.len() || a[i] != b[i],
    ensures
        bytes_lt(a, b) == (if i < a.len() && i < b.len() {
            a[i] < b[i]
        } else {
            a.len() < b.len()
        }),
    decreases i,
{
    if i == 0 {
    } else {
        let da = a.drop_first();
        let db = b.drop_first();
        lemma_bytes_lt_at(da, db, i - 1);
        assert(a[0] == b[0]);
        assert(bytes_lt(a, b) == bytes_lt(da, db));
    }
}

/// Compares two names in the byte-wise lexicographic order.
pub fn name_lt_exec(a: &str, b: &str) -> (r: bool)
    ensures
        r == name_lt(a@, b@),
{
    let ab: &[u8] = a.as_bytes();
    let bb: &[u8] = b.as_bytes();
    let mut i: usize = 0;
    while i < ab.len() && i < bb.len()
        invariant
            i <= ab@.len(),
            i <= bb@.len(),
            ab@ == a.spec_bytes(),
            bb@ == b.spec_bytes(),
            forall|j: int| 0 <= j < i ==> ab@[j] == bb@[j],
        decreases ab.len() - i,
    {
        if ab[i] != bb[i] {
            proof {
                lemma_bytes_lt_at(ab@, bb@, i as int);
            }
            return ab[i] < bb[i];
        }
        i = i + 1;
    }
    proof {
        lemma_bytes_lt_at(ab@, bb@, i as int);
    }
    ab.len() < bb.len()
}

/// The character of one decimal digit.
pub open spec fn digit_char(d: int) -> char {
    ((48 + d) as u8) as char
}

/// The decimal spelling of a number, most significant digit first.
pub open spec fn dec_digits(n: nat) -> Seq<char>
    decreases n,
{
    if n < 10 {
        seq![digit_char(n as int)]
    } else {
        dec_digits(n / 10).push(digit_char((n % 10) as int))
    }
}

fn digit_str(d: u64) -> (r: &'static str)
    requires
        d < 10,
    ensures
        r@ == seq![digit_char(d as int)],
{
    proof {
        reveal_strlit("0");
        reveal_strlit("1");
        reveal_strlit("2");
        reveal_strlit("3");
        reveal_strlit("4");
        reveal_strlit("5");
        reveal_strlit("6");
        reveal_strlit("7");
        reveal_strlit("8");
        reveal_strlit("9");
    }
    let r = match d {
        0 => "0",
        1 => "1",
        2 => "2",
        3 => "3",
        4 => "4",
        5 => "5",
        6 => "6",
        7 => "7",
        8 => "8",
        _ => "9",
    };
    proof {
        assert(r@ =~= seq![digit_char(d as int)]);
    }
    r
}

/// Spells a number in decimal.
pub fn u64_to_string(n: u64) -> (r: String)
    ensures
        r@ == dec_digits(n as nat),
    decreases n,
{
    if n < 10 {
        digit_str(n).to_owned()
    } else {
        let prefix = u64_to_string(n / 10);
        let r = prefix.concat(digit_str(n % 10));
        proof {
            assert(r@ =~= dec_digits(n as nat));
        }
        r
    }
}

/// Compares two string slices: their UTF-8 encodings are compared byte
/// by byte, which by the injectivity of the encoding decides equality
/// of the character sequences.
pub(crate) fn str_eq(a: &str, b: &str) -> (r: bool)
    ensures
        r == (a@ == b@),
{
    let ab: &[u8] = a.as_bytes();
    let bb: &[u8] = b.as_bytes();
    if ab.len() != bb.len() {
        proof {
            if a@ == b@ {
                assert(a.spec_bytes() == b.spec_bytes());
            }
        }
        return false;
    }
    let mut i: usize = 0;
    while i < ab.len()
        invariant
            i <= ab@.len(),
            ab@.len() == bb@.len(),
            ab@ == a.spec_bytes(),
            bb@ == b.spec_bytes(),
            forall|j: int| 0 <= j < i ==> ab@[j] == bb@[j],
        decreases ab.len() - i,
    {
        if ab[i] != bb[i] {
            proof {
                if a@ == b@ {
                    assert(a.spec_bytes() == b.spec_bytes());
                }
            }
            return false;
        }
        i = i + 1;
    }
    proof {
        assert(ab@ =~= bb@);
        assert(vstd::utf8::encode_utf8(a@) == vstd::utf8::encode_utf8(b@));
        vstd::utf8::encode_utf8_decode_utf8(a@);
        vstd::utf8::encode_utf8_decode_utf8(b@);
    }
    true
}

// ---------------------------------------------------------------------
// Cloning helpers for collection fields.
// ---------------------------------------------------------------------

/// Clones a vector of ids.
pub fn clone_usize_vec(v: &Vec<usize>) -> (r: Vec<usize>)
    ensures
        r@ == v@,
{
    let mut r: Vec<usize> = Vec::new();
    let mut i: usize = 0;
    while i < v.len()
        invariant
            i <= v.len(),
            r@ == v@.subrange(0, i as int),
        decreases v.len() - i,
    {
        r.push(v[i]);
        i = i + 1;
        proof {
            assert(r@ =~= v@.subrange(0, i as int));
        }
    }
    proof {
        assert(r@ =~= v@);
    }
    r
}

/// Clones a vector of strings, preserving its view.
pub fn clone_string_vec(v: &Vec<String>) -> (r: Vec<String>)
    ensures
        strs_view(r@) == strs_view(v@),
{
    let mut r: Vec<String> = Vec::new();
    let mut i: usize = 0;
    while i < v.len()
        invariant
            i <= v.len(),
            r@.len() == i,
            forall|j: int| 0 <= j < i ==> #[trigger] r@[j]@ == v@[j]@,
        decreases v.len() - i,
    {
        r.push(v[i].clone());
        i = i + 1;
    }
    proof {
        assert(strs_view(r@) =~= strs_view(v@));
    }
    r
}

/// Clones an optional string, preserving its view.
pub fn clone_opt_string(o: &Option<String>) -> (r: Option<String>)
    ensures
        opt_str_view(r) == opt_str_view(*o),
{
    match o {
        Some(s) => Some(s.clone()),
        None => None,
    }
}

/// A pane of a terminal session (presentation metadata only).
#[derive(Debug)]
pub struct PaneState {
    pub id: usize,
    pub title: String,
    pub cwd: Option<String>,
}

/// Mathematical view of a pane.
pub ghost struct PaneV {
    pub id: usize,
    pub title: Seq<char>,
    pub cwd: Option<Seq<char>>,
}

impl View for PaneState {
    type V = PaneV;

    open spec fn view(&self) -> PaneV {
        PaneV { id: self.id, title: self.title@, cwd: opt_str_view(self.cwd) }
    }
}

impl Clone for PaneState {
    fn clone(&self) -> (r: Self)
        ensures
            r@ == self@,
    {
        PaneState {
            id: self.id,
            title: self.title.clone(),
            cwd: clone_opt_string(&self.cwd),
        }
    }
}

/// A window of a terminal session.
#[derive(Debug)]
pub struct WindowState {
    pub id: usize,
    pub title: String,
    pub panes: Vec<PaneState>,
    pub active_pane: usize,
}

/// Mathematical view of a window.
pub ghost struct WindowV {
    pub id: usize,
    pub title: Seq<char>,
    pub panes: Seq<PaneV>,
    pub active_pane: usize,
}

impl View for WindowState {
    type V = WindowV;

    open spec fn view(&self) -> WindowV {
        WindowV {
            id: self.id,
            title: self.title@,
            panes: self.panes@.map_values(|p: PaneState| p@),
            active_pane: self.active_pane,
        }
    }
}

impl Clone for WindowState {
    fn clone(&self) -> (r: Self)
        ensures
            r@ == self@,
    {
        let mut panes: Vec<PaneState> = Vec::new();
        let mut i: usize = 0;
        while i < self.panes.len()
            invariant
                i <= self.panes.len(),
                panes@.len() == i,
                forall|j: int| 0 <= j < i ==> #[trigger] panes@[j]@ == self.panes@[j]@,
            decreases self.panes.len() - i,
        {
            panes.push(self.panes[i].clone());
            i = i + 1;
        }
        let r = WindowState {
            id: self.id,
            title: self.title.clone(),
            panes,
            active_pane: self.active_pane,
        };
        proof {
            assert(r@.panes =~= self@.panes);
        }
        r
    }
}

/// A named terminal session persisted alongside the teams.
#[derive(Debug)]
pub struct SessionState {
    pub name: String,
    pub windows: Vec<WindowState>,
    pub active_window: usize,
}

/// Mathematical view of a session.
pub ghost struct SessionV {
    pub name: Seq<char>,
    pub windows: Seq<WindowV>,
    pub active_window: usize,
}

impl View for SessionState {
    type V = SessionV;

    open spec fn view(&self) -> SessionV {
        SessionV {
            name: self.name@,
            windows: self.windows@.map_values(|w: WindowState| w@),
            active_window: self.active_window,
        }
    }
}

impl Clone for SessionState {
    fn clone(&self) -> (r: Self)
        ensures
            r@ == self@,
    {
        let mut windows: Vec<WindowState> = Vec::new();
        let mut i: usize = 0;
        while i < self.windows.len()
            invariant
                i <= self.windows.len(),
                windows@.len() == i,
                forall|j: int| 0 <= j < i ==> #[trigger] windows@[j]@ == self.windows@[j]@,
            decreases self.windows.len() - i,
        {
            windows.push(self.windows[i].clone());
            i = i + 1;
        }
        let r = SessionState {
            name: self.name.clone(),
            windows,
            active_window: self.active_window,
        };
        proof {
            assert(r@.windows =~= self@.windows);
        }
        r
    }
}

// ---------------------------------------------------------------------
// Well-formedness.
// ---------------------------------------------------------------------

/// Whether some task in `tasks` has the id `id` and is `Done`.
pub open spec fn dep_done(tasks: Seq<TaskV>, id: usize) -> bool {
    exists|j: int| 0 <= j < tasks.len() && tasks[j].id == id && tasks[j].status == TaskStatus::Done
}

/// Whether some task in `tasks` has the id `id`.
pub open spec fn task_id_exists(tasks: Seq<TaskV>, id: usize) -> bool {
    exists|j: int| 0 <= j < tasks.len() && tasks[j].id == id
}

/// Whether every declared dependency of `task` is `Done`.
pub open spec fn deps_ready(tasks: Seq<TaskV>, task: TaskV) -> bool {
    forall|k: int| 0 <= k < task.deps.len() ==> dep_done(tasks, task.deps[k])
}

/// The status the automatic blocking pass assigns a task that is neither
/// in progress nor done.
pub open spec fn derived_status(tasks: Seq<TaskV>, task: TaskV) -> TaskStatus {
    if deps_ready(tasks, task) {
        TaskStatus::Pending
    } else {
        TaskStatus::Blocked
    }
}

/// Dependency-driven blocking is consistent: every task that is neither
/// in progress nor done is `Blocked` exactly when one of its
/// dependencies is not `Done`.
pub open spec fn blocking_consistent(tasks: Seq<TaskV>) -> bool {
    forall|i: int|
        0 <= i < tasks.len() && (tasks[i].status == TaskStatus::Pending || tasks[i].status
            == TaskStatus::Blocked) ==> tasks[i].status == derived_status(tasks, tasks[i])
}

/// Well-formedness of a team: member and message ids unique, task ids
/// strictly increasing (so scan order is ascending-id order), every id
/// below its counter, every dependency resolvable, and blocking
/// consistent.
pub open spec fn wf_team(t: TeamV) -> bool {
    &&& forall|i: int, j: int|
        0 <= i < j < t.members.len() ==> t.members[i].id != t.members[j].id
    &&& forall|i: int| 0 <= i < t.members.len() ==> #[trigger] t.members[i].id < t.next_member_id
    &&& forall|i: int, j: int| 0 <= i < j < t.tasks.len() ==> t.tasks[i].id < t.tasks[j].id
    &&& forall|i: int| 0 <= i < t.tasks.len() ==> #[trigger] t.tasks[i].id < t.next_task_id
    &&& forall|i: int, j: int|
        0 <= i < j < t.messages.len() ==> t.messages[i].id != t.messages[j].id
    &&& forall|i: int|
        0 <= i < t.messages.len() ==> #[trigger] t.messages[i].id < t.next_message_id
    &&& forall|i: int, k: int|
        0 <= i < t.tasks.len() && 0 <= k < t.tasks[i].deps.len() ==> task_id_exists(
            t.tasks,
            #[trigger] t.tasks[i].deps[k],
        )
    &&& blocking_consistent(t.tasks)
}

} // verus!
