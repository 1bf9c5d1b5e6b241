//! The aggregate root: all teams, plus the named terminal sessions that
//! are persisted in the same document. Every team-scoped operation is
//! keyed by team id and rejects unknown ids.

use vstd::prelude::*;
use crate::domain::{
    AgentTeam, EngineError, MemberState, PaneState, PaneV, PlanStatus, RecoveryPolicy,
    SessionState, SessionV, TeamDisplayMode, TeamMessage, TeamMessagePriority, TeamTask,
    TeamUsage, TeamV, WindowState, WindowV, wf_team,
};
use crate::domain::{name_lt, name_lt_exec, str_eq};
use crate::team::{
    add_member_post, add_task_check, add_task_post, auto_claim_ok, claim_check, claim_post,
    complete_check, complete_post, count_in_progress, execute_gate, has_member, mark_read_check,
    mark_read_post, member_gate, new_member_v, new_message_v, post_message_check,
    post_message_post, prune_post, remove_member_post, restart_member_post, selected_messages,
    set_plan_status_post, submit_plan_post, sum_sat,
};

verus! {

/// Relies on std::time::SystemTime::now, read as whole seconds since
/// the Unix epoch; 0 when the clock reads earlier than the epoch.
/// Nothing is assumed of the value.
#[verifier::external_body]
fn now_unix_secs() -> u64 {
    match std::time::SystemTime::now().duration_since(std::time::UNIX_EPOCH) {
        Ok(d) => d.as_secs(),
        Err(_) => 0,
    }
}

/// The aggregate root that the engine owns and persists.
#[derive(Debug)]
pub struct EngineState {
    pub sessions: Vec<SessionState>,
    pub active_session: Option<String>,
    pub teams: Vec<AgentTeam>,
}

/// Mathematical view of the aggregate root.
pub ghost struct StateV {
    pub sessions: Seq<SessionV>,
    pub active_session: Option<Seq<char>>,
    pub teams: Seq<TeamV>,
}

impl View for EngineState {
    type V = StateV;

    open spec fn view(&self) -> StateV {
        StateV {
            sessions: self.sessions@.map_values(|s: SessionState| s@),
            active_session: crate::domain::opt_str_view(self.active_session),
            teams: self.teams@.map_values(|t: AgentTeam| t@),
        }
    }
}

/// Well-formedness of the aggregate root: sessions strictly sorted by
/// name and teams strictly sorted by id (byte-lexicographically, the
/// order listings and snapshots come in), every team well-formed.
pub open spec fn wf_state(s: StateV) -> bool {
    &&& forall|i: int, j: int|
        0 <= i < j < s.sessions.len() ==> crate::domain::name_lt(
            s.sessions[i].name,
            s.sessions[j].name,
        )
    &&& forall|i: int, j: int| 0 <= i < j < s.teams.len() ==> s.teams[i].id != s.teams[j].id
    &&& forall|i: int, j: int|
        0 <= i < j < s.teams.len() ==> crate::domain::name_lt(s.teams[i].id, s.teams[j].id)
    &&& forall|i: int| 0 <= i < s.teams.len() ==> wf_team(#[trigger] s.teams[i])
}

/// Whether a team with the id exists.
pub open spec fn has_team(s: StateV, id: Seq<char>) -> bool {
    exists|i: int| 0 <= i < s.teams.len() && s.teams[i].id == id
}

/// The index of the team with the id (unique under well-formedness).
pub open spec fn state_team_index(s: StateV, id: Seq<char>) -> int {
    choose|i: int| 0 <= i < s.teams.len() && s.teams[i].id == id
}

/// Whether a session with the name exists.
pub open spec fn has_session(s: StateV, name: Seq<char>) -> bool {
    exists|i: int| 0 <= i < s.sessions.len() && s.sessions[i].name == name
}

/// The state with one team replaced.
pub open spec fn state_with_team(s: StateV, ti: int, t: TeamV) -> StateV {
    StateV { teams: s.teams.update(ti, t), ..s }
}

/// A fresh team record.
pub open spec fn new_team_v(id: Seq<char>, mode: TeamDisplayMode, delegation_only: bool) -> TeamV {
    TeamV {
        id,
        mode,
        delegation_only,
        recovery_policy: RecoveryPolicy::AutoReassign,
        members: Seq::empty(),
        tasks: Seq::empty(),
        messages: Seq::empty(),
        next_member_id: 0,
        next_task_id: 0,
        next_message_id: 0,
    }
}

/// A fresh session record: one window with one pane.
pub open spec fn default_session_v(name: Seq<char>) -> SessionV {
    SessionV {
        name,
        windows: seq![
            WindowV {
                id: 0,
                title: "Window 0"@,
                panes: seq![PaneV { id: 0, title: "Pane 0"@, cwd: None }],
                active_pane: 0,
            },
        ],
        active_window: 0,
    }
}

/// The state a fresh engine starts from: one session named "default".
pub open spec fn default_state_v() -> StateV {
    StateV {
        sessions: seq![default_session_v("default"@)],
        active_session: Some("default"@),
        teams: Seq::empty(),
    }
}

proof fn lemma_state_team_index(s: StateV, i: int, id: Seq<char>)
    requires
        forall|a: int, b: int| 0 <= a < b < s.teams.len() ==> s.teams[a].id != s.teams[b].id,
        0 <= i < s.teams.len(),
        s.teams[i].id == id,
    ensures
        has_team(s, id),
        state_team_index(s, id) == i,
{
    assert(has_team(s, id));
    let j = state_team_index(s, id);
    if j < i {
        assert(s.teams[j].id != s.teams[i].id);
    } else if i < j {
        assert(s.teams[i].id != s.teams[j].id);
    }
}

/// Replacing one team by a well-formed team with the same id keeps the
/// state well-formed.
proof fn lemma_state_update_wf(s: StateV, ti: int, t: TeamV)
    requires
        wf_state(s),
        0 <= ti < s.teams.len(),
        wf_team(t),
        t.id == s.teams[ti].id,
    ensures
        wf_state(state_with_team(s, ti, t)),
{
    let s2 = state_with_team(s, ti, t);
    assert forall|i: int, j: int|
        0 <= i < j < s2.teams.len() implies s2.teams[i].id != s2.teams[j].id by {
        assert(s2.teams[i].id == s.teams[i].id);
        assert(s2.teams[j].id == s.teams[j].id);
    }
    assert forall|i: int, j: int|
        0 <= i < j < s2.teams.len() implies crate::domain::name_lt(
            s2.teams[i].id,
            s2.teams[j].id,
        ) by {
        assert(s2.teams[i].id == s.teams[i].id);
        assert(s2.teams[j].id == s.teams[j].id);
    }
    assert forall|i: int| 0 <= i < s2.teams.len() implies wf_team(#[trigger] s2.teams[i]) by {
        if i != ti {
            assert(s2.teams[i] == s.teams[i]);
        }
    }
}

/// Checks every clause of state well-formedness, for data read from
/// outside (a persisted document).
pub fn wf_check(st: &EngineState) -> (r: bool)
    ensures
        r == wf_state(st@),
{
    let ghost s = st@;
    let mut i: usize = 0;
    while i < st.sessions.len()
        invariant
            i <= st.sessions.len(),
            s == st@,
            s.sessions.len() == st.sessions@.len(),
            forall|a: int, b: int|
                0 <= a < i && a < b < s.sessions.len() ==> name_lt(
                    s.sessions[a].name,
                    s.sessions[b].name,
                ),
        decreases st.sessions.len() - i,
    {
        let mut k: usize = i + 1;
        while k < st.sessions.len()
            invariant
                i < k <= st.sessions.len(),
                s == st@,
                s.sessions.len() == st.sessions@.len(),
                forall|b: int|
                    i < b < k ==> name_lt(s.sessions[i as int].name, s.sessions[b].name),
            decreases st.sessions.len() - k,
        {
            if !name_lt_exec(st.sessions[i].name.as_str(), st.sessions[k].name.as_str()) {
                proof {
                    assert(s.sessions[i as int] == st.sessions@[i as int]@);
                    assert(s.sessions[k as int] == st.sessions@[k as int]@);
                    if wf_state(s) {
                        assert(name_lt(s.sessions[i as int].name, s.sessions[k as int].name));
                    }
                    assert(!wf_state(s));
                }
                return false;
            }
            k = k + 1;
        }
        i = i + 1;
    }
    let mut i: usize = 0;
    while i < st.teams.len()
        invariant
            i <= st.teams.len(),
            s == st@,
            s.teams.len() == st.teams@.len(),
            forall|a: int, b: int|
                0 <= a < b < s.sessions.len() ==> name_lt(
                    s.sessions[a].name,
                    s.sessions[b].name,
                ),
            forall|a: int, b: int|
                0 <= a < i && a < b < s.teams.len() ==> s.teams[a].id != s.teams[b].id,
            forall|a: int, b: int|
                0 <= a < i && a < b < s.teams.len() ==> name_lt(
                    s.teams[a].id,
                    s.teams[b].id,
                ),
            forall|a: int| 0 <= a < i ==> wf_team(#[trigger] s.teams[a]),
        decreases st.teams.len() - i,
    {
        let mut k: usize = i + 1;
        while k < st.teams.len()
            invariant
                i < k <= st.teams.len(),
                s == st@,
                s.teams.len() == st.teams@.len(),
                forall|b: int| i < b < k ==> s.teams[i as int].id != s.teams[b].id,
                forall|b: int| i < b < k ==> name_lt(s.teams[i as int].id, s.teams[b].id),
            decreases st.teams.len() - k,
        {
            if str_eq(st.teams[i].id.as_str(), st.teams[k].id.as_str()) {
                proof {
                    assert(s.teams[i as int] == st.teams@[i as int]@);
                    assert(s.teams[k as int] == st.teams@[k as int]@);
                    assert(!wf_state(s));
                }
                return false;
            }
            if !name_lt_exec(st.teams[i].id.as_str(), st.teams[k].id.as_str()) {
                proof {
                    assert(s.teams[i as int] == st.teams@[i as int]@);
                    assert(s.teams[k as int] == st.teams@[k as int]@);
                    if wf_state(s) {
                        assert(name_lt(s.teams[i as int].id, s.teams[k as int].id));
                    }
                    assert(!wf_state(s));
                }
                return false;
            }
            k = k + 1;
        }
        if !st.teams[i].wf_check_team() {
            proof {
                assert(s.teams[i as int] == st.teams@[i as int]@);
                assert(!wf_state(s));
            }
            return false;
        }
        i = i + 1;
    }
    proof {
        assert(wf_state(s));
    }
    true
}

fn default_session_state(name: &str) -> (r: SessionState)
    ensures
        r@ == default_session_v(name@),
{
    let pane = PaneState { id: 0, title: "Pane 0".to_owned(), cwd: None };
    let mut panes: Vec<PaneState> = Vec::new();
    panes.push(pane);
    let window = WindowState { id: 0, title: "Window 0".to_owned(), panes, active_pane: 0 };
    let mut windows: Vec<WindowState> = Vec::new();
    windows.push(window);
    let r = SessionState { name: name.to_owned(), windows, active_window: 0 };
    proof {
        let d = default_session_v(name@);
        assert(r@.windows[0].panes =~= d.windows[0].panes);
        assert(r@.windows[0] == d.windows[0]);
        assert(r@.windows =~= d.windows);
        assert(r@ == d);
    }
    r
}

impl Default for EngineState {
    /// A fresh engine: one "default" session, active, and no teams.
    fn default() -> (r: Self)
        ensures
            r@ == default_state_v(),
            wf_state(r@),
    {
        let mut sessions: Vec<SessionState> = Vec::new();
        sessions.push(default_session_state("default"));
        let r = EngineState {
            sessions,
            active_session: Some("default".to_owned()),
            teams: Vec::new(),
        };
        proof {
            assert(r@.sessions =~= default_state_v().sessions);
            assert(r@.teams =~= default_state_v().teams);
            assert(r@ =~= default_state_v());
        }
        r
    }
}

impl EngineState {
    fn find_session_idx(&self, name: &str) -> (r: Option<usize>)
        ensures
            match r {
                Some(i) => i < self.sessions.len() && self@.sessions[i as int].name == name@,
                None => !has_session(self@, name@),
            },
    {
        let mut i: usize = 0;
        while i < self.sessions.len()
            invariant
                i <= self.sessions.len(),
                self@.sessions.len() == self.sessions@.len(),
                forall|j: int| 0 <= j < i ==> self@.sessions[j].name != name@,
            decreases self.sessions.len() - i,
        {
            if str_eq(self.sessions[i].name.as_str(), name) {
                proof {
                    assert(self@.sessions[i as int].name == name@);
                }
                return Some(i);
            }
            i = i + 1;
        }
        None
    }

    fn find_team_idx(&self, team_id: &str) -> (r: Option<usize>)
        requires
            forall|a: int, b: int|
                0 <= a < b < self@.teams.len() ==> self@.teams[a].id != self@.teams[b].id,
        ensures
            match r {
                Some(i) => i < self.teams.len() && self@.teams[i as int].id == team_id@
                    && has_team(self@, team_id@) && state_team_index(self@, team_id@) == i,
                None => !has_team(self@, team_id@),
            },
    {
        let mut i: usize = 0;
        while i < self.teams.len()
            invariant
                i <= self.teams.len(),
                self@.teams.len() == self.teams@.len(),
                forall|a: int, b: int|
                    0 <= a < b < self@.teams.len() ==> self@.teams[a].id != self@.teams[b].id,
                forall|j: int| 0 <= j < i ==> self@.teams[j].id != team_id@,
            decreases self.teams.len() - i,
        {
            if str_eq(self.teams[i].id.as_str(), team_id) {
                proof {
                    lemma_state_team_index(self@, i as int, team_id@);
                }
                return Some(i);
            }
            i = i + 1;
        }
        None
    }

    /// Creates a session with the name and makes it active; the session
    /// list stays sorted by name, and a name already in use leaves the
    /// state unchanged.
    pub fn create_session(&mut self, name: &str)
        requires
            wf_state(old(self)@),
        ensures
            wf_state(final(self)@),
            has_session(old(self)@, name@) ==> final(self)@ == old(self)@,
            !has_session(old(self)@, name@) ==> exists|k: int|
                0 <= k <= old(self)@.sessions.len() && final(self)@ == (StateV {
                    sessions: #[trigger] old(self)@.sessions.insert(k, default_session_v(name@)),
                    active_session: Some(name@),
                    ..old(self)@
                }) && (forall|i: int|
                    0 <= i < k ==> crate::domain::name_lt(
                        (#[trigger] old(self)@.sessions[i]).name,
                        name@,
                    )) && (forall|i: int|
                    k <= i < old(self)@.sessions.len() ==> crate::domain::name_lt(
                        name@,
                        (#[trigger] old(self)@.sessions[i]).name,
                    )),
    {
        if self.find_session_idx(name).is_some() {
            return ;
        }
        let ghost s0 = self@;
        let mut k: usize = 0;
        let mut stop: bool = false;
        while !stop && k < self.sessions.len()
            invariant
                k <= self.sessions.len(),
                *self == *old(self),
                s0 == self@,
                wf_state(s0),
                !has_session(s0, name@),
                forall|i: int|
                    0 <= i < k ==> crate::domain::name_lt(
                        (#[trigger] s0.sessions[i]).name,
                        name@,
                    ),
                stop ==> k < s0.sessions.len() && !crate::domain::name_lt(
                    s0.sessions[k as int].name,
                    name@,
                ),
            decreases self.sessions.len() - k + (if stop {
                0int
            } else {
                1int
            }),
        {
            if name_lt_exec(self.sessions[k].name.as_str(), name) {
                k = k + 1;
            } else {
                stop = true;
            }
        }
        proof {
            if k < s0.sessions.len() {
                assert(s0.sessions[k as int].name != name@) by {
                    if s0.sessions[k as int].name == name@ {
                        assert(has_session(s0, name@));
                    }
                }
                crate::domain::lemma_name_lt_total(s0.sessions[k as int].name, name@);
                assert(crate::domain::name_lt(name@, s0.sessions[k as int].name));
            }
            assert forall|i: int|
                k <= i < s0.sessions.len() implies crate::domain::name_lt(
                    name@,
                    (#[trigger] s0.sessions[i]).name,
                ) by {
                if i > k {
                    assert(crate::domain::name_lt(
                        s0.sessions[k as int].name,
                        s0.sessions[i].name,
                    ));
                    crate::domain::lemma_name_lt_trans(
                        name@,
                        s0.sessions[k as int].name,
                        s0.sessions[i].name,
                    );
                }
            }
        }
        self.sessions.insert(k, default_session_state(name));
        self.active_session = Some(name.to_owned());
        proof {
            let nsv = s0.sessions.insert(k as int, default_session_v(name@));
            assert(self@.sessions =~= nsv);
            assert(self@ =~= (StateV {
                sessions: nsv,
                active_session: Some(name@),
                ..s0
            }));
            assert forall|i: int, j: int|
                0 <= i < j < self@.sessions.len() implies crate::domain::name_lt(
                    self@.sessions[i].name,
                    self@.sessions[j].name,
                ) by {
                if i == k as int {
                    assert(self@.sessions[j] == s0.sessions[j - 1]);
                } else if j == k as int {
                    assert(self@.sessions[i] == s0.sessions[i]);
                } else {
                    let oi = if i < k as int { i } else { i - 1 };
                    let oj = if j < k as int { j } else { j - 1 };
                    assert(self@.sessions[i] == s0.sessions[oi]);
                    assert(self@.sessions[j] == s0.sessions[oj]);
                }
            }
            assert(wf_state(self@));
        }
    }

    /// Lists the session names, ascending in the byte-lexicographic
    /// order that well-formedness keeps the sessions sorted in.
    pub fn list_sessions(&self) -> (r: Vec<String>)
        ensures
            crate::domain::strs_view(r@) == self@.sessions.map_values(|s: SessionV| s.name),
            wf_state(self@) ==> forall|i: int, j: int|
                0 <= i < j < r@.len() ==> name_lt(r@[i]@, r@[j]@),
    {
        let mut r: Vec<String> = Vec::new();
        let mut i: usize = 0;
        while i < self.sessions.len()
            invariant
                i <= self.sessions.len(),
                self@.sessions.len() == self.sessions@.len(),
                r@.len() == i,
                forall|j: int| 0 <= j < i ==> #[trigger] r@[j]@ == self@.sessions[j].name,
            decreases self.sessions.len() - i,
        {
            r.push(self.sessions[i].name.clone());
            i = i + 1;
        }
        proof {
            assert(crate::domain::strs_view(r@) =~= self@.sessions.map_values(
                |s: SessionV| s.name,
            ));
        }
        r
    }

    /// Makes the named session active; an unknown name changes nothing.
    pub fn set_active_session(&mut self, name: &str)
        requires
            wf_state(old(self)@),
        ensures
            wf_state(final(self)@),
            has_session(old(self)@, name@) ==> final(self)@ == (StateV {
                active_session: Some(name@),
                ..old(self)@
            }),
            !has_session(old(self)@, name@) ==> final(self)@ == old(self)@,
    {
        if self.find_session_idx(name).is_some() {
            self.active_session = Some(name.to_owned());
            proof {
                assert(self@ =~= (StateV { active_session: Some(name@), ..old(self)@ }));
            }
        }
    }

    /// Creates a team under a fresh id; the team list stays sorted by
    /// id, and an id already in use is rejected.
    pub fn create_team(&mut self, team_id: &str, mode: TeamDisplayMode, delegation_only: bool)
        -> (r: Result<(), EngineError>)
        requires
            wf_state(old(self)@),
        ensures
            wf_state(final(self)@),
            has_team(old(self)@, team_id@) ==> r == Err::<(), EngineError>(
                EngineError::TeamExists,
            ) && final(self)@ == old(self)@,
            !has_team(old(self)@, team_id@) ==> r == Ok::<(), EngineError>(()) && exists|k: int|
                0 <= k <= old(self)@.teams.len() && final(self)@ == (StateV {
                    teams: #[trigger] old(self)@.teams.insert(
                        k,
                        new_team_v(team_id@, mode, delegation_only),
                    ),
                    ..old(self)@
                }) && (forall|i: int|
                    0 <= i < k ==> crate::domain::name_lt(
                        (#[trigger] old(self)@.teams[i]).id,
                        team_id@,
                    )) && (forall|i: int|
                    k <= i < old(self)@.teams.len() ==> crate::domain::name_lt(
                        team_id@,
                        (#[trigger] old(self)@.teams[i]).id,
                    )),
    {
        if self.find_team_idx(team_id).is_some() {
            return Err(EngineError::TeamExists);
        }
        let ghost s0 = self@;
        let mut k: usize = 0;
        let mut stop: bool = false;
        while !stop && k < self.teams.len()
            invariant
                k <= self.teams.len(),
                *self == *old(self),
                s0 == self@,
                wf_state(s0),
                !has_team(s0, team_id@),
                forall|i: int|
                    0 <= i < k ==> crate::domain::name_lt(
                        (#[trigger] s0.teams[i]).id,
                        team_id@,
                    ),
                stop ==> k < s0.teams.len() && !crate::domain::name_lt(
                    s0.teams[k as int].id,
                    team_id@,
                ),
            decreases self.teams.len() - k + (if stop {
                0int
            } else {
                1int
            }),
        {
            if name_lt_exec(self.teams[k].id.as_str(), team_id) {
                k = k + 1;
            } else {
                stop = true;
            }
        }
        proof {
            if k < s0.teams.len() {
                assert(s0.teams[k as int].id != team_id@) by {
                    if s0.teams[k as int].id == team_id@ {
                        assert(has_team(s0, team_id@));
                    }
                }
                crate::domain::lemma_name_lt_total(s0.teams[k as int].id, team_id@);
                assert(crate::domain::name_lt(team_id@, s0.teams[k as int].id));
            }
            assert forall|i: int|
                k <= i < s0.teams.len() implies crate::domain::name_lt(
                    team_id@,
                    (#[trigger] s0.teams[i]).id,
                ) by {
                if i > k {
                    assert(crate::domain::name_lt(s0.teams[k as int].id, s0.teams[i].id));
                    crate::domain::lemma_name_lt_trans(
                        team_id@,
                        s0.teams[k as int].id,
                        s0.teams[i].id,
                    );
                }
            }
        }
        let team = AgentTeam {
            id: team_id.to_owned(),
            mode,
            delegation_only,
            recovery_policy: RecoveryPolicy::AutoReassign,
            members: Vec::new(),
            tasks: Vec::new(),
            messages: Vec::new(),
            next_member_id: 0,
            next_task_id: 0,
            next_message_id: 0,
        };
        self.teams.insert(k, team);
        proof {
            let nt = new_team_v(team_id@, mode, delegation_only);
            assert(self.teams@[k as int]@.members =~= nt.members);
            assert(self.teams@[k as int]@.tasks =~= nt.tasks);
            assert(self.teams@[k as int]@.messages =~= nt.messages);
            assert(self.teams@[k as int]@ =~= nt);
            let ntv = s0.teams.insert(k as int, nt);
            assert(self@.teams =~= ntv);
            assert(self@ =~= (StateV { teams: ntv, ..s0 }));
            assert forall|i: int, j: int|
                0 <= i < j < self@.teams.len() implies crate::domain::name_lt(
                    self@.teams[i].id,
                    self@.teams[j].id,
                ) by {
                if i == k as int {
                    assert(self@.teams[j] == s0.teams[j - 1]);
                } else if j == k as int {
                    assert(self@.teams[i] == s0.teams[i]);
                } else {
                    let oi = if i < k as int { i } else { i - 1 };
                    let oj = if j < k as int { j } else { j - 1 };
                    assert(self@.teams[i] == s0.teams[oi]);
                    assert(self@.teams[j] == s0.teams[oj]);
                }
            }
            assert forall|i: int, j: int|
                0 <= i < j < self@.teams.len() implies self@.teams[i].id
                    != self@.teams[j].id by {
                assert(crate::domain::name_lt(self@.teams[i].id, self@.teams[j].id));
                crate::domain::lemma_name_lt_total(self@.teams[i].id, self@.teams[j].id);
                if self@.teams[i].id == self@.teams[j].id {
                    crate::domain::lemma_name_lt_trans(
                        self@.teams[i].id,
                        self@.teams[j].id,
                        self@.teams[i].id,
                    );
                }
            }
            assert forall|i: int|
                0 <= i < self@.teams.len() implies wf_team(#[trigger] self@.teams[i]) by {
                if i != k as int {
                    let oi = if i < k as int { i } else { i - 1 };
                    assert(self@.teams[i] == s0.teams[oi]);
                }
            }
            assert(wf_state(self@));
        }
        Ok(())
    }

    /// Deletes a team and everything in it.
    pub fn cleanup_team(&mut self, team_id: &str) -> (r: Result<(), EngineError>)
        requires
            wf_state(old(self)@),
        ensures
            wf_state(final(self)@),
            !has_team(old(self)@, team_id@) ==> r == Err::<(), EngineError>(
                EngineError::UnknownTeam,
            ) && final(self)@ == old(self)@,
            has_team(old(self)@, team_id@) ==> r == Ok::<(), EngineError>(()) && final(self)@
                == (StateV {
                teams: old(self)@.teams.remove(state_team_index(old(self)@, team_id@)),
                ..old(self)@
            }),
    {
        let idx = match self.find_team_idx(team_id) {
            Some(i) => i,
            None => {
                return Err(EngineError::UnknownTeam);
            },
        };
        self.teams.remove(idx);
        proof {
            assert(self@.teams =~= old(self)@.teams.remove(idx as int));
            assert(self@ =~= (StateV {
                teams: old(self)@.teams.remove(idx as int),
                ..old(self)@
            }));
            assert forall|i: int, j: int|
                0 <= i < j < self@.teams.len() implies self@.teams[i].id
                    != self@.teams[j].id by {
                let oi = if i < idx as int { i } else { i + 1 };
                let oj = if j < idx as int { j } else { j + 1 };
                assert(self@.teams[i] == old(self)@.teams[oi]);
                assert(self@.teams[j] == old(self)@.teams[oj]);
            }
            assert forall|i: int|
                0 <= i < self@.teams.len() implies wf_team(#[trigger] self@.teams[i]) by {
                let oi = if i < idx as int { i } else { i + 1 };
                assert(self@.teams[i] == old(self)@.teams[oi]);
            }
        }
        Ok(())
    }

    /// Sets a team's display mode.
    pub fn set_team_mode(&mut self, team_id: &str, mode: TeamDisplayMode) -> (r: Result<
        (),
        EngineError,
    >)
        requires
            wf_state(old(self)@),
        ensures
            wf_state(final(self)@),
            !has_team(old(self)@, team_id@) ==> r == Err::<(), EngineError>(
                EngineError::UnknownTeam,
            ) && final(self)@ == old(self)@,
            has_team(old(self)@, team_id@) ==> r == Ok::<(), EngineError>(()) && final(self)@
                == state_with_team(
                old(self)@,
                state_team_index(old(self)@, team_id@),
                TeamV { mode, ..old(self)@.teams[state_team_index(old(self)@, team_id@)] },
            ),
    {
        let idx = match self.find_team_idx(team_id) {
            Some(i) => i,
            None => {
                return Err(EngineError::UnknownTeam);
            },
        };
        let ghost pre = self@.teams[idx as int];
        let team = &mut self.teams[idx];
        team.mode = mode;
        proof {
            assert(self.teams@[idx as int]@ == (TeamV { mode, ..pre }));
            assert(self@.teams =~= old(self)@.teams.update(idx as int, TeamV { mode, ..pre }));
            assert(self@ =~= state_with_team(old(self)@, idx as int, TeamV { mode, ..pre }));
            lemma_state_update_wf(old(self)@, idx as int, TeamV { mode, ..pre });
        }
        Ok(())
    }

    /// Sets a team's delegation-only flag.
    pub fn set_delegation_only(&mut self, team_id: &str, delegation_only: bool) -> (r: Result<
        (),
        EngineError,
    >)
        requires
            wf_state(old(self)@),
        ensures
            wf_state(final(self)@),
            !has_team(old(self)@, team_id@) ==> r == Err::<(), EngineError>(
                EngineError::UnknownTeam,
            ) && final(self)@ == old(self)@,
            has_team(old(self)@, team_id@) ==> r == Ok::<(), EngineError>(()) && final(self)@
                == state_with_team(
                old(self)@,
                state_team_index(old(self)@, team_id@),
                TeamV {
                    delegation_only,
                    ..old(self)@.teams[state_team_index(old(self)@, team_id@)]
                },
            ),
    {
        let idx = match self.find_team_idx(team_id) {
            Some(i) => i,
            None => {
                return Err(EngineError::UnknownTeam);
            },
        };
        let ghost pre = self@.teams[idx as int];
        let team = &mut self.teams[idx];
        team.delegation_only = delegation_only;
        proof {
            assert(self.teams@[idx as int]@ == (TeamV { delegation_only, ..pre }));
            assert(self@.teams =~= old(self)@.teams.update(
                idx as int,
                TeamV { delegation_only, ..pre },
            ));
            assert(self@ =~= state_with_team(
                old(self)@,
                idx as int,
                TeamV { delegation_only, ..pre },
            ));
            lemma_state_update_wf(old(self)@, idx as int, TeamV { delegation_only, ..pre });
        }
        Ok(())
    }

    /// Sets a team's recovery policy.
    pub fn set_recovery_policy(&mut self, team_id: &str, recovery_policy: RecoveryPolicy) -> (r:
        Result<(), EngineError>)
        requires
            wf_state(old(self)@),
        ensures
            wf_state(final(self)@),
            !has_team(old(self)@, team_id@) ==> r == Err::<(), EngineError>(
                EngineError::UnknownTeam,
            ) && final(self)@ == old(self)@,
            has_team(old(self)@, team_id@) ==> r == Ok::<(), EngineError>(()) && final(self)@
                == state_with_team(
                old(self)@,
                state_team_index(old(self)@, team_id@),
                TeamV {
                    recovery_policy,
                    ..old(self)@.teams[state_team_index(old(self)@, team_id@)]
                },
            ),
    {
        let idx = match self.find_team_idx(team_id) {
            Some(i) => i,
            None => {
                return Err(EngineError::UnknownTeam);
            },
        };
        let ghost pre = self@.teams[idx as int];
        let team = &mut self.teams[idx];
        team.recovery_policy = recovery_policy;
        proof {
            assert(self.teams@[idx as int]@ == (TeamV { recovery_policy, ..pre }));
            assert(self@.teams =~= old(self)@.teams.update(
                idx as int,
                TeamV { recovery_policy, ..pre },
            ));
            assert(self@ =~= state_with_team(
                old(self)@,
                idx as int,
                TeamV { recovery_policy, ..pre },
            ));
            lemma_state_update_wf(old(self)@, idx as int, TeamV { recovery_policy, ..pre });
        }
        Ok(())
    }
}

impl EngineState {
    /// Admits a member into a team.
    pub fn add_member(
        &mut self,
        team_id: &str,
        name: &str,
        model: &str,
        require_plan_approval: bool,
        is_lead: bool,
    ) -> (r: Result<MemberState, EngineError>)
        requires
            wf_state(old(self)@),
        ensures
            wf_state(final(self)@),
            !has_team(old(self)@, team_id@) ==> (r matches Err(e) && e == EngineError::UnknownTeam
                && final(self)@ == old(self)@),
            has_team(old(self)@, team_id@) ==> (match r {
                Ok(m) => old(self)@.teams[state_team_index(old(self)@, team_id@)].next_member_id
                    < usize::MAX && m@ == new_member_v(
                    old(self)@.teams[state_team_index(old(self)@, team_id@)],
                    name@,
                    model@,
                    require_plan_approval,
                    is_lead,
                ) && final(self)@ == state_with_team(
                    old(self)@,
                    state_team_index(old(self)@, team_id@),
                    add_member_post(
                        old(self)@.teams[state_team_index(old(self)@, team_id@)],
                        name@,
                        model@,
                        require_plan_approval,
                        is_lead,
                    ),
                ),
                Err(e) => e == EngineError::IdExhausted && old(self)@.teams[state_team_index(
                    old(self)@,
                    team_id@,
                )].next_member_id == usize::MAX && final(self)@ == old(self)@,
            }),
    {
        let idx = match self.find_team_idx(team_id) {
            Some(i) => i,
            None => {
                return Err(EngineError::UnknownTeam);
            },
        };
        let team = &mut self.teams[idx];
        let r = team.add_member(name, model, require_plan_approval, is_lead);
        proof {
            let tpost = self.teams@[idx as int]@;
            assert(self@.teams =~= old(self)@.teams.update(idx as int, tpost));
            assert(self@ =~= state_with_team(old(self)@, idx as int, tpost));
            assert(old(self)@.teams.update(idx as int, old(self)@.teams[idx as int])
                =~= old(self)@.teams);
            lemma_state_update_wf(old(self)@, idx as int, tpost);
        }
        r
    }

    /// Adds a task to a team. A dependency on an id no task carries is
    /// rejected here, at creation; that is the only place an unresolved
    /// dependency can enter, so the automatic blocking pass never meets
    /// one.
    pub fn add_task(
        &mut self,
        team_id: &str,
        title: &str,
        deps: Vec<usize>,
        touched_files: Vec<String>,
    ) -> (r: Result<TeamTask, EngineError>)
        requires
            wf_state(old(self)@),
        ensures
            wf_state(final(self)@),
            !has_team(old(self)@, team_id@) ==> (r matches Err(e) && e == EngineError::UnknownTeam
                && final(self)@ == old(self)@),
            has_team(old(self)@, team_id@) ==> (match add_task_check(
                old(self)@.teams[state_team_index(old(self)@, team_id@)],
                deps@,
            ) {
                Some(e) => r matches Err(e2) && e2 == e && final(self)@ == old(self)@,
                None => r matches Ok(task) && exists|now: u64|
                    final(self)@ == state_with_team(
                        old(self)@,
                        state_team_index(old(self)@, team_id@),
                        #[trigger] add_task_post(
                            old(self)@.teams[state_team_index(old(self)@, team_id@)],
                            title@,
                            deps@,
                            crate::domain::strs_view(touched_files@),
                            now,
                        ),
                    ) && task@ == final(self)@.teams[state_team_index(
                        old(self)@,
                        team_id@,
                    )].tasks.last(),
            }),
    {
        let idx = match self.find_team_idx(team_id) {
            Some(i) => i,
            None => {
                return Err(EngineError::UnknownTeam);
            },
        };
        let now = now_unix_secs();
        let ghost t0v = self@.teams[idx as int];
        let ghost depsv = deps@;
        let ghost filesv = crate::domain::strs_view(touched_files@);
        let team = &mut self.teams[idx];
        let r = team.add_task(title, deps, touched_files, now);
        proof {
            let tpost = self.teams@[idx as int]@;
            assert(self@.teams =~= old(self)@.teams.update(idx as int, tpost));
            assert(self@ =~= state_with_team(old(self)@, idx as int, tpost));
            assert(old(self)@.teams.update(idx as int, old(self)@.teams[idx as int])
                =~= old(self)@.teams);
            lemma_state_update_wf(old(self)@, idx as int, tpost);
            if add_task_check(t0v, depsv) is None {
                assert(self@ == state_with_team(
                    old(self)@,
                    idx as int,
                    add_task_post(t0v, title@, depsv, filesv, now),
                ));
            }
        }
        r
    }

    /// Records a member's submitted plan.
    pub fn submit_plan(&mut self, team_id: &str, member_id: usize, plan: &str) -> (r: Result<
        (),
        EngineError,
    >)
        requires
            wf_state(old(self)@),
        ensures
            wf_state(final(self)@),
            !has_team(old(self)@, team_id@) ==> r == Err::<(), EngineError>(
                EngineError::UnknownTeam,
            ) && final(self)@ == old(self)@,
            has_team(old(self)@, team_id@) ==> (match member_gate(
                old(self)@.teams[state_team_index(old(self)@, team_id@)],
                member_id,
            ) {
                Some(e) => r == Err::<(), EngineError>(e) && final(self)@ == old(self)@,
                None => r == Ok::<(), EngineError>(()) && exists|now: u64|
                    final(self)@ == state_with_team(
                        old(self)@,
                        state_team_index(old(self)@, team_id@),
                        #[trigger] submit_plan_post(
                            old(self)@.teams[state_team_index(old(self)@, team_id@)],
                            member_id,
                            plan@,
                            now,
                        ),
                    ),
            }),
    {
        let idx = match self.find_team_idx(team_id) {
            Some(i) => i,
            None => {
                return Err(EngineError::UnknownTeam);
            },
        };
        let now = now_unix_secs();
        let ghost t0v = self@.teams[idx as int];
        let team = &mut self.teams[idx];
        let r = team.submit_plan(member_id, plan, now);
        proof {
            let tpost = self.teams@[idx as int]@;
            assert(self@.teams =~= old(self)@.teams.update(idx as int, tpost));
            assert(self@ =~= state_with_team(old(self)@, idx as int, tpost));
            assert(old(self)@.teams.update(idx as int, old(self)@.teams[idx as int])
                =~= old(self)@.teams);
            lemma_state_update_wf(old(self)@, idx as int, tpost);
            if member_gate(t0v, member_id) is None {
                assert(self@ == state_with_team(
                    old(self)@,
                    idx as int,
                    submit_plan_post(t0v, member_id, plan@, now),
                ));
            }
        }
        r
    }

    /// Decides on a member's plan.
    pub fn set_plan_status(&mut self, team_id: &str, member_id: usize, status: PlanStatus) -> (r:
        Result<(), EngineError>)
        requires
            wf_state(old(self)@),
        ensures
            wf_state(final(self)@),
            !has_team(old(self)@, team_id@) ==> r == Err::<(), EngineError>(
                EngineError::UnknownTeam,
            ) && final(self)@ == old(self)@,
            has_team(old(self)@, team_id@) ==> (match member_gate(
                old(self)@.teams[state_team_index(old(self)@, team_id@)],
                member_id,
            ) {
                Some(e) => r == Err::<(), EngineError>(e) && final(self)@ == old(self)@,
                None => r == Ok::<(), EngineError>(()) && exists|now: u64|
                    final(self)@ == state_with_team(
                        old(self)@,
                        state_team_index(old(self)@, team_id@),
                        #[trigger] set_plan_status_post(
                            old(self)@.teams[state_team_index(old(self)@, team_id@)],
                            member_id,
                            status,
                            now,
                        ),
                    ),
            }),
    {
        let idx = match self.find_team_idx(team_id) {
            Some(i) => i,
            None => {
                return Err(EngineError::UnknownTeam);
            },
        };
        let now = now_unix_secs();
        let ghost t0v = self@.teams[idx as int];
        let team = &mut self.teams[idx];
        let r = team.set_plan_status(member_id, status, now);
        proof {
            let tpost = self.teams@[idx as int]@;
            assert(self@.teams =~= old(self)@.teams.update(idx as int, tpost));
            assert(self@ =~= state_with_team(old(self)@, idx as int, tpost));
            assert(old(self)@.teams.update(idx as int, old(self)@.teams[idx as int])
                =~= old(self)@.teams);
            lemma_state_update_wf(old(self)@, idx as int, tpost);
            if member_gate(t0v, member_id) is None {
                assert(self@ == state_with_team(
                    old(self)@,
                    idx as int,
                    set_plan_status_post(t0v, member_id, status, now),
                ));
            }
        }
        r
    }

    /// Claims a pending task for a member.
    pub fn claim_task(&mut self, team_id: &str, member_id: usize, task_id: usize) -> (r: Result<
        (),
        EngineError,
    >)
        requires
            wf_state(old(self)@),
        ensures
            wf_state(final(self)@),
            !has_team(old(self)@, team_id@) ==> r == Err::<(), EngineError>(
                EngineError::UnknownTeam,
            ) && final(self)@ == old(self)@,
            has_team(old(self)@, team_id@) ==> (match claim_check(
                old(self)@.teams[state_team_index(old(self)@, team_id@)],
                member_id,
                task_id,
            ) {
                Some(e) => r == Err::<(), EngineError>(e) && final(self)@ == old(self)@,
                None => r == Ok::<(), EngineError>(()) && exists|now: u64|
                    final(self)@ == state_with_team(
                        old(self)@,
                        state_team_index(old(self)@, team_id@),
                        #[trigger] claim_post(
                            old(self)@.teams[state_team_index(old(self)@, team_id@)],
                            member_id,
                            task_id,
                            now,
                        ),
                    ),
            }),
    {
        let idx = match self.find_team_idx(team_id) {
            Some(i) => i,
            None => {
                return Err(EngineError::UnknownTeam);
            },
        };
        let now = now_unix_secs();
        let ghost t0v = self@.teams[idx as int];
        let team = &mut self.teams[idx];
        let r = team.claim_task(member_id, task_id, now);
        proof {
            let tpost = self.teams@[idx as int]@;
            assert(self@.teams =~= old(self)@.teams.update(idx as int, tpost));
            assert(self@ =~= state_with_team(old(self)@, idx as int, tpost));
            assert(old(self)@.teams.update(idx as int, old(self)@.teams[idx as int])
                =~= old(self)@.teams);
            lemma_state_update_wf(old(self)@, idx as int, tpost);
            if claim_check(t0v, member_id, task_id) is None {
                assert(self@ == state_with_team(
                    old(self)@,
                    idx as int,
                    claim_post(t0v, member_id, task_id, now),
                ));
            }
        }
        r
    }

    /// Completes an in-progress task and accounts its usage.
    pub fn complete_task(
        &mut self,
        team_id: &str,
        member_id: usize,
        task_id: usize,
        input_tokens: u64,
        output_tokens: u64,
        cost_microusd: u64,
    ) -> (r: Result<(), EngineError>)
        requires
            wf_state(old(self)@),
        ensures
            wf_state(final(self)@),
            !has_team(old(self)@, team_id@) ==> r == Err::<(), EngineError>(
                EngineError::UnknownTeam,
            ) && final(self)@ == old(self)@,
            has_team(old(self)@, team_id@) ==> (match complete_check(
                old(self)@.teams[state_team_index(old(self)@, team_id@)],
                member_id,
                task_id,
            ) {
                Some(e) => r == Err::<(), EngineError>(e) && final(self)@ == old(self)@,
                None => r == Ok::<(), EngineError>(()) && exists|now: u64|
                    final(self)@ == state_with_team(
                        old(self)@,
                        state_team_index(old(self)@, team_id@),
                        #[trigger] complete_post(
                            old(self)@.teams[state_team_index(old(self)@, team_id@)],
                            member_id,
                            task_id,
                            input_tokens,
                            output_tokens,
                            cost_microusd,
                            now,
                        ),
                    ),
            }),
    {
        let idx = match self.find_team_idx(team_id) {
            Some(i) => i,
            None => {
                return Err(EngineError::UnknownTeam);
            },
        };
        let now = now_unix_secs();
        let ghost t0v = self@.teams[idx as int];
        let team = &mut self.teams[idx];
        let r = team.complete_task(member_id, task_id, input_tokens, output_tokens,
            cost_microusd, now);
        proof {
            let tpost = self.teams@[idx as int]@;
            assert(self@.teams =~= old(self)@.teams.update(idx as int, tpost));
            assert(self@ =~= state_with_team(old(self)@, idx as int, tpost));
            assert(old(self)@.teams.update(idx as int, old(self)@.teams[idx as int])
                =~= old(self)@.teams);
            lemma_state_update_wf(old(self)@, idx as int, tpost);
            if complete_check(t0v, member_id, task_id) is None {
                assert(self@ == state_with_team(
                    old(self)@,
                    idx as int,
                    complete_post(
                        t0v,
                        member_id,
                        task_id,
                        input_tokens,
                        output_tokens,
                        cost_microusd,
                        now,
                    ),
                ));
            }
        }
        r
    }

    /// Claims the first claimable task for the member, if any.
    pub fn auto_claim_next_task(&mut self, team_id: &str, member_id: usize) -> (r: Result<
        Option<usize>,
        EngineError,
    >)
        requires
            wf_state(old(self)@),
        ensures
            wf_state(final(self)@),
            !has_team(old(self)@, team_id@) ==> r == Err::<Option<usize>, EngineError>(
                EngineError::UnknownTeam,
            ) && final(self)@ == old(self)@,
            has_team(old(self)@, team_id@) ==> (match execute_gate(
                old(self)@.teams[state_team_index(old(self)@, team_id@)],
                member_id,
            ) {
                Some(e) => r == Err::<Option<usize>, EngineError>(e) && final(self)@ == old(
                    self,
                )@,
                None => r matches Ok(ro) && exists|now: u64|
                    #[trigger] auto_claim_ok(
                        old(self)@.teams[state_team_index(old(self)@, team_id@)],
                        final(self)@.teams[state_team_index(old(self)@, team_id@)],
                        member_id,
                        now,
                        ro,
                    ) && final(self)@ == state_with_team(
                        old(self)@,
                        state_team_index(old(self)@, team_id@),
                        final(self)@.teams[state_team_index(old(self)@, team_id@)],
                    ),
            }),
    {
        let idx = match self.find_team_idx(team_id) {
            Some(i) => i,
            None => {
                return Err(EngineError::UnknownTeam);
            },
        };
        let now = now_unix_secs();
        let ghost t0v = self@.teams[idx as int];
        let team = &mut self.teams[idx];
        let r = team.auto_claim_next_task(member_id, now);
        proof {
            let tpost = self.teams@[idx as int]@;
            assert(self@.teams =~= old(self)@.teams.update(idx as int, tpost));
            assert(self@ =~= state_with_team(old(self)@, idx as int, tpost));
            assert(old(self)@.teams.update(idx as int, old(self)@.teams[idx as int])
                =~= old(self)@.teams);
            lemma_state_update_wf(old(self)@, idx as int, tpost);
            assert(self@.teams[idx as int] == tpost);
        }
        r
    }

    /// Terminates a member and recovers its open tasks.
    pub fn remove_member(&mut self, team_id: &str, member_id: usize, reason: &str) -> (r: Result<
        (),
        EngineError,
    >)
        requires
            wf_state(old(self)@),
        ensures
            wf_state(final(self)@),
            !has_team(old(self)@, team_id@) ==> r == Err::<(), EngineError>(
                EngineError::UnknownTeam,
            ) && final(self)@ == old(self)@,
            has_team(old(self)@, team_id@) ==> (if has_member(
                old(self)@.teams[state_team_index(old(self)@, team_id@)].members,
                member_id,
            ) {
                r == Ok::<(), EngineError>(()) && exists|now: u64|
                    final(self)@ == state_with_team(
                        old(self)@,
                        state_team_index(old(self)@, team_id@),
                        #[trigger] remove_member_post(
                            old(self)@.teams[state_team_index(old(self)@, team_id@)],
                            member_id,
                            reason@,
                            now,
                        ),
                    )
            } else {
                r == Err::<(), EngineError>(EngineError::UnknownMember) && final(self)@ == old(
                    self,
                )@
            }),
    {
        let idx = match self.find_team_idx(team_id) {
            Some(i) => i,
            None => {
                return Err(EngineError::UnknownTeam);
            },
        };
        let now = now_unix_secs();
        let ghost t0v = self@.teams[idx as int];
        let team = &mut self.teams[idx];
        let r = team.remove_member(member_id, reason, now);
        proof {
            let tpost = self.teams@[idx as int]@;
            assert(self@.teams =~= old(self)@.teams.update(idx as int, tpost));
            assert(self@ =~= state_with_team(old(self)@, idx as int, tpost));
            assert(old(self)@.teams.update(idx as int, old(self)@.teams[idx as int])
                =~= old(self)@.teams);
            lemma_state_update_wf(old(self)@, idx as int, tpost);
            if has_member(t0v.members, member_id) {
                assert(self@ == state_with_team(
                    old(self)@,
                    idx as int,
                    remove_member_post(t0v, member_id, reason@, now),
                ));
            }
        }
        r
    }

    /// Restores a terminated member to active.
    pub fn restart_member(&mut self, team_id: &str, member_id: usize) -> (r: Result<
        (),
        EngineError,
    >)
        requires
            wf_state(old(self)@),
        ensures
            wf_state(final(self)@),
            !has_team(old(self)@, team_id@) ==> r == Err::<(), EngineError>(
                EngineError::UnknownTeam,
            ) && final(self)@ == old(self)@,
            has_team(old(self)@, team_id@) ==> (if has_member(
                old(self)@.teams[state_team_index(old(self)@, team_id@)].members,
                member_id,
            ) {
                r == Ok::<(), EngineError>(()) && final(self)@ == state_with_team(
                    old(self)@,
                    state_team_index(old(self)@, team_id@),
                    restart_member_post(
                        old(self)@.teams[state_team_index(old(self)@, team_id@)],
                        member_id,
                    ),
                )
            } else {
                r == Err::<(), EngineError>(EngineError::UnknownMember) && final(self)@ == old(
                    self,
                )@
            }),
    {
        let idx = match self.find_team_idx(team_id) {
            Some(i) => i,
            None => {
                return Err(EngineError::UnknownTeam);
            },
        };
        let team = &mut self.teams[idx];
        let r = team.restart_member(member_id);
        proof {
            let tpost = self.teams@[idx as int]@;
            assert(self@.teams =~= old(self)@.teams.update(idx as int, tpost));
            assert(self@ =~= state_with_team(old(self)@, idx as int, tpost));
            assert(old(self)@.teams.update(idx as int, old(self)@.teams[idx as int])
                =~= old(self)@.teams);
            lemma_state_update_wf(old(self)@, idx as int, tpost);
        }
        r
    }

    /// Permanently deletes a team's terminated members.
    pub fn prune_terminated(&mut self, team_id: &str) -> (r: Result<(), EngineError>)
        requires
            wf_state(old(self)@),
        ensures
            wf_state(final(self)@),
            !has_team(old(self)@, team_id@) ==> r == Err::<(), EngineError>(
                EngineError::UnknownTeam,
            ) && final(self)@ == old(self)@,
            has_team(old(self)@, team_id@) ==> r == Ok::<(), EngineError>(()) && final(self)@
                == state_with_team(
                old(self)@,
                state_team_index(old(self)@, team_id@),
                prune_post(old(self)@.teams[state_team_index(old(self)@, team_id@)]),
            ),
    {
        let idx = match self.find_team_idx(team_id) {
            Some(i) => i,
            None => {
                return Err(EngineError::UnknownTeam);
            },
        };
        let team = &mut self.teams[idx];
        team.prune_terminated();
        proof {
            let tpost = self.teams@[idx as int]@;
            assert(self@.teams =~= old(self)@.teams.update(idx as int, tpost));
            assert(self@ =~= state_with_team(old(self)@, idx as int, tpost));
            lemma_state_update_wf(old(self)@, idx as int, tpost);
        }
        Ok(())
    }

    /// Posts a message to a team's inbox.
    pub fn post_message(
        &mut self,
        team_id: &str,
        from_member: Option<usize>,
        to_member: Option<usize>,
        text: &str,
        priority: TeamMessagePriority,
    ) -> (r: Result<TeamMessage, EngineError>)
        requires
            wf_state(old(self)@),
        ensures
            wf_state(final(self)@),
            !has_team(old(self)@, team_id@) ==> (r matches Err(e) && e == EngineError::UnknownTeam
                && final(self)@ == old(self)@),
            has_team(old(self)@, team_id@) ==> (match post_message_check(
                old(self)@.teams[state_team_index(old(self)@, team_id@)],
                from_member,
                to_member,
            ) {
                Some(e) => r matches Err(e2) && e2 == e && final(self)@ == old(self)@,
                None => r matches Ok(msg) && exists|now: u64|
                    msg@ == #[trigger] new_message_v(
                        old(self)@.teams[state_team_index(old(self)@, team_id@)],
                        from_member,
                        to_member,
                        text@,
                        priority,
                        now,
                    ) && final(self)@ == state_with_team(
                        old(self)@,
                        state_team_index(old(self)@, team_id@),
                        post_message_post(
                            old(self)@.teams[state_team_index(old(self)@, team_id@)],
                            from_member,
                            to_member,
                            text@,
                            priority,
                            now,
                        ),
                    ),
            }),
    {
        let idx = match self.find_team_idx(team_id) {
            Some(i) => i,
            None => {
                return Err(EngineError::UnknownTeam);
            },
        };
        let now = now_unix_secs();
        let ghost t0v = self@.teams[idx as int];
        let team = &mut self.teams[idx];
        let r = team.post_message(from_member, to_member, text, priority, now);
        proof {
            let tpost = self.teams@[idx as int]@;
            assert(self@.teams =~= old(self)@.teams.update(idx as int, tpost));
            assert(self@ =~= state_with_team(old(self)@, idx as int, tpost));
            assert(old(self)@.teams.update(idx as int, old(self)@.teams[idx as int])
                =~= old(self)@.teams);
            lemma_state_update_wf(old(self)@, idx as int, tpost);
            if post_message_check(t0v, from_member, to_member) is None {
                assert(self@ == state_with_team(
                    old(self)@,
                    idx as int,
                    post_message_post(t0v, from_member, to_member, text@, priority, now),
                ));
            }
        }
        r
    }

    /// Lists the messages a viewer may see.
    pub fn team_messages(&self, team_id: &str, viewer_member: Option<usize>, unread_only: bool)
        -> (r: Result<Vec<TeamMessage>, EngineError>)
        requires
            wf_state(self@),
        ensures
            !has_team(self@, team_id@) ==> (r matches Err(e) && e == EngineError::UnknownTeam),
            has_team(self@, team_id@) ==> {
                let t = self@.teams[state_team_index(self@, team_id@)];
                match viewer_member {
                    Some(v) => if has_member(t.members, v) {
                        r matches Ok(msgs) && msgs@.map_values(|m: TeamMessage| m@)
                            == selected_messages(t.messages, viewer_member, unread_only)
                    } else {
                        r matches Err(e) && e == EngineError::UnknownMember
                    },
                    None => r matches Ok(msgs) && msgs@.map_values(|m: TeamMessage| m@)
                        == selected_messages(t.messages, viewer_member, unread_only),
                }
            },
    {
        let idx = match self.find_team_idx(team_id) {
            Some(i) => i,
            None => {
                return Err(EngineError::UnknownTeam);
            },
        };
        let team = &self.teams[idx];
        team.team_messages(viewer_member, unread_only)
    }

    /// Acknowledges that a member has read a message.
    pub fn mark_message_read(&mut self, team_id: &str, member_id: usize, message_id: usize) -> (r:
        Result<(), EngineError>)
        requires
            wf_state(old(self)@),
        ensures
            wf_state(final(self)@),
            !has_team(old(self)@, team_id@) ==> r == Err::<(), EngineError>(
                EngineError::UnknownTeam,
            ) && final(self)@ == old(self)@,
            has_team(old(self)@, team_id@) ==> (match mark_read_check(
                old(self)@.teams[state_team_index(old(self)@, team_id@)],
                member_id,
                message_id,
            ) {
                Some(e) => r == Err::<(), EngineError>(e) && final(self)@ == old(self)@,
                None => r == Ok::<(), EngineError>(()) && final(self)@ == state_with_team(
                    old(self)@,
                    state_team_index(old(self)@, team_id@),
                    mark_read_post(
                        old(self)@.teams[state_team_index(old(self)@, team_id@)],
                        member_id,
                        message_id,
                    ),
                ),
            }),
    {
        let idx = match self.find_team_idx(team_id) {
            Some(i) => i,
            None => {
                return Err(EngineError::UnknownTeam);
            },
        };
        let team = &mut self.teams[idx];
        let r = team.mark_message_read(member_id, message_id);
        proof {
            let tpost = self.teams@[idx as int]@;
            assert(self@.teams =~= old(self)@.teams.update(idx as int, tpost));
            assert(self@ =~= state_with_team(old(self)@, idx as int, tpost));
            assert(old(self)@.teams.update(idx as int, old(self)@.teams[idx as int])
                =~= old(self)@.teams);
            lemma_state_update_wf(old(self)@, idx as int, tpost);
        }
        r
    }

    /// Sums a team's task usage and counts its in-progress tasks.
    pub fn team_usage(&self, team_id: &str) -> (r: Result<TeamUsage, EngineError>)
        requires
            wf_state(self@),
        ensures
            !has_team(self@, team_id@) ==> (r matches Err(e) && e == EngineError::UnknownTeam),
            has_team(self@, team_id@) ==> {
                let t = self@.teams[state_team_index(self@, team_id@)];
                r matches Ok(u) && u.input_tokens == sum_sat(
                    t.tasks.map_values(|task: crate::domain::TaskV| task.input_tokens),
                ) && u.output_tokens == sum_sat(
                    t.tasks.map_values(|task: crate::domain::TaskV| task.output_tokens),
                ) && u.cost_microusd == sum_sat(
                    t.tasks.map_values(|task: crate::domain::TaskV| task.cost_microusd),
                ) && u.active_tasks == count_in_progress(t.tasks)
            },
    {
        let idx = match self.find_team_idx(team_id) {
            Some(i) => i,
            None => {
                return Err(EngineError::UnknownTeam);
            },
        };
        let team = &self.teams[idx];
        Ok(team.team_usage())
    }

    /// Clones the current team list, in order, for a response snapshot.
    pub fn teams_snapshot(&self) -> (r: Vec<AgentTeam>)
        ensures
            r@.map_values(|t: AgentTeam| t@) == self@.teams,
    {
        let mut r: Vec<AgentTeam> = Vec::new();
        let mut i: usize = 0;
        while i < self.teams.len()
            invariant
                i <= self.teams.len(),
                self@.teams.len() == self.teams@.len(),
                r@.len() == i,
                forall|j: int| 0 <= j < i ==> #[trigger] r@[j]@ == self@.teams[j],
            decreases self.teams.len() - i,
        {
            r.push(self.teams[i].clone());
            i = i + 1;
        }
        proof {
            assert(r@.map_values(|t: AgentTeam| t@) =~= self@.teams);
        }
        r
    }
}

} // verus!
