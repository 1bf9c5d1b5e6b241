use orchestraterm::codec::{decode_state, encode_state, Json};
use orchestraterm::domain::{TaskStatus, TeamDisplayMode, TeamMessagePriority};
use orchestraterm::domain::u64_to_string;
use orchestraterm::engine::EngineState;
use orchestraterm::keymap::{ctrl_key_to_byte, map_key, Action, KeyCode, Mode, Modifiers};
use orchestraterm::parse::{
    parse_message_priority, parse_mode, parse_plan_status, parse_recovery_policy,
};
use orchestraterm::render::{ansi256_to_rgb, extract_selection, shell_quote};
use orchestraterm::server::{dispatch, ServerRequest, ServerResponse};

fn busy_state() -> EngineState {
    let mut st = EngineState::default();
    st.create_session("work");
    st.create_team("t1", TeamDisplayMode::SplitPane, true).unwrap();
    st.add_member("t1", "lead", "gpt-5", false, true).unwrap();
    st.add_member("t1", "w", "gpt-5-mini", true, false).unwrap();
    st.add_task("t1", "A", vec![], vec!["src/lib.rs".to_string()]).unwrap();
    st.add_task("t1", "B", vec![0], vec![]).unwrap();
    st.post_message("t1", Some(0), Some(1), "start with A", TeamMessagePriority::Urgent)
        .unwrap();
    st.mark_message_read("t1", 1, 0).unwrap();
    st.create_team("t2", TeamDisplayMode::InProcess, false).unwrap();
    st
}

#[test]
fn state_round_trips_through_the_document() {
    let st = busy_state();
    let doc = encode_state(&st);
    let back = decode_state(&doc).expect("decoding what was encoded must succeed");
    assert_eq!(back.list_sessions(), st.list_sessions());
    assert_eq!(back.active_session, st.active_session);
    assert_eq!(back.teams.len(), st.teams.len());
    for (a, b) in back.teams.iter().zip(st.teams.iter()) {
        assert_eq!(a.id, b.id);
        assert_eq!(a.mode, b.mode);
        assert_eq!(a.delegation_only, b.delegation_only);
        assert_eq!(a.recovery_policy, b.recovery_policy);
        assert_eq!(a.next_member_id, b.next_member_id);
        assert_eq!(a.next_task_id, b.next_task_id);
        assert_eq!(a.next_message_id, b.next_message_id);
        assert_eq!(a.members.len(), b.members.len());
        for (ma, mb) in a.members.iter().zip(b.members.iter()) {
            assert_eq!(ma.id, mb.id);
            assert_eq!(ma.name, mb.name);
            assert_eq!(ma.model, mb.model);
            assert_eq!(ma.is_lead, mb.is_lead);
            assert_eq!(ma.status, mb.status);
            assert_eq!(ma.require_plan_approval, mb.require_plan_approval);
            assert_eq!(ma.plan_status, mb.plan_status);
        }
        assert_eq!(a.tasks.len(), b.tasks.len());
        for (ta, tb) in a.tasks.iter().zip(b.tasks.iter()) {
            assert_eq!(ta.id, tb.id);
            assert_eq!(ta.title, tb.title);
            assert_eq!(ta.status, tb.status);
            assert_eq!(ta.assignee, tb.assignee);
            assert_eq!(ta.deps, tb.deps);
            assert_eq!(ta.touched_files, tb.touched_files);
        }
        assert_eq!(a.messages.len(), b.messages.len());
        for (ma, mb) in a.messages.iter().zip(b.messages.iter()) {
            assert_eq!(ma.id, mb.id);
            assert_eq!(ma.text, mb.text);
            assert_eq!(ma.from_member, mb.from_member);
            assert_eq!(ma.to_member, mb.to_member);
            assert_eq!(ma.priority, mb.priority);
            assert_eq!(ma.read_by, mb.read_by);
        }
    }
}

#[test]
fn corrupt_documents_are_rejected() {
    assert!(decode_state(&Json::Null).is_none());
    assert!(decode_state(&Json::Str("not a state".to_string())).is_none());
    assert!(decode_state(&Json::Obj(vec![("x".to_string(), Json::Null)])).is_none());
    // A structurally plausible document whose contents break the
    // invariant (a dependency on a task that does not exist) is also
    // rejected.
    let mut st = busy_state();
    {
        let team = st.teams.iter_mut().find(|t| t.id == "t1").unwrap();
        team.tasks[1].deps[0] = 99;
    }
    let doc = encode_state(&st);
    assert!(decode_state(&doc).is_none());
}

#[test]
fn dispatch_refreshes_the_response_snapshot() {
    let mut st = EngineState::default();
    let r = dispatch(&mut st, ServerRequest::Ping);
    assert!(r.ok);
    assert_eq!(r.message, "pong");
    assert_eq!(r.sessions, vec!["default".to_string()]);
    assert!(r.teams.is_empty());

    let r = dispatch(
        &mut st,
        ServerRequest::TeamCreate {
            team_id: "t1".to_string(),
            mode: TeamDisplayMode::Auto,
            delegation_only: false,
        },
    );
    assert!(r.ok);
    assert_eq!(r.teams.len(), 1);
    assert_eq!(r.teams[0].id, "t1");

    let r = dispatch(
        &mut st,
        ServerRequest::TeamCreate {
            team_id: "t1".to_string(),
            mode: TeamDisplayMode::Auto,
            delegation_only: false,
        },
    );
    assert!(!r.ok);
    assert!(r.message.contains("already exists"));
    assert_eq!(r.teams.len(), 1);
}

#[test]
fn dispatch_runs_a_full_task_lifecycle() {
    let mut st = EngineState::default();
    dispatch(
        &mut st,
        ServerRequest::TeamCreate {
            team_id: "t1".to_string(),
            mode: TeamDisplayMode::Auto,
            delegation_only: false,
        },
    );
    dispatch(
        &mut st,
        ServerRequest::TeamAddMember {
            team_id: "t1".to_string(),
            name: "w".to_string(),
            model: "gpt-5".to_string(),
            require_plan_approval: false,
            is_lead: false,
        },
    );
    let r = dispatch(
        &mut st,
        ServerRequest::TeamAddTask {
            team_id: "t1".to_string(),
            title: "A".to_string(),
            deps: vec![],
            touched_files: vec![],
        },
    );
    assert!(r.ok);
    assert_eq!(r.tasks.len(), 1);
    assert_eq!(r.tasks[0].status, TaskStatus::Pending);
    let r = dispatch(
        &mut st,
        ServerRequest::TeamClaimTask { team_id: "t1".to_string(), member_id: 0, task_id: 0 },
    );
    assert!(r.ok);
    assert_eq!(r.message, "task claimed: 0");
    let r = dispatch(
        &mut st,
        ServerRequest::TeamCompleteTask {
            team_id: "t1".to_string(),
            member_id: 0,
            task_id: 0,
            input_tokens: 9,
            output_tokens: 8,
            cost_microusd: 7,
        },
    );
    assert!(r.ok);
    assert_eq!(r.teams[0].tasks[0].status, TaskStatus::Done);
    let r = dispatch(&mut st, ServerRequest::TeamUsage { team_id: "t1".to_string() });
    let usage = r.usage.expect("usage must be present");
    assert_eq!(usage.input_tokens, 9);
    assert_eq!(usage.output_tokens, 8);
    assert_eq!(usage.cost_microusd, 7);
}

#[test]
fn response_constructors_fill_the_envelope() {
    let r = ServerResponse::ok("fine");
    assert!(r.ok && r.message == "fine" && r.usage.is_none());
    let r = ServerResponse::err("bad");
    assert!(!r.ok && r.message == "bad");
}

#[test]
fn keymap_matches_the_modal_tables() {
    let none = Modifiers { ctrl: false, alt: false, shift: false, command: false };
    let ctrl = Modifiers { ctrl: true, alt: false, shift: false, command: false };
    let cmd = Modifiers { ctrl: false, alt: false, shift: false, command: true };
    assert_eq!(map_key(Mode::Normal, KeyCode::B, ctrl), Some(Action::EnterPrefix));
    assert_eq!(map_key(Mode::Normal, KeyCode::Enter, ctrl), Some(Action::SendEnter));
    assert_eq!(map_key(Mode::Normal, KeyCode::B, none), None);
    assert_eq!(map_key(Mode::Normal, KeyCode::O, cmd), Some(Action::OpenFolder));
    assert_eq!(map_key(Mode::Copy, KeyCode::O, cmd), Some(Action::OpenFolder));
    assert_eq!(map_key(Mode::Prefix, KeyCode::S, none), Some(Action::SplitHorizontal));
    assert_eq!(map_key(Mode::Prefix, KeyCode::V, none), Some(Action::SplitVertical));
    assert_eq!(map_key(Mode::Prefix, KeyCode::X, none), Some(Action::ClosePane));
    assert_eq!(map_key(Mode::Prefix, KeyCode::ArrowLeft, none), Some(Action::FocusPrev));
    assert_eq!(map_key(Mode::Prefix, KeyCode::ArrowDown, none), Some(Action::FocusNext));
    assert_eq!(map_key(Mode::Copy, KeyCode::Space, none), Some(Action::CopyStartSelection));
    assert_eq!(map_key(Mode::Copy, KeyCode::Slash, none), Some(Action::CopySearchStart));
    assert_eq!(map_key(Mode::CopySearch, KeyCode::Enter, none), Some(Action::CopySearchApply));
    assert_eq!(map_key(Mode::CopySearch, KeyCode::Escape, none), Some(Action::ExitCopyMode));
    assert_eq!(map_key(Mode::CopySearch, KeyCode::A, none), None);
}

#[test]
fn ctrl_bytes_follow_the_alphabet() {
    assert_eq!(ctrl_key_to_byte(KeyCode::A), Some(0x01));
    assert_eq!(ctrl_key_to_byte(KeyCode::C), Some(0x03));
    assert_eq!(ctrl_key_to_byte(KeyCode::Z), Some(0x1a));
    assert_eq!(ctrl_key_to_byte(KeyCode::Enter), None);
}

#[test]
fn ansi_palette_matches_the_formula() {
    assert_eq!(ansi256_to_rgb(0), (0, 0, 0));
    assert_eq!(ansi256_to_rgb(1), (205, 49, 49));
    assert_eq!(ansi256_to_rgb(15), (255, 255, 255));
    // Cube index 46 = 16 + 30: green channel at full intensity.
    assert_eq!(ansi256_to_rgb(46), (0, 255, 0));
    // Cube index 196 = 16 + 180: red channel at full intensity.
    assert_eq!(ansi256_to_rgb(196), (255, 0, 0));
    assert_eq!(ansi256_to_rgb(231), (255, 255, 255));
    assert_eq!(ansi256_to_rgb(232), (8, 8, 8));
    assert_eq!(ansi256_to_rgb(255), (238, 238, 238));
}

#[test]
fn cli_spellings_parse_exactly() {
    assert_eq!(parse_mode("in_process"), Some(TeamDisplayMode::InProcess));
    assert_eq!(parse_mode("split_pane"), Some(TeamDisplayMode::SplitPane));
    assert_eq!(parse_mode("auto"), Some(TeamDisplayMode::Auto));
    assert_eq!(parse_mode("Auto"), None);
    assert_eq!(
        parse_plan_status("approved"),
        Some(orchestraterm::domain::PlanStatus::Approved)
    );
    assert_eq!(parse_plan_status("nope"), None);
    assert_eq!(
        parse_recovery_policy("manual"),
        Some(orchestraterm::domain::RecoveryPolicy::Manual)
    );
    assert_eq!(parse_recovery_policy(""), None);
    assert_eq!(parse_message_priority("urgent"), Some(TeamMessagePriority::Urgent));
    assert_eq!(parse_message_priority("critical"), None);
}

#[test]
fn selection_extraction_spans_rows() {
    let lines: Vec<Vec<u8>> = vec![
        b"alpha".to_vec(),
        b"bravo".to_vec(),
        b"charlie".to_vec(),
    ];
    // Single-row selection between two columns, in either order.
    let got = extract_selection(&lines, 1, 0, 3, 0).unwrap();
    assert_eq!(got, b"lph".to_vec());
    let got = extract_selection(&lines, 3, 0, 1, 0).unwrap();
    assert_eq!(got, b"lph".to_vec());
    // A multi-row selection takes the tail of the first row, whole
    // middle rows, and the head of the last.
    let got = extract_selection(&lines, 2, 0, 3, 2).unwrap();
    assert_eq!(got, b"pha\nbravo\nchar".to_vec());
    // Columns past the end of a row clamp to its last byte.
    let got = extract_selection(&lines, 99, 1, 99, 1).unwrap();
    assert_eq!(got, b"o".to_vec());
    // No rows, no selection.
    assert!(extract_selection(&Vec::new(), 0, 0, 0, 0).is_none());
    // An anchor past the last row selects nothing.
    assert_eq!(extract_selection(&lines, 0, 5, 0, 6).unwrap(), Vec::<u8>::new());
    // Empty rows stay empty in the joined text.
    let lines: Vec<Vec<u8>> = vec![b"ab".to_vec(), Vec::new(), b"cd".to_vec()];
    let got = extract_selection(&lines, 0, 0, 1, 2).unwrap();
    assert_eq!(got, b"ab\n\ncd".to_vec());
}

#[test]
fn decimal_spelling_is_exact() {
    assert_eq!(u64_to_string(0), "0");
    assert_eq!(u64_to_string(7), "7");
    assert_eq!(u64_to_string(10), "10");
    assert_eq!(u64_to_string(1234567890), "1234567890");
    assert_eq!(u64_to_string(u64::MAX), "18446744073709551615");
}

#[test]
fn shell_quoting_escapes_single_quotes() {
    assert_eq!(shell_quote("abc"), "'abc'");
    assert_eq!(shell_quote(""), "''");
    assert_eq!(shell_quote("don't"), "'don'\"'\"'t'");
    assert_eq!(shell_quote("a'b'c"), "'a'\"'\"'b'\"'\"'c'");
}
