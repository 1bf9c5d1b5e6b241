use orchestraterm::keymap::shortcuts;
use orchestraterm::session_core::{SessionCore, SplitAxis};

#[test]
fn split_and_close_keeps_layout_valid() {
    let mut core = SessionCore::new("test");
    core.split_focused(SplitAxis::Vertical);
    core.split_focused(SplitAxis::Horizontal);
    assert_eq!(core.panes.len(), 3);
    core.close_focused();
    assert_eq!(core.panes.len(), 2);
}

#[test]
fn focus_cycle_works() {
    let mut core = SessionCore::new("test");
    core.split_focused(SplitAxis::Vertical);
    let first = core.focused_pane;
    core.focus_prev();
    assert_ne!(core.focused_pane, first);
    core.focus_next();
    assert_eq!(core.focused_pane, first);
}

#[test]
fn new_session_has_one_pane_in_layout() {
    let core = SessionCore::new("demo");
    assert_eq!(core.name, "demo");
    assert_eq!(core.pane_ids(), vec![0]);
    assert_eq!(core.focused_pane, 0);
    assert!(!core.zoomed);
}

#[test]
fn split_assigns_fresh_ids_and_focus() {
    let mut core = SessionCore::new("test");
    core.split_focused(SplitAxis::Horizontal);
    assert_eq!(core.pane_ids(), vec![0, 1]);
    assert_eq!(core.focused_pane, 1);
    core.split_focused(SplitAxis::Vertical);
    assert_eq!(core.pane_ids(), vec![0, 1, 2]);
    assert_eq!(core.focused_pane, 2);
}

#[test]
fn closing_last_pane_is_a_no_op() {
    let mut core = SessionCore::new("test");
    core.close_focused();
    assert_eq!(core.panes.len(), 1);
    assert_eq!(core.focused_pane, 0);
}

#[test]
fn close_resets_zoom_and_refocuses() {
    let mut core = SessionCore::new("test");
    core.split_focused(SplitAxis::Vertical);
    core.toggle_zoom();
    assert!(core.zoomed);
    core.close_focused();
    assert!(!core.zoomed);
    assert_eq!(core.pane_ids(), vec![0]);
    assert_eq!(core.focused_pane, 0);
}

#[test]
fn scrollback_is_capped() {
    let mut core = SessionCore::new("test");
    for i in 0..250 {
        core.append_line_focused(&format!("line {i}"));
    }
    assert_eq!(core.panes[0].lines.len(), 200);
    assert_eq!(core.panes[0].lines.last().unwrap(), "line 249");
}

#[test]
fn append_targets_the_named_pane() {
    let mut core = SessionCore::new("test");
    core.split_focused(SplitAxis::Vertical);
    let before = core.panes[0].lines.len();
    core.append_line_to_pane(0, "hello pane zero");
    assert_eq!(core.panes[0].lines.len(), before + 1);
    assert_eq!(core.panes[0].lines.last().unwrap(), "hello pane zero");
}

#[test]
fn shortcut_table_is_complete() {
    let table = shortcuts();
    assert_eq!(table.len(), 8);
    assert!(table.iter().any(|s| s.key == "Ctrl+B, Z" && s.action == "Toggle zoom"));
}
