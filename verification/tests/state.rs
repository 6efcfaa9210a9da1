use zellij_vertical_sessions::session::{LiveSession, SessionEntry};
use zellij_vertical_sessions::state::{AppEvent, PluginAction, PluginEvent, State};

fn live(name: &str, current: bool, clients: usize, tabs: usize) -> LiveSession {
    LiveSession {
        name: name.to_string(),
        is_current_session: current,
        connected_clients: clients,
        tab_count: tabs,
    }
}

fn sessions(names: &[(&str, bool)]) -> Vec<LiveSession> {
    names.iter().map(|(n, c)| live(n, *c, 1, 1)).collect()
}

fn granted(list: Vec<LiveSession>, dead: Vec<String>) -> State {
    let mut s = State::new();
    let (render, actions) = s.update(PluginEvent::PermissionResult(true));
    assert!(render);
    assert_eq!(actions, vec![PluginAction::SetSelectable(false), PluginAction::FetchSessionList]);
    let more = s.receive_session_list(Some((list, dead)));
    assert!(more.is_empty());
    s
}

fn names(s: &State) -> Vec<String> {
    s.sessions.iter().map(|e| e.name().to_string()).collect()
}

fn mode(s: &mut State, session: bool) -> bool {
    s.update(PluginEvent::App(AppEvent::ModeUpdate { in_session_mode: session, changed: true })).0
}

#[test]
fn permission_denied_changes_nothing() {
    let mut s = State::new();
    let (render, actions) = s.update(PluginEvent::PermissionResult(false));
    assert!(!render);
    assert!(actions.is_empty());
    assert!(!s.permissions_granted);
}

#[test]
fn events_wait_for_permissions() {
    let mut s = State::new();
    let (render, actions) = s.update(PluginEvent::App(AppEvent::ModeUpdate {
        in_session_mode: true,
        changed: true,
    }));
    assert!(!render);
    assert!(actions.is_empty());
    assert_eq!(s.pending_events.len(), 1);
    assert!(!s.in_session_mode);
    let (render, _) = s.update(PluginEvent::App(AppEvent::SessionUpdate {
        live: sessions(&[("x", false), ("y", true)]),
        resurrectable: vec![],
    }));
    assert!(!render);
    assert_eq!(s.pending_events.len(), 2);
    s.update(PluginEvent::PermissionResult(true));
    let actions = s.receive_session_list(None);
    assert!(actions.is_empty());
    assert!(s.pending_events.is_empty());
    assert!(s.in_session_mode);
    assert_eq!(names(&s), vec!["x", "y"]);
    assert_eq!(s.active_session_idx, 1);
    assert_eq!(s.selected_session_idx, Some(1));
}

#[test]
fn session_list_and_active_entry() {
    let s = granted(sessions(&[("a", false), ("b", true), ("c", false)]), vec!["old".to_string()]);
    assert_eq!(names(&s), vec!["a", "b", "c", "old"]);
    assert_eq!(s.active_session_idx, 1);
    assert!(s.sessions[3].is_resurrectable());
    assert!(s.sessions[1].is_current());
    let none_current = granted(sessions(&[("a", false)]), vec![]);
    assert_eq!(none_current.active_session_idx, 0);
}

#[test]
fn resurrectable_sessions_can_be_hidden() {
    let mut s = State::new();
    s.load(&vec![("show_resurrectable".to_string(), "false".to_string())]);
    s.update(PluginEvent::PermissionResult(true));
    s.receive_session_list(Some((sessions(&[("a", true)]), vec!["old".to_string()])));
    assert_eq!(names(&s), vec!["a"]);
}

#[test]
fn mode_switch_selects_and_clears() {
    let mut s = granted(sessions(&[("a", false), ("b", true)]), vec![]);
    assert!(mode(&mut s, true));
    assert_eq!(s.selected_session_idx, Some(1));
    let (render, _) = s.update(PluginEvent::App(AppEvent::ModeUpdate {
        in_session_mode: true,
        changed: false,
    }));
    assert!(!render);
    assert_eq!(s.selected_session_idx, Some(1));
    mode(&mut s, false);
    assert_eq!(s.selected_session_idx, None);
}

#[test]
fn selection_moves_within_bounds() {
    let mut s = granted(sessions(&[("a", false), ("b", true), ("c", false)]), vec![]);
    s.select_next_session();
    assert_eq!(s.selected_session_idx, None);
    mode(&mut s, true);
    s.select_next_session();
    assert_eq!(s.selected_session_idx, Some(2));
    s.select_next_session();
    assert_eq!(s.selected_session_idx, Some(2));
    s.select_previous_session();
    s.select_previous_session();
    assert_eq!(s.selected_session_idx, Some(0));
    s.select_previous_session();
    assert_eq!(s.selected_session_idx, Some(0));
}

#[test]
fn next_then_previous_comes_back() {
    let mut s = granted(sessions(&[("a", false), ("b", true), ("c", false), ("d", false)]), vec![]);
    mode(&mut s, true);
    s.select_next_session();
    s.select_previous_session();
    assert_eq!(s.selected_session_idx, Some(1));
    s.select_previous_session();
    s.select_next_session();
    assert_eq!(s.selected_session_idx, Some(1));
}

#[test]
fn selection_follows_name_across_updates() {
    let mut s = granted(sessions(&[("a", false), ("b", true), ("c", false)]), vec![]);
    mode(&mut s, true);
    s.select_next_session();
    assert_eq!(s.selected_session_idx, Some(2));
    let (render, _) = s.update(PluginEvent::App(AppEvent::SessionUpdate {
        live: sessions(&[("c", false), ("b", true)]),
        resurrectable: vec![],
    }));
    assert!(render);
    assert_eq!(s.selected_session_idx, Some(0));
    assert_eq!(s.active_session_idx, 1);
    s.update(PluginEvent::App(AppEvent::SessionUpdate {
        live: sessions(&[("z", true)]),
        resurrectable: vec![],
    }));
    assert_eq!(s.selected_session_idx, Some(0));
}

#[test]
fn confirm_switches_to_selected() {
    let mut s = granted(sessions(&[("a", false), ("b", true)]), vec![]);
    assert!(s.confirm_session_selection().is_empty());
    mode(&mut s, true);
    s.select_previous_session();
    let actions = s.confirm_session_selection();
    assert_eq!(
        actions,
        vec![PluginAction::SwitchToNormalMode, PluginAction::SwitchSession("a".to_string())]
    );
    assert_eq!(s.selected_session_idx, None);
}

#[test]
fn confirm_on_active_session_does_not_switch() {
    let mut s = granted(sessions(&[("a", false), ("b", true)]), vec![]);
    mode(&mut s, true);
    let actions = s.confirm_session_selection();
    assert_eq!(actions, vec![PluginAction::SwitchToNormalMode]);
}

#[test]
fn scrolling_switches_to_neighbours() {
    let mut s = granted(sessions(&[("a", false), ("b", true), ("c", false)]), vec![]);
    let (render, actions) = s.update(PluginEvent::App(AppEvent::ScrollUp));
    assert!(!render);
    assert_eq!(actions, vec![PluginAction::SwitchSession("a".to_string())]);
    let (_, actions) = s.update(PluginEvent::App(AppEvent::ScrollDown));
    assert_eq!(actions, vec![PluginAction::SwitchSession("c".to_string())]);
    let mut first = granted(sessions(&[("a", true), ("b", false)]), vec![]);
    assert!(first.update(PluginEvent::App(AppEvent::ScrollUp)).1.is_empty());
    let mut last = granted(sessions(&[("a", false), ("b", true)]), vec![]);
    assert!(last.update(PluginEvent::App(AppEvent::ScrollDown)).1.is_empty());
    assert!(last.update(PluginEvent::App(AppEvent::Other)).1.is_empty());
}

#[test]
fn clicks_pick_the_row_drawn() {
    let mut s = granted(sessions(&[("a", true), ("b", false), ("c", false)]), vec![]);
    s.load(&vec![("padding_top".to_string(), "1".to_string())]);
    s.render(5, 10);
    assert_eq!(s.last_rows, 5);
    assert!(s.get_session_at_row(0).is_none());
    assert_eq!(s.get_session_at_row(1).map(|e| e.name().to_string()), Some("a".to_string()));
    assert_eq!(s.get_session_at_row(3).map(|e| e.name().to_string()), Some("c".to_string()));
    assert!(s.get_session_at_row(4).is_none());
    let (_, actions) = s.update(PluginEvent::App(AppEvent::LeftClick(2)));
    assert_eq!(actions, vec![PluginAction::SwitchSession("b".to_string())]);
    let (_, actions) = s.update(PluginEvent::App(AppEvent::LeftClick(-1)));
    assert!(actions.is_empty());
}

#[test]
fn clicks_on_overflow_indicator() {
    let list: Vec<LiveSession> =
        (0..10).map(|i| live(&format!("s{}", i), i == 5, 1, 1)).collect();
    let mut s = granted(list, vec![]);
    s.render(5, 10);
    // window (4, 7): "more above" on row 0 stands for s3
    assert_eq!(s.session_index_at_row(0), Some(3));
    assert_eq!(s.session_index_at_row(1), Some(4));
    assert_eq!(s.session_index_at_row(3), Some(6));
    assert_eq!(s.session_index_at_row(4), None);
}

#[test]
fn pipe_messages() {
    let mut s = granted(sessions(&[("a", false), ("b", true)]), vec![]);
    let (render, actions) = s.pipe("set_selectable", Some("true"));
    assert!(!render);
    assert_eq!(actions, vec![PluginAction::SetSelectable(true)]);
    assert!(s.is_selectable);
    let (_, actions) = s.pipe("set_selectable", Some("maybe"));
    assert!(actions.is_empty());
    assert!(s.is_selectable);
    let (_, actions) = s.pipe("set_selectable", None);
    assert!(actions.is_empty());
    let (_, actions) = s.pipe("toggle_selectable", None);
    assert_eq!(actions, vec![PluginAction::SetSelectable(false)]);
    assert!(!s.is_selectable);
    mode(&mut s, true);
    assert!(s.pipe("select_previous_session", None).0);
    assert_eq!(s.selected_session_idx, Some(0));
    assert!(s.pipe("zellij_vertical_sessions_select_next", None).0);
    assert_eq!(s.selected_session_idx, Some(1));
    s.pipe("zellij_vertical_sessions_select_previous", None);
    let (render, actions) = s.pipe("confirm_session_selection", None);
    assert!(render);
    assert_eq!(
        actions,
        vec![PluginAction::SwitchToNormalMode, PluginAction::SwitchSession("a".to_string())]
    );
    let (render, actions) = s.pipe("unknown", Some("true"));
    assert!(!render);
    assert!(actions.is_empty());
}

#[test]
fn entries_report_their_fields() {
    let e = SessionEntry::Live(live("main", true, 2, 3));
    assert_eq!(e.name(), "main");
    assert!(e.is_current());
    assert!(!e.is_resurrectable());
    let d = SessionEntry::Resurrectable("gone".to_string());
    assert_eq!(d.name(), "gone");
    assert!(!d.is_current());
    assert!(d.is_resurrectable());
}
