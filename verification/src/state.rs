//! The plugin's state machine: what each event, pipe message and user
//! action does to the session list, the selection and the mode, and which
//! host actions it asks for.

use vstd::prelude::*;
use crate::config::StyleConfig;
use crate::layout::{calculate_visible_range, min_nat, visible_range};
use crate::session::{
    active_index, active_index_of, build_entries, entries_of, entry_name, find_name,
    lemma_find_name, position_of_name, LiveSession, SessionEntry,
};
use crate::text::chars_eq_str;

verus! {

/// An event for a plugin whose permissions are granted.
#[derive(Debug)]
pub enum AppEvent {
    /// The input mode changed; `changed` tells whether the mode
    /// information differs from the previous one.
    ModeUpdate { in_session_mode: bool, changed: bool },
    /// The list of sessions changed.
    SessionUpdate { live: Vec<LiveSession>, resurrectable: Vec<String> },
    /// A left click on a row of the plugin pane.
    LeftClick(isize),
    ScrollUp,
    ScrollDown,
    /// Any other event: no effect.
    Other,
}

/// An event as a value.
pub enum AppEventView {
    ModeUpdate { in_session_mode: bool, changed: bool },
    SessionUpdate { live: Seq<LiveSession>, resurrectable: Seq<String> },
    LeftClick(isize),
    ScrollUp,
    ScrollDown,
    Other,
}

impl View for AppEvent {
    type V = AppEventView;

    open spec fn view(&self) -> AppEventView {
        match self {
            AppEvent::ModeUpdate { in_session_mode, changed } => AppEventView::ModeUpdate {
                in_session_mode: *in_session_mode,
                changed: *changed,
            },
            AppEvent::SessionUpdate { live, resurrectable } => AppEventView::SessionUpdate {
                live: live@,
                resurrectable: resurrectable@,
            },
            AppEvent::LeftClick(row) => AppEventView::LeftClick(*row),
            AppEvent::ScrollUp => AppEventView::ScrollUp,
            AppEvent::ScrollDown => AppEventView::ScrollDown,
            AppEvent::Other => AppEventView::Other,
        }
    }
}

/// An event for the plugin.
#[derive(Debug)]
pub enum PluginEvent {
    /// The answer to the permission request.
    PermissionResult(bool),
    App(AppEvent),
}

pub enum PluginEventView {
    PermissionResult(bool),
    App(AppEventView),
}

impl View for PluginEvent {
    type V = PluginEventView;

    open spec fn view(&self) -> PluginEventView {
        match self {
            PluginEvent::PermissionResult(g) => PluginEventView::PermissionResult(*g),
            PluginEvent::App(e) => PluginEventView::App(e@),
        }
    }
}

/// Something the host is asked to do.
#[derive(Debug, PartialEq, Eq)]
pub enum PluginAction {
    /// Make the plugin pane selectable or not.
    SetSelectable(bool),
    /// Read the session list and hand it to [`State::receive_session_list`].
    FetchSessionList,
    /// Switch to the session of this name.
    SwitchSession(String),
    /// Leave session mode for normal mode.
    SwitchToNormalMode,
}

pub enum ActionView {
    SetSelectable(bool),
    FetchSessionList,
    SwitchSession(Seq<char>),
    SwitchToNormalMode,
}

impl View for PluginAction {
    type V = ActionView;

    open spec fn view(&self) -> ActionView {
        match self {
            PluginAction::SetSelectable(b) => ActionView::SetSelectable(*b),
            PluginAction::FetchSessionList => ActionView::FetchSessionList,
            PluginAction::SwitchSession(name) => ActionView::SwitchSession(name@),
            PluginAction::SwitchToNormalMode => ActionView::SwitchToNormalMode,
        }
    }
}

pub open spec fn action_views(v: Seq<PluginAction>) -> Seq<ActionView> {
    Seq::new(v.len(), |i: int| v[i]@)
}

/// The plugin state as a value.
#[verifier::ext_equal]
pub struct StateModel {
    pub sessions: Seq<SessionEntry>,
    pub active_session_idx: usize,
    pub selected_session_idx: Option<usize>,
    pub in_session_mode: bool,
    pub style: StyleConfig,
    pub last_rows: usize,
    pub permissions_granted: bool,
    pub is_selectable: bool,
    pub pending_events: Seq<AppEventView>,
}

/// The plugin state.
pub struct State {
    pub sessions: Vec<SessionEntry>,
    /// The entry of the session the plugin runs in (0 when there is none).
    pub active_session_idx: usize,
    /// The entry selected with the keyboard in session mode.
    pub selected_session_idx: Option<usize>,
    pub in_session_mode: bool,
    pub style: StyleConfig,
    /// The height of the last rendering.
    pub last_rows: usize,
    pub permissions_granted: bool,
    pub is_selectable: bool,
    /// Events that came before the permissions were granted.
    pub pending_events: Vec<AppEvent>,
}

impl View for State {
    type V = StateModel;

    open spec fn view(&self) -> StateModel {
        StateModel {
            sessions: self.sessions@,
            active_session_idx: self.active_session_idx,
            selected_session_idx: self.selected_session_idx,
            in_session_mode: self.in_session_mode,
            style: self.style,
            last_rows: self.last_rows,
            permissions_granted: self.permissions_granted,
            is_selectable: self.is_selectable,
            pending_events: Seq::new(
                self.pending_events@.len(),
                |i: int| self.pending_events@[i]@,
            ),
        }
    }
}

/// The state invariant: the active index names an entry whenever there is
/// one (and is 0 otherwise), and indices leave room for one more.
pub open spec fn model_wf(m: StateModel) -> bool {
    &&& (m.sessions.len() == 0 ==> m.active_session_idx == 0)
    &&& (m.sessions.len() > 0 ==> m.active_session_idx < m.sessions.len())
    &&& m.active_session_idx < usize::MAX
    &&& (m.selected_session_idx matches Some(s) ==> s < usize::MAX)
}

pub open spec fn sat_sub(a: int, b: int) -> int {
    if a >= b {
        a - b
    } else {
        0
    }
}

/// The entry focused for display: the selected one, else the active one.
pub open spec fn focused_index(m: StateModel) -> usize {
    match m.selected_session_idx {
        Some(s) => s,
        None => m.active_session_idx,
    }
}

/// The entry shown at a row of the pane, as the last rendering laid it
/// out: a click on the "more above" line stands for the entry just above
/// the window.
pub open spec fn session_at_row(m: StateModel, row: int) -> Option<int> {
    let n = m.sessions.len() as int;
    let top = min_nat(m.style.padding_top as int, m.last_rows as int);
    if n == 0 || row < top {
        None
    } else {
        let (start, end, above, below) = visible_range(
            n,
            m.last_rows - top,
            focused_index(m) as int,
        );
        let r = row - top;
        if above > 0 && r == 0 {
            let t = sat_sub(start, 1);
            if t < n {
                Some(t)
            } else {
                None
            }
        } else {
            let clicked = start + sat_sub(r, if above > 0 {
                1
            } else {
                0
            });
            if clicked < end && clicked < n {
                Some(clicked)
            } else {
                None
            }
        }
    }
}

/// Switching to the entry at `i`, if there is one.
pub open spec fn switch_to(sessions: Seq<SessionEntry>, i: int) -> Seq<ActionView> {
    if 0 <= i < sessions.len() {
        seq![ActionView::SwitchSession(entry_name(sessions[i]))]
    } else {
        Seq::empty()
    }
}

/// What an event does once the permissions are granted: the new state,
/// whether to render again, and the host actions asked for.
pub open spec fn app_step(m: StateModel, e: AppEventView) -> (StateModel, bool, Seq<ActionView>) {
    match e {
        AppEventView::ModeUpdate { in_session_mode, changed } => {
            let sel = if !m.in_session_mode && in_session_mode {
                Some(m.active_session_idx)
            } else if m.in_session_mode && !in_session_mode {
                None
            } else {
                m.selected_session_idx
            };
            (
                StateModel { selected_session_idx: sel, in_session_mode: in_session_mode, ..m },
                changed,
                Seq::empty(),
            )
        },
        AppEventView::SessionUpdate { live, resurrectable } => {
            let entries = entries_of(live, resurrectable, m.style.show_resurrectable);
            let active = active_index_of(entries);
            let sel = if m.in_session_mode {
                match m.selected_session_idx {
                    Some(i) if i < m.sessions.len() => match find_name(
                        entries,
                        entry_name(m.sessions[i as int]),
                        0,
                    ) {
                        Some(j) => Some(j as usize),
                        None => Some(active as usize),
                    },
                    _ => Some(active as usize),
                }
            } else {
                m.selected_session_idx
            };
            (
                StateModel {
                    sessions: entries,
                    active_session_idx: active as usize,
                    selected_session_idx: sel,
                    ..m
                },
                true,
                Seq::empty(),
            )
        },
        AppEventView::LeftClick(row) => (
            m,
            false,
            match session_at_row(m, (row as usize) as int) {
                Some(i) => switch_to(m.sessions, i),
                None => Seq::empty(),
            },
        ),
        AppEventView::ScrollUp => (
            m,
            false,
            if m.active_session_idx > 0 {
                switch_to(m.sessions, m.active_session_idx - 1)
            } else {
                Seq::empty()
            },
        ),
        AppEventView::ScrollDown => (m, false, switch_to(m.sessions, m.active_session_idx + 1)),
        AppEventView::Other => (m, false, Seq::empty()),
    }
}

/// Events handled in order: the state after them and all host actions.
pub open spec fn replay(m: StateModel, events: Seq<AppEventView>) -> (StateModel, Seq<ActionView>)
    decreases events.len(),
{
    if events.len() == 0 {
        (m, Seq::empty())
    } else {
        let (m1, acts) = replay(m, events.drop_last());
        let (m2, _, more) = app_step(m1, events.last());
        (m2, acts + more)
    }
}

/// What an event does: before the permissions are granted, events wait;
/// granting them makes the pane unselectable and asks for the session
/// list.
pub open spec fn update_step(m: StateModel, e: PluginEventView) -> (StateModel, bool, Seq<ActionView>) {
    match e {
        PluginEventView::PermissionResult(granted) => if granted {
            (
                StateModel { permissions_granted: true, is_selectable: false, ..m },
                true,
                seq![ActionView::SetSelectable(false), ActionView::FetchSessionList],
            )
        } else {
            (m, false, Seq::empty())
        },
        PluginEventView::App(ev) => if !m.permissions_granted {
            (StateModel { pending_events: m.pending_events.push(ev), ..m }, false, Seq::empty())
        } else {
            app_step(m, ev)
        },
    }
}

/// Taking the session list read after the permissions were granted (when
/// it could be read), then handling the events that waited, in order.
pub open spec fn receive_step(
    m: StateModel,
    list: Option<(Seq<LiveSession>, Seq<String>)>,
) -> (StateModel, Seq<ActionView>) {
    let m1 = match list {
        Some((live, dead)) => {
            let entries = entries_of(live, dead, m.style.show_resurrectable);
            StateModel {
                sessions: entries,
                active_session_idx: active_index_of(entries) as usize,
                pending_events: Seq::empty(),
                ..m
            }
        },
        None => StateModel { pending_events: Seq::empty(), ..m },
    };
    replay(m1, m.pending_events)
}

/// A session list as values.
pub open spec fn list_view(list: Option<(Vec<LiveSession>, Vec<String>)>) -> Option<
    (Seq<LiveSession>, Seq<String>),
> {
    match list {
        Some((live, dead)) => Some((live@, dead@)),
        None => None,
    }
}

/// The selection after "previous session" in session mode: one up, not
/// past the first entry.
pub open spec fn select_previous_step(m: StateModel) -> StateModel {
    if !m.in_session_mode || m.sessions.len() == 0 {
        m
    } else {
        let current = min_nat(focused_index(m) as int, m.sessions.len() - 1);
        StateModel { selected_session_idx: Some(sat_sub(current, 1) as usize), ..m }
    }
}

/// The selection after "next session" in session mode: one down, not past
/// the last entry.
pub open spec fn select_next_step(m: StateModel) -> StateModel {
    if !m.in_session_mode || m.sessions.len() == 0 {
        m
    } else {
        let current = min_nat(focused_index(m) as int, m.sessions.len() - 1);
        StateModel {
            selected_session_idx: Some(min_nat(current + 1, m.sessions.len() - 1) as usize),
            ..m
        }
    }
}

/// Confirming the selection in session mode: the selection is cleared,
/// normal mode is asked for, and the selected session is switched to
/// unless it is the active one.
pub open spec fn confirm_step(m: StateModel) -> (StateModel, Seq<ActionView>) {
    if !m.in_session_mode {
        (m, Seq::empty())
    } else {
        let n = m.sessions.len();
        let switch = match m.selected_session_idx {
            Some(i) if i < n => {
                let name = entry_name(m.sessions[i as int]);
                if m.active_session_idx < n && entry_name(m.sessions[m.active_session_idx as int])
                    == name {
                    Seq::empty()
                } else {
                    seq![ActionView::SwitchSession(name)]
                }
            },
            _ => Seq::empty(),
        };
        (
            StateModel { selected_session_idx: None, ..m },
            seq![ActionView::SwitchToNormalMode] + switch,
        )
    }
}

/// A pipe payload as a value.
pub open spec fn payload_view(payload: Option<&str>) -> Option<Seq<char>> {
    match payload {
        Some(p) => Some(p@),
        None => None,
    }
}

/// What a pipe message does.
pub open spec fn pipe_step(m: StateModel, name: Seq<char>, payload: Option<Seq<char>>) -> (
    StateModel,
    bool,
    Seq<ActionView>,
) {
    if name == "set_selectable"@ {
        if payload == Some("true"@) {
            (StateModel { is_selectable: true, ..m }, false, seq![ActionView::SetSelectable(true)])
        } else if payload == Some("false"@) {
            (
                StateModel { is_selectable: false, ..m },
                false,
                seq![ActionView::SetSelectable(false)],
            )
        } else {
            (m, false, Seq::empty())
        }
    } else if name == "toggle_selectable"@ {
        (
            StateModel { is_selectable: !m.is_selectable, ..m },
            false,
            seq![ActionView::SetSelectable(!m.is_selectable)],
        )
    } else if name == "select_previous_session"@ || name
        == "zellij_vertical_sessions_select_previous"@ {
        (select_previous_step(m), true, Seq::empty())
    } else if name == "select_next_session"@ || name == "zellij_vertical_sessions_select_next"@ {
        (select_next_step(m), true, Seq::empty())
    } else if name == "confirm_session_selection"@ || name
        == "zellij_vertical_sessions_confirm_selection"@ {
        let (m1, acts) = confirm_step(m);
        (m1, true, acts)
    } else {
        (m, false, Seq::empty())
    }
}

proof fn lemma_active_index(entries: Seq<SessionEntry>)
    ensures
        entries.len() == 0 ==> active_index_of(entries) == 0,
        entries.len() > 0 ==> 0 <= active_index_of(entries) < entries.len(),
{
    crate::session::lemma_find_current(entries, 0);
}

impl Default for State {
    fn default() -> (r: Self)
        ensures
            r@.sessions.len() == 0,
            r@.active_session_idx == 0,
            r@.selected_session_idx is None,
            !r@.in_session_mode,
            crate::config::is_default_config(r@.style),
            r@.last_rows == 0,
            !r@.permissions_granted,
            !r@.is_selectable,
            r@.pending_events.len() == 0,
    {
        State {
            sessions: Vec::new(),
            active_session_idx: 0,
            selected_session_idx: None,
            in_session_mode: false,
            style: StyleConfig::default(),
            last_rows: 0,
            permissions_granted: false,
            is_selectable: false,
            pending_events: Vec::new(),
        }
    }
}

impl State {
    /// The state before any configuration or event.
    pub fn new() -> (r: Self)
        ensures
            model_wf(r@),
            r@.sessions.len() == 0,
            r@.active_session_idx == 0,
            r@.selected_session_idx is None,
            !r@.in_session_mode,
            crate::config::is_default_config(r@.style),
            r@.last_rows == 0,
            !r@.permissions_granted,
            !r@.is_selectable,
            r@.pending_events.len() == 0,
    {
        State::default()
    }

    /// Takes the plugin configuration (see [`StyleConfig::apply_configuration`]).
    pub fn load(&mut self, configuration: &Vec<(String, String)>)
        requires
            model_wf(old(self)@),
            crate::config::keys_distinct(configuration.deep_view()),
        ensures
            model_wf(final(self)@),
            final(self)@ == (StateModel { style: final(self)@.style, ..old(self)@ }),
            crate::config::configured(final(self).style, old(self).style, configuration.deep_view()),
    {
        self.style.apply_configuration(configuration);
        assert(self@ =~= (StateModel { style: self@.style, ..old(self)@ }));
    }

    /// The index of the entry shown at `row`, as [`session_at_row`] states.
    pub fn session_index_at_row(&self, row: usize) -> (r: Option<usize>)
        requires
            model_wf(self@),
        ensures
            r matches Some(i) ==> session_at_row(self@, row as int) == Some(i as int),
            r is None ==> session_at_row(self@, row as int) is None,
    {
        if self.sessions.len() == 0 {
            return None;
        }
        let session_count = self.sessions.len();
        let focused_index = match self.selected_session_idx {
            Some(s) => s,
            None => self.active_session_idx,
        };
        let top_padding = if self.style.padding_top <= self.last_rows {
            self.style.padding_top
        } else {
            self.last_rows
        };
        if row < top_padding {
            return None;
        }
        let available_rows = self.last_rows - top_padding;
        let (start_index, end_index, sessions_above, _) = calculate_visible_range(
            session_count,
            available_rows,
            focused_index,
        );
        let row = row - top_padding;
        if sessions_above > 0 && row == 0 {
            let target = start_index.saturating_sub(1);
            if target < session_count {
                return Some(target);
            }
            return None;
        }
        let content_start_row: usize = if sessions_above > 0 { 1 } else { 0 };
        let row_in_content = row.saturating_sub(content_start_row);
        if start_index < session_count && start_index <= end_index && row_in_content < end_index
            - start_index && row_in_content < session_count - start_index {
            Some(start_index + row_in_content)
        } else {
            None
        }
    }

    /// The entry shown at `row` of the pane, if any.
    pub fn get_session_at_row(&self, row: usize) -> (r: Option<&SessionEntry>)
        requires
            model_wf(self@),
        ensures
            r matches Some(e) ==> session_at_row(self@, row as int) matches Some(i) && *e
                == self@.sessions[i],
            r is None ==> session_at_row(self@, row as int) is None,
    {
        match self.session_index_at_row(row) {
            Some(i) => Some(&self.sessions[i]),
            None => None,
        }
    }

    /// Asks to switch to the entry at `i`, if there is one.
    fn switch_to_index(&self, i: usize) -> (r: Vec<PluginAction>)
        ensures
            action_views(r@) == switch_to(self@.sessions, i as int),
    {
        let mut actions: Vec<PluginAction> = Vec::new();
        if i < self.sessions.len() {
            let name = String::from_str(self.sessions[i].name());
            actions.push(PluginAction::SwitchSession(name));
        }
        assert(action_views(actions@) =~= switch_to(self@.sessions, i as int));
        actions
    }

    /// Handles an event once the permissions are granted, as [`app_step`]
    /// states.
    pub fn handle_app_event(&mut self, event: &AppEvent) -> (r: (bool, Vec<PluginAction>))
        requires
            model_wf(old(self)@),
        ensures
            model_wf(final(self)@),
            (final(self)@, r.0, action_views(r.1@)) == app_step(old(self)@, event@),
    {
        match event {
            AppEvent::ModeUpdate { in_session_mode, changed } => {
                let was_in_session_mode = self.in_session_mode;
                let is_in_session_mode = *in_session_mode;
                if !was_in_session_mode && is_in_session_mode {
                    self.selected_session_idx = Some(self.active_session_idx);
                } else if was_in_session_mode && !is_in_session_mode {
                    self.selected_session_idx = None;
                }
                self.in_session_mode = is_in_session_mode;
                let r = (*changed, Vec::new());
                assert(action_views(r.1@) =~= Seq::<ActionView>::empty());
                assert(self@ =~= app_step(old(self)@, event@).0);
                r
            },
            AppEvent::SessionUpdate { live, resurrectable } => {
                let selected_name: Option<String> = match self.selected_session_idx {
                    Some(i) => if i < self.sessions.len() {
                        Some(String::from_str(self.sessions[i].name()))
                    } else {
                        None
                    },
                    None => None,
                };
                let entries = build_entries(live, resurrectable, self.style.show_resurrectable);
                let active = active_index(&entries);
                proof {
                    lemma_active_index(entries@);
                }
                self.active_session_idx = active;
                self.sessions = entries;
                if self.in_session_mode {
                    self.selected_session_idx = match selected_name {
                        Some(name) => match position_of_name(&self.sessions, name.as_str()) {
                            Some(j) => {
                                proof {
                                    lemma_find_name(self@.sessions, name@, 0);
                                }
                                Some(j)
                            },
                            None => Some(active),
                        },
                        None => Some(active),
                    };
                }
                let r = (true, Vec::new());
                assert(action_views(r.1@) =~= Seq::<ActionView>::empty());
                assert(self@ =~= app_step(old(self)@, event@).0);
                r
            },
            AppEvent::LeftClick(row) => {
                let r = *row as usize;
                let actions = match self.session_index_at_row(r) {
                    Some(i) => self.switch_to_index(i),
                    None => {
                        let v: Vec<PluginAction> = Vec::new();
                        assert(action_views(v@) =~= Seq::<ActionView>::empty());
                        v
                    },
                };
                (false, actions)
            },
            AppEvent::ScrollUp => {
                if self.active_session_idx > 0 {
                    (false, self.switch_to_index(self.active_session_idx - 1))
                } else {
                    let v: Vec<PluginAction> = Vec::new();
                    assert(action_views(v@) =~= Seq::<ActionView>::empty());
                    (false, v)
                }
            },
            AppEvent::ScrollDown => {
                let next = self.active_session_idx + 1;
                (false, self.switch_to_index(next))
            },
            AppEvent::Other => {
                let v: Vec<PluginAction> = Vec::new();
                assert(action_views(v@) =~= Seq::<ActionView>::empty());
                (false, v)
            },
        }
    }

    /// Handles an event, as [`update_step`] states. Granting the
    /// permissions asks the host for the session list, which goes back in
    /// through [`State::receive_session_list`].
    pub fn update(&mut self, event: PluginEvent) -> (r: (bool, Vec<PluginAction>))
        requires
            model_wf(old(self)@),
        ensures
            model_wf(final(self)@),
            (final(self)@, r.0, action_views(r.1@)) == update_step(old(self)@, event@),
    {
        match event {
            PluginEvent::PermissionResult(granted) => {
                let mut actions: Vec<PluginAction> = Vec::new();
                if granted {
                    self.permissions_granted = true;
                    self.is_selectable = false;
                    actions.push(PluginAction::SetSelectable(false));
                    actions.push(PluginAction::FetchSessionList);
                    assert(action_views(actions@) =~= seq![
                        ActionView::SetSelectable(false),
                        ActionView::FetchSessionList,
                    ]);
                    assert(self@ =~= update_step(old(self)@, event@).0);
                    (true, actions)
                } else {
                    assert(action_views(actions@) =~= Seq::<ActionView>::empty());
                    (false, actions)
                }
            },
            PluginEvent::App(app_event) => {
                if !self.permissions_granted {
                    let ghost ev = app_event@;
                    self.pending_events.push(app_event);
                    let v: Vec<PluginAction> = Vec::new();
                    assert(action_views(v@) =~= Seq::<ActionView>::empty());
                    assert(self@ =~= update_step(old(self)@, event@).0);
                    (false, v)
                } else {
                    self.handle_app_event(&app_event)
                }
            },
        }
    }

    /// Takes the session list read after the permissions were granted, if
    /// it could be read, and handles the events that waited for the
    /// permissions, as [`receive_step`] states.
    pub fn receive_session_list(&mut self, list: Option<(Vec<LiveSession>, Vec<String>)>) -> (r: Vec<
        PluginAction,
    >)
        requires
            model_wf(old(self)@),
        ensures
            model_wf(final(self)@),
            (final(self)@, action_views(r@)) == receive_step(old(self)@, list_view(list)),
    {
        let ghost listv = list_view(list);
        if let Some((live, dead)) = list {
            let entries = build_entries(&live, &dead, self.style.show_resurrectable);
            let active = active_index(&entries);
            proof {
                lemma_active_index(entries@);
            }
            self.active_session_idx = active;
            self.sessions = entries;
        }
        let mut pending: Vec<AppEvent> = Vec::new();
        std::mem::swap(&mut pending, &mut self.pending_events);
        let ghost events = Seq::new(pending@.len(), |i: int| pending@[i]@);
        let ghost start = self@;
        assert(events =~= old(self)@.pending_events);
        assert(start =~= match listv {
            Some((live, dead)) => {
                let entries = entries_of(live, dead, old(self)@.style.show_resurrectable);
                StateModel {
                    sessions: entries,
                    active_session_idx: active_index_of(entries) as usize,
                    pending_events: Seq::empty(),
                    ..old(self)@
                }
            },
            None => StateModel { pending_events: Seq::empty(), ..old(self)@ },
        });
        let mut actions: Vec<PluginAction> = Vec::new();
        let mut i: usize = 0;
        while i < pending.len()
            invariant
                i <= pending.len(),
                events == Seq::new(pending@.len(), |k: int| pending@[k]@),
                model_wf(self@),
                self@.permissions_granted == start.permissions_granted,
                (self@, action_views(actions@)) == replay(start, events.take(i as int)),
            decreases pending.len() - i,
        {
            let ghost before = action_views(actions@);
            let (_, mut more) = self.handle_app_event(&pending[i]);
            assert(events.take(i + 1).drop_last() =~= events.take(i as int));
            assert(events.take(i + 1).last() == pending@[i as int]@);
            let ghost more_v = action_views(more@);
            actions.append(&mut more);
            assert(action_views(actions@) =~= before + more_v);
            i += 1;
        }
        assert(events.take(pending.len() as int) =~= events);
        actions
    }

    /// Moves the selection one entry up in session mode.
    pub fn select_previous_session(&mut self)
        requires
            model_wf(old(self)@),
        ensures
            model_wf(final(self)@),
            final(self)@ == select_previous_step(old(self)@),
    {
        if !self.in_session_mode || self.sessions.len() == 0 {
            return;
        }
        let focused = match self.selected_session_idx {
            Some(s) => s,
            None => self.active_session_idx,
        };
        let last = self.sessions.len() - 1;
        let current = if focused <= last { focused } else { last };
        self.selected_session_idx = Some(current.saturating_sub(1));
        assert(self@ =~= select_previous_step(old(self)@));
    }

    /// Moves the selection one entry down in session mode.
    pub fn select_next_session(&mut self)
        requires
            model_wf(old(self)@),
        ensures
            model_wf(final(self)@),
            final(self)@ == select_next_step(old(self)@),
    {
        if !self.in_session_mode || self.sessions.len() == 0 {
            return;
        }
        let focused = match self.selected_session_idx {
            Some(s) => s,
            None => self.active_session_idx,
        };
        let last = self.sessions.len() - 1;
        let current = if focused <= last { focused } else { last };
        let next = if current + 1 <= last { current + 1 } else { last };
        self.selected_session_idx = Some(next);
        assert(self@ =~= select_next_step(old(self)@));
    }

    /// Confirms the selection in session mode, as [`confirm_step`] states.
    pub fn confirm_session_selection(&mut self) -> (r: Vec<PluginAction>)
        requires
            model_wf(old(self)@),
        ensures
            model_wf(final(self)@),
            (final(self)@, action_views(r@)) == confirm_step(old(self)@),
    {
        let mut actions: Vec<PluginAction> = Vec::new();
        if !self.in_session_mode {
            assert(action_views(actions@) =~= Seq::<ActionView>::empty());
            return actions;
        }
        let selected_name: Option<String> = match self.selected_session_idx {
            Some(i) => if i < self.sessions.len() {
                Some(String::from_str(self.sessions[i].name()))
            } else {
                None
            },
            None => None,
        };
        self.selected_session_idx = None;
        actions.push(PluginAction::SwitchToNormalMode);
        if let Some(selected_name) = selected_name {
            let same = if self.active_session_idx < self.sessions.len() {
                let active_name = String::from_str(self.sessions[self.active_session_idx].name());
                active_name == selected_name
            } else {
                false
            };
            if !same {
                actions.push(PluginAction::SwitchSession(selected_name));
            }
        }
        assert(self@ =~= confirm_step(old(self)@).0);
        assert(action_views(actions@) =~= confirm_step(old(self)@).1);
        actions
    }

    /// Handles a pipe message, as [`pipe_step`] states.
    pub fn pipe(&mut self, name: &str, payload: Option<&str>) -> (r: (bool, Vec<PluginAction>))
        requires
            model_wf(old(self)@),
        ensures
            model_wf(final(self)@),
            (final(self)@, r.0, action_views(r.1@)) == pipe_step(
                old(self)@,
                name@,
                payload_view(payload),
            ),
    {
        let n = crate::text::chars_of(name);
        let ghost pv = payload_view(payload);
        let mut actions: Vec<PluginAction> = Vec::new();
        if chars_eq_str(&n, "set_selectable") {
            let choice: Option<bool> = match payload {
                Some(p) => {
                    let pc = crate::text::chars_of(p);
                    if chars_eq_str(&pc, "true") {
                        Some(true)
                    } else if chars_eq_str(&pc, "false") {
                        Some(false)
                    } else {
                        None
                    }
                },
                None => None,
            };
            proof {
                reveal_strlit("true");
                reveal_strlit("false");
            }
            if let Some(b) = choice {
                self.is_selectable = b;
                actions.push(PluginAction::SetSelectable(b));
            }
            assert(self@ =~= pipe_step(old(self)@, name@, pv).0);
            assert(action_views(actions@) =~= pipe_step(old(self)@, name@, pv).2);
            (false, actions)
        } else if chars_eq_str(&n, "toggle_selectable") {
            self.is_selectable = !self.is_selectable;
            actions.push(PluginAction::SetSelectable(self.is_selectable));
            assert(self@ =~= pipe_step(old(self)@, name@, pv).0);
            assert(action_views(actions@) =~= pipe_step(old(self)@, name@, pv).2);
            (false, actions)
        } else if chars_eq_str(&n, "select_previous_session") || chars_eq_str(
            &n,
            "zellij_vertical_sessions_select_previous",
        ) {
            self.select_previous_session();
            assert(action_views(actions@) =~= Seq::<ActionView>::empty());
            (true, actions)
        } else if chars_eq_str(&n, "select_next_session") || chars_eq_str(
            &n,
            "zellij_vertical_sessions_select_next",
        ) {
            self.select_next_session();
            assert(action_views(actions@) =~= Seq::<ActionView>::empty());
            (true, actions)
        } else if chars_eq_str(&n, "confirm_session_selection") || chars_eq_str(
            &n,
            "zellij_vertical_sessions_confirm_selection",
        ) {
            let acts = self.confirm_session_selection();
            (true, acts)
        } else {
            assert(action_views(actions@) =~= Seq::<ActionView>::empty());
            (false, actions)
        }
    }
}

/// Moving the selection down and then up again comes back to the entry
/// that was focused, unless it was the last one.
pub proof fn lemma_next_then_previous(m: StateModel)
    requires
        model_wf(m),
        m.in_session_mode,
        focused_index(m) + 1 < m.sessions.len(),
    ensures
        select_previous_step(select_next_step(m)).selected_session_idx == Some(focused_index(m)),
{
}

/// Moving the selection up and then down again comes back to the entry
/// that was focused, unless it was the first one.
pub proof fn lemma_previous_then_next(m: StateModel)
    requires
        model_wf(m),
        m.in_session_mode,
        0 < focused_index(m) < m.sessions.len(),
    ensures
        select_next_step(select_previous_step(m)).selected_session_idx == Some(focused_index(m)),
{
}

/// In session mode, moving the selection always leaves it on an entry.
pub proof fn lemma_selection_in_range(m: StateModel)
    requires
        model_wf(m),
        m.in_session_mode,
        m.sessions.len() > 0,
    ensures
        select_next_step(m).selected_session_idx matches Some(s) && s < m.sessions.len(),
        select_previous_step(m).selected_session_idx matches Some(s) && s < m.sessions.len(),
{
}

/// Entering session mode selects the active session; leaving it clears
/// the selection.
pub proof fn lemma_mode_switch_selection(m: StateModel, changed: bool)
    requires
        model_wf(m),
    ensures
        !m.in_session_mode ==> app_step(
            m,
            AppEventView::ModeUpdate { in_session_mode: true, changed },
        ).0.selected_session_idx == Some(m.active_session_idx),
        m.in_session_mode ==> app_step(
            m,
            AppEventView::ModeUpdate { in_session_mode: false, changed },
        ).0.selected_session_idx is None,
{
}

proof fn lemma_replay_keeps_pending(m: StateModel, events: Seq<AppEventView>)
    ensures
        replay(m, events).0.pending_events == m.pending_events,
        replay(m, events).0.permissions_granted == m.permissions_granted,
    decreases events.len(),
{
    if events.len() > 0 {
        lemma_replay_keeps_pending(m, events.drop_last());
    }
}

/// Events that arrive before the permissions are granted are neither lost
/// nor handled early: they wait, in order, and once the session list has
/// been received every one of them has been handled and none waits.
pub proof fn lemma_waiting_events(m: StateModel, e: AppEventView, list: Option<(Seq<LiveSession>, Seq<String>)>)
    requires
        !m.permissions_granted,
    ensures
        update_step(m, PluginEventView::App(e)).0.pending_events == m.pending_events.push(e),
        update_step(m, PluginEventView::App(e)).1 == false,
        update_step(m, PluginEventView::App(e)).2.len() == 0,
        receive_step(m, list).0.pending_events.len() == 0,
{
    let m1 = match list {
        Some((live, dead)) => {
            let entries = entries_of(live, dead, m.style.show_resurrectable);
            StateModel {
                sessions: entries,
                active_session_idx: active_index_of(entries) as usize,
                pending_events: Seq::empty(),
                ..m
            }
        },
        None => StateModel { pending_events: Seq::empty(), ..m },
    };
    lemma_replay_keeps_pending(m1, m.pending_events);
}

/// The pipe messages that move the selection do so in session mode, each
/// under both of its names: "next" moves one entry down and "previous" one
/// entry up from the focused entry (taken back into the list), never past
/// either end; the plugin redraws and asks the host for nothing. Outside
/// session mode, or with no entry, they change nothing but still redraw.
pub proof fn lemma_pipe_moves_selection(m: StateModel, payload: Option<Seq<char>>)
    ensures
        ({
            let n = m.sessions.len() as int;
            let f = min_nat(focused_index(m) as int, n - 1);
            let next = if m.in_session_mode && n > 0 {
                StateModel {
                    selected_session_idx: Some((if f + 1 < n { f + 1 } else { n - 1 }) as usize),
                    ..m
                }
            } else {
                m
            };
            let previous = if m.in_session_mode && n > 0 {
                StateModel {
                    selected_session_idx: Some((if f > 0 { f - 1 } else { 0 }) as usize),
                    ..m
                }
            } else {
                m
            };
            &&& pipe_step(m, "select_next_session"@, payload) == (next, true, Seq::<ActionView>::empty())
            &&& pipe_step(m, "zellij_vertical_sessions_select_next"@, payload) == (
                next,
                true,
                Seq::<ActionView>::empty(),
            )
            &&& pipe_step(m, "select_previous_session"@, payload) == (
                previous,
                true,
                Seq::<ActionView>::empty(),
            )
            &&& pipe_step(m, "zellij_vertical_sessions_select_previous"@, payload) == (
                previous,
                true,
                Seq::<ActionView>::empty(),
            )
        }),
{
    reveal_strlit("set_selectable");
    reveal_strlit("toggle_selectable");
    reveal_strlit("select_previous_session");
    reveal_strlit("zellij_vertical_sessions_select_previous");
    reveal_strlit("select_next_session");
    reveal_strlit("zellij_vertical_sessions_select_next");
    assert("select_next_session"@ != "set_selectable"@) by {
        assert("select_next_session"@[2] != "set_selectable"@[2]);
    }
    assert("select_next_session"@ != "toggle_selectable"@) by {
        assert("select_next_session"@[0] != "toggle_selectable"@[0]);
    }
    assert("select_next_session"@ != "select_previous_session"@) by {
        assert("select_next_session"@[7] != "select_previous_session"@[7]);
    }
    assert("select_next_session"@ != "zellij_vertical_sessions_select_previous"@) by {
        assert("select_next_session"@[0] != "zellij_vertical_sessions_select_previous"@[0]);
    }
    assert("zellij_vertical_sessions_select_next"@ != "set_selectable"@) by {
        assert("zellij_vertical_sessions_select_next"@[0] != "set_selectable"@[0]);
    }
    assert("zellij_vertical_sessions_select_next"@ != "toggle_selectable"@) by {
        assert("zellij_vertical_sessions_select_next"@[0] != "toggle_selectable"@[0]);
    }
    assert("zellij_vertical_sessions_select_next"@ != "select_previous_session"@) by {
        assert("zellij_vertical_sessions_select_next"@[0] != "select_previous_session"@[0]);
    }
    assert("zellij_vertical_sessions_select_next"@ != "zellij_vertical_sessions_select_previous"@)
        by {
        assert("zellij_vertical_sessions_select_next"@[32] != "zellij_vertical_sessions_select_previous"@[32]);
    }
    assert("select_previous_session"@ != "set_selectable"@) by {
        assert("select_previous_session"@[2] != "set_selectable"@[2]);
    }
    assert("select_previous_session"@ != "toggle_selectable"@) by {
        assert("select_previous_session"@[0] != "toggle_selectable"@[0]);
    }
    assert("zellij_vertical_sessions_select_previous"@ != "set_selectable"@) by {
        assert("zellij_vertical_sessions_select_previous"@[0] != "set_selectable"@[0]);
    }
    assert("zellij_vertical_sessions_select_previous"@ != "toggle_selectable"@) by {
        assert("zellij_vertical_sessions_select_previous"@[0] != "toggle_selectable"@[0]);
    }
}

} // verus!
