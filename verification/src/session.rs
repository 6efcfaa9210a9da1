//! Entries of the session list: running sessions and sessions that can be
//! resurrected.

use vstd::prelude::*;

verus! {

/// What the sidebar reads of a running session.
#[derive(Debug)]
pub struct LiveSession {
    pub name: String,
    pub is_current_session: bool,
    pub connected_clients: usize,
    /// The number of tabs.
    pub tab_count: usize,
}

impl LiveSession {
    /// A copy of this session.
    pub fn duplicate(&self) -> (r: LiveSession)
        ensures
            r == *self,
    {
        LiveSession {
            name: self.name.clone(),
            is_current_session: self.is_current_session,
            connected_clients: self.connected_clients,
            tab_count: self.tab_count,
        }
    }
}

/// An entry of the session list.
#[derive(Debug)]
pub enum SessionEntry {
    Live(LiveSession),
    /// An exited session that can be resurrected, by name.
    Resurrectable(String),
}

pub open spec fn entry_name(e: SessionEntry) -> Seq<char> {
    match e {
        SessionEntry::Live(info) => info.name@,
        SessionEntry::Resurrectable(name) => name@,
    }
}

pub open spec fn entry_is_current(e: SessionEntry) -> bool {
    match e {
        SessionEntry::Live(info) => info.is_current_session,
        SessionEntry::Resurrectable(_) => false,
    }
}

impl SessionEntry {
    pub fn name(&self) -> (r: &str)
        ensures
            r@ == entry_name(*self),
    {
        match self {
            SessionEntry::Live(info) => info.name.as_str(),
            SessionEntry::Resurrectable(name) => name.as_str(),
        }
    }

    /// Whether this is the session the plugin runs in.
    pub fn is_current(&self) -> (b: bool)
        ensures
            b == entry_is_current(*self),
    {
        match self {
            SessionEntry::Live(info) => info.is_current_session,
            SessionEntry::Resurrectable(_) => false,
        }
    }

    pub fn is_resurrectable(&self) -> (b: bool)
        ensures
            b == (*self is Resurrectable),
    {
        matches!(self, SessionEntry::Resurrectable(_))
    }

    /// A copy of this entry.
    pub fn duplicate(&self) -> (r: SessionEntry)
        ensures
            r == *self,
    {
        match self {
            SessionEntry::Live(info) => SessionEntry::Live(info.duplicate()),
            SessionEntry::Resurrectable(name) => SessionEntry::Resurrectable(name.clone()),
        }
    }
}

/// The session list built from running sessions and, when they are shown,
/// resurrectable ones: running sessions first, each group in the order
/// given.
pub open spec fn entries_of(live: Seq<LiveSession>, dead: Seq<String>, show_dead: bool) -> Seq<
    SessionEntry,
> {
    Seq::new(live.len(), |i: int| SessionEntry::Live(live[i])) + if show_dead {
        Seq::new(dead.len(), |i: int| SessionEntry::Resurrectable(dead[i]))
    } else {
        Seq::empty()
    }
}

/// Index of the first current session in `entries` at or after `from`, if
/// any.
pub open spec fn find_current(entries: Seq<SessionEntry>, from: int) -> Option<int>
    decreases entries.len() - from,
{
    if from < 0 || from >= entries.len() {
        None
    } else if entry_is_current(entries[from]) {
        Some(from)
    } else {
        find_current(entries, from + 1)
    }
}

/// The active entry: the first current session, or the first entry.
pub open spec fn active_index_of(entries: Seq<SessionEntry>) -> int {
    match find_current(entries, 0) {
        Some(i) => i,
        None => 0,
    }
}

/// Index of the first entry named `name` at or after `from`, if any.
pub open spec fn find_name(entries: Seq<SessionEntry>, name: Seq<char>, from: int) -> Option<int>
    decreases entries.len() - from,
{
    if from < 0 || from >= entries.len() {
        None
    } else if entry_name(entries[from]) == name {
        Some(from)
    } else {
        find_name(entries, name, from + 1)
    }
}

pub proof fn lemma_find_current(entries: Seq<SessionEntry>, from: int)
    requires
        0 <= from,
    ensures
        find_current(entries, from) matches Some(i) ==> from <= i < entries.len(),
    decreases entries.len() - from,
{
    if from < entries.len() && !entry_is_current(entries[from]) {
        lemma_find_current(entries, from + 1);
    }
}

pub proof fn lemma_find_name(entries: Seq<SessionEntry>, name: Seq<char>, from: int)
    requires
        0 <= from,
    ensures
        find_name(entries, name, from) matches Some(i) ==> from <= i < entries.len()
            && entry_name(entries[i]) == name,
    decreases entries.len() - from,
{
    if from < entries.len() && entry_name(entries[from]) != name {
        lemma_find_name(entries, name, from + 1);
    }
}

/// Builds the session list, as [`entries_of`] states.
pub fn build_entries(live: &Vec<LiveSession>, dead: &Vec<String>, show_dead: bool) -> (r: Vec<
    SessionEntry,
>)
    ensures
        r@ == entries_of(live@, dead@, show_dead),
{
    let mut entries: Vec<SessionEntry> = Vec::new();
    let mut i: usize = 0;
    while i < live.len()
        invariant
            i <= live.len(),
            entries@ == Seq::new(i as nat, |k: int| SessionEntry::Live(live@[k])),
        decreases live.len() - i,
    {
        entries.push(SessionEntry::Live(live[i].duplicate()));
        assert(entries@ =~= Seq::new((i + 1) as nat, |k: int| SessionEntry::Live(live@[k])));
        i += 1;
    }
    let ghost first = entries@;
    if show_dead {
        let mut j: usize = 0;
        while j < dead.len()
            invariant
                j <= dead.len(),
                entries@ == first + Seq::new(
                    j as nat,
                    |k: int| SessionEntry::Resurrectable(dead@[k]),
                ),
            decreases dead.len() - j,
        {
            entries.push(SessionEntry::Resurrectable(dead[j].clone()));
            assert(entries@ =~= first + Seq::new(
                (j + 1) as nat,
                |k: int| SessionEntry::Resurrectable(dead@[k]),
            ));
            j += 1;
        }
    }
    assert(entries@ =~= entries_of(live@, dead@, show_dead));
    entries
}

/// The index of the active entry, as [`active_index_of`] states.
pub fn active_index(entries: &Vec<SessionEntry>) -> (r: usize)
    ensures
        r == active_index_of(entries@),
        r < usize::MAX,
        entries@.len() > 0 ==> r < entries@.len(),
{
    let mut i: usize = 0;
    while i < entries.len()
        invariant
            i <= entries.len(),
            find_current(entries@, i as int) == find_current(entries@, 0),
        decreases entries.len() - i,
    {
        if entries[i].is_current() {
            return i;
        }
        i += 1;
    }
    proof {
        lemma_find_current(entries@, 0);
    }
    0
}

/// The index of the first entry named `name`, as [`find_name`] states.
pub fn position_of_name(entries: &Vec<SessionEntry>, name: &str) -> (r: Option<usize>)
    ensures
        r matches Some(i) ==> find_name(entries@, name@, 0) == Some(i as int),
        r is None ==> find_name(entries@, name@, 0) is None,
        r matches Some(i) ==> i < entries@.len() && i < usize::MAX,
{
    let target = String::from_str(name);
    let mut i: usize = 0;
    while i < entries.len()
        invariant
            i <= entries.len(),
            target@ == name@,
            find_name(entries@, name@, i as int) == find_name(entries@, name@, 0),
        decreases entries.len() - i,
    {
        let candidate = String::from_str(entries[i].name());
        if candidate == target {
            return Some(i);
        }
        i += 1;
    }
    None
}

} // verus!
