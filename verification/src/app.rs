use vstd::prelude::*;
use crate::entry::{nav_next, nav_previous, JournalEntry, StatefulList};

verus! {

/// How long a status message stays visible, in milliseconds.
pub const STATUS_LIFETIME_MS: u64 = 3000;

/// How many tabs the interface cycles through.
pub const TAB_COUNT: usize = 3;

/// The input mode of the interactive browser.
#[derive(Clone, Copy, PartialEq, Eq, Debug)]
pub enum InputMode {
    Normal,
    Editing,
}

/// One key press, as the interactive loop reports it to the core.
#[derive(Clone, Copy, PartialEq, Eq, Debug)]
pub enum KeyInput {
    Char(char),
    Down,
    Up,
    Enter,
    Tab,
    BackTab,
    Esc,
    Other,
}

/// What the caller must carry out after a key was handled: nothing,
/// quitting, creating today's entry, or opening or deleting the entry
/// of the given date. Opening and creating spawn the editor, deleting
/// removes a file; all three are followed by a reload.
#[derive(PartialEq, Eq, Debug)]
pub enum Action {
    Idle,
    Quit,
    Create,
    Open(String),
    Delete(String),
}

/// The interactive application state: the loaded entries with their
/// cursor, the active tab, transient interface signals, and the
/// configured editor program name.
pub struct App {
    pub tab_index: usize,
    pub entries_list: StatefulList<JournalEntry>,
    pub input_mode: InputMode,
    pub show_help: bool,
    pub editor: String,
    pub status_message: String,
    pub status_time: Option<u64>,
}

/// The entry list after one `next` step.
pub open spec fn list_after_next(l: StatefulList<JournalEntry>) -> StatefulList<JournalEntry> {
    StatefulList { items: l.items, selected: nav_next(l.items@.len(), l.selected) }
}

/// The entry list after one `previous` step.
pub open spec fn list_after_previous(l: StatefulList<JournalEntry>) -> StatefulList<
    JournalEntry,
> {
    StatefulList { items: l.items, selected: nav_previous(l.items@.len(), l.selected) }
}

/// The complete key dispatch table of the interactive browser: the
/// state after one key press and the action the caller owes for it.
pub open spec fn key_step(a: App, key: KeyInput) -> (App, Action) {
    match a.input_mode {
        InputMode::Editing => if key is Esc {
            (App { input_mode: InputMode::Normal, ..a }, Action::Idle)
        } else {
            (a, Action::Idle)
        },
        InputMode::Normal => match key {
            KeyInput::Char(c) => if c == 'q' {
                (a, Action::Quit)
            } else if c == 'h' {
                (App { show_help: !a.show_help, ..a }, Action::Idle)
            } else if c == 'j' {
                (App { entries_list: list_after_next(a.entries_list), ..a }, Action::Idle)
            } else if c == 'k' {
                (App { entries_list: list_after_previous(a.entries_list), ..a }, Action::Idle)
            } else if c == 'n' {
                (a, Action::Create)
            } else if c == 'd' {
                match a.entries_list.selected {
                    Some(i) => (a, Action::Delete(a.entries_list.items[i as int].date)),
                    None => (a, Action::Idle),
                }
            } else {
                (a, Action::Idle)
            },
            KeyInput::Down => (
                App { entries_list: list_after_next(a.entries_list), ..a },
                Action::Idle,
            ),
            KeyInput::Up => (
                App { entries_list: list_after_previous(a.entries_list), ..a },
                Action::Idle,
            ),
            KeyInput::Enter => match a.entries_list.selected {
                Some(i) => (a, Action::Open(a.entries_list.items[i as int].date)),
                None => (a, Action::Idle),
            },
            KeyInput::Tab => (
                App { tab_index: (((a.tab_index + 1) % (TAB_COUNT as int)) as usize), ..a },
                Action::Idle,
            ),
            KeyInput::BackTab => (
                App {
                    tab_index: (if a.tab_index > 0 {
                        (a.tab_index - 1) as usize
                    } else {
                        (TAB_COUNT - 1) as usize
                    }),
                    ..a
                },
                Action::Idle,
            ),
            KeyInput::Esc => (a, Action::Idle),
            KeyInput::Other => (a, Action::Idle),
        },
    }
}

impl App {
    /// Well-formedness: the entry list's cursor is in range and the
    /// active tab is one of the cycled tabs.
    pub open spec fn wf(&self) -> bool {
        self.entries_list.wf() && self.tab_index < TAB_COUNT
    }

    /// Builds the initial state over loaded entries and a configured
    /// editor: first tab active, no selection, no transient signals.
    pub fn new(entries: Vec<JournalEntry>, editor: String) -> (r: App)
        ensures
            r.wf(),
            r.tab_index == 0,
            r.entries_list.items == entries,
            r.entries_list.selected is None,
            r.input_mode is Normal,
            !r.show_help,
            r.editor == editor,
            r.status_message@ == Seq::<char>::empty(),
            r.status_time is None,
    {
        App {
            tab_index: 0,
            entries_list: StatefulList::with_items(entries),
            input_mode: InputMode::Normal,
            show_help: false,
            editor,
            status_message: String::new(),
            status_time: None,
        }
    }

    /// Records a status message together with the moment it was set;
    /// it stays visible until `poll_tick` observes its expiry.
    pub fn set_status(&mut self, message: &str, now_ms: u64)
        ensures
            final(self).status_message@ == message@,
            final(self).status_time == Some(now_ms),
            final(self).tab_index == old(self).tab_index,
            final(self).entries_list == old(self).entries_list,
            final(self).input_mode == old(self).input_mode,
            final(self).show_help == old(self).show_help,
            final(self).editor == old(self).editor,
    {
        self.status_message = message.to_owned();
        self.status_time = Some(now_ms);
    }

    /// The status message has been visible for its full lifetime at
    /// the given moment.
    pub open spec fn status_expired(self, now_ms: u64) -> bool {
        match self.status_time {
            Some(t) => now_ms >= t + STATUS_LIFETIME_MS,
            None => false,
        }
    }

    /// One idle tick of the interactive loop at the given moment on a
    /// monotonic clock: clears the status message exactly when its
    /// lifetime has elapsed, and changes nothing else.
    pub fn poll_tick(&mut self, now_ms: u64)
        requires
            old(self).status_time matches Some(t) ==> t <= now_ms,
        ensures
            old(self).status_expired(now_ms) ==> final(self).status_message@ == Seq::<
                char,
            >::empty() && final(self).status_time is None,
            !old(self).status_expired(now_ms) ==> *final(self) == *old(self),
            final(self).entries_list == old(self).entries_list,
            final(self).tab_index == old(self).tab_index,
            final(self).input_mode == old(self).input_mode,
            final(self).show_help == old(self).show_help,
            final(self).editor == old(self).editor,
    {
        match self.status_time {
            Some(t) => {
                if now_ms - t >= STATUS_LIFETIME_MS {
                    self.status_message = String::new();
                    self.status_time = None;
                }
            },
            None => {},
        }
    }

    /// Handles one key press: steps the state by the dispatch table
    /// and returns the action the caller owes.
    pub fn handle_key(&mut self, key: KeyInput) -> (r: Action)
        requires
            old(self).wf(),
        ensures
            final(self).wf(),
            *final(self) == key_step(*old(self), key).0,
            r == key_step(*old(self), key).1,
    {
        match self.input_mode {
            InputMode::Editing => {
                if let KeyInput::Esc = key {
                    self.input_mode = InputMode::Normal;
                }
                Action::Idle
            },
            InputMode::Normal => match key {
                KeyInput::Char(c) => {
                    if c == 'q' {
                        Action::Quit
                    } else if c == 'h' {
                        self.show_help = !self.show_help;
                        Action::Idle
                    } else if c == 'j' {
                        self.entries_list.next();
                        Action::Idle
                    } else if c == 'k' {
                        self.entries_list.previous();
                        Action::Idle
                    } else if c == 'n' {
                        Action::Create
                    } else if c == 'd' {
                        match self.entries_list.selected {
                            Some(i) => Action::Delete(self.entries_list.items[i].date.clone()),
                            None => Action::Idle,
                        }
                    } else {
                        Action::Idle
                    }
                },
                KeyInput::Down => {
                    self.entries_list.next();
                    Action::Idle
                },
                KeyInput::Up => {
                    self.entries_list.previous();
                    Action::Idle
                },
                KeyInput::Enter => match self.entries_list.selected {
                    Some(i) => Action::Open(self.entries_list.items[i].date.clone()),
                    None => Action::Idle,
                },
                KeyInput::Tab => {
                    self.tab_index = (self.tab_index + 1) % TAB_COUNT;
                    Action::Idle
                },
                KeyInput::BackTab => {
                    self.tab_index = if self.tab_index > 0 {
                        self.tab_index - 1
                    } else {
                        TAB_COUNT - 1
                    };
                    Action::Idle
                },
                KeyInput::Esc => Action::Idle,
                KeyInput::Other => Action::Idle,
            },
        }
    }
}

} // verus!
