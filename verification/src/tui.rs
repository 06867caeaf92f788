//! The interactive master/detail browser: its data model and the key
//! handling that drives it. Drawing and the terminal loop live with the
//! binary; every decision the loop makes is `Browser::step`.

use vstd::prelude::*;

verus! {

/// Visual emphasis for a list entry, mirroring the plain renderers' colors.
#[derive(Debug, Clone, Copy, PartialEq, Eq, Structural)]
pub enum ItemStyle {
    /// No special color (default foreground).
    Plain,
    /// Positive / committed (green).
    Good,
    /// Pending / attention (red).
    Bad,
    /// Secondary highlight (cyan).
    Accent,
}

impl Default for ItemStyle {
    fn default() -> (r: Self)
        ensures
            r == ItemStyle::Plain,
    {
        ItemStyle::Plain
    }
}

/// One selectable row plus the detail shown when it is selected.
#[derive(Debug, Clone)]
pub struct Item {
    /// Single-line label shown in the list pane.
    pub label: String,
    /// Color emphasis for the label.
    pub style: ItemStyle,
    /// Multi-line text shown in the detail pane.
    pub detail: String,
}

impl Item {
    /// Convenience constructor for a plain (uncolored) item.
    pub fn new(label: String, detail: String) -> (r: Self)
        ensures
            r.label == label,
            r.style == ItemStyle::Plain,
            r.detail == detail,
    {
        Item { label, style: ItemStyle::Plain, detail }
    }

    /// Builder: set the label color.
    pub fn styled(self, style: ItemStyle) -> (r: Self)
        ensures
            r.label == self.label,
            r.style == style,
            r.detail == self.detail,
    {
        let mut me = self;
        me.style = style;
        me
    }
}

/// A navigable list with a per-item detail pane.
#[derive(Debug, Clone)]
pub struct Browser {
    /// Title shown on the list pane border.
    pub title: String,
    /// The rows to browse (must be non-empty for the browser to be interactive).
    pub items: Vec<Item>,
}

impl Browser {
    /// Build a browser with the given list title and items.
    pub fn new(title: String, items: Vec<Item>) -> (r: Self)
        ensures
            r.title == title,
            r.items == items,
    {
        Browser { title, items }
    }
}

/// Mutable UI state for one browsing session.
#[derive(Debug, Clone, Copy, PartialEq, Eq, Structural)]
pub struct State {
    /// Index of the selected item.
    pub selected: usize,
    /// Vertical scroll offset within the detail pane.
    pub detail_scroll: u16,
    /// Whether the detail pane is expanded full-screen and focused.
    pub expanded: bool,
}

/// A key press, as the browser distinguishes them.
#[derive(Debug, Clone, Copy, PartialEq, Eq, Structural)]
pub enum Key {
    /// `q` or Esc.
    Back,
    /// Enter.
    Open,
    /// Down arrow or `j`.
    Down,
    /// Up arrow or `k`.
    Up,
    /// Page Down.
    PageDown,
    /// Page Up.
    PageUp,
    /// Home or `g`.
    Home,
    /// End or `G`.
    End,
    /// Anything else.
    Other,
}

/// The state a session starts in: first item selected, list view.
pub open spec fn spec_initial() -> State {
    State { selected: 0, detail_scroll: 0, expanded: false }
}

/// `a + b`, saturating at `u16::MAX`.
pub open spec fn sat_add(a: u16, b: u16) -> u16 {
    if a + b > u16::MAX {
        u16::MAX
    } else {
        (a + b) as u16
    }
}

/// `a - b`, saturating at zero.
pub open spec fn sat_sub(a: int, b: int) -> int {
    if a < b {
        0
    } else {
        a - b
    }
}

/// What a key does: the next state, and whether the session ends. In the
/// expanded view keys scroll the detail pane and `Back` returns to the list;
/// in the list view they move the selection within `0..=last` and `Back`
/// quits.
pub open spec fn spec_step(s: State, key: Key, last: usize) -> (State, bool) {
    match key {
        Key::Back => if s.expanded {
            (State { expanded: false, detail_scroll: 0, ..s }, false)
        } else {
            (s, true)
        },
        Key::Open => (State { expanded: true, detail_scroll: 0, ..s }, false),
        Key::Down => if s.expanded {
            (State { detail_scroll: sat_add(s.detail_scroll, 1), ..s }, false)
        } else if s.selected < last {
            (State { selected: (s.selected + 1) as usize, ..s }, false)
        } else {
            (s, false)
        },
        Key::Up => if s.expanded {
            (State { detail_scroll: sat_sub(s.detail_scroll as int, 1) as u16, ..s }, false)
        } else {
            (State { selected: sat_sub(s.selected as int, 1) as usize, ..s }, false)
        },
        Key::PageDown => if s.expanded {
            (State { detail_scroll: sat_add(s.detail_scroll, 10), ..s }, false)
        } else {
            (
                State {
                    selected: if s.selected + 10 < last {
                        (s.selected + 10) as usize
                    } else {
                        last
                    },
                    ..s
                },
                false,
            )
        },
        Key::PageUp => if s.expanded {
            (State { detail_scroll: sat_sub(s.detail_scroll as int, 10) as u16, ..s }, false)
        } else {
            (State { selected: sat_sub(s.selected as int, 10) as usize, ..s }, false)
        },
        Key::Home => if s.expanded {
            (State { detail_scroll: 0, ..s }, false)
        } else {
            (State { selected: 0, ..s }, false)
        },
        Key::End => if !s.expanded {
            (State { selected: last, ..s }, false)
        } else {
            (s, false)
        },
        Key::Other => (s, false),
    }
}

impl State {
    /// The state a session starts in.
    pub fn initial() -> (r: State)
        ensures
            r == spec_initial(),
    {
        State { selected: 0, detail_scroll: 0, expanded: false }
    }

    /// Apply one key press for a list whose last index is `last`; returns the
    /// next state and whether to leave the browser.
    pub fn step(self, key: Key, last: usize) -> (r: (State, bool))
        requires
            self.selected <= last,
        ensures
            r == spec_step(self, key, last),
            r.0.selected <= last,
    {
        let s = self;
        match key {
            Key::Back => {
                if s.expanded {
                    (State { expanded: false, detail_scroll: 0, ..s }, false)
                } else {
                    (s, true)
                }
            },
            Key::Open => (State { expanded: true, detail_scroll: 0, ..s }, false),
            Key::Down => {
                if s.expanded {
                    (State { detail_scroll: s.detail_scroll.saturating_add(1), ..s }, false)
                } else if s.selected < last {
                    (State { selected: s.selected + 1, ..s }, false)
                } else {
                    (s, false)
                }
            },
            Key::Up => {
                if s.expanded {
                    (State { detail_scroll: s.detail_scroll.saturating_sub(1), ..s }, false)
                } else {
                    (State { selected: s.selected.saturating_sub(1), ..s }, false)
                }
            },
            Key::PageDown => {
                if s.expanded {
                    (State { detail_scroll: s.detail_scroll.saturating_add(10), ..s }, false)
                } else {
                    let moved = if last - s.selected > 10 {
                        s.selected + 10
                    } else {
                        last
                    };
                    (State { selected: moved, ..s }, false)
                }
            },
            Key::PageUp => {
                if s.expanded {
                    (State { detail_scroll: s.detail_scroll.saturating_sub(10), ..s }, false)
                } else {
                    (State { selected: s.selected.saturating_sub(10), ..s }, false)
                }
            },
            Key::Home => {
                if s.expanded {
                    (State { detail_scroll: 0, ..s }, false)
                } else {
                    (State { selected: 0, ..s }, false)
                }
            },
            Key::End => {
                if !s.expanded {
                    (State { selected: last, ..s }, false)
                } else {
                    (s, false)
                }
            },
            Key::Other => (s, false),
        }
    }
}

/// Whatever keys are pressed, the selection never leaves the list: every
/// state reachable from the initial one selects an index in `0..=last`.
pub proof fn law_selection_stays_in_list(s: State, key: Key, last: usize)
    requires
        s.selected <= last,
    ensures
        spec_step(s, key, last).0.selected <= last,
        spec_initial().selected <= last,
{
}

/// Opening an item and backing out returns to the list at the same item,
/// with the detail scroll reset.
pub proof fn law_open_then_back(s: State, last: usize)
    requires
        !s.expanded,
    ensures
        spec_step(spec_step(s, Key::Open, last).0, Key::Back, last) == (
        State { detail_scroll: 0, ..s },
        false,
    ),
{
}

/// `Back` in the list view ends the session and only there.
pub proof fn law_back_quits_only_from_list(s: State, key: Key, last: usize)
    ensures
        spec_step(s, key, last).1 <==> (key == Key::Back && !s.expanded),
{
}

} // verus!
