//! Index arithmetic for tab focus.

use vstd::prelude::*;
use crate::panel_state::PanelState;
use std::collections::HashMap;

verus! {

/// Upper bound on the number of tabs.
pub const MAX_TABS: usize = 4;

/// Next focus index when cycling forward through `len` tabs.
pub fn next_focus(focused: usize, len: usize) -> (r: usize)
    requires
        len > 0,
        focused < usize::MAX,
    ensures
        r == (focused + 1) % (len as int),
        r < len,
{
    (focused + 1) % len
}

/// Focus index to land on after removing the focused tab, given the number
/// of tabs that remain: clamped into the shrunk range (removing the last
/// tab steps focus back one; removing an earlier one keeps the index).
pub fn focus_after_close(focused: usize, len_after_removal: usize) -> (r: usize)
    ensures
        r == (if focused < len_after_removal {
            focused as int
        } else if len_after_removal == 0 {
            0
        } else {
            len_after_removal - 1
        }),
        len_after_removal > 0 ==> r < len_after_removal,
{
    let last = if len_after_removal == 0 {
        0
    } else {
        len_after_removal - 1
    };
    if focused < last {
        focused
    } else {
        last
    }
}

/// Whether another tab may be opened without exceeding [`MAX_TABS`].
pub fn can_add_tab(len: usize) -> (r: bool)
    ensures
        r == (len < MAX_TABS),
{
    len < MAX_TABS
}

/// The states of the three panels of one tab.
pub struct TabPanels {
    pub left: PanelState,
    pub center: PanelState,
    pub right: PanelState,
}

/// Where new directory content goes.
#[derive(Debug, Clone, Copy, PartialEq, Eq, Structural)]
pub enum Route {
    /// Into the center panel of `tab`; `drive_preview` when the preview of
    /// that tab is on screen and must follow the new selection.
    Center { tab: usize, drive_preview: bool },
    /// Into the left panel of `tab`, which then selects the center's path.
    Left { tab: usize },
    /// No panel waits for it.
    Unknown,
}

/// `st` is newer content for the panel whose state is `panel`.
pub open spec fn newer(panel: PanelState, st: PanelState) -> bool {
    panel.spec_id() == st.spec_id() && panel.spec_cnt() < st.spec_cnt()
}

/// Routing from tab `i` on: the first tab whose center (checked first) or
/// left panel the content is newer for.
pub open spec fn route_from(tabs: Seq<TabPanels>, focused: usize, preview_visible: bool, st: PanelState, i: int) -> Route
    decreases tabs.len() - i,
{
    if i < 0 || i >= tabs.len() {
        Route::Unknown
    } else if newer(tabs[i].center, st) {
        Route::Center { tab: i as usize, drive_preview: preview_visible && i == focused }
    } else if newer(tabs[i].left, st) {
        Route::Left { tab: i as usize }
    } else {
        route_from(tabs, focused, preview_visible, st, i + 1)
    }
}

/// Where directory content with state `st` goes: every tab is asked, not
/// only the focused one, since background tabs show in split view.
pub open spec fn route_of(tabs: Seq<TabPanels>, focused: usize, preview_visible: bool, st: PanelState) -> Route {
    route_from(tabs, focused, preview_visible, st, 0)
}

/// Routes directory content with state `st`; see [`route_of`].
pub fn route_update(tabs: &[TabPanels], focused: usize, preview_visible: bool, st: &PanelState) -> (r: Route)
    ensures
        r == route_of(tabs@, focused, preview_visible, *st),
{
    let mut i: usize = 0;
    while i < tabs.len()
        invariant
            i <= tabs@.len(),
            route_of(tabs@, focused, preview_visible, *st) == route_from(tabs@, focused, preview_visible, *st, i as int),
        decreases tabs@.len() - i,
    {
        if tabs[i].center.check_update(st) {
            return Route::Center { tab: i, drive_preview: preview_visible && i == focused };
        }
        if tabs[i].left.check_update(st) {
            return Route::Left { tab: i };
        }
        i = i + 1;
    }
    Route::Unknown
}

/// The first tab from `i` on whose preview panel the content is newer for.
pub open spec fn preview_route_from(tabs: Seq<TabPanels>, st: PanelState, i: int) -> Option<usize>
    decreases tabs.len() - i,
{
    if i < 0 || i >= tabs.len() {
        None
    } else if newer(tabs[i].right, st) {
        Some(i as usize)
    } else {
        preview_route_from(tabs, st, i + 1)
    }
}

/// The tab whose preview panel takes preview content with state `st`, if
/// any; every tab is asked.
pub fn route_preview(tabs: &[TabPanels], st: &PanelState) -> (r: Option<usize>)
    ensures
        r == preview_route_from(tabs@, *st, 0),
{
    let mut i: usize = 0;
    while i < tabs.len()
        invariant
            i <= tabs@.len(),
            preview_route_from(tabs@, *st, 0) == preview_route_from(tabs@, *st, i as int),
        decreases tabs@.len() - i,
    {
        if tabs[i].right.check_update(st) {
            return Some(i);
        }
        i = i + 1;
    }
    None
}

/// Content is routed to at most one panel, and only to one it is newer
/// for: a routed tab's center or left panel has the content's id and an
/// older counter.
pub proof fn law_routes_only_to_panels_it_is_newer_for(
    tabs: Seq<TabPanels>,
    focused: usize,
    preview_visible: bool,
    st: PanelState,
    i: int,
)
    requires
        0 <= i <= tabs.len(),
        tabs.len() <= usize::MAX,
    ensures
        route_from(tabs, focused, preview_visible, st, i) matches Route::Center { tab, drive_preview } ==> i <= tab
            < tabs.len() && newer(tabs[tab as int].center, st) && drive_preview == (preview_visible && tab
            == focused),
        route_from(tabs, focused, preview_visible, st, i) matches Route::Left { tab } ==> i <= tab < tabs.len()
            && newer(tabs[tab as int].left, st) && !newer(tabs[tab as int].center, st),
        route_from(tabs, focused, preview_visible, st, i) is Unknown ==> forall|j: int|
            i <= j < tabs.len() ==> !newer(#[trigger] tabs[j].center, st) && !newer(tabs[j].left, st),
    decreases tabs.len() - i,
{
    if i < tabs.len() {
        law_routes_only_to_panels_it_is_newer_for(tabs, focused, preview_visible, st, i + 1);
    }
}

/// How the screen is laid out: the focused tab's Miller columns, or the
/// center columns of two adjacent tabs side by side.
#[derive(Debug, Clone, Copy, PartialEq, Eq, Structural)]
pub enum ViewMode {
    Single,
    Split,
}

/// The open tabs (how many, which has focus) and the view mode.
pub struct TabBar {
    count: usize,
    focused: usize,
    view: ViewMode,
}

/// What closing the focused tab did.
#[derive(Debug, Clone, Copy, PartialEq, Eq, Structural)]
pub enum TabClose {
    /// It was the last tab: the file manager quits.
    Quit,
    /// Tab `.0` was removed.
    Closed(usize),
}

/// What toggling the split view did.
#[derive(Debug, Clone, Copy, PartialEq, Eq, Structural)]
pub enum SplitToggle {
    /// Back to the single view.
    Single,
    /// Into the split view; `.0` when a second tab had to be opened for it.
    Split(bool),
    /// The terminal is too narrow for a split: nothing changed.
    TooNarrow,
}

impl TabBar {
    pub closed spec fn spec_count(&self) -> nat {
        self.count as nat
    }

    pub closed spec fn spec_focused(&self) -> nat {
        self.focused as nat
    }

    pub closed spec fn spec_view(&self) -> ViewMode {
        self.view
    }

    /// Between one and [`MAX_TABS`] tabs, the focus on one of them, and the
    /// split view only with at least two.
    pub open spec fn wf(&self) -> bool {
        &&& 1 <= self.spec_count() <= MAX_TABS
        &&& self.spec_focused() < self.spec_count()
        &&& self.spec_view() == ViewMode::Split ==> self.spec_count() >= 2
    }

    /// One tab, focused, in the single view.
    pub fn new() -> (r: Self)
        ensures
            r.wf(),
            r.spec_count() == 1,
            r.spec_focused() == 0,
            r.spec_view() == ViewMode::Single,
    {
        TabBar { count: 1, focused: 0, view: ViewMode::Single }
    }

    pub fn count(&self) -> (r: usize)
        ensures
            r == self.spec_count(),
    {
        self.count
    }

    pub fn focused(&self) -> (r: usize)
        ensures
            r == self.spec_focused(),
    {
        self.focused
    }

    pub fn view(&self) -> (r: ViewMode)
        ensures
            r == self.spec_view(),
    {
        self.view
    }

    /// The preview column is drawn only in the single view.
    pub fn preview_visible(&self) -> (r: bool)
        ensures
            r == (self.spec_view() == ViewMode::Single),
    {
        match self.view {
            ViewMode::Single => true,
            ViewMode::Split => false,
        }
    }

    /// Opens a tab after the others and focuses it, unless [`MAX_TABS`]
    /// are open; `true` when one was opened.
    pub fn new_tab(&mut self) -> (r: bool)
        requires
            old(self).wf(),
        ensures
            final(self).wf(),
            r == (old(self).spec_count() < MAX_TABS),
            final(self).spec_view() == old(self).spec_view(),
            r ==> final(self).spec_count() == old(self).spec_count() + 1 && final(self).spec_focused()
                == old(self).spec_count(),
            !r ==> final(self).spec_count() == old(self).spec_count() && final(self).spec_focused()
                == old(self).spec_focused(),
    {
        if !can_add_tab(self.count) {
            return false;
        }
        self.count = self.count + 1;
        self.focused = self.count - 1;
        true
    }

    /// Closes the focused tab; closing the last one quits. The focus stays
    /// at its index, or steps back one when the last tab was closed, and one
    /// tab left means the single view.
    pub fn close_tab(&mut self) -> (r: TabClose)
        requires
            old(self).wf(),
        ensures
            final(self).wf(),
            old(self).spec_count() == 1 ==> r == TabClose::Quit && final(self).spec_count() == 1
                && final(self).spec_focused() == old(self).spec_focused() && final(self).spec_view()
                == old(self).spec_view(),
            old(self).spec_count() > 1 ==> {
                &&& r == TabClose::Closed(old(self).spec_focused() as usize)
                &&& final(self).spec_count() == old(self).spec_count() - 1
                &&& final(self).spec_focused() == (if old(self).spec_focused() < final(self).spec_count() {
                    old(self).spec_focused() as int
                } else {
                    final(self).spec_count() - 1
                })
                &&& final(self).spec_view() == (if final(self).spec_count() == 1 {
                    ViewMode::Single
                } else {
                    old(self).spec_view()
                })
            },
    {
        if self.count == 1 {
            return TabClose::Quit;
        }
        let removed = self.focused;
        self.count = self.count - 1;
        self.focused = focus_after_close(self.focused, self.count);
        if self.count == 1 {
            self.view = ViewMode::Single;
        }
        TabClose::Closed(removed)
    }

    /// Moves the focus to the next tab, wrapping at the end.
    pub fn focus_next(&mut self)
        requires
            old(self).wf(),
        ensures
            final(self).wf(),
            final(self).spec_count() == old(self).spec_count(),
            final(self).spec_view() == old(self).spec_view(),
            final(self).spec_focused() == (old(self).spec_focused() + 1) % old(self).spec_count(),
    {
        self.focused = next_focus(self.focused, self.count);
    }

    /// Focuses tab `n` when it exists (`true`); otherwise nothing changes.
    pub fn focus_tab(&mut self, n: usize) -> (r: bool)
        requires
            old(self).wf(),
        ensures
            final(self).wf(),
            r == (n < old(self).spec_count()),
            final(self).spec_count() == old(self).spec_count(),
            final(self).spec_view() == old(self).spec_view(),
            final(self).spec_focused() == (if r {
                n as nat
            } else {
                old(self).spec_focused()
            }),
    {
        if n < self.count {
            self.focused = n;
            true
        } else {
            false
        }
    }

    /// Toggles the split view. Leaving it always works; entering it needs
    /// a terminal wide enough (`split_fits`) and opens a second tab, focused,
    /// when there is only one.
    pub fn toggle_split(&mut self, split_fits: bool) -> (r: SplitToggle)
        requires
            old(self).wf(),
        ensures
            final(self).wf(),
            old(self).spec_view() == ViewMode::Split ==> r == SplitToggle::Single && final(self).spec_view()
                == ViewMode::Single && final(self).spec_count() == old(self).spec_count() && final(self).spec_focused()
                == old(self).spec_focused(),
            old(self).spec_view() == ViewMode::Single && !split_fits ==> r == SplitToggle::TooNarrow
                && final(self).spec_view() == ViewMode::Single && final(self).spec_count() == old(self).spec_count()
                && final(self).spec_focused() == old(self).spec_focused(),
            old(self).spec_view() == ViewMode::Single && split_fits ==> {
                let opened = old(self).spec_count() < 2;
                &&& r == SplitToggle::Split(opened)
                &&& final(self).spec_view() == ViewMode::Split
                &&& opened ==> final(self).spec_count() == 2 && final(self).spec_focused() == 1
                &&& !opened ==> final(self).spec_count() == old(self).spec_count() && final(self).spec_focused()
                    == old(self).spec_focused()
            },
    {
        match self.view {
            ViewMode::Split => {
                self.view = ViewMode::Single;
                SplitToggle::Single
            },
            ViewMode::Single => {
                if !split_fits {
                    return SplitToggle::TooNarrow;
                }
                let opened = self.count < 2;
                if opened {
                    self.new_tab();
                }
                self.view = ViewMode::Split;
                SplitToggle::Split(opened)
            },
        }
    }
}

/// A place to jump back to: a directory and the entry selected in it.
pub struct JumpMark {
    pub dir: String,
    pub entry: Option<String>,
}

/// The jump marks set so far, one per key character, keyed by its code
/// point.
pub struct JumpMarks {
    marks: HashMap<u32, JumpMark>,
}

/// A mark as a directory and an optional entry.
pub open spec fn mark_view(m: JumpMark) -> (Seq<char>, Option<Seq<char>>) {
    (
        m.dir@,
        match m.entry {
            Some(e) => Some(e@),
            None => None,
        },
    )
}

impl View for JumpMarks {
    type V = Map<u32, (Seq<char>, Option<Seq<char>>)>;

    closed spec fn view(&self) -> Self::V {
        self.marks@.map_values(|m: JumpMark| mark_view(m))
    }
}

impl JumpMarks {
    /// No marks.
    pub fn new() -> (r: Self)
        ensures
            r@ == Map::<u32, (Seq<char>, Option<Seq<char>>)>::empty(),
    {
        let r = JumpMarks { marks: HashMap::new() };
        assert(r@ =~= Map::<u32, (Seq<char>, Option<Seq<char>>)>::empty());
        r
    }

    /// Sets mark `c` to `dir` with `entry` selected, replacing an earlier
    /// mark with that key.
    pub fn set(&mut self, c: char, dir: String, entry: Option<String>)
        ensures
            final(self)@ == old(self)@.insert(
                c as u32,
                (
                    dir@,
                    match entry {
                        Some(e) => Some(e@),
                        None => None,
                    },
                ),
            ),
    {
        broadcast use vstd::std_specs::hash::group_hash_axioms;

        let ghost before = *self;
        let m = JumpMark { dir, entry };
        let ghost v = mark_view(m);
        self.marks.insert(c as u32, m);
        assert(self@ =~= before@.insert(c as u32, v));
    }

    /// The mark set under `c`, if any.
    pub fn get(&self, c: char) -> (r: Option<JumpMark>)
        ensures
            match r {
                Some(m) => self@.contains_key(c as u32) && self@[c as u32] == mark_view(m),
                None => !self@.contains_key(c as u32),
            },
    {
        broadcast use vstd::std_specs::hash::group_hash_axioms;

        let key: u32 = c as u32;
        match self.marks.get(&key) {
            Some(m) => {
                let entry = match &m.entry {
                    Some(e) => Some(crate::text::copy_string(e)),
                    None => None,
                };
                Some(JumpMark { dir: crate::text::copy_string(&m.dir), entry })
            },
            None => None,
        }
    }
}

/// Jumping to a mark gives back what was set under its key last, and
/// setting one key leaves the others as they were.
pub proof fn law_jump_marks_read_back(m: Map<u32, (Seq<char>, Option<Seq<char>>)>, c: u32, d: u32, v: (
    Seq<char>,
    Option<Seq<char>>,
))
    ensures
        m.insert(c, v).contains_key(c) && m.insert(c, v)[c] == v,
        d != c ==> (m.insert(c, v).contains_key(d) == m.contains_key(d)) && (m.contains_key(d) ==> m.insert(c, v)[d]
            == m[d]),
{
}

} // verus!
