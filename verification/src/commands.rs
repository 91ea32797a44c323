//! What a command of normal mode does to the manager's own state (tabs,
//! split view, jump marks, clipboard, hidden files, log) and which panel
//! and filesystem work it asks for, in order.

use vstd::prelude::*;
use crate::console::strings_of;
use crate::tabs::{JumpMark, JumpMarks, SplitToggle, TabBar, TabClose, ViewMode, MAX_TABS};
use crate::util::{expand_command, interspersed, escaped_all, with_paths};

verus! {

/// A cursor movement.
#[derive(Debug)]
pub enum Move {
    Up,
    Down,
    Left,
    Right,
    Top,
    Bottom,
    HalfPageForward,
    HalfPageBackward,
    PageForward,
    PageBackward,
    JumpTo(String),
    JumpPrevious,
}

/// A command of normal mode, as the key parser produced it.
#[derive(Debug)]
pub enum Command {
    /// A key that completes no command.
    NoOp,
    Move(Move),
    ViewTrash,
    ToggleHidden,
    ToggleLog,
    Cd { zoxide: bool },
    Search,
    Rename,
    Next,
    Previous,
    Mkdir,
    Touch,
    Mark,
    Undo,
    Redo,
    FocusNext,
    NewTab,
    CloseTab,
    /// Focuses tab `.0`, counted from 1.
    FocusTab(usize),
    ToggleSplit,
    Cut,
    Copy,
    Delete,
    Paste { overwrite: bool },
    Zip,
    Tar,
    Extract,
    Quit,
    QuitWithoutPath,
    UserCommand { name: String, cmd: String, interactive: bool, separator: String },
    SetJumpMark(char),
    JumpToMark(char),
}

/// What the focused tab's panels show when the command comes.
pub struct Surroundings {
    /// The center panel's directory.
    pub cwd: String,
    /// The selected path, if any.
    pub selected: Option<String>,
    /// The selected entry's file name (empty when there is none).
    pub selected_name: String,
    /// The marked paths, or the selected one when nothing is marked.
    pub targets: Vec<String>,
    /// The marked paths.
    pub marked: Vec<String>,
    /// Whether the terminal is wide enough for the split view.
    pub split_fits: bool,
    /// The height of the panels, in rows.
    pub height: u16,
}

/// Work for the panels and the filesystem, in the order given.
#[derive(Debug, PartialEq, Eq)]
pub enum Effect {
    MoveUp(usize),
    MoveDown(usize),
    MoveLeft,
    MoveRight,
    JumpTo(String),
    JumpPrevious,
    OpenTrash,
    TrashDisabled,
    /// Show (or hide) hidden files in the focused tab's panels.
    ApplyHidden(bool),
    OpenCd(bool),
    OpenSearch,
    OpenRename(String),
    BulkRename(Vec<String>),
    SelectNextMarked,
    SelectPrevMarked,
    OpenCreate(bool),
    MarkSelected,
    Undo,
    Redo,
    /// Bring the focused tab's preview up to date with its center
    /// panel's selection.
    RefreshPreview,
    /// Open a tab at the focused tab's directory, after the others.
    OpenTab,
    RemoveTab(usize),
    TabLimit,
    TooNarrow,
    Quit(String),
    QuitWithoutPath,
    UnmarkAll,
    ReloadAll,
    TrashFiles(Vec<String>),
    DeleteFiles(Vec<String>),
    Paste { files: Vec<String>, cut: bool, overwrite: bool, dest: String },
    Zip(Vec<String>, String),
    Tar(Vec<String>, String),
    Extract(String, String),
    NothingToExtract,
    RunInteractive { name: String, cmd: String, dir: String },
    QueueCommand { name: String, cmd: String, dir: String },
    JumpToMark { dir: String, entry: Option<String> },
    MarkNotSet(char),
}

/// An [`Effect`] with its text as character sequences.
pub enum EffectV {
    MoveUp(usize),
    MoveDown(usize),
    MoveLeft,
    MoveRight,
    JumpTo(Seq<char>),
    JumpPrevious,
    OpenTrash,
    TrashDisabled,
    ApplyHidden(bool),
    OpenCd(bool),
    OpenSearch,
    OpenRename(Seq<char>),
    BulkRename(Seq<Seq<char>>),
    SelectNextMarked,
    SelectPrevMarked,
    OpenCreate(bool),
    MarkSelected,
    Undo,
    Redo,
    RefreshPreview,
    OpenTab,
    RemoveTab(usize),
    TabLimit,
    TooNarrow,
    Quit(Seq<char>),
    QuitWithoutPath,
    UnmarkAll,
    ReloadAll,
    TrashFiles(Seq<Seq<char>>),
    DeleteFiles(Seq<Seq<char>>),
    Paste { files: Seq<Seq<char>>, cut: bool, overwrite: bool, dest: Seq<char> },
    Zip(Seq<Seq<char>>, Seq<char>),
    Tar(Seq<Seq<char>>, Seq<char>),
    Extract(Seq<char>, Seq<char>),
    NothingToExtract,
    RunInteractive { name: Seq<char>, cmd: Seq<char>, dir: Seq<char> },
    QueueCommand { name: Seq<char>, cmd: Seq<char>, dir: Seq<char> },
    JumpToMark { dir: Seq<char>, entry: Option<Seq<char>> },
    MarkNotSet(char),
}

pub open spec fn opt_chars(o: Option<String>) -> Option<Seq<char>> {
    match o {
        Some(s) => Some(s@),
        None => None,
    }
}

impl View for Effect {
    type V = EffectV;

    open spec fn view(&self) -> EffectV {
        match self {
            Effect::MoveUp(n) => EffectV::MoveUp(*n),
            Effect::MoveDown(n) => EffectV::MoveDown(*n),
            Effect::MoveLeft => EffectV::MoveLeft,
            Effect::MoveRight => EffectV::MoveRight,
            Effect::JumpTo(p) => EffectV::JumpTo(p@),
            Effect::JumpPrevious => EffectV::JumpPrevious,
            Effect::OpenTrash => EffectV::OpenTrash,
            Effect::TrashDisabled => EffectV::TrashDisabled,
            Effect::ApplyHidden(b) => EffectV::ApplyHidden(*b),
            Effect::OpenCd(z) => EffectV::OpenCd(*z),
            Effect::OpenSearch => EffectV::OpenSearch,
            Effect::OpenRename(n) => EffectV::OpenRename(n@),
            Effect::BulkRename(f) => EffectV::BulkRename(strings_of(f@)),
            Effect::SelectNextMarked => EffectV::SelectNextMarked,
            Effect::SelectPrevMarked => EffectV::SelectPrevMarked,
            Effect::OpenCreate(d) => EffectV::OpenCreate(*d),
            Effect::MarkSelected => EffectV::MarkSelected,
            Effect::Undo => EffectV::Undo,
            Effect::Redo => EffectV::Redo,
            Effect::RefreshPreview => EffectV::RefreshPreview,
            Effect::OpenTab => EffectV::OpenTab,
            Effect::RemoveTab(i) => EffectV::RemoveTab(*i),
            Effect::TabLimit => EffectV::TabLimit,
            Effect::TooNarrow => EffectV::TooNarrow,
            Effect::Quit(p) => EffectV::Quit(p@),
            Effect::QuitWithoutPath => EffectV::QuitWithoutPath,
            Effect::UnmarkAll => EffectV::UnmarkAll,
            Effect::ReloadAll => EffectV::ReloadAll,
            Effect::TrashFiles(f) => EffectV::TrashFiles(strings_of(f@)),
            Effect::DeleteFiles(f) => EffectV::DeleteFiles(strings_of(f@)),
            Effect::Paste { files, cut, overwrite, dest } => EffectV::Paste {
                files: strings_of(files@),
                cut: *cut,
                overwrite: *overwrite,
                dest: dest@,
            },
            Effect::Zip(f, d) => EffectV::Zip(strings_of(f@), d@),
            Effect::Tar(f, d) => EffectV::Tar(strings_of(f@), d@),
            Effect::Extract(a, d) => EffectV::Extract(a@, d@),
            Effect::NothingToExtract => EffectV::NothingToExtract,
            Effect::RunInteractive { name, cmd, dir } => EffectV::RunInteractive { name: name@, cmd: cmd@, dir: dir@ },
            Effect::QueueCommand { name, cmd, dir } => EffectV::QueueCommand { name: name@, cmd: cmd@, dir: dir@ },
            Effect::JumpToMark { dir, entry } => EffectV::JumpToMark { dir: dir@, entry: opt_chars(*entry) },
            Effect::MarkNotSet(c) => EffectV::MarkNotSet(*c),
        }
    }
}

/// The views of a sequence of effects.
pub open spec fn effects_view(s: Seq<Effect>) -> Seq<EffectV> {
    s.map_values(|e: Effect| e@)
}

/// Files put aside by cut or copy.
pub struct Clipboard {
    pub files: Vec<String>,
    pub cut: bool,
}

/// The manager's own state: the tabs and view mode, the jump marks, the
/// clipboard, and the hidden-file, log and trash switches.
pub struct ManagerState {
    tabs: TabBar,
    marks: JumpMarks,
    clipboard: Option<Clipboard>,
    show_hidden: bool,
    show_log: bool,
    use_trash: bool,
}

/// The mathematical content of a [`ManagerState`].
pub struct ManagerView {
    pub count: nat,
    pub focused: nat,
    pub view: ViewMode,
    /// The jump marks, by the code point of their key.
    pub marks: Map<u32, (Seq<char>, Option<Seq<char>>)>,
    pub clipboard: Option<(Seq<Seq<char>>, bool)>,
    pub show_hidden: bool,
    pub show_log: bool,
    pub use_trash: bool,
}

impl View for ManagerState {
    type V = ManagerView;

    closed spec fn view(&self) -> ManagerView {
        ManagerView {
            count: self.tabs.spec_count(),
            focused: self.tabs.spec_focused(),
            view: self.tabs.spec_view(),
            marks: self.marks@,
            clipboard: match self.clipboard {
                Some(c) => Some((strings_of(c.files@), c.cut)),
                None => None,
            },
            show_hidden: self.show_hidden,
            show_log: self.show_log,
            use_trash: self.use_trash,
        }
    }
}

/// Between one and [`MAX_TABS`] tabs, the focus on one, the split view
/// only with two or more.
pub open spec fn manager_wf(m: ManagerView) -> bool {
    &&& 1 <= m.count <= MAX_TABS
    &&& m.focused < m.count
    &&& m.view == ViewMode::Split ==> m.count >= 2
}

/// The movement as panel work, a page being the panel height.
pub open spec fn move_effect(mv: Move, height: u16) -> EffectV {
    match mv {
        Move::Up => EffectV::MoveUp(1),
        Move::Down => EffectV::MoveDown(1),
        Move::Left => EffectV::MoveLeft,
        Move::Right => EffectV::MoveRight,
        Move::Top => EffectV::MoveUp(usize::MAX),
        Move::Bottom => EffectV::MoveDown(usize::MAX),
        Move::HalfPageForward => EffectV::MoveDown((height / 2) as usize),
        Move::HalfPageBackward => EffectV::MoveUp((height / 2) as usize),
        Move::PageForward => EffectV::MoveDown(height as usize),
        Move::PageBackward => EffectV::MoveUp(height as usize),
        Move::JumpTo(p) => EffectV::JumpTo(p@),
        Move::JumpPrevious => EffectV::JumpPrevious,
    }
}

/// A preview refresh when the preview is on screen.
pub open spec fn refresh_if_single(view: ViewMode) -> Seq<EffectV> {
    if view == ViewMode::Single {
        seq![EffectV::RefreshPreview]
    } else {
        Seq::empty()
    }
}

/// The state after command `cmd` with the panels as `sur` says, and the work
/// it asks for.
pub open spec fn command_step(m: ManagerView, sur: Surroundings, cmd: Command) -> (ManagerView, Seq<EffectV>) {
    let cwd = sur.cwd@;
    let targets = strings_of(sur.targets@);
    match cmd {
        Command::NoOp => (m, Seq::empty()),
        Command::Move(mv) => (m, seq![move_effect(mv, sur.height)]),
        Command::ViewTrash => (m, seq![if m.use_trash { EffectV::OpenTrash } else { EffectV::TrashDisabled }]),
        Command::ToggleHidden => (
            ManagerView { show_hidden: !m.show_hidden, ..m },
            seq![EffectV::ApplyHidden(!m.show_hidden), EffectV::RefreshPreview],
        ),
        Command::ToggleLog => (ManagerView { show_log: !m.show_log, ..m }, Seq::empty()),
        Command::Cd { zoxide } => (m, seq![EffectV::OpenCd(zoxide)]),
        Command::Search => (m, seq![EffectV::OpenSearch]),
        Command::Rename => if sur.marked@.len() > 1 {
            (m, seq![EffectV::UnmarkAll, EffectV::BulkRename(strings_of(sur.marked@)), EffectV::ReloadAll])
        } else {
            (m, seq![EffectV::OpenRename(sur.selected_name@)])
        },
        Command::Next => (m, seq![EffectV::SelectNextMarked, EffectV::RefreshPreview]),
        Command::Previous => (m, seq![EffectV::SelectPrevMarked, EffectV::RefreshPreview]),
        Command::Mkdir => (m, seq![EffectV::OpenCreate(true)]),
        Command::Touch => (m, seq![EffectV::OpenCreate(false)]),
        Command::Mark => (m, seq![EffectV::MarkSelected, EffectV::MoveDown(1)]),
        Command::Undo => (m, seq![EffectV::Undo]),
        Command::Redo => (m, seq![EffectV::Redo]),
        Command::FocusNext => (
            ManagerView { focused: (m.focused + 1) % m.count, ..m },
            refresh_if_single(m.view),
        ),
        Command::NewTab => if m.count < MAX_TABS {
            (ManagerView { count: m.count + 1, focused: m.count, ..m }, seq![EffectV::OpenTab])
        } else {
            (m, seq![EffectV::TabLimit])
        },
        Command::CloseTab => if m.count == 1 {
            (m, seq![EffectV::Quit(cwd)])
        } else {
            let count = (m.count - 1) as nat;
            let focused = if m.focused < count {
                m.focused
            } else {
                (count - 1) as nat
            };
            let view = if count == 1 {
                ViewMode::Single
            } else {
                m.view
            };
            (
                ManagerView { count, focused, view, ..m },
                seq![EffectV::RemoveTab(m.focused as usize)] + refresh_if_single(view),
            )
        },
        Command::FocusTab(n) => {
            let k = if n >= 1 {
                n - 1
            } else {
                0
            };
            if k < m.count {
                (ManagerView { focused: k as nat, ..m }, refresh_if_single(m.view))
            } else {
                (m, Seq::empty())
            }
        },
        Command::ToggleSplit => if m.view == ViewMode::Split {
            (ManagerView { view: ViewMode::Single, ..m }, seq![EffectV::RefreshPreview])
        } else if !sur.split_fits {
            (m, seq![EffectV::TooNarrow])
        } else if m.count < 2 {
            (ManagerView { count: 2, focused: 1, view: ViewMode::Split, ..m }, seq![EffectV::OpenTab])
        } else {
            (ManagerView { view: ViewMode::Split, ..m }, Seq::empty())
        },
        Command::Cut => (ManagerView { clipboard: Some((targets, true)), ..m }, Seq::empty()),
        Command::Copy => (ManagerView { clipboard: Some((targets, false)), ..m }, Seq::empty()),
        Command::Delete => (
            m,
            seq![
                EffectV::UnmarkAll,
                if m.use_trash {
                    EffectV::TrashFiles(targets)
                } else {
                    EffectV::DeleteFiles(targets)
                },
                EffectV::ReloadAll,
            ],
        ),
        Command::Paste { overwrite } => (
            ManagerView { clipboard: None, ..m },
            match m.clipboard {
                Some((files, cut)) => seq![
                    EffectV::UnmarkAll,
                    EffectV::Paste { files, cut, overwrite, dest: cwd },
                    EffectV::ReloadAll,
                ],
                None => seq![EffectV::UnmarkAll, EffectV::ReloadAll],
            },
        ),
        Command::Zip => (m, seq![EffectV::Zip(targets, cwd)]),
        Command::Tar => (m, seq![EffectV::Tar(targets, cwd)]),
        Command::Extract => (
            m,
            seq![
                match sur.selected {
                    Some(a) => EffectV::Extract(a@, cwd),
                    None => EffectV::NothingToExtract,
                },
            ],
        ),
        Command::Quit => (m, seq![EffectV::Quit(cwd)]),
        Command::QuitWithoutPath => (m, seq![EffectV::QuitWithoutPath]),
        Command::UserCommand { name, cmd, interactive, separator } => {
            let expanded = with_paths(cmd@, interspersed(escaped_all(sur.targets@), separator@));
            (
                m,
                seq![
                    if interactive {
                        EffectV::RunInteractive { name: name@, cmd: expanded, dir: cwd }
                    } else {
                        EffectV::QueueCommand { name: name@, cmd: expanded, dir: cwd }
                    },
                    EffectV::UnmarkAll,
                ],
            )
        },
        Command::SetJumpMark(c) => (
            ManagerView { marks: m.marks.insert(c as u32, (cwd, opt_chars(sur.selected))), ..m },
            Seq::empty(),
        ),
        Command::JumpToMark(c) => (
            m,
            seq![
                if m.marks.contains_key(c as u32) {
                    EffectV::JumpToMark { dir: m.marks[c as u32].0, entry: m.marks[c as u32].1 }
                } else {
                    EffectV::MarkNotSet(c)
                },
            ],
        ),
    }
}

impl ManagerState {
    /// One tab in the single view, no marks, an empty clipboard; hidden
    /// files and the log as configured, deleting through the trash when
    /// `use_trash`.
    pub fn new(show_hidden: bool, show_log: bool, use_trash: bool) -> (r: Self)
        ensures
            manager_wf(r@),
            r@.count == 1,
            r@.focused == 0,
            r@.view == ViewMode::Single,
            r@.marks == Map::<u32, (Seq<char>, Option<Seq<char>>)>::empty(),
            r@.clipboard is None,
            r@.show_hidden == show_hidden,
            r@.show_log == show_log,
            r@.use_trash == use_trash,
    {
        ManagerState { tabs: TabBar::new(), marks: JumpMarks::new(), clipboard: None, show_hidden, show_log, use_trash }
    }

    pub fn tabs(&self) -> (r: &TabBar)
        ensures
            r.spec_count() == self@.count,
            r.spec_focused() == self@.focused,
            r.spec_view() == self@.view,
    {
        &self.tabs
    }

    pub fn show_hidden(&self) -> (r: bool)
        ensures
            r == self@.show_hidden,
    {
        self.show_hidden
    }

    pub fn show_log(&self) -> (r: bool)
        ensures
            r == self@.show_log,
    {
        self.show_log
    }
}

/// The movement as panel work.
fn move_work(mv: Move, height: u16) -> (r: Effect)
    ensures
        r@ == move_effect(mv, height),
{
    match mv {
        Move::Up => Effect::MoveUp(1),
        Move::Down => Effect::MoveDown(1),
        Move::Left => Effect::MoveLeft,
        Move::Right => Effect::MoveRight,
        Move::Top => Effect::MoveUp(usize::MAX),
        Move::Bottom => Effect::MoveDown(usize::MAX),
        Move::HalfPageForward => Effect::MoveDown((height / 2) as usize),
        Move::HalfPageBackward => Effect::MoveUp((height / 2) as usize),
        Move::PageForward => Effect::MoveDown(height as usize),
        Move::PageBackward => Effect::MoveUp(height as usize),
        Move::JumpTo(p) => Effect::JumpTo(p),
        Move::JumpPrevious => Effect::JumpPrevious,
    }
}

/// Appends a preview refresh when the preview is on screen.
fn push_refresh_if_single(out: &mut Vec<Effect>, view: ViewMode)
    ensures
        effects_view(final(out)@) == effects_view(old(out)@) + refresh_if_single(view),
{
    let ghost before = out@;
    if view == ViewMode::Single {
        out.push(Effect::RefreshPreview);
        assert(effects_view(out@) =~= effects_view(before) + refresh_if_single(view));
    } else {
        assert(effects_view(out@) =~= effects_view(before) + refresh_if_single(view));
    }
}

/// Carries out command `cmd` of normal mode on the manager's state, the
/// panels being as `sur` says; see [`command_step`] for the new state and the
/// work asked for.
#[verifier::rlimit(100)]
pub fn handle_command(state: &mut ManagerState, sur: Surroundings, cmd: Command) -> (r: Vec<Effect>)
    requires
        manager_wf(old(state)@),
    ensures
        manager_wf(final(state)@),
        (final(state)@, effects_view(r@)) == command_step(old(state)@, sur, cmd),
{
    let ghost m = state@;
    let ghost s0 = sur;
    let ghost c0 = cmd;
    let ghost cwd = sur.cwd@;
    let ghost targets = strings_of(sur.targets@);
    let mut out: Vec<Effect> = Vec::new();
    match cmd {
        Command::NoOp => {},
        Command::Move(mv) => {
            out.push(move_work(mv, sur.height));
        },
        Command::ViewTrash => {
            if state.use_trash {
                out.push(Effect::OpenTrash);
            } else {
                out.push(Effect::TrashDisabled);
            }
        },
        Command::ToggleHidden => {
            state.show_hidden = !state.show_hidden;
            out.push(Effect::ApplyHidden(state.show_hidden));
            out.push(Effect::RefreshPreview);
        },
        Command::ToggleLog => {
            state.show_log = !state.show_log;
        },
        Command::Cd { zoxide } => {
            out.push(Effect::OpenCd(zoxide));
        },
        Command::Search => {
            out.push(Effect::OpenSearch);
        },
        Command::Rename => {
            if sur.marked.len() > 1 {
                out.push(Effect::UnmarkAll);
                out.push(Effect::BulkRename(sur.marked));
                out.push(Effect::ReloadAll);
            } else {
                out.push(Effect::OpenRename(sur.selected_name));
            }
        },
        Command::Next => {
            out.push(Effect::SelectNextMarked);
            out.push(Effect::RefreshPreview);
        },
        Command::Previous => {
            out.push(Effect::SelectPrevMarked);
            out.push(Effect::RefreshPreview);
        },
        Command::Mkdir => {
            out.push(Effect::OpenCreate(true));
        },
        Command::Touch => {
            out.push(Effect::OpenCreate(false));
        },
        Command::Mark => {
            out.push(Effect::MarkSelected);
            out.push(Effect::MoveDown(1));
        },
        Command::Undo => {
            out.push(Effect::Undo);
        },
        Command::Redo => {
            out.push(Effect::Redo);
        },
        Command::FocusNext => {
            state.tabs.focus_next();
            push_refresh_if_single(&mut out, state.tabs.view());
        },
        Command::NewTab => {
            if state.tabs.new_tab() {
                out.push(Effect::OpenTab);
            } else {
                out.push(Effect::TabLimit);
            }
        },
        Command::CloseTab => {
            match state.tabs.close_tab() {
                TabClose::Quit => {
                    out.push(Effect::Quit(sur.cwd));
                },
                TabClose::Closed(i) => {
                    out.push(Effect::RemoveTab(i));
                    push_refresh_if_single(&mut out, state.tabs.view());
                },
            }
        },
        Command::FocusTab(n) => {
            let k = n.saturating_sub(1);
            if state.tabs.focus_tab(k) {
                push_refresh_if_single(&mut out, state.tabs.view());
            }
        },
        Command::ToggleSplit => {
            match state.tabs.toggle_split(sur.split_fits) {
                SplitToggle::Single => {
                    out.push(Effect::RefreshPreview);
                },
                SplitToggle::TooNarrow => {
                    out.push(Effect::TooNarrow);
                },
                SplitToggle::Split(opened) => {
                    if opened {
                        out.push(Effect::OpenTab);
                    }
                },
            }
        },
        Command::Cut => {
            state.clipboard = Some(Clipboard { files: sur.targets, cut: true });
        },
        Command::Copy => {
            state.clipboard = Some(Clipboard { files: sur.targets, cut: false });
        },
        Command::Delete => {
            out.push(Effect::UnmarkAll);
            if state.use_trash {
                out.push(Effect::TrashFiles(sur.targets));
            } else {
                out.push(Effect::DeleteFiles(sur.targets));
            }
            out.push(Effect::ReloadAll);
        },
        Command::Paste { overwrite } => {
            out.push(Effect::UnmarkAll);
            let taken = state.clipboard.take();
            if let Some(c) = taken {
                out.push(Effect::Paste { files: c.files, cut: c.cut, overwrite, dest: sur.cwd });
            }
            out.push(Effect::ReloadAll);
        },
        Command::Zip => {
            out.push(Effect::Zip(sur.targets, sur.cwd));
        },
        Command::Tar => {
            out.push(Effect::Tar(sur.targets, sur.cwd));
        },
        Command::Extract => {
            match sur.selected {
                Some(a) => {
                    out.push(Effect::Extract(a, sur.cwd));
                },
                None => {
                    out.push(Effect::NothingToExtract);
                },
            }
        },
        Command::Quit => {
            out.push(Effect::Quit(sur.cwd));
        },
        Command::QuitWithoutPath => {
            out.push(Effect::QuitWithoutPath);
        },
        Command::UserCommand { name, cmd, interactive, separator } => {
            let expanded = expand_command(cmd.as_str(), &sur.targets, separator.as_str());
            if interactive {
                out.push(Effect::RunInteractive { name, cmd: expanded, dir: sur.cwd });
            } else {
                out.push(Effect::QueueCommand { name, cmd: expanded, dir: sur.cwd });
            }
            out.push(Effect::UnmarkAll);
        },
        Command::SetJumpMark(c) => {
            state.marks.set(c, sur.cwd, sur.selected);
        },
        Command::JumpToMark(c) => {
            match state.marks.get(c) {
                Some(mark) => {
                    let JumpMark { dir, entry } = mark;
                    out.push(Effect::JumpToMark { dir, entry });
                },
                None => {
                    out.push(Effect::MarkNotSet(c));
                },
            }
        },
    }
    proof {
        let expected = command_step(m, s0, c0);
        assert(effects_view(out@) =~= expected.1);
        assert(state@ == expected.0);
    }
    out
}

/// Every command keeps the tabs well formed: between one and
/// [`MAX_TABS`], the focus on one of them, the split view only with two.
pub proof fn law_commands_keep_the_tabs_well_formed(m: ManagerView, sur: Surroundings, cmd: Command)
    requires
        manager_wf(m),
    ensures
        manager_wf(command_step(m, sur, cmd).0),
{
}

/// Jumping to a mark goes to the directory and entry that were current
/// when the mark was set, whatever the panels show at the jump.
pub proof fn law_jump_returns_to_the_marked_place(m: ManagerView, at_set: Surroundings, at_jump: Surroundings, c: char)
    ensures
        command_step(command_step(m, at_set, Command::SetJumpMark(c)).0, at_jump, Command::JumpToMark(c)).1 == seq![
            EffectV::JumpToMark { dir: at_set.cwd@, entry: opt_chars(at_set.selected) },
        ],
{
}

/// Pasting empties the clipboard: a second paste pastes nothing.
pub proof fn law_paste_empties_the_clipboard(m: ManagerView, sur: Surroundings, again: Surroundings, ow: bool, ow2: bool)
    ensures
        command_step(m, sur, Command::Paste { overwrite: ow }).0.clipboard is None,
        command_step(command_step(m, sur, Command::Paste { overwrite: ow }).0, again, Command::Paste { overwrite: ow2 }).1
            == seq![EffectV::UnmarkAll, EffectV::ReloadAll],
{
}

/// Copying never turns into a move: after Copy the clipboard holds the
/// targets marked as a copy, after Cut marked as a cut, and the next paste
/// hands exactly those files over, copying or moving them into the
/// directory of the paste.
pub proof fn law_copy_pastes_a_copy_and_cut_pastes_a_move(
    m: ManagerView,
    at_copy: Surroundings,
    at_paste: Surroundings,
    overwrite: bool,
)
    ensures
        command_step(m, at_copy, Command::Copy).0.clipboard == Some((strings_of(at_copy.targets@), false)),
        command_step(m, at_copy, Command::Cut).0.clipboard == Some((strings_of(at_copy.targets@), true)),
        (command_step(command_step(m, at_copy, Command::Copy).0, at_paste, Command::Paste { overwrite }).1[1]
            == EffectV::Paste {
            files: strings_of(at_copy.targets@),
            cut: false,
            overwrite,
            dest: at_paste.cwd@,
        }),
        (command_step(command_step(m, at_copy, Command::Cut).0, at_paste, Command::Paste { overwrite }).1[1]
            == EffectV::Paste {
            files: strings_of(at_copy.targets@),
            cut: true,
            overwrite,
            dest: at_paste.cwd@,
        }),
{
}

/// `gg` and `G` go to the ends whatever the panel height: a move up or
/// down by `usize::MAX`, which the panel clamps to its first or last entry.
/// A page moves by the height, half a page by half of it.
pub proof fn law_top_and_bottom_go_to_the_ends(h1: u16, h2: u16)
    ensures
        move_effect(Move::Top, h1) == EffectV::MoveUp(usize::MAX),
        move_effect(Move::Bottom, h1) == EffectV::MoveDown(usize::MAX),
        move_effect(Move::Bottom, h1) == move_effect(Move::Bottom, h2),
        move_effect(Move::Top, h1) == move_effect(Move::Top, h2),
        move_effect(Move::PageForward, h1) == EffectV::MoveDown(h1 as usize),
        move_effect(Move::PageBackward, h1) == EffectV::MoveUp(h1 as usize),
        move_effect(Move::HalfPageForward, h1) == EffectV::MoveDown((h1 / 2) as usize),
        move_effect(Move::HalfPageBackward, h1) == EffectV::MoveUp((h1 / 2) as usize),
{
}

} // verus!
