//! Modal input adapters: key events in, [`ModeOp`]s out. The adapters are
//! pure state machines; the application applies the ops.

use vstd::prelude::*;
use crate::input::{Input, InputView, KeyCode, KeyEvent, input_updated, input_wf};

verus! {

/// Which consumer launched a decision flow.
#[derive(Debug, Clone, Copy, PartialEq, Eq)]
pub enum FlowKind {
    UpgradeNotice,
}

/// What the application must undo when a modal mode is cancelled.
#[derive(Debug, Clone, PartialEq, Eq)]
pub enum Cleanup {
    /// Nothing to undo
    Nothing,
    /// Clear the search highlight
    Search,
    /// Clear the rename preview
    RenamePreview,
    /// Clear the new-element preview
    CreatePreview,
    /// Navigate back to the given directory
    CdTo(String),
}

/// The effect a modal mode requests from the application.
#[derive(Debug, Clone, PartialEq, Eq)]
pub enum ModeOp {
    /// Nothing to apply
    NoOp,
    /// Change the visible directory
    Cd(String),
    /// Live-update the search highlight
    UpdateSearch(String),
    /// Conclude the search with the final pattern and leave the mode
    FinishSearch(String),
    /// Live-preview the rename target name
    RenamePreview(String),
    /// Perform the rename and leave the mode
    Rename { to: String },
    /// Live-preview the element being created
    CreatePreview { name: String, is_dir: bool },
    /// Create the element and leave the mode
    Create { name: String, is_dir: bool },
    /// Restore the given trash items to their original location; the view
    /// stays open with the cursor held at `cursor`.
    RestoreFromTrash { items: Vec<trash::TrashItem>, cursor: usize },
    /// A decision flow answered every item.
    FlowResolved { kind: FlowKind, answers: Vec<usize> },
    /// A decision flow was abandoned with unanswerable items pending.
    FlowAborted { kind: FlowKind },
    /// Leave the mode without a concluding action
    Exit { cleanup: Cleanup },
}

/// Screen area a modal mode draws in.
#[derive(Debug, Clone, Copy, PartialEq, Eq)]
pub enum ModalRegion {
    /// Centered overlay (consoles, decision flows)
    ConsoleOverlay,
    /// Single input line in the footer (search, rename, create)
    FooterLine,
}

/// `op` is `Create` of `name` (as a directory iff `is_dir`).
pub open spec fn is_create(op: ModeOp, name: Seq<char>, is_dir: bool) -> bool {
    match op {
        ModeOp::Create { name: n, is_dir: d } => n@ == name && d == is_dir,
        _ => false,
    }
}

/// `op` is `CreatePreview` of `name`.
pub open spec fn is_create_preview(op: ModeOp, name: Seq<char>, is_dir: bool) -> bool {
    match op {
        ModeOp::CreatePreview { name: n, is_dir: d } => n@ == name && d == is_dir,
        _ => false,
    }
}

/// `op` is `Rename` to `to`.
pub open spec fn is_rename(op: ModeOp, to: Seq<char>) -> bool {
    match op {
        ModeOp::Rename { to: t } => t@ == to,
        _ => false,
    }
}

/// `op` is `RenamePreview` of `name`.
pub open spec fn is_rename_preview(op: ModeOp, name: Seq<char>) -> bool {
    match op {
        ModeOp::RenamePreview(n) => n@ == name,
        _ => false,
    }
}

/// `op` is `FinishSearch` with pattern `p`.
pub open spec fn is_finish_search(op: ModeOp, p: Seq<char>) -> bool {
    match op {
        ModeOp::FinishSearch(q) => q@ == p,
        _ => false,
    }
}

/// `op` is `UpdateSearch` with pattern `p`.
pub open spec fn is_update_search(op: ModeOp, p: Seq<char>) -> bool {
    match op {
        ModeOp::UpdateSearch(q) => q@ == p,
        _ => false,
    }
}

/// Footer input for mkdir (`is_dir`) or touch.
pub struct CreateItemMode {
    input: Input,
    is_dir: bool,
}

impl CreateItemMode {
    pub closed spec fn input_view(&self) -> InputView {
        self.input@
    }

    pub closed spec fn spec_is_dir(&self) -> bool {
        self.is_dir
    }

    pub closed spec fn wf(&self) -> bool {
        input_wf(self.input@)
    }

    /// Starts with an empty input.
    pub fn new(is_dir: bool) -> (r: Self)
        ensures
            r.wf(),
            r.input_view().text.len() == 0,
            r.input_view().cursor == 0,
            r.spec_is_dir() == is_dir,
    {
        CreateItemMode { input: Input::empty(), is_dir }
    }

    /// Enter creates the element named by the raw (untrimmed) input, Tab
    /// does nothing, Esc cancels (clearing the preview); any other key edits
    /// the input and previews the new name.
    pub fn handle_key(&mut self, key_event: KeyEvent) -> (r: ModeOp)
        requires
            old(self).wf(),
        ensures
            final(self).wf(),
            final(self).spec_is_dir() == old(self).spec_is_dir(),
            key_event.code == KeyCode::Enter ==> final(self).input_view() == old(self).input_view()
                && is_create(r, old(self).input_view().text, old(self).spec_is_dir()),
            key_event.code == KeyCode::Tab ==> final(self).input_view() == old(self).input_view() && r
                == ModeOp::NoOp,
            key_event.code == KeyCode::Esc ==> final(self).input_view() == old(self).input_view() && r
                == (ModeOp::Exit { cleanup: Cleanup::CreatePreview }),
            key_event.code != KeyCode::Enter && key_event.code != KeyCode::Tab && key_event.code
                != KeyCode::Esc ==> final(self).input_view() == input_updated(
                old(self).input_view(),
                key_event.code,
                key_event.modifiers,
            ) && is_create_preview(r, final(self).input_view().text, old(self).spec_is_dir()),
    {
        match key_event.code {
            KeyCode::Enter => ModeOp::Create { name: self.input.get(), is_dir: self.is_dir },
            KeyCode::Tab => ModeOp::NoOp,
            KeyCode::Esc => ModeOp::Exit { cleanup: Cleanup::CreatePreview },
            key_code => {
                self.input.update(key_code, key_event.modifiers);
                ModeOp::CreatePreview { name: self.input.get(), is_dir: self.is_dir }
            },
        }
    }

    pub fn region(&self) -> (r: ModalRegion)
        ensures
            r == ModalRegion::FooterLine,
    {
        ModalRegion::FooterLine
    }

    /// The mode string: `mkdir` or `touch`.
    pub fn name(&self) -> (r: &'static str)
        ensures
            self.spec_is_dir() ==> r@ == "mkdir"@,
            !self.spec_is_dir() ==> r@ == "touch"@,
    {
        if self.is_dir {
            "mkdir"
        } else {
            "touch"
        }
    }
}

/// Footer input seeded with the selected file's name.
pub struct RenameMode {
    input: Input,
}

impl RenameMode {
    pub closed spec fn input_view(&self) -> InputView {
        self.input@
    }

    pub closed spec fn wf(&self) -> bool {
        input_wf(self.input@)
    }

    /// Seeds the input with `file_name`, cursor at its end.
    pub fn new(file_name: String) -> (r: Self)
        ensures
            r.wf(),
            r.input_view().text == file_name@,
            r.input_view().cursor == file_name@.len(),
    {
        RenameMode { input: Input::from_str(file_name.as_str()) }
    }

    /// Enter renames to the current input, Esc cancels (clearing the
    /// preview); any other key edits the input and previews the name.
    pub fn handle_key(&mut self, key_event: KeyEvent) -> (r: ModeOp)
        requires
            old(self).wf(),
        ensures
            final(self).wf(),
            key_event.code == KeyCode::Enter ==> final(self).input_view() == old(self).input_view()
                && is_rename(r, old(self).input_view().text),
            key_event.code == KeyCode::Esc ==> final(self).input_view() == old(self).input_view() && r
                == (ModeOp::Exit { cleanup: Cleanup::RenamePreview }),
            key_event.code != KeyCode::Enter && key_event.code != KeyCode::Esc ==> final(self).input_view() == input_updated(old(self).input_view(), key_event.code, key_event.modifiers)
                && is_rename_preview(r, final(self).input_view().text),
    {
        match key_event.code {
            KeyCode::Enter => ModeOp::Rename { to: self.input.get() },
            KeyCode::Esc => ModeOp::Exit { cleanup: Cleanup::RenamePreview },
            key_code => {
                self.input.update(key_code, key_event.modifiers);
                ModeOp::RenamePreview(self.input.get())
            },
        }
    }

    pub fn region(&self) -> (r: ModalRegion)
        ensures
            r == ModalRegion::FooterLine,
    {
        ModalRegion::FooterLine
    }

    pub fn name(&self) -> (r: &'static str)
        ensures
            r@ == "rename"@,
    {
        "rename"
    }
}

/// Live-highlighting search input.
pub struct SearchMode {
    input: Input,
}

impl SearchMode {
    pub closed spec fn input_view(&self) -> InputView {
        self.input@
    }

    pub closed spec fn wf(&self) -> bool {
        input_wf(self.input@)
    }

    /// Starts with an empty pattern.
    pub fn new() -> (r: Self)
        ensures
            r.wf(),
            r.input_view().text.len() == 0,
            r.input_view().cursor == 0,
    {
        SearchMode { input: Input::empty() }
    }

    /// Enter concludes the search with the pattern, Esc cancels (clearing
    /// the highlight); any other key edits the pattern and updates the
    /// highlight.
    pub fn handle_key(&mut self, key_event: KeyEvent) -> (r: ModeOp)
        requires
            old(self).wf(),
        ensures
            final(self).wf(),
            key_event.code == KeyCode::Enter ==> final(self).input_view() == old(self).input_view()
                && is_finish_search(r, old(self).input_view().text),
            key_event.code == KeyCode::Esc ==> final(self).input_view() == old(self).input_view() && r
                == (ModeOp::Exit { cleanup: Cleanup::Search }),
            key_event.code != KeyCode::Enter && key_event.code != KeyCode::Esc ==> final(self).input_view() == input_updated(old(self).input_view(), key_event.code, key_event.modifiers)
                && is_update_search(r, final(self).input_view().text),
    {
        match key_event.code {
            KeyCode::Enter => ModeOp::FinishSearch(self.input.get()),
            KeyCode::Esc => ModeOp::Exit { cleanup: Cleanup::Search },
            key_code => {
                self.input.update(key_code, key_event.modifiers);
                ModeOp::UpdateSearch(self.input.get())
            },
        }
    }

    pub fn region(&self) -> (r: ModalRegion)
        ensures
            r == ModalRegion::FooterLine,
    {
        ModalRegion::FooterLine
    }

    pub fn name(&self) -> (r: &'static str)
        ensures
            r@ == "search"@,
    {
        "search"
    }
}

} // verus!
