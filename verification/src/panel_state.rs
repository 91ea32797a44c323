//! Panel bookkeeping: the state that travels with every content request,
//! and the Miller-column layout of the terminal.

use vstd::prelude::*;
use crate::text::copy_string;
use std::ops::Range;

verus! {

/// A random panel id, drawn from the thread-local generator
/// (`rand::random::<u64>`). Nothing is promised of the value.
#[verifier::external_body]
fn random_id() -> (r: u64) {
    rand::random::<u64>()
}

/// The state of a managed panel.
#[derive(Debug)]
pub struct PanelState {
    /// Random id of the panel, drawn at creation; the answer to a request
    /// names it, so that the right panel is updated.
    panel_id: u64,
    /// Counts the updates of the panel, so that an answer to an older
    /// request never overwrites newer content.
    pub cnt: u64,
    /// Path of the panel.
    path: String,
    /// Hash of the panel's content.
    hash: u64,
}

impl PanelState {
    pub closed spec fn spec_id(&self) -> u64 {
        self.panel_id
    }

    pub closed spec fn spec_cnt(&self) -> u64 {
        self.cnt
    }

    pub closed spec fn spec_path(&self) -> Seq<char> {
        self.path@
    }

    pub closed spec fn spec_hash(&self) -> u64 {
        self.hash
    }

    /// A fresh state with a random id: counter 0, empty path, hash 0.
    pub fn new() -> (r: Self)
        ensures
            r.spec_cnt() == 0,
            r.spec_path() == Seq::<char>::empty(),
            r.spec_hash() == 0,
    {
        PanelState { panel_id: random_id(), cnt: 0, path: String::new(), hash: 0 }
    }

    /// The state with the given parts.
    pub fn with_parts(panel_id: u64, cnt: u64, path: String, hash: u64) -> (r: Self)
        ensures
            r.spec_id() == panel_id,
            r.spec_cnt() == cnt,
            r.spec_path() == path@,
            r.spec_hash() == hash,
    {
        PanelState { panel_id, cnt, path, hash }
    }

    /// Counts one more update.
    pub fn increase(&mut self)
        requires
            old(self).spec_cnt() < u64::MAX,
        ensures
            final(self).spec_cnt() == old(self).spec_cnt() + 1,
            final(self).spec_id() == old(self).spec_id(),
            final(self).spec_path() == old(self).spec_path(),
            final(self).spec_hash() == old(self).spec_hash(),
    {
        self.cnt = self.cnt + 1;
    }

    /// A copy of the state with the counter one higher.
    pub fn increased(&self) -> (r: Self)
        requires
            self.spec_cnt() < u64::MAX,
        ensures
            r.spec_cnt() == self.spec_cnt() + 1,
            r.spec_id() == self.spec_id(),
            r.spec_path() == self.spec_path(),
            r.spec_hash() == self.spec_hash(),
    {
        PanelState { panel_id: self.panel_id, cnt: self.cnt + 1, path: copy_string(&self.path), hash: self.hash }
    }

    /// A copy of the state.
    pub fn copy(&self) -> (r: Self)
        ensures
            r.spec_cnt() == self.spec_cnt(),
            r.spec_id() == self.spec_id(),
            r.spec_path() == self.spec_path(),
            r.spec_hash() == self.spec_hash(),
    {
        PanelState { panel_id: self.panel_id, cnt: self.cnt, path: copy_string(&self.path), hash: self.hash }
    }

    /// Whether `other` is newer content for this panel: it has the same id
    /// and a higher counter.
    pub fn check_update(&self, other: &PanelState) -> (r: bool)
        ensures
            r == (self.spec_id() == other.spec_id() && self.spec_cnt() < other.spec_cnt()),
    {
        if self.panel_id == other.panel_id {
            self.cnt < other.cnt
        } else {
            false
        }
    }

    /// Records that the panel now shows content with `hash` at `path`: the
    /// counter goes up by one.
    pub fn record_update(&mut self, hash: u64, path: String)
        requires
            old(self).spec_cnt() < u64::MAX,
        ensures
            final(self).spec_cnt() == old(self).spec_cnt() + 1,
            final(self).spec_id() == old(self).spec_id(),
            final(self).spec_path() == path@,
            final(self).spec_hash() == hash,
    {
        self.hash = hash;
        self.increase();
        self.path = path;
    }

    pub fn id(&self) -> (r: u64)
        ensures
            r == self.spec_id(),
    {
        self.panel_id
    }

    pub fn hash(&self) -> (r: u64)
        ensures
            r == self.spec_hash(),
    {
        self.hash
    }

    pub fn path(&self) -> (r: String)
        ensures
            r@ == self.spec_path(),
    {
        copy_string(&self.path)
    }
}

impl Default for PanelState {
    /// A fresh state with a random id.
    fn default() -> (r: Self)
        ensures
            r.spec_cnt() == 0,
            r.spec_path() == Seq::<char>::empty(),
            r.spec_hash() == 0,
    {
        PanelState::new()
    }
}

/// Everything needed to update a panel; sent with a content request.
#[derive(Debug)]
pub struct PanelUpdate {
    pub state: PanelState,
}

/// After an update is recorded, an answer carrying the state from before
/// it is stale, and the recorded state itself is not newer than itself.
pub proof fn law_older_answers_are_stale(before: PanelState, after: PanelState)
    requires
        after.spec_id() == before.spec_id(),
        after.spec_cnt() == before.spec_cnt() + 1,
    ensures
        !(after.spec_id() == before.spec_id() && after.spec_cnt() < before.spec_cnt()),
        !(after.spec_id() == after.spec_id() && after.spec_cnt() < after.spec_cnt()),
        before.spec_id() == after.spec_id() && before.spec_cnt() < after.spec_cnt(),
{
}

/// The three Miller columns, the content rows and the terminal width.
pub struct MillerColumns {
    left_x_range: Range<u16>,
    center_x_range: Range<u16>,
    right_x_range: Range<u16>,
    y_range: Range<u16>,
    width: u16,
}

impl MillerColumns {
    pub closed spec fn spec_left(&self) -> (u16, u16) {
        (self.left_x_range.start, self.left_x_range.end)
    }

    pub closed spec fn spec_center(&self) -> (u16, u16) {
        (self.center_x_range.start, self.center_x_range.end)
    }

    pub closed spec fn spec_right(&self) -> (u16, u16) {
        (self.right_x_range.start, self.right_x_range.end)
    }

    pub closed spec fn spec_rows(&self) -> (u16, u16) {
        (self.y_range.start, self.y_range.end)
    }

    pub closed spec fn spec_width(&self) -> u16 {
        self.width
    }

    /// The layout for a terminal of `sx` columns and `sy` rows: the left
    /// column takes the first eighth, the center the rest of the first
    /// half, the right the second half; the first row is the header and
    /// the last the footer.
    pub fn from_size(terminal_size: (u16, u16)) -> (r: Self)
        ensures
            r.spec_left() == (0u16, (terminal_size.0 / 8) as u16),
            r.spec_center() == ((terminal_size.0 / 8) as u16, (terminal_size.0 / 2) as u16),
            r.spec_right() == ((terminal_size.0 / 2) as u16, terminal_size.0),
            r.spec_rows() == (1u16, (if terminal_size.1 >= 1 {
                terminal_size.1 - 1
            } else {
                0
            }) as u16),
            r.spec_width() == terminal_size.0,
    {
        let (sx, sy) = terminal_size;
        let bottom = if sy >= 1 {
            sy - 1
        } else {
            0
        };
        MillerColumns {
            left_x_range: 0..(sx / 8),
            center_x_range: (sx / 8)..(sx / 2),
            right_x_range: (sx / 2)..sx,
            y_range: 1..bottom,
            width: sx,
        }
    }

    /// The footer row: the terminal's last row, where the content rows end.
    pub fn footer(&self) -> (r: u16)
        ensures
            r == self.spec_rows().1,
    {
        self.y_range.end
    }

    /// The number of content rows (zero when the range is empty).
    pub fn height(&self) -> (r: u16)
        ensures
            r == (if self.spec_rows().1 >= self.spec_rows().0 {
                self.spec_rows().1 - self.spec_rows().0
            } else {
                0
            }),
    {
        let start = self.y_range.start;
        let end = self.y_range.end;
        if end >= start {
            end - start
        } else {
            0
        }
    }

    pub fn width(&self) -> (r: u16)
        ensures
            r == self.spec_width(),
    {
        self.width
    }

    pub fn left_x_range(&self) -> (r: Range<u16>)
        ensures
            (r.start, r.end) == self.spec_left(),
    {
        self.left_x_range.start..self.left_x_range.end
    }

    pub fn center_x_range(&self) -> (r: Range<u16>)
        ensures
            (r.start, r.end) == self.spec_center(),
    {
        self.center_x_range.start..self.center_x_range.end
    }

    pub fn right_x_range(&self) -> (r: Range<u16>)
        ensures
            (r.start, r.end) == self.spec_right(),
    {
        self.right_x_range.start..self.right_x_range.end
    }

    pub fn y_range(&self) -> (r: Range<u16>)
        ensures
            (r.start, r.end) == self.spec_rows(),
    {
        self.y_range.start..self.y_range.end
    }
}

} // verus!
