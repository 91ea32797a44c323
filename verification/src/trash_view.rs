//! The trash overlay: a read-only list of freedesktop trash items, newest
//! deletion first. `r` asks to restore the item under the cursor.
//!
//! The application supplies the items at construction and performs the
//! restore; the view never touches the filesystem.

use vstd::prelude::*;
use crate::input::{KeyCode, KeyEvent};
use crate::mode::{Cleanup, ModalRegion, ModeOp};
use crate::text::chars_of;

verus! {

/// `Clone` of a trash item.
pub assume_specification[ <trash::TrashItem as core::clone::Clone>::clone ](item: &trash::TrashItem) -> (r:
    trash::TrashItem)
    ensures
        r == *item,
;

/// A trash item with the deletion time the view orders by (seconds since
/// the UNIX epoch).
pub struct TrashEntry {
    pub item: trash::TrashItem,
    pub time_deleted: i64,
}

impl TrashEntry {
    pub fn new(item: trash::TrashItem, time_deleted: i64) -> (r: Self)
        ensures
            r.item == item,
            r.time_deleted == time_deleted,
    {
        TrashEntry { item, time_deleted }
    }
}

/// Inserts `x` in front of the first entry that is not newer than it.
pub open spec fn insert_newest_first(x: TrashEntry, s: Seq<TrashEntry>) -> Seq<TrashEntry>
    decreases s.len(),
{
    if s.len() == 0 {
        seq![x]
    } else if x.time_deleted >= s[0].time_deleted {
        seq![x] + s
    } else {
        seq![s[0]] + insert_newest_first(x, s.drop_first())
    }
}

/// The stable sort of `s`, newest deletion first; entries deleted in the
/// same second keep their relative order.
pub open spec fn newest_first(s: Seq<TrashEntry>) -> Seq<TrashEntry>
    decreases s.len(),
{
    if s.len() == 0 {
        Seq::empty()
    } else {
        insert_newest_first(s[0], newest_first(s.drop_first()))
    }
}

/// Deletion times never increase along `s`.
pub open spec fn is_newest_first(s: Seq<TrashEntry>) -> bool {
    forall|i: int, j: int| 0 <= i < j < s.len() ==> (#[trigger] s[i]).time_deleted >= (#[trigger] s[j]).time_deleted
}

proof fn lemma_insert_newest_at(x: TrashEntry, s: Seq<TrashEntry>, p: int)
    requires
        0 <= p <= s.len(),
        forall|j: int| 0 <= j < p ==> x.time_deleted < (#[trigger] s[j]).time_deleted,
        p < s.len() ==> x.time_deleted >= s[p].time_deleted,
    ensures
        insert_newest_first(x, s) == s.insert(p, x),
    decreases s.len(),
{
    if s.len() == 0 {
        assert(s.insert(p, x) =~= seq![x]);
    } else if p == 0 {
        assert(s.insert(0, x) =~= seq![x] + s);
    } else {
        let t = s.drop_first();
        assert forall|j: int| 0 <= j < p - 1 implies x.time_deleted < (#[trigger] t[j]).time_deleted by {
            assert(t[j] == s[j + 1]);
        }
        lemma_insert_newest_at(x, t, p - 1);
        assert(s.insert(p, x) =~= seq![s[0]] + t.insert(p - 1, x));
    }
}

/// Sorts `v` newest deletion first (see [`newest_first`]).
pub fn sort_newest_first(v: Vec<TrashEntry>) -> (r: Vec<TrashEntry>)
    ensures
        r@ == newest_first(v@),
{
    let ghost orig = v@;
    let ghost n = v@.len();
    let mut rest = v;
    let mut sorted: Vec<TrashEntry> = Vec::new();
    proof {
        assert(orig.subrange(n as int, n as int) =~= Seq::<TrashEntry>::empty());
        assert(rest@ =~= orig.subrange(0, n as int));
    }
    while rest.len() > 0
        invariant
            orig.len() == n,
            rest.len() <= n,
            rest@ == orig.subrange(0, rest.len() as int),
            sorted@ == newest_first(orig.subrange(rest.len() as int, n as int)),
        decreases rest.len(),
    {
        let ghost k = rest.len();
        let e = rest.pop().unwrap();
        proof {
            assert(rest@ =~= orig.subrange(0, k - 1));
        }
        let mut p: usize = 0;
        while p < sorted.len() && e.time_deleted < sorted[p].time_deleted
            invariant
                p <= sorted.len(),
                forall|j: int| 0 <= j < p ==> e.time_deleted < (#[trigger] sorted@[j]).time_deleted,
            decreases sorted.len() - p,
        {
            p += 1;
        }
        proof {
            lemma_insert_newest_at(e, sorted@, p as int);
            let sub = orig.subrange(k - 1, n as int);
            assert(sub[0] == orig[k - 1]);
            assert(sub.drop_first() =~= orig.subrange(k as int, n as int));
        }
        sorted.insert(p, e);
    }
    proof {
        assert(orig.subrange(0, n as int) =~= orig);
    }
    sorted
}

proof fn lemma_insert_newest_props(x: TrashEntry, s: Seq<TrashEntry>)
    ensures
        insert_newest_first(x, s).to_multiset() == s.to_multiset().insert(x),
        insert_newest_first(x, s).len() == s.len() + 1,
        forall|k: int|
            0 <= k < insert_newest_first(x, s).len() ==> #[trigger] insert_newest_first(x, s)[k] == x
                || s.contains(insert_newest_first(x, s)[k]),
        is_newest_first(s) ==> is_newest_first(insert_newest_first(x, s)),
    decreases s.len(),
{
    broadcast use vstd::seq_lib::group_to_multiset_ensures;

    let r = insert_newest_first(x, s);
    if s.len() == 0 {
        assert(r =~= Seq::<TrashEntry>::empty().insert(0, x));
    } else if x.time_deleted >= s[0].time_deleted {
        assert(r =~= s.insert(0, x));
        assert forall|k: int| 0 <= k < r.len() implies #[trigger] r[k] == x || s.contains(r[k]) by {
            if k > 0 {
                assert(r[k] == s[k - 1]);
            }
        }
        if is_newest_first(s) {
            assert forall|i: int, j: int| 0 <= i < j < r.len() implies (#[trigger] r[i]).time_deleted
                >= (#[trigger] r[j]).time_deleted by {
                if i == 0 {
                    if j > 1 {
                        assert(r[j] == s[j - 1]);
                    }
                } else {
                    assert(r[i] == s[i - 1] && r[j] == s[j - 1]);
                }
            }
        }
    } else {
        let t = s.drop_first();
        lemma_insert_newest_props(x, t);
        let rt = insert_newest_first(x, t);
        assert(r =~= rt.insert(0, s[0]));
        assert(s =~= t.insert(0, s[0]));
        assert forall|k: int| 0 <= k < r.len() implies #[trigger] r[k] == x || s.contains(r[k]) by {
            if k == 0 {
                assert(s[0] == r[0]);
            } else {
                assert(r[k] == rt[k - 1]);
                if rt[k - 1] != x {
                    let j = choose|j: int| 0 <= j < t.len() && t[j] == rt[k - 1];
                    assert(s[j + 1] == t[j]);
                }
            }
        }
        if is_newest_first(s) {
            assert(is_newest_first(t)) by {
                assert forall|i: int, j: int| 0 <= i < j < t.len() implies (#[trigger] t[i]).time_deleted
                    >= (#[trigger] t[j]).time_deleted by {
                    assert(t[i] == s[i + 1] && t[j] == s[j + 1]);
                }
            }
            assert forall|i: int, j: int| 0 <= i < j < r.len() implies (#[trigger] r[i]).time_deleted
                >= (#[trigger] r[j]).time_deleted by {
                if i == 0 {
                    let e = rt[j - 1];
                    assert(r[j] == e);
                    if e != x {
                        let m = choose|m: int| 0 <= m < t.len() && t[m] == e;
                        assert(s[m + 1] == e);
                    }
                } else {
                    assert(r[i] == rt[i - 1] && r[j] == rt[j - 1]);
                }
            }
        }
    }
}

/// The view's order is a sort: it holds the same entries, newest first.
pub proof fn law_newest_first_is_a_sort(s: Seq<TrashEntry>)
    ensures
        newest_first(s).to_multiset() == s.to_multiset(),
        is_newest_first(newest_first(s)),
    decreases s.len(),
{
    broadcast use vstd::seq_lib::group_to_multiset_ensures;

    if s.len() == 0 {
        assert(newest_first(s) =~= s);
    } else {
        let t = s.drop_first();
        law_newest_first_is_a_sort(t);
        lemma_insert_newest_props(s[0], newest_first(t));
        assert(s =~= t.insert(0, s[0]));
    }
}

/// `i` holds the most recent deletion of `s`, and no later entry is as
/// recent.
pub open spec fn is_last_newest(s: Seq<TrashEntry>, i: int) -> bool {
    &&& 0 <= i < s.len()
    &&& forall|j: int| 0 <= j < s.len() ==> (#[trigger] s[j]).time_deleted <= s[i].time_deleted
    &&& forall|j: int| i < j < s.len() ==> (#[trigger] s[j]).time_deleted < s[i].time_deleted
}

/// The entry that a trashing just created, among the trash entries of the
/// trashed file's original parent and name: the most recently deleted one,
/// and of equally recent ones the last listed. `None` when there is none.
pub fn newest_entry(entries: Vec<TrashEntry>) -> (r: Option<TrashEntry>)
    ensures
        entries@.len() == 0 <==> r is None,
        r matches Some(e) ==> exists|i: int| is_last_newest(entries@, i) && e == entries@[i],
{
    if entries.len() == 0 {
        return None;
    }
    let mut best: usize = 0;
    let mut i: usize = 1;
    while i < entries.len()
        invariant
            1 <= i <= entries@.len(),
            best < i,
            forall|j: int| 0 <= j < i ==> (#[trigger] entries@[j]).time_deleted <= entries@[best as int].time_deleted,
            forall|j: int| best < j < i ==> (#[trigger] entries@[j]).time_deleted < entries@[best as int].time_deleted,
        decreases entries@.len() - i,
    {
        if entries[i].time_deleted >= entries[best].time_deleted {
            best = i;
        }
        i += 1;
    }
    let ghost s = entries@;
    let mut entries = entries;
    let e = entries.remove(best);
    assert(is_last_newest(s, best as int));
    Some(e)
}

/// The trash overlay.
pub struct TrashView {
    items: Vec<TrashEntry>,
    cursor: usize,
}

impl TrashView {
    pub closed spec fn spec_items(&self) -> Seq<TrashEntry> {
        self.items@
    }

    pub closed spec fn spec_cursor(&self) -> int {
        self.cursor as int
    }

    /// The cursor is on an item, or at 0 when there is none.
    pub closed spec fn wf(&self) -> bool {
        self.cursor == 0 || self.cursor < self.items@.len()
    }

    /// The view over `items`, sorted newest first, cursor on the top one.
    pub fn new(items: Vec<TrashEntry>) -> (r: Self)
        ensures
            r.wf(),
            r.spec_items() == newest_first(items@),
            r.spec_cursor() == 0,
    {
        TrashView { items: sort_newest_first(items), cursor: 0 }
    }

    pub fn cursor(&self) -> (r: usize)
        ensures
            r == self.spec_cursor(),
    {
        self.cursor
    }

    pub fn items(&self) -> (r: &[TrashEntry])
        ensures
            r@ == self.spec_items(),
    {
        self.items.as_slice()
    }

    /// `j`/Down and `k`/Up move the cursor, clamped to the list; `r` asks to
    /// restore the item under the cursor (nothing on an empty list); Esc and
    /// Enter close the view; other keys do nothing.
    pub fn handle_key(&mut self, key_event: KeyEvent) -> (r: ModeOp)
        requires
            old(self).wf(),
        ensures
            final(self).wf(),
            final(self).spec_items() == old(self).spec_items(),
            ({
                let code = key_event.code;
                let n = old(self).spec_items().len();
                let cur = old(self).spec_cursor();
                if code == KeyCode::Char('j') || code == KeyCode::Down {
                    final(self).spec_cursor() == (if cur + 1 < n {
                        cur + 1
                    } else {
                        cur
                    }) && r == ModeOp::NoOp
                } else if code == KeyCode::Char('k') || code == KeyCode::Up {
                    final(self).spec_cursor() == (if cur > 0 {
                        cur - 1
                    } else {
                        0
                    }) && r == ModeOp::NoOp
                } else if code == KeyCode::Char('r') {
                    final(self).spec_cursor() == cur && if cur < n {
                        r matches ModeOp::RestoreFromTrash { items, cursor } && items@ == seq![
                            old(self).spec_items()[cur].item,
                        ] && cursor == cur
                    } else {
                        r == ModeOp::NoOp
                    }
                } else if code == KeyCode::Esc || code == KeyCode::Enter {
                    final(self).spec_cursor() == cur && r == (ModeOp::Exit { cleanup: Cleanup::Nothing })
                } else {
                    final(self).spec_cursor() == cur && r == ModeOp::NoOp
                }
            }),
    {
        match key_event.code {
            KeyCode::Char('j') | KeyCode::Down => {
                if self.items.len() > 0 && self.cursor < self.items.len() - 1 {
                    self.cursor = self.cursor + 1;
                }
                ModeOp::NoOp
            },
            KeyCode::Char('k') | KeyCode::Up => {
                if self.cursor > 0 {
                    self.cursor = self.cursor - 1;
                }
                ModeOp::NoOp
            },
            KeyCode::Char('r') => {
                if self.cursor < self.items.len() {
                    let item = self.items[self.cursor].item.clone();
                    let mut items: Vec<trash::TrashItem> = Vec::new();
                    items.push(item);
                    ModeOp::RestoreFromTrash { items, cursor: self.cursor }
                } else {
                    ModeOp::NoOp
                }
            },
            KeyCode::Esc | KeyCode::Enter => ModeOp::Exit { cleanup: Cleanup::Nothing },
            _ => ModeOp::NoOp,
        }
    }

    pub fn region(&self) -> (r: ModalRegion)
        ensures
            r == ModalRegion::ConsoleOverlay,
    {
        ModalRegion::ConsoleOverlay
    }

    pub fn name(&self) -> (r: &'static str)
        ensures
            r@ == "trash"@,
    {
        "trash"
    }
}

/// The last `w` columns of `s`: the whole of it when it fits, otherwise `…`
/// followed by its last `w - 1` characters; nothing when `w` is 0.
pub open spec fn fitted_left(s: Seq<char>, w: int) -> Seq<char> {
    if w <= 0 {
        Seq::empty()
    } else if s.len() <= w {
        s
    } else {
        seq!['\u{2026}'] + s.subrange(s.len() - (w - 1), s.len() as int)
    }
}

/// Truncates `s` to `w` columns keeping the tail (the deepest path
/// segments), prefixing `…` when shortened.
pub fn fit_left(s: &str, w: usize) -> (r: String)
    ensures
        r@ == fitted_left(s@, w as int),
{
    if w == 0 {
        return String::new();
    }
    let chars = chars_of(s);
    let count = chars.len();
    if count <= w {
        return crate::text::owned(s);
    }
    let mut tail: Vec<char> = Vec::new();
    tail.push('\u{2026}');
    let start = count - (w - 1);
    let mut i: usize = start;
    while i < count
        invariant
            chars@ == s@,
            count == chars@.len(),
            start <= i <= count,
            tail@ == seq!['\u{2026}'] + s@.subrange(start as int, i as int),
        decreases count - i,
    {
        tail.push(chars[i]);
        i = i + 1;
        assert(tail@ =~= seq!['\u{2026}'] + s@.subrange(start as int, i as int));
    }
    crate::text::string_of(tail.as_slice())
}

/// Where the parts of the trash overlay go in the area `x0..x_end` by
/// `y_start..y_end`: the columns inside a padding of two, the band of hint,
/// bars and list centered vertically, the divider junctions, and which
/// items the list shows (`offset`, `visible` many).
pub struct TrashLayout {
    pub content_x: u16,
    pub content_w: usize,
    pub name_w: usize,
    pub path_w: usize,
    pub visible: usize,
    pub hint_y: u16,
    pub top_bar_y: u16,
    pub list_y0: u16,
    pub bottom_bar_y: u16,
    pub div_center: u16,
    pub div_right: u16,
    pub offset: usize,
    pub date_x: u16,
    pub sym_x: u16,
    pub name_x: u16,
    pub path_x: u16,
}

pub open spec fn sat_minus(a: int, b: int) -> int {
    if a >= b {
        a - b
    } else {
        0
    }
}

pub open spec fn int_min(a: int, b: int) -> int {
    if a <= b {
        a
    } else {
        b
    }
}

pub open spec fn int_max(a: int, b: int) -> int {
    if a >= b {
        a
    } else {
        b
    }
}

/// The layout as integers: content width, name and path column widths,
/// list rows, band top, divider positions and list offset, for `n` items
/// with the cursor at `cursor`.
pub open spec fn trash_geometry(x0: int, x_end: int, y_start: int, y_end: int, n: int, cursor: int) -> (
    int,
    int,
    int,
    int,
    int,
    int,
    int,
    int,
) {
    let width = sat_minus(x_end, x0);
    let avail = sat_minus(y_end, y_start);
    let content_w = sat_minus(width, 4);
    let after_date = sat_minus(content_w, 18);
    let name_w = int_max(after_date * 2 / 5, 8);
    let path_w = sat_minus(after_date, name_w + 2);
    let cap = int_max(sat_minus(avail, 6), 1);
    let visible = if n == 0 {
        1
    } else {
        int_max(int_min(n, cap), 1)
    };
    let band_top = y_start + sat_minus(avail, visible + 3) / 2;
    let offset = int_min(sat_minus(cursor, visible - 1), sat_minus(n, visible));
    (content_w, name_w, path_w, visible, band_top, x0 + width / 8, x0 + width / 2, offset)
}

/// No screen coordinate of the layout passes the last terminal column or
/// row; the item columns count only when there are items.
pub open spec fn trash_layout_fits(x0: u16, x_end: u16, y_start: u16, y_end: u16, n: int, cursor: int) -> bool {
    let g = trash_geometry(x0 as int, x_end as int, y_start as int, y_end as int, n, cursor);
    &&& x0 + 2 <= u16::MAX
    &&& g.4 + 2 + g.3 <= u16::MAX
    &&& n > 0 ==> x0 + 2 + 18 + g.1 + 2 <= u16::MAX
}

impl TrashView {
    /// The layout of the overlay in the area `x0..x_end` by
    /// `y_start..y_end`; see [`trash_geometry`].
    pub fn layout(&self, x0: u16, x_end: u16, y_start: u16, y_end: u16) -> (r: TrashLayout)
        requires
            trash_layout_fits(x0, x_end, y_start, y_end, self.spec_items().len() as int, self.spec_cursor()),
        ensures
            ({
                let n = self.spec_items().len() as int;
                let g = trash_geometry(x0 as int, x_end as int, y_start as int, y_end as int, n, self.spec_cursor());
                &&& r.content_x == x0 + 2
                &&& r.content_w == g.0
                &&& r.name_w == g.1
                &&& r.path_w == g.2
                &&& r.visible == g.3
                &&& r.hint_y == g.4
                &&& r.top_bar_y == g.4 + 1
                &&& r.list_y0 == g.4 + 2
                &&& r.bottom_bar_y == g.4 + 2 + g.3
                &&& r.div_center == g.5
                &&& r.div_right == g.6
                &&& n > 0 ==> {
                    &&& r.offset == g.7
                    &&& r.date_x == x0 + 2
                    &&& r.sym_x == x0 + 2 + 18
                    &&& r.name_x == x0 + 2 + 18 + 2
                    &&& r.path_x == x0 + 2 + 18 + g.1 + 2
                }
            }),
    {
        let width: u16 = x_end.saturating_sub(x0);
        let avail: usize = y_end.saturating_sub(y_start) as usize;
        let content_x: u16 = x0 + 2;
        let content_w: usize = width.saturating_sub(4) as usize;
        let after_date: usize = content_w.saturating_sub(18);
        let by_share: usize = after_date * 2 / 5;
        let name_w: usize = if by_share >= 8 {
            by_share
        } else {
            8
        };
        let path_w: usize = after_date.saturating_sub(name_w + 2);
        let n = self.items.len();
        let cap0: usize = avail.saturating_sub(6);
        let cap: usize = if cap0 >= 1 {
            cap0
        } else {
            1
        };
        let visible: usize = if n == 0 {
            1
        } else if n <= cap {
            n
        } else {
            cap
        };
        let band: usize = visible + 3;
        let band_top: u16 = y_start + (avail.saturating_sub(band) as u16) / 2;
        let list_y0: u16 = band_top + 2;
        let bottom_bar_y: u16 = list_y0 + visible as u16;
        let div_center: u16 = x0 + width / 8;
        let div_right: u16 = x0 + width / 2;
        if n == 0 {
            return TrashLayout {
                content_x,
                content_w,
                name_w,
                path_w,
                visible,
                hint_y: band_top,
                top_bar_y: band_top + 1,
                list_y0,
                bottom_bar_y,
                div_center,
                div_right,
                offset: 0,
                date_x: content_x,
                sym_x: 0,
                name_x: 0,
                path_x: 0,
            };
        }
        let back: usize = self.cursor.saturating_sub(visible - 1);
        let last_start: usize = n.saturating_sub(visible);
        let offset: usize = if back <= last_start {
            back
        } else {
            last_start
        };
        let sym_x: u16 = content_x + 18;
        TrashLayout {
            content_x,
            content_w,
            name_w,
            path_w,
            visible,
            hint_y: band_top,
            top_bar_y: band_top + 1,
            list_y0,
            bottom_bar_y,
            div_center,
            div_right,
            offset,
            date_x: content_x,
            sym_x,
            name_x: sym_x + 2,
            path_x: sym_x + name_w as u16 + 2,
        }
    }
}

} // verus!
