//! Directory panels: the entries of one directory, their ordering, the
//! hidden-file filter, marks, the live search and the selection cursor.
//!
//! Filesystem facts (whether an entry is a directory, its permissions and
//! size) are gathered by the caller and handed in as plain values.

use vstd::prelude::*;
use crate::console::strings_of;
use crate::text::{
    chars_of, contains_seq, copy_string, find_chars, has_prefix, has_suffix, lowercase_of, owned, seq_lt, str_eq, str_lt, lemma_seq_lt_asymmetric, lemma_seq_lt_total, lemma_seq_lt_transitive,
    to_lowercase,
};

verus! {

/// What `Path::file_name` yields for a path given as text, converted to a
/// string (empty when the path has no final normal component or it is not
/// valid UTF-8). Component splitting and normalisation are std's.
pub uninterp spec fn path_file_name(path: Seq<char>) -> Seq<char>;

/// The final component of `path`.
///
/// Calls `std::path::Path::file_name` (then `to_str`, defaulting to the
/// empty string); the result is only named, as a function of the path.
#[verifier::external_body]
pub(crate) fn file_name_of(path: &str) -> (r: String)
    ensures
        r@ == path_file_name(path@),
{
    std::path::Path::new(path).file_name().and_then(|p| p.to_str()).map(|s| s.to_string()).unwrap_or_default()
}

/// `unix_mode::is_allowed` for execution by the owner, the group and
/// others, in that order: each is the lowest bit of its three-bit class
/// of `mode` (`(mode >> 3 * class) & 0o7`, bit `1 << 0`).
#[verifier::external_body]
fn execute_allowed(mode: u32) -> (r: (bool, bool, bool))
    ensures
        r.0 == (((mode >> 6u32) & 7u32) & 1u32 != 0u32),
        r.1 == (((mode >> 3u32) & 7u32) & 1u32 != 0u32),
        r.2 == (((mode >> 0u32) & 7u32) & 1u32 != 0u32),
{
    (
        unix_mode::is_allowed(unix_mode::Accessor::User, unix_mode::Access::Execute, mode),
        unix_mode::is_allowed(unix_mode::Accessor::Group, unix_mode::Access::Execute, mode),
        unix_mode::is_allowed(unix_mode::Accessor::Other, unix_mode::Access::Execute, mode),
    )
}

/// Whether a file with permission bits `mode` may be executed by its
/// owner, its group or anyone else: some execute bit (`0o111`) is set.
pub fn is_executable_mode(mode: u32) -> (r: bool)
    ensures
        r == (mode & 0o111u32 != 0u32),
{
    let (user, group, other) = execute_allowed(mode);
    assert((((mode >> 6u32) & 7u32) & 1u32 != 0u32 || ((mode >> 3u32) & 7u32) & 1u32 != 0u32 || ((mode
        >> 0u32) & 7u32) & 1u32 != 0u32) == (mode & 0o111u32 != 0u32)) by (bit_vector);
    user || group || other
}

/// A name is hidden when it starts with `.` or `__`, or ends with `.swp`.
pub open spec fn hidden_name(name: Seq<char>) -> bool {
    has_prefix(name, seq!['.']) || has_prefix(name, seq!['_', '_']) || has_suffix(
        name,
        seq!['.', 's', 'w', 'p'],
    )
}

/// Decides [`hidden_name`].
pub fn is_hidden_name(name: &str) -> (r: bool)
    ensures
        r == hidden_name(name@),
{
    let v = chars_of(name);
    let n = v.len();
    let dot = n >= 1 && v[0] == '.';
    let under = n >= 2 && v[0] == '_' && v[1] == '_';
    let swp = n >= 4 && v[n - 4] == '.' && v[n - 3] == 's' && v[n - 2] == 'w' && v[n - 1] == 'p';
    proof {
        if dot {
            assert(name@.subrange(0, 1) =~= seq!['.']);
        } else if n >= 1 {
            assert(name@.subrange(0, 1)[0] != '.');
        }
        if under {
            assert(name@.subrange(0, 2) =~= seq!['_', '_']);
        } else if n >= 2 {
            assert(name@.subrange(0, 2)[0] != '_' || name@.subrange(0, 2)[1] != '_');
        }
        if swp {
            assert(name@.subrange(n - 4, n as int) =~= seq!['.', 's', 'w', 'p']);
        } else if n >= 4 {
            let t = name@.subrange(n - 4, n as int);
            assert(t[0] != '.' || t[1] != 's' || t[2] != 'w' || t[3] != 'p');
        }
    }
    dot || under || swp
}

/// The mathematical content of a [`DirElem`].
pub struct ElemView {
    pub name: Seq<char>,
    pub lowercase: Seq<char>,
    pub path: Seq<char>,
    pub is_dir: bool,
    pub is_executable: bool,
    pub suffix: Seq<char>,
    pub is_hidden: bool,
    pub is_marked: bool,
    pub is_normalized: bool,
}

/// An element of a directory: a path together with what is displayed of it.
pub struct DirElem {
    name: String,
    lowercase: String,
    path: String,
    is_dir: bool,
    is_executable: bool,
    suffix: String,
    is_hidden: bool,
    is_marked: bool,
    is_normalized: bool,
}

impl View for DirElem {
    type V = ElemView;

    closed spec fn view(&self) -> ElemView {
        ElemView {
            name: self.name@,
            lowercase: self.lowercase@,
            path: self.path@,
            is_dir: self.is_dir,
            is_executable: self.is_executable,
            suffix: self.suffix@,
            is_hidden: self.is_hidden,
            is_marked: self.is_marked,
            is_normalized: self.is_normalized,
        }
    }
}

/// Consistency of an element: the lowercase name and the hidden flag are
/// derived from the name.
pub open spec fn elem_wf(e: ElemView) -> bool {
    e.lowercase == lowercase_of(e.name) && e.is_hidden == hidden_name(e.name)
}

impl DirElem {
    /// The lowercase name and the hidden flag always follow the name.
    #[verifier::type_invariant]
    closed spec fn derived_from_name(self) -> bool {
        elem_wf(self@)
    }

    /// An element for `path`; `is_dir` tells whether it names a directory.
    /// Executable flag and size suffix stay unset until [`Self::normalize`].
    pub fn new(path: &str, is_dir: bool) -> (r: Self)
        ensures
            r@.name == path_file_name(path@),
            r@.path == path@,
            r@.is_dir == is_dir,
            !r@.is_executable,
            r@.suffix.len() == 0,
            !r@.is_marked,
            !r@.is_normalized,
            elem_wf(r@),
    {
        let name = file_name_of(path);
        let lowercase = to_lowercase(name.as_str());
        let is_hidden = is_hidden_name(name.as_str());
        DirElem {
            name,
            lowercase,
            path: owned(path),
            is_dir,
            is_executable: false,
            suffix: String::new(),
            is_hidden,
            is_marked: false,
            is_normalized: false,
        }
    }

    pub fn name(&self) -> (r: &String)
        ensures
            r@ == self@.name,
    {
        &self.name
    }

    /// The lowercase name: always the name lowercased.
    pub fn name_lowercase(&self) -> (r: &String)
        ensures
            r@ == self@.lowercase,
            r@ == lowercase_of(self@.name),
    {
        proof {
            use_type_invariant(self);
        }
        &self.lowercase
    }

    pub fn path(&self) -> (r: &str)
        ensures
            r@ == self@.path,
    {
        self.path.as_str()
    }

    pub fn is_dir(&self) -> (r: bool)
        ensures
            r == self@.is_dir,
    {
        self.is_dir
    }

    /// Whether the element is hidden: always whether its name is.
    pub fn is_hidden(&self) -> (r: bool)
        ensures
            r == self@.is_hidden,
            r == hidden_name(self@.name),
    {
        proof {
            use_type_invariant(self);
        }
        self.is_hidden
    }

    /// Sets the mark.
    pub fn set_marked(&mut self, marked: bool)
        ensures
            final(self)@ == (ElemView { is_marked: marked, ..old(self)@ }),
    {
        proof {
            use_type_invariant(&*self);
        }
        self.is_marked = marked;
    }

    pub fn is_marked(&self) -> (r: bool)
        ensures
            r == self@.is_marked,
    {
        self.is_marked
    }

    pub fn is_executable(&self) -> (r: bool)
        ensures
            r == self@.is_executable,
    {
        self.is_executable
    }

    pub fn suffix(&self) -> (r: &String)
        ensures
            r@ == self@.suffix,
    {
        &self.suffix
    }

    pub fn unmark(&mut self)
        ensures
            final(self)@ == (ElemView { is_marked: false, ..old(self)@ }),
    {
        proof {
            use_type_invariant(&*self);
        }
        self.is_marked = false;
    }

    /// Records what displaying the element needs from the filesystem: its
    /// canonical path, the executable bit, and the size or entry count.
    /// Only the first call has an effect.
    pub fn normalize(&mut self, canonical: String, is_executable: bool, suffix: String)
        ensures
            old(self)@.is_normalized ==> final(self)@ == old(self)@,
            !old(self)@.is_normalized ==> final(self)@ == (ElemView {
                path: canonical@,
                is_executable,
                suffix: suffix@,
                is_normalized: true,
                ..old(self)@
            }),
    {
        proof {
            use_type_invariant(&*self);
        }
        if self.is_normalized {
            return;
        }
        self.path = canonical;
        self.is_executable = is_executable;
        self.suffix = suffix;
        self.is_normalized = true;
    }

    /// An exact copy.
    pub fn copy(&self) -> (r: Self)
        ensures
            r@ == self@,
    {
        proof {
            use_type_invariant(self);
        }
        DirElem {
            name: copy_string(&self.name),
            lowercase: copy_string(&self.lowercase),
            path: copy_string(&self.path),
            is_dir: self.is_dir,
            is_executable: self.is_executable,
            suffix: copy_string(&self.suffix),
            is_hidden: self.is_hidden,
            is_marked: self.is_marked,
            is_normalized: self.is_normalized,
        }
    }
}


/// The views of a vector of elements.
pub open spec fn views(s: Seq<DirElem>) -> Seq<ElemView> {
    s.map_values(|e: DirElem| e@)
}

/// Display order: directories first, then by lowercase name (code point
/// order). `key_le(a, b)` holds when `a` may come before `b`.
pub open spec fn key_le(a: ElemView, b: ElemView) -> bool {
    if a.is_dir != b.is_dir {
        a.is_dir
    } else {
        !seq_lt(b.lowercase, a.lowercase)
    }
}

/// Inserts `x` in front of the first element it may precede.
pub open spec fn insert_sorted(x: ElemView, s: Seq<ElemView>) -> Seq<ElemView>
    decreases s.len(),
{
    if s.len() == 0 {
        seq![x]
    } else if key_le(x, s[0]) {
        seq![x] + s
    } else {
        seq![s[0]] + insert_sorted(x, s.drop_first())
    }
}

/// The stable sort of `s` by [`key_le`]: directories first, then names;
/// entries with equal keys keep their original relative order.
pub open spec fn sort_elems(s: Seq<ElemView>) -> Seq<ElemView>
    decreases s.len(),
{
    if s.len() == 0 {
        Seq::empty()
    } else {
        insert_sorted(s[0], sort_elems(s.drop_first()))
    }
}

proof fn lemma_insert_sorted_at(x: ElemView, s: Seq<ElemView>, p: int)
    requires
        0 <= p <= s.len(),
        forall|j: int| 0 <= j < p ==> !key_le(x, #[trigger] s[j]),
        p < s.len() ==> key_le(x, s[p]),
    ensures
        insert_sorted(x, s) == s.insert(p, x),
    decreases s.len(),
{
    if s.len() == 0 {
        assert(s.insert(p, x) =~= seq![x]);
    } else if p == 0 {
        assert(s.insert(0, x) =~= seq![x] + s);
    } else {
        let t = s.drop_first();
        assert forall|j: int| 0 <= j < p - 1 implies !key_le(x, #[trigger] t[j]) by {
            assert(t[j] == s[j + 1]);
        }
        lemma_insert_sorted_at(x, t, p - 1);
        assert(s.insert(p, x) =~= seq![s[0]] + t.insert(p - 1, x));
    }
}

/// Decides [`key_le`].
fn key_le_exec(a: &DirElem, b: &DirElem) -> (r: bool)
    ensures
        r == key_le(a@, b@),
{
    if a.is_dir != b.is_dir {
        a.is_dir
    } else {
        !str_lt(b.lowercase.as_str(), a.lowercase.as_str())
    }
}

/// Sorts elements into display order (see [`sort_elems`]).
pub fn sort_elements(v: Vec<DirElem>) -> (r: Vec<DirElem>)
    ensures
        views(r@) == sort_elems(views(v@)),
{
    let ghost orig = views(v@);
    let ghost n = v@.len();
    let mut rest = v;
    let mut sorted: Vec<DirElem> = Vec::new();
    proof {
        assert(orig.subrange(n as int, n as int) =~= Seq::<ElemView>::empty());
        assert(views(sorted@) =~= Seq::<ElemView>::empty());
        assert(views(rest@) =~= orig.subrange(0, n as int));
    }
    while rest.len() > 0
        invariant
            orig.len() == n,
            rest.len() <= n,
            views(rest@) == orig.subrange(0, rest.len() as int),
            views(sorted@) == sort_elems(orig.subrange(rest.len() as int, n as int)),
        decreases rest.len(),
    {
        let ghost k = rest.len();
        let ghost old_rest = rest@;
        let e = rest.pop().unwrap();
        proof {
            assert(views(old_rest)[k - 1] == old_rest[k - 1]@);
            assert(orig.subrange(0, k as int)[k - 1] == orig[k - 1]);
            assert(e@ == orig[k - 1]);
            assert(views(rest@) =~= orig.subrange(0, k - 1));
        }
        let mut p: usize = 0;
        while p < sorted.len() && !key_le_exec(&e, &sorted[p])
            invariant
                p <= sorted.len(),
                forall|j: int| 0 <= j < p ==> !key_le(e@, #[trigger] views(sorted@)[j]),
            decreases sorted.len() - p,
        {
            p += 1;
        }
        proof {
            let s = views(sorted@);
            lemma_insert_sorted_at(e@, s, p as int);
            let sub = orig.subrange(k - 1, n as int);
            assert(sub[0] == orig[k - 1]);
            assert(sub.drop_first() =~= orig.subrange(k as int, n as int));
        }
        let ghost before = sorted@;
        sorted.insert(p, e);
        proof {
            assert(views(sorted@) =~= views(before).insert(p as int, e@));
        }
    }
    proof {
        assert(orig.subrange(0, n as int) =~= orig);
    }
    sorted
}

/// The indices of the non-hidden elements, ascending.
pub open spec fn nh_ok(elems: Seq<ElemView>, nh: Seq<usize>) -> bool {
    &&& forall|k: int| 0 <= k < nh.len() ==> #[trigger] nh[k] < elems.len() && !elems[nh[k] as int].is_hidden
    &&& forall|k1: int, k2: int| 0 <= k1 < k2 < nh.len() ==> #[trigger] nh[k1] < #[trigger] nh[k2]
    &&& forall|i: int| 0 <= i < elems.len() && !(#[trigger] elems[i]).is_hidden ==> exists|k: int|
        0 <= k < nh.len() && nh[k] == i
}

/// Collects the indices of the non-hidden elements.
fn non_hidden_of(elems: &Vec<DirElem>) -> (r: Vec<usize>)
    ensures
        nh_ok(views(elems@), r@),
{
    let ghost ev = views(elems@);
    let mut nh: Vec<usize> = Vec::new();
    let mut i: usize = 0;
    while i < elems.len()
        invariant
            ev == views(elems@),
            i <= elems.len(),
            forall|k: int| 0 <= k < nh.len() ==> #[trigger] nh@[k] < i && !ev[nh@[k] as int].is_hidden,
            forall|k1: int, k2: int| 0 <= k1 < k2 < nh.len() ==> #[trigger] nh@[k1] < #[trigger] nh@[k2],
            forall|j: int| 0 <= j < i && !(#[trigger] ev[j]).is_hidden ==> exists|k: int|
                0 <= k < nh.len() && nh@[k] == j,
        decreases elems.len() - i,
    {
        if !elems[i].is_hidden {
            let ghost before = nh@;
            nh.push(i);
            proof {
                assert forall|j: int| 0 <= j < i + 1 && !(#[trigger] ev[j]).is_hidden implies exists|k: int|
                    0 <= k < nh.len() && nh@[k] == j by {
                    if j < i {
                        let k = choose|k: int| 0 <= k < before.len() && before[k] == j;
                        assert(nh@[k] == j);
                    } else {
                        assert(nh@[before.len() as int] == j);
                    }
                }
            }
        }
        i += 1;
    }
    nh
}

/// Result of reading a directory.
pub enum DirContent {
    Listed(Vec<DirElem>),
    NoAccess,
}

/// The mathematical content of a [`DirPanel`].
pub struct PanelView {
    pub elements: Seq<ElemView>,
    pub non_hidden: Seq<usize>,
    pub search: Option<Seq<char>>,
    pub new_element: Option<(Seq<char>, bool)>,
    pub rename_preview: Option<(Seq<char>, usize, bool)>,
    pub selected: usize,
    pub non_hidden_idx: usize,
    pub path: Seq<char>,
    pub modified: u64,
    pub loading: bool,
    pub show_hidden: bool,
    pub no_access: bool,
}

/// The panel of one directory.
pub struct DirPanel {
    elements: Vec<DirElem>,
    non_hidden: Vec<usize>,
    search: Option<String>,
    new_element: Option<(String, bool)>,
    rename_preview: Option<(String, usize, bool)>,
    selected_idx: usize,
    non_hidden_idx: usize,
    path: String,
    modified: u64,
    loading: bool,
    show_hidden: bool,
    no_access: bool,
}

pub open spec fn opt_str_view(o: Option<String>) -> Option<Seq<char>> {
    match o {
        Some(s) => Some(s@),
        None => None,
    }
}

impl View for DirPanel {
    type V = PanelView;

    closed spec fn view(&self) -> PanelView {
        PanelView {
            elements: views(self.elements@),
            non_hidden: self.non_hidden@,
            search: opt_str_view(self.search),
            new_element: match self.new_element {
                Some((s, d)) => Some((s@, d)),
                None => None,
            },
            rename_preview: match self.rename_preview {
                Some((s, i, d)) => Some((s@, i, d)),
                None => None,
            },
            selected: self.selected_idx,
            non_hidden_idx: self.non_hidden_idx,
            path: self.path@,
            modified: self.modified,
            loading: self.loading,
            show_hidden: self.show_hidden,
            no_access: self.no_access,
        }
    }
}

/// Consistency of a panel: the non-hidden index list matches the elements
/// and both cursors lie in range (or are zero on an empty range).
pub open spec fn panel_wf(v: PanelView) -> bool {
    &&& v.elements.len() <= usize::MAX
    &&& v.non_hidden.len() <= usize::MAX
    &&& nh_ok(v.elements, v.non_hidden)
    &&& if v.elements.len() == 0 {
        v.selected == 0
    } else {
        v.selected < v.elements.len()
    }
    &&& if v.non_hidden.len() == 0 {
        v.non_hidden_idx == 0
    } else {
        v.non_hidden_idx < v.non_hidden.len()
    }
}

/// Whether element `i` is listed under the panel's hidden-file setting.
pub open spec fn visible(v: PanelView, i: int) -> bool {
    v.show_hidden || !v.elements[i].is_hidden
}

pub open spec fn sat_sub(a: int, b: int) -> int {
    if a >= b {
        a - b
    } else {
        0
    }
}

/// `non_hidden[k]`, or 0 past the end.
pub open spec fn nh_at_or_zero(nh: Seq<usize>, k: int) -> usize {
    if 0 <= k < nh.len() {
        nh[k]
    } else {
        0
    }
}

/// Scanning `nh` from `k`: the first position whose entry is at least
/// `sel`, or the last position when none is.
pub open spec fn scan_geq(nh: Seq<usize>, sel: usize, k: int) -> int
    decreases nh.len() - k,
{
    if k >= nh.len() - 1 {
        nh.len() - 1
    } else if nh[k] >= sel {
        k
    } else {
        scan_geq(nh, sel, k + 1)
    }
}

/// The non-hidden position closest to the selection (unchanged when there
/// are no non-hidden elements).
pub open spec fn closest_nh_idx(v: PanelView) -> usize {
    if v.non_hidden.len() == 0 {
        v.non_hidden_idx
    } else {
        scan_geq(v.non_hidden, v.selected, 0) as usize
    }
}

/// Moving the selection up by `step`; the flag says whether anything moved.
pub open spec fn moved_up(v: PanelView, step: usize) -> (PanelView, bool) {
    if step == 0 {
        (v, false)
    } else if v.show_hidden {
        if v.selected == 0 {
            (v, false)
        } else {
            (PanelView { selected: sat_sub(v.selected as int, step as int) as usize, ..v }, true)
        }
    } else {
        if v.non_hidden_idx == 0 {
            (v, false)
        } else {
            let k = sat_sub(v.non_hidden_idx as int, step as int);
            (PanelView { non_hidden_idx: k as usize, selected: nh_at_or_zero(v.non_hidden, k), ..v }, true)
        }
    }
}

/// Moving the selection down by `step`, clamped at the last entry.
pub open spec fn moved_down(v: PanelView, step: usize) -> (PanelView, bool) {
    if step == 0 {
        (v, false)
    } else if v.show_hidden {
        if v.selected + 1 >= v.elements.len() {
            (v, false)
        } else if v.selected + step >= v.elements.len() {
            (PanelView { selected: sat_sub(v.elements.len() as int, 1) as usize, ..v }, true)
        } else {
            (PanelView { selected: (v.selected + step) as usize, ..v }, true)
        }
    } else {
        if v.non_hidden_idx + 1 >= v.non_hidden.len() {
            (v, false)
        } else {
            let k = if v.non_hidden_idx + step >= v.non_hidden.len() {
                sat_sub(v.non_hidden.len() as int, 1)
            } else {
                v.non_hidden_idx + step
            };
            (PanelView { non_hidden_idx: k as usize, selected: nh_at_or_zero(v.non_hidden, k), ..v }, true)
        }
    }
}

/// The first listed, marked element at or after `i`.
pub open spec fn fwd_marked(v: PanelView, i: int) -> Option<int>
    decreases v.elements.len() - i,
{
    if i >= v.elements.len() || i < 0 {
        None
    } else if visible(v, i) && v.elements[i].is_marked {
        Some(i)
    } else {
        fwd_marked(v, i + 1)
    }
}

/// The last listed, marked element before `i`.
pub open spec fn bwd_marked(v: PanelView, i: int) -> Option<int>
    decreases i,
{
    if i <= 0 {
        None
    } else if i - 1 < v.elements.len() && visible(v, i - 1) && v.elements[i - 1].is_marked {
        Some(i - 1)
    } else {
        bwd_marked(v, i - 1)
    }
}

/// The first listed element whose path is `p`.
pub open spec fn find_path(v: PanelView, p: Seq<char>, i: int) -> Option<int>
    decreases v.elements.len() - i,
{
    if i >= v.elements.len() || i < 0 {
        None
    } else if visible(v, i) && v.elements[i].path == p {
        Some(i)
    } else {
        find_path(v, p, i + 1)
    }
}

/// After a selection change: keep the non-hidden cursor in step when
/// hidden files are not shown.
pub open spec fn resync(v: PanelView) -> PanelView {
    if v.show_hidden {
        v
    } else {
        PanelView { non_hidden_idx: closest_nh_idx(v), ..v }
    }
}

/// Selecting `p` (or falling back to `alt`, clamped, when it is not listed).
pub open spec fn selected_path_to(v: PanelView, p: Seq<char>, alt: Option<usize>) -> PanelView {
    if v.elements.len() > 0 && v.elements[v.selected as int].path == p {
        v
    } else {
        let idx = match find_path(v, p, 0) {
            Some(i) => i,
            None => {
                let a = match alt {
                    Some(a) => a as int,
                    None => v.selected as int,
                };
                if a < sat_sub(v.elements.len() as int, 1) {
                    a
                } else {
                    sat_sub(v.elements.len() as int, 1)
                }
            },
        };
        resync(PanelView { selected: idx as usize, ..v })
    }
}

/// Marks exactly the elements whose lowercase name contains `pat`.
pub open spec fn marked_by(elems: Seq<ElemView>, pat: Seq<char>) -> Seq<ElemView> {
    elems.map_values(|e: ElemView| ElemView { is_marked: contains_seq(e.lowercase, pat), ..e })
}


proof fn lemma_nh_ok_same_hidden(a: Seq<ElemView>, b: Seq<ElemView>, nh: Seq<usize>)
    requires
        nh_ok(a, nh),
        a.len() == b.len(),
        forall|i: int| 0 <= i < a.len() ==> (#[trigger] a[i]).is_hidden == b[i].is_hidden,
    ensures
        nh_ok(b, nh),
{
    assert forall|k: int| 0 <= k < nh.len() implies #[trigger] nh[k] < b.len() && !b[nh[k] as int].is_hidden by {
        assert(!a[nh[k] as int].is_hidden);
    }
    assert forall|i: int| 0 <= i < b.len() && !(#[trigger] b[i]).is_hidden implies exists|k: int|
        0 <= k < nh.len() && nh[k] == i by {
        assert(!a[i].is_hidden);
    }
}

proof fn lemma_scan_geq_range(nh: Seq<usize>, sel: usize, k: int)
    requires
        nh.len() > 0,
        0 <= k,
    ensures
        0 <= scan_geq(nh, sel, k) < nh.len(),
        k < nh.len() ==> k <= scan_geq(nh, sel, k),
    decreases nh.len() - k,
{
    if k < nh.len() - 1 && nh[k] < sel {
        lemma_scan_geq_range(nh, sel, k + 1);
    }
}

proof fn lemma_fwd_marked(v: PanelView, i: int)
    requires
        0 <= i,
    ensures
        match fwd_marked(v, i) {
            Some(j) => i <= j < v.elements.len() && visible(v, j) && v.elements[j].is_marked,
            None => forall|j: int| i <= j < v.elements.len() ==> !(visible(v, j) && v.elements[j].is_marked),
        },
    decreases v.elements.len() - i,
{
    if i < v.elements.len() && !(visible(v, i) && v.elements[i].is_marked) {
        lemma_fwd_marked(v, i + 1);
    }
}

proof fn lemma_bwd_marked(v: PanelView, i: int)
    requires
        i <= v.elements.len(),
    ensures
        match bwd_marked(v, i) {
            Some(j) => 0 <= j < i && visible(v, j) && v.elements[j].is_marked,
            None => forall|j: int| 0 <= j < i ==> !(visible(v, j) && v.elements[j].is_marked),
        },
    decreases i,
{
    if i > 0 && !(visible(v, i - 1) && v.elements[i - 1].is_marked) {
        lemma_bwd_marked(v, i - 1);
    }
}

proof fn lemma_find_path(v: PanelView, p: Seq<char>, i: int)
    requires
        0 <= i,
    ensures
        match find_path(v, p, i) {
            Some(j) => i <= j < v.elements.len() && visible(v, j) && v.elements[j].path == p,
            None => forall|j: int| i <= j < v.elements.len() ==> !(visible(v, j) && v.elements[j].path == p),
        },
    decreases v.elements.len() - i,
{
    if i < v.elements.len() && !(visible(v, i) && v.elements[i].path == p) {
        lemma_find_path(v, p, i + 1);
    }
}

proof fn lemma_resync_wf(v: PanelView)
    requires
        panel_wf(v),
    ensures
        panel_wf(resync(v)),
{
    if !v.show_hidden && v.non_hidden.len() > 0 {
        lemma_scan_geq_range(v.non_hidden, v.selected, 0);
    }
}

impl DirPanel {
    /// A panel over the listed `content` of directory `path`: entries in
    /// display order, hidden files filtered, the first listed entry
    /// selected.
    pub fn new(content: DirContent, path: String, modified: u64) -> (r: Self)
        ensures
            panel_wf(r@),
            r@.elements == sort_elems(
                match content {
                    DirContent::Listed(v) => views(v@),
                    DirContent::NoAccess => Seq::<ElemView>::empty(),
                },
            ),
            r@.selected == nh_at_or_zero(r@.non_hidden, 0),
            r@.non_hidden_idx == 0,
            r@.search is None,
            r@.new_element is None,
            r@.rename_preview is None,
            r@.path == path@,
            r@.modified == modified,
            !r@.loading,
            !r@.show_hidden,
            r@.no_access == (content is NoAccess),
    {
        let no_access = match &content {
            DirContent::Listed(_) => false,
            DirContent::NoAccess => true,
        };
        let raw = match content {
            DirContent::Listed(v) => v,
            DirContent::NoAccess => {
                let v: Vec<DirElem> = Vec::new();
                assert(views(v@) =~= Seq::<ElemView>::empty());
                v
            },
        };
        let elements = sort_elements(raw);
        let non_hidden = non_hidden_of(&elements);
        let selected = if non_hidden.len() > 0 { non_hidden[0] } else { 0 };
        let n_elements = elements.len();
        assert(views(elements@).len() == n_elements);
        DirPanel {
            elements,
            non_hidden,
            search: None,
            new_element: None,
            rename_preview: None,
            selected_idx: selected,
            non_hidden_idx: 0,
            path,
            modified,
            loading: false,
            show_hidden: false,
            no_access,
        }
    }

    /// A temporary panel shown while the content of `path` is loading.
    pub fn loading(path: String) -> (r: Self)
        ensures
            panel_wf(r@),
            r@.elements.len() == 0,
            r@.non_hidden.len() == 0,
            r@.selected == 0,
            r@.non_hidden_idx == 0,
            r@.search is None,
            r@.new_element is None,
            r@.rename_preview is None,
            r@.path == path@,
            r@.loading,
            !r@.show_hidden,
            !r@.no_access,
    {
        DirPanel {
            elements: Vec::new(),
            non_hidden: Vec::new(),
            search: None,
            new_element: None,
            rename_preview: None,
            selected_idx: 0,
            non_hidden_idx: 0,
            path,
            modified: 0,
            loading: true,
            show_hidden: false,
            no_access: false,
        }
    }

    /// A panel without content (its path names no directory).
    pub fn empty() -> (r: Self)
        ensures
            panel_wf(r@),
            r@.elements.len() == 0,
            r@.non_hidden.len() == 0,
            r@.selected == 0,
            r@.non_hidden_idx == 0,
            r@.search is None,
            r@.new_element is None,
            r@.rename_preview is None,
            r@.path == "path-of-empty-panel"@,
            r@.modified == 0,
            !r@.loading,
            !r@.show_hidden,
            !r@.no_access,
    {
        DirPanel {
            elements: Vec::new(),
            non_hidden: Vec::new(),
            search: None,
            new_element: None,
            rename_preview: None,
            selected_idx: 0,
            non_hidden_idx: 0,
            path: owned("path-of-empty-panel"),
            modified: 0,
            loading: false,
            show_hidden: false,
            no_access: false,
        }
    }

    pub fn path(&self) -> (r: &str)
        ensures
            r@ == self@.path,
    {
        self.path.as_str()
    }

    pub fn modified(&self) -> (r: u64)
        ensures
            r == self@.modified,
    {
        self.modified
    }

    pub fn is_loading(&self) -> (r: bool)
        ensures
            r == self@.loading,
    {
        self.loading
    }

    pub fn no_access(&self) -> (r: bool)
        ensures
            r == self@.no_access,
    {
        self.no_access
    }

    /// Records the filesystem display data of element `idx` (see
    /// [`DirElem::normalize`]); out-of-range indices are ignored.
    pub fn normalize_elem(&mut self, idx: usize, canonical: String, is_executable: bool, suffix: String)
        requires
            panel_wf(old(self)@),
        ensures
            panel_wf(final(self)@),
            idx >= old(self)@.elements.len() ==> final(self)@ == old(self)@,
            idx < old(self)@.elements.len() ==> final(self)@ == (PanelView {
                elements: old(self)@.elements.update(
                    idx as int,
                    if old(self)@.elements[idx as int].is_normalized {
                        old(self)@.elements[idx as int]
                    } else {
                        ElemView {
                            path: canonical@,
                            is_executable,
                            suffix: suffix@,
                            is_normalized: true,
                            ..old(self)@.elements[idx as int]
                        }
                    },
                ),
                ..old(self)@
            }),
    {
        if idx < self.elements.len() {
            let ghost before = self@;
            self.elements[idx].normalize(canonical, is_executable, suffix);
            proof {
                assert(self@.elements =~= before.elements.update(idx as int, self@.elements[idx as int]));
                lemma_nh_ok_same_hidden(before.elements, self@.elements, self@.non_hidden);
            }
        }
    }

    pub fn inject_new_element(&mut self, new_element: String, is_dir: bool)
        ensures
            final(self)@ == (PanelView { new_element: Some((new_element@, is_dir)), ..old(self)@ }),
    {
        self.new_element = Some((new_element, is_dir));
    }

    pub fn clear_new_element(&mut self)
        ensures
            final(self)@ == (PanelView { new_element: None, ..old(self)@ }),
    {
        self.new_element = None;
    }

    /// Shows `new_name` in place of element `original_idx`; the preview is
    /// drawn as a directory iff that element is one.
    pub fn inject_rename_preview(&mut self, new_name: String, original_idx: usize)
        ensures
            final(self)@ == (PanelView {
                rename_preview: Some(
                    (
                        new_name@,
                        original_idx,
                        original_idx < old(self)@.elements.len()
                            && old(self)@.elements[original_idx as int].is_dir,
                    ),
                ),
                ..old(self)@
            }),
    {
        let is_dir = original_idx < self.elements.len() && self.elements[original_idx].is_dir;
        self.rename_preview = Some((new_name, original_idx, is_dir));
    }

    pub fn clear_rename_preview(&mut self)
        ensures
            final(self)@ == (PanelView { rename_preview: None, ..old(self)@ }),
    {
        self.rename_preview = None;
    }

    /// Live search: the lowercased pattern becomes the active search.
    pub fn update_search(&mut self, pattern: String)
        ensures
            final(self)@ == (PanelView { search: Some(lowercase_of(pattern@)), ..old(self)@ }),
    {
        self.search = Some(to_lowercase(pattern.as_str()));
    }

    /// Marks exactly the elements whose lowercase name contains the
    /// lowercased pattern, then ends the search.
    pub fn finish_search(&mut self, pattern: &str)
        requires
            panel_wf(old(self)@),
        ensures
            panel_wf(final(self)@),
            final(self)@ == (PanelView {
                elements: marked_by(old(self)@.elements, lowercase_of(pattern@)),
                search: None,
                ..old(self)@
            }),
    {
        let pat_s = to_lowercase(pattern);
        let pat = chars_of(pat_s.as_str());
        let ghost orig = self@;
        let ghost target = marked_by(orig.elements, lowercase_of(pattern@));
        let mut i: usize = 0;
        while i < self.elements.len()
            invariant
                pat@ == lowercase_of(pattern@),
                target == marked_by(orig.elements, lowercase_of(pattern@)),
                i <= self.elements.len(),
                self.elements.len() == orig.elements.len(),
                self@ == (PanelView { elements: self@.elements, ..orig }),
                forall|j: int| 0 <= j < i ==> self@.elements[j] == target[j],
                forall|j: int| i <= j < self.elements.len() ==> self@.elements[j] == orig.elements[j],
            decreases self.elements.len() - i,
        {
            let lower = chars_of(self.elements[i].lowercase.as_str());
            let hit = find_chars(&lower, &pat);
            let found = hit.is_some();
            proof {
                if let Some(k) = hit {
                    assert(crate::text::occurs_at(lower@, pat@, k as int));
                }
                assert(found == contains_seq(lower@, pat@));
            }
            let ghost before = self@;
            let ghost before_e = self.elements@[i as int];
            self.elements[i].set_marked(found);
            proof {
                assert(self@.elements =~= before.elements.update(i as int, self@.elements[i as int]));
                assert(self@.elements[i as int] == self.elements@[i as int]@);
                assert(before.elements[i as int] == before_e@);
                assert(before_e@ == orig.elements[i as int]);
                assert(lower@ == before_e@.lowercase);
                assert(found == contains_seq(orig.elements[i as int].lowercase, lowercase_of(pattern@)));
                assert(target[i as int] == ElemView { is_marked: found, ..orig.elements[i as int] });
                assert(self.elements@[i as int]@ == ElemView { is_marked: found, ..before_e@ });
                assert(self@.elements[i as int] == target[i as int]);
            }
            i += 1;
        }
        self.search = None;
        proof {
            assert(self@.elements =~= target);
            lemma_nh_ok_same_hidden(orig.elements, self@.elements, self@.non_hidden);
        }
    }

    pub fn clear_search(&mut self)
        ensures
            final(self)@ == (PanelView { search: None, ..old(self)@ }),
    {
        self.search = None;
    }

    pub fn elements(&self) -> (r: &[DirElem])
        ensures
            views(r@) == self@.elements,
    {
        self.elements.as_slice()
    }

    pub fn show_hidden(&self) -> (r: bool)
        ensures
            r == self@.show_hidden,
    {
        self.show_hidden
    }

    /// Toggles the mark of the selected element (if there is one).
    pub fn mark_selected_item(&mut self)
        requires
            panel_wf(old(self)@),
        ensures
            panel_wf(final(self)@),
            old(self)@.selected < old(self)@.elements.len() ==> final(self)@ == (PanelView {
                elements: old(self)@.elements.update(
                    old(self)@.selected as int,
                    ElemView {
                        is_marked: !old(self)@.elements[old(self)@.selected as int].is_marked,
                        ..old(self)@.elements[old(self)@.selected as int]
                    },
                ),
                ..old(self)@
            }),
            old(self)@.selected >= old(self)@.elements.len() ==> final(self)@ == old(self)@,
    {
        let sel = self.selected_idx;
        if sel < self.elements.len() {
            let ghost before = self@;
            let m = self.elements[sel].is_marked;
            self.elements[sel].set_marked(!m);
            proof {
                assert(self@.elements =~= before.elements.update(sel as int, self@.elements[sel as int]));
                lemma_nh_ok_same_hidden(before.elements, self@.elements, self@.non_hidden);
            }
        }
    }

    /// Unmarks every element.
    pub fn unmark_all(&mut self)
        requires
            panel_wf(old(self)@),
        ensures
            panel_wf(final(self)@),
            final(self)@ == (PanelView {
                elements: old(self)@.elements.map_values(|e: ElemView| ElemView { is_marked: false, ..e }),
                ..old(self)@
            }),
    {
        let ghost orig = self@;
        let ghost target = orig.elements.map_values(|e: ElemView| ElemView { is_marked: false, ..e });
        let mut i: usize = 0;
        while i < self.elements.len()
            invariant
                target == orig.elements.map_values(|e: ElemView| ElemView { is_marked: false, ..e }),
                i <= self.elements.len(),
                self.elements.len() == orig.elements.len(),
                self@ == (PanelView { elements: self@.elements, ..orig }),
                forall|j: int| 0 <= j < i ==> self@.elements[j] == target[j],
                forall|j: int| i <= j < self.elements.len() ==> self@.elements[j] == orig.elements[j],
            decreases self.elements.len() - i,
        {
            let ghost before = self@;
            let ghost before_e = self.elements@[i as int];
            self.elements[i].unmark();
            proof {
                assert(self@.elements =~= before.elements.update(i as int, self@.elements[i as int]));
                assert(self@.elements[i as int] == self.elements@[i as int]@);
                assert(before.elements[i as int] == before_e@);
                assert(before_e@ == orig.elements[i as int]);
                assert(self.elements@[i as int]@ == ElemView { is_marked: false, ..before_e@ });
                assert(target[i as int] == ElemView { is_marked: false, ..orig.elements[i as int] });
                assert(self@.elements[i as int] == target[i as int]);
            }
            i += 1;
        }
        proof {
            assert(self@.elements =~= target);
            lemma_nh_ok_same_hidden(orig.elements, self@.elements, self@.non_hidden);
        }
    }

    /// Sets the non-hidden cursor to the position closest to the selection.
    fn set_non_hidden_idx(&mut self)
        requires
            panel_wf(old(self)@),
        ensures
            final(self)@ == (PanelView { non_hidden_idx: closest_nh_idx(old(self)@), ..old(self)@ }),
    {
        if self.non_hidden.len() == 0 {
            return;
        }
        let sel = self.selected_idx;
        let mut k: usize = 0;
        while k + 1 < self.non_hidden.len() && self.non_hidden[k] < sel
            invariant
                self.non_hidden.len() > 0,
                k < self.non_hidden.len(),
                sel == self.selected_idx,
                scan_geq(self.non_hidden@, sel, 0) == scan_geq(self.non_hidden@, sel, k as int),
            decreases self.non_hidden.len() - k,
        {
            k += 1;
        }
        self.non_hidden_idx = k;
    }

    /// Selects the element with path `selection`, if it is listed; otherwise
    /// `alt_idx` (or the current selection) clamped into range.
    pub fn select_path(&mut self, selection: &str, alt_idx: Option<usize>)
        requires
            panel_wf(old(self)@),
        ensures
            panel_wf(final(self)@),
            final(self)@ == selected_path_to(old(self)@, selection@, alt_idx),
    {
        let ghost v = self@;
        let n = self.elements.len();
        if n > 0 && str_eq(self.elements[self.selected_idx].path.as_str(), selection) {
            return;
        }
        let mut i: usize = 0;
        let mut found: Option<usize> = None;
        while i < n
            invariant_except_break
                found is None,
            invariant
                n == self.elements.len(),
                self@ == v,
                i <= n,
                find_path(v, selection@, 0) == find_path(v, selection@, i as int),
            ensures
                match found {
                    None => find_path(v, selection@, 0) is None,
                    Some(f) => find_path(v, selection@, 0) == Some(f as int),
                },
            decreases n - i,
        {
            proof {
                assert(v.elements[i as int] == self.elements@[i as int]@);
            }
            if (self.show_hidden || !self.elements[i].is_hidden) && str_eq(self.elements[i].path.as_str(), selection) {
                found = Some(i);
                break;
            }
            i += 1;
        }
        let last = if n > 0 { n - 1 } else { 0 };
        let idx = match found {
            Some(f) => f,
            None => {
                let a = match alt_idx {
                    Some(a) => a,
                    None => self.selected_idx,
                };
                if a < last { a } else { last }
            },
        };
        proof {
            lemma_find_path(v, selection@, 0);
        }
        self.selected_idx = idx;
        if !self.show_hidden {
            self.set_non_hidden_idx();
        }
        proof {
            lemma_resync_wf(PanelView { selected: idx, ..v });
        }
    }

    /// Selects the next listed, marked element after the selection,
    /// wrapping around to the first one; unchanged when nothing is marked.
    pub fn select_next_marked(&mut self)
        requires
            panel_wf(old(self)@),
        ensures
            panel_wf(final(self)@),
            final(self)@ == resync(
                PanelView {
                    selected: match fwd_marked(old(self)@, old(self)@.selected + 1) {
                        Some(i) => i as usize,
                        None => match fwd_marked(old(self)@, 0) {
                            Some(i) => i as usize,
                            None => old(self)@.selected,
                        },
                    },
                    ..old(self)@
                },
            ),
    {
        let ghost v = self@;
        let n = self.elements.len();
        let sel = self.selected_idx;
        let mut i: usize = sel + 1;
        let mut found: Option<usize> = None;
        while i < n
            invariant_except_break
                found is None,
            invariant
                n == self.elements.len(),
                self@ == v,
                sel == v.selected,
                sel + 1 <= i,
                fwd_marked(v, sel + 1) == fwd_marked(v, i as int),
            ensures
                match found {
                    None => fwd_marked(v, sel + 1) is None,
                    Some(f) => fwd_marked(v, sel + 1) == Some(f as int),
                },
            decreases n - i,
        {
            proof {
                assert(v.elements[i as int] == self.elements@[i as int]@);
            }
            if (self.show_hidden || !self.elements[i].is_hidden) && self.elements[i].is_marked {
                found = Some(i);
                break;
            }
            i += 1;
        }
        if found.is_none() {
            let mut j: usize = 0;
            while j < n
                invariant_except_break
                    found is None,
                invariant
                    n == self.elements.len(),
                    self@ == v,
                    fwd_marked(v, 0) == fwd_marked(v, j as int),
                ensures
                    match found {
                        None => fwd_marked(v, 0) is None,
                        Some(f) => fwd_marked(v, 0) == Some(f as int),
                    },
                decreases n - j,
            {
                proof {
                    assert(v.elements[j as int] == self.elements@[j as int]@);
                }
                if (self.show_hidden || !self.elements[j].is_hidden) && self.elements[j].is_marked {
                    found = Some(j);
                    break;
                }
                j += 1;
            }
        }
        proof {
            lemma_fwd_marked(v, sel + 1);
            lemma_fwd_marked(v, 0);
        }
        let idx = match found {
            Some(f) => f,
            None => sel,
        };
        self.selected_idx = idx;
        if !self.show_hidden {
            self.set_non_hidden_idx();
        }
        proof {
            lemma_resync_wf(PanelView { selected: idx, ..v });
        }
    }

    /// Selects the previous listed, marked element before the selection,
    /// wrapping around to the last one; unchanged when nothing is marked.
    pub fn select_prev_marked(&mut self)
        requires
            panel_wf(old(self)@),
        ensures
            panel_wf(final(self)@),
            final(self)@ == resync(
                PanelView {
                    selected: match bwd_marked(old(self)@, old(self)@.selected as int) {
                        Some(i) => i as usize,
                        None => match bwd_marked(old(self)@, old(self)@.elements.len() as int) {
                            Some(i) => i as usize,
                            None => old(self)@.selected,
                        },
                    },
                    ..old(self)@
                },
            ),
    {
        let ghost v = self@;
        let n = self.elements.len();
        let sel = self.selected_idx;
        let mut i: usize = if sel < n { sel } else { n };
        proof {
            if sel >= n {
                // an empty panel: nothing lies before the selection
                assert(n == 0);
            }
        }
        let mut found: Option<usize> = None;
        while i > 0
            invariant_except_break
                found is None,
            invariant
                n == self.elements.len(),
                self@ == v,
                i <= n,
                bwd_marked(v, sel as int) == bwd_marked(v, i as int),
            ensures
                match found {
                    None => bwd_marked(v, sel as int) is None,
                    Some(f) => bwd_marked(v, sel as int) == Some(f as int),
                },
            decreases i,
        {
            proof {
                assert(v.elements[i - 1] == self.elements@[i - 1]@);
            }
            if (self.show_hidden || !self.elements[i - 1].is_hidden) && self.elements[i - 1].is_marked {
                found = Some(i - 1);
                break;
            }
            i -= 1;
        }
        if found.is_none() {
            let mut j: usize = n;
            while j > 0
                invariant_except_break
                    found is None,
                invariant
                    n == self.elements.len(),
                    self@ == v,
                    j <= n,
                    bwd_marked(v, n as int) == bwd_marked(v, j as int),
                ensures
                    match found {
                        None => bwd_marked(v, n as int) is None,
                        Some(f) => bwd_marked(v, n as int) == Some(f as int),
                    },
                decreases j,
            {
                proof {
                    assert(v.elements[j - 1] == self.elements@[j - 1]@);
                }
                if (self.show_hidden || !self.elements[j - 1].is_hidden) && self.elements[j - 1].is_marked {
                    found = Some(j - 1);
                    break;
                }
                j -= 1;
            }
        }
        proof {
            lemma_bwd_marked(v, n as int);
            if sel <= n {
                lemma_bwd_marked(v, sel as int);
            }
        }
        let idx = match found {
            Some(f) => f,
            None => sel,
        };
        self.selected_idx = idx;
        if !self.show_hidden {
            self.set_non_hidden_idx();
        }
        proof {
            lemma_resync_wf(PanelView { selected: idx, ..v });
        }
    }

    /// Turns the display of hidden files on or off. Hiding them moves the
    /// selection to the listed element closest to it.
    pub fn set_hidden(&mut self, show_hidden: bool)
        requires
            panel_wf(old(self)@),
        ensures
            panel_wf(final(self)@),
            final(self)@ == (if old(self)@.show_hidden == show_hidden {
                old(self)@
            } else if old(self)@.show_hidden {
                let k = closest_nh_idx(old(self)@);
                PanelView {
                    non_hidden_idx: k,
                    selected: nh_at_or_zero(old(self)@.non_hidden, k as int),
                    show_hidden,
                    ..old(self)@
                }
            } else {
                PanelView { show_hidden, ..old(self)@ }
            }),
    {
        if self.show_hidden == show_hidden {
            return;
        }
        if self.show_hidden && !show_hidden {
            proof {
                if self@.non_hidden.len() > 0 {
                    lemma_scan_geq_range(self@.non_hidden, self@.selected, 0);
                }
            }
            self.set_non_hidden_idx();
            self.selected_idx = if self.non_hidden_idx < self.non_hidden.len() {
                self.non_hidden[self.non_hidden_idx]
            } else {
                0
            };
        }
        self.show_hidden = show_hidden;
    }

    /// Moves the selection up by `step`; `true` iff it moved.
    pub fn up(&mut self, step: usize) -> (r: bool)
        requires
            panel_wf(old(self)@),
        ensures
            panel_wf(final(self)@),
            (final(self)@, r) == moved_up(old(self)@, step),
    {
        if step == 0 {
            return false;
        }
        if self.show_hidden {
            if self.selected_idx == 0 {
                return false;
            }
            self.selected_idx = if self.selected_idx >= step { self.selected_idx - step } else { 0 };
        } else {
            if self.non_hidden_idx == 0 {
                return false;
            }
            self.non_hidden_idx = if self.non_hidden_idx >= step { self.non_hidden_idx - step } else { 0 };
            self.selected_idx = if self.non_hidden_idx < self.non_hidden.len() {
                self.non_hidden[self.non_hidden_idx]
            } else {
                0
            };
        }
        true
    }

    /// Moves the selection down by `step`, stopping at the last entry;
    /// `true` iff the panel changed.
    pub fn down(&mut self, step: usize) -> (r: bool)
        requires
            panel_wf(old(self)@),
        ensures
            panel_wf(final(self)@),
            (final(self)@, r) == moved_down(old(self)@, step),
    {
        if step == 0 {
            return false;
        }
        if self.show_hidden {
            let n = self.elements.len();
            if self.selected_idx.saturating_add(1) >= n {
                return false;
            }
            if self.selected_idx.saturating_add(step) >= n {
                self.selected_idx = if n > 0 { n - 1 } else { 0 };
            } else {
                self.selected_idx = self.selected_idx + step;
            }
        } else {
            let m = self.non_hidden.len();
            if self.non_hidden_idx.saturating_add(1) >= m {
                return false;
            }
            if self.non_hidden_idx.saturating_add(step) >= m {
                self.non_hidden_idx = if m > 0 { m - 1 } else { 0 };
            } else {
                self.non_hidden_idx = self.non_hidden_idx + step;
            }
            self.selected_idx = if self.non_hidden_idx < m {
                self.non_hidden[self.non_hidden_idx]
            } else {
                0
            };
        }
        true
    }

    /// The path of the selected element, or `None` for an empty panel.
    pub fn selected_path(&self) -> (r: Option<&str>)
        requires
            panel_wf(self@),
        ensures
            match r {
                Some(p) => self@.elements.len() > 0 && p@ == self@.elements[self@.selected as int].path,
                None => self@.elements.len() == 0,
            },
    {
        if self.selected_idx < self.elements.len() {
            Some(self.elements[self.selected_idx].path.as_str())
        } else {
            None
        }
    }

    pub fn selected_idx(&self) -> (r: usize)
        ensures
            r == self@.selected,
    {
        self.selected_idx
    }

    /// The selection as an index into the listed entries.
    pub fn index(&self) -> (r: usize)
        ensures
            r == if self@.show_hidden {
                self@.selected
            } else {
                self@.non_hidden_idx
            },
    {
        if self.show_hidden {
            self.selected_idx
        } else {
            self.non_hidden_idx
        }
    }

    /// The selected element, or `None` for an empty panel.
    pub fn selected(&self) -> (r: Option<&DirElem>)
        ensures
            match r {
                Some(e) => self@.selected < self@.elements.len() && e@ == self@.elements[self@.selected as int],
                None => self@.selected >= self@.elements.len(),
            },
    {
        if self.selected_idx < self.elements.len() {
            Some(&self.elements[self.selected_idx])
        } else {
            None
        }
    }

    /// The 1-based position of the selection and the number of listed
    /// entries.
    pub fn index_vs_total(&self) -> (r: (usize, usize))
        ensures
            r == (if self@.show_hidden {
                ((if self@.selected == usize::MAX { usize::MAX } else { (self@.selected + 1) as usize }),
                self@.elements.len() as usize)
            } else {
                ((if self@.non_hidden_idx == usize::MAX { usize::MAX } else { (self@.non_hidden_idx + 1) as usize }),
                self@.non_hidden.len() as usize)
            }),
    {
        if self.show_hidden {
            (self.selected_idx.saturating_add(1), self.elements.len())
        } else {
            (self.non_hidden_idx.saturating_add(1), self.non_hidden.len())
        }
    }

    /// Replaces the panel by fresh `content`, keeping the hidden-file
    /// setting and, for the same directory, the selected path.
    pub fn update_content(&mut self, content: DirPanel)
        requires
            panel_wf(old(self)@),
            panel_wf(content@),
        ensures
            panel_wf(final(self)@),
            final(self)@ == (if content@.path == old(self)@.path && old(self)@.elements.len() > 0 {
                selected_path_to(
                    PanelView { show_hidden: old(self)@.show_hidden, ..content@ },
                    old(self)@.elements[old(self)@.selected as int].path,
                    Some(old(self)@.selected),
                )
            } else {
                PanelView { show_hidden: old(self)@.show_hidden, ..content@ }
            }),
    {
        let mut content = content;
        content.show_hidden = self.show_hidden;
        if str_eq(content.path.as_str(), self.path.as_str()) {
            if self.selected_idx < self.elements.len() {
                let sel_path = copy_string(&self.elements[self.selected_idx].path);
                content.select_path(sel_path.as_str(), Some(self.selected_idx));
            }
        }
        *self = content;
    }
}

// ---------------------------------------------------------------------------
// Laws of the panel.

/// [`key_le`] is a total preorder: any two entries are comparable.
pub proof fn lemma_key_le_total(a: ElemView, b: ElemView)
    ensures
        key_le(a, b) || key_le(b, a),
{
    lemma_seq_lt_asymmetric(a.lowercase, b.lowercase);
}

/// [`key_le`] is transitive.
pub proof fn lemma_key_le_transitive(a: ElemView, b: ElemView, c: ElemView)
    requires
        key_le(a, b),
        key_le(b, c),
    ensures
        key_le(a, c),
{
    if a.is_dir == b.is_dir && b.is_dir == c.is_dir {
        if seq_lt(c.lowercase, a.lowercase) {
            lemma_seq_lt_total(a.lowercase, b.lowercase);
            lemma_seq_lt_total(b.lowercase, c.lowercase);
            if a.lowercase == b.lowercase {
            } else if b.lowercase == c.lowercase {
            } else {
                lemma_seq_lt_transitive(a.lowercase, b.lowercase, c.lowercase);
                lemma_seq_lt_asymmetric(a.lowercase, c.lowercase);
            }
        }
    }
}

/// Ordered by [`key_le`].
pub open spec fn sorted_by_key(s: Seq<ElemView>) -> bool {
    forall|i: int, j: int| 0 <= i < j < s.len() ==> key_le(#[trigger] s[i], #[trigger] s[j])
}

proof fn lemma_insert_sorted_props(x: ElemView, s: Seq<ElemView>)
    ensures
        insert_sorted(x, s).to_multiset() == s.to_multiset().insert(x),
        insert_sorted(x, s).len() == s.len() + 1,
        forall|k: int| 0 <= k < insert_sorted(x, s).len() ==> #[trigger] insert_sorted(x, s)[k] == x || s.contains(
            insert_sorted(x, s)[k],
        ),
        sorted_by_key(s) ==> sorted_by_key(insert_sorted(x, s)),
    decreases s.len(),
{
    broadcast use vstd::seq_lib::group_to_multiset_ensures;

    let r = insert_sorted(x, s);
    if s.len() == 0 {
        assert(r =~= Seq::<ElemView>::empty().insert(0, x));
    } else if key_le(x, s[0]) {
        assert(r =~= s.insert(0, x));
        assert forall|k: int| 0 <= k < r.len() implies #[trigger] r[k] == x || s.contains(r[k]) by {
            if k > 0 {
                assert(r[k] == s[k - 1]);
            }
        }
        if sorted_by_key(s) {
            assert forall|i: int, j: int| 0 <= i < j < r.len() implies key_le(#[trigger] r[i], #[trigger] r[j]) by {
                if i == 0 {
                    if j > 1 {
                        lemma_key_le_transitive(x, s[0], s[j - 1]);
                    }
                } else {
                    assert(r[i] == s[i - 1] && r[j] == s[j - 1]);
                }
            }
        }
    } else {
        let t = s.drop_first();
        lemma_insert_sorted_props(x, t);
        let rt = insert_sorted(x, t);
        assert(r =~= rt.insert(0, s[0]));
        assert(s =~= t.insert(0, s[0]));
        assert forall|k: int| 0 <= k < r.len() implies #[trigger] r[k] == x || s.contains(r[k]) by {
            if k == 0 {
                assert(s[0] == r[0]);
            } else {
                assert(r[k] == rt[k - 1]);
                if rt[k - 1] != x {
                    let j = choose|j: int| 0 <= j < t.len() && t[j] == rt[k - 1];
                    assert(s[j + 1] == t[j]);
                }
            }
        }
        if sorted_by_key(s) {
            assert(sorted_by_key(t)) by {
                assert forall|i: int, j: int| 0 <= i < j < t.len() implies key_le(#[trigger] t[i], #[trigger] t[j]) by {
                    assert(t[i] == s[i + 1] && t[j] == s[j + 1]);
                }
            }
            lemma_key_le_total(x, s[0]);
            assert forall|i: int, j: int| 0 <= i < j < r.len() implies key_le(#[trigger] r[i], #[trigger] r[j]) by {
                if i == 0 {
                    let e = rt[j - 1];
                    assert(r[j] == e);
                    if e != x {
                        let m = choose|m: int| 0 <= m < t.len() && t[m] == e;
                        assert(s[m + 1] == e);
                    }
                } else {
                    assert(r[i] == rt[i - 1] && r[j] == rt[j - 1]);
                }
            }
        }
    }
}

/// Display order is a sort: [`sort_elems`] keeps exactly the entries it is
/// given (as a multiset) and puts them in [`key_le`] order — directories
/// before files, names ascending.
pub proof fn law_display_order_is_a_sort(s: Seq<ElemView>)
    ensures
        sort_elems(s).to_multiset() == s.to_multiset(),
        sorted_by_key(sort_elems(s)),
    decreases s.len(),
{
    broadcast use vstd::seq_lib::group_to_multiset_ensures;

    if s.len() == 0 {
        assert(sort_elems(s) =~= s);
    } else {
        let t = s.drop_first();
        law_display_order_is_a_sort(t);
        lemma_insert_sorted_props(s[0], sort_elems(t));
        assert(s =~= t.insert(0, s[0]));
    }
}

/// Moving down by `step` and back up by `step` returns to the starting
/// entry whenever the downward move did not hit the end of the list.
pub proof fn law_down_then_up_returns(v: PanelView, step: usize)
    requires
        panel_wf(v),
        step > 0,
        v.show_hidden ==> v.selected + step < v.elements.len(),
        !v.show_hidden ==> v.non_hidden_idx + step < v.non_hidden.len(),
    ensures
        moved_down(v, step).1,
        moved_up(moved_down(v, step).0, step).1,
        v.show_hidden ==> moved_up(moved_down(v, step).0, step).0 == v,
        !v.show_hidden ==> moved_up(moved_down(v, step).0, step).0 == (PanelView {
            selected: v.non_hidden[v.non_hidden_idx as int],
            ..v
        }),
{
    let d = moved_down(v, step).0;
    if v.show_hidden {
        assert(d.selected == v.selected + step);
        assert(d.selected != 0);
        assert(moved_up(d, step).0.selected == v.selected);
    } else {
        assert(d.non_hidden_idx == v.non_hidden_idx + step);
        assert(d.non_hidden_idx != 0);
        assert(moved_up(d, step).0.non_hidden_idx == v.non_hidden_idx);
    }
}

/// The movement operations keep the panel consistent and the selection
/// inside the listed entries.
pub proof fn law_moves_stay_in_bounds(v: PanelView, step: usize)
    requires
        panel_wf(v),
    ensures
        panel_wf(moved_up(v, step).0),
        panel_wf(moved_down(v, step).0),
        v.elements.len() > 0 ==> moved_up(v, step).0.selected < v.elements.len(),
        v.elements.len() > 0 ==> moved_down(v, step).0.selected < v.elements.len(),
{
}

/// Selecting a path that is listed makes it the selected entry.
pub proof fn law_select_listed_path(v: PanelView, p: Seq<char>, alt: Option<usize>)
    requires
        panel_wf(v),
        exists|i: int| 0 <= i < v.elements.len() && visible(v, i) && v.elements[i].path == p,
    ensures
        panel_wf(selected_path_to(v, p, alt)),
        selected_path_to(v, p, alt).elements[selected_path_to(v, p, alt).selected as int].path == p,
{
    lemma_find_path(v, p, 0);
    if !(v.elements.len() > 0 && v.elements[v.selected as int].path == p) {
        let i = find_path(v, p, 0)->0;
        let w = PanelView { selected: i as usize, ..v };
        lemma_resync_wf(w);
        assert(selected_path_to(v, p, alt) == resync(w));
        assert(resync(w).selected == i);
        assert(resync(w).elements == v.elements);
    }
}

/// After a finished search, an entry is marked exactly when its lowercase
/// name contains the lowercased pattern; nothing else about it changes.
pub proof fn law_finish_search_marks_matches(elems: Seq<ElemView>, pattern: Seq<char>, i: int)
    requires
        0 <= i < elems.len(),
    ensures
        marked_by(elems, lowercase_of(pattern)).len() == elems.len(),
        marked_by(elems, lowercase_of(pattern))[i].is_marked == contains_seq(
            elems[i].lowercase,
            lowercase_of(pattern),
        ),
        marked_by(elems, lowercase_of(pattern))[i] == (ElemView {
            is_marked: marked_by(elems, lowercase_of(pattern))[i].is_marked,
            ..elems[i]
        }),
{
}
/// The paths of the marked elements, in order.
pub open spec fn marked_paths_of(elems: Seq<ElemView>) -> Seq<Seq<char>>
    decreases elems.len(),
{
    if elems.len() == 0 {
        Seq::empty()
    } else {
        let r = marked_paths_of(elems.drop_last());
        if elems.last().is_marked {
            r.push(elems.last().path)
        } else {
            r
        }
    }
}

/// The marked paths of the visible panels: the left column, the center
/// column and, when the preview shows a directory, that one.
pub open spec fn marked_in(left: PanelView, center: PanelView, right: Option<PanelView>) -> Seq<Seq<char>> {
    marked_paths_of(left.elements) + marked_paths_of(center.elements) + match right {
        Some(r) => marked_paths_of(r.elements),
        None => Seq::empty(),
    }
}

/// The paths of the marked elements of `panel`, in order.
pub fn marked_paths(panel: &DirPanel) -> (r: Vec<String>)
    ensures
        strings_of(r@) == marked_paths_of(panel@.elements),
{
    let elems = panel.elements();
    let ghost ev = panel@.elements;
    let mut out: Vec<String> = Vec::new();
    let mut i: usize = 0;
    while i < elems.len()
        invariant
            views(elems@) == ev,
            i <= elems@.len(),
            strings_of(out@) == marked_paths_of(ev.take(i as int)),
        decreases elems@.len() - i,
    {
        assert(ev.take(i + 1).drop_last() =~= ev.take(i as int));
        assert(ev.take(i + 1).last() == elems@[i as int]@);
        if elems[i].is_marked() {
            let ghost before = out@;
            out.push(owned(elems[i].path()));
            assert(strings_of(out@) =~= strings_of(before).push(elems@[i as int]@.path));
        }
        i += 1;
    }
    assert(ev.take(i as int) =~= ev);
    out
}

/// The marked paths of the visible panels (see [`marked_in`]).
pub fn marked_items(left: &DirPanel, center: &DirPanel, right: Option<&DirPanel>) -> (r: Vec<String>)
    ensures
        strings_of(r@) == marked_in(left@, center@, match right {
            Some(p) => Some(p@),
            None => None,
        }),
{
    let mut out = marked_paths(left);
    let mut c = marked_paths(center);
    let ghost a = strings_of(out@);
    let ghost b = strings_of(c@);
    out.append(&mut c);
    assert(strings_of(out@) =~= a + b);
    match right {
        Some(p) => {
            let ghost ab = strings_of(out@);
            let mut d = marked_paths(p);
            let ghost dd = strings_of(d@);
            out.append(&mut d);
            assert(strings_of(out@) =~= ab + dd);
        },
        None => {
            assert(strings_of(out@) =~= strings_of(out@) + Seq::<Seq<char>>::empty());
        },
    }
    out
}

/// The paths an operation applies to: the marked ones, or else the
/// selected one of the center column, which then gets marked.
pub fn marked_or_selected(left: &DirPanel, center: &mut DirPanel, right: Option<&DirPanel>) -> (r: Vec<String>)
    requires
        panel_wf(old(center)@),
    ensures
        panel_wf(final(center)@),
        ({
            let m = marked_in(left@, old(center)@, match right {
                Some(p) => Some(p@),
                None => None,
            });
            let c = old(center)@;
            if m.len() > 0 {
                strings_of(r@) == m && final(center)@ == c
            } else if c.elements.len() > 0 {
                &&& strings_of(r@) == seq![c.elements[c.selected as int].path]
                &&& final(center)@ == (PanelView {
                    elements: c.elements.update(
                        c.selected as int,
                        ElemView { is_marked: !c.elements[c.selected as int].is_marked, ..c.elements[c.selected as int] },
                    ),
                    ..c
                })
            } else {
                r@.len() == 0 && final(center)@ == c
            }
        }),
{
    let files = marked_items(left, center, right);
    if files.len() > 0 {
        return files;
    }
    center.mark_selected_item();
    match center.selected_path() {
        Some(p) => {
            let v = vec![owned(p)];
            assert(strings_of(v@) =~= seq![p@]);
            v
        },
        None => Vec::new(),
    }
}


/// A row of the directory listing as it is drawn, top to bottom.
#[derive(Debug, Clone, Copy, PartialEq, Eq, Structural)]
pub enum ListRow {
    /// Element `.0` of the panel; `.1` whether it is drawn as the selection.
    Elem(usize, bool),
    /// The element being created, at the place it will take.
    NewElement,
    /// The element being renamed, at the place its new name will take.
    RenamePreview,
    /// The search matches nothing.
    NoMatch,
}

/// The listed (not hidden away) element indices below `n`, in order.
pub open spec fn listed_upto(v: PanelView, n: int) -> Seq<usize>
    decreases n,
{
    if n <= 0 {
        Seq::empty()
    } else if visible(v, n - 1) {
        listed_upto(v, n - 1).push((n - 1) as usize)
    } else {
        listed_upto(v, n - 1)
    }
}

/// The elements under the panel's hidden-file setting, in order.
pub open spec fn listed(v: PanelView) -> Seq<usize> {
    listed_upto(v, v.elements.len() as int)
}

/// The element row for `idx`.
pub open spec fn elem_row(v: PanelView, idx: usize) -> ListRow {
    ListRow::Elem(idx, idx == v.selected)
}

pub open spec fn min_int(a: int, b: int) -> int {
    if a <= b {
        a
    } else {
        b
    }
}

/// How many listed elements scroll off the top of a listing `height` rows
/// high: the selection is kept near the middle, so the bottom is half a
/// screen past it (or at the end).
pub open spec fn list_scroll(v: PanelView, height: u16) -> int {
    let h = (height + 1) / 2;
    let bot = if v.show_hidden {
        min_int(v.elements.len() as int, v.selected + h)
    } else {
        min_int(v.non_hidden.len() as int, v.non_hidden_idx + h)
    };
    sat_sub(bot, height as int)
}

/// The listed elements after the scroll, at most `take` of them.
pub open spec fn list_window(v: PanelView, height: u16, take: int) -> Seq<usize> {
    let l = listed(v);
    let start = min_int(list_scroll(v, height), l.len() as int);
    l.subrange(start, min_int(start + take, l.len() as int))
}

/// The listed elements below `n` whose lowercase name contains `pat`.
pub open spec fn matched_upto(v: PanelView, pat: Seq<char>, n: int) -> Seq<usize>
    decreases n,
{
    if n <= 0 {
        Seq::empty()
    } else if visible(v, n - 1) && contains_seq(v.elements[n - 1].lowercase, pat) {
        matched_upto(v, pat, n - 1).push((n - 1) as usize)
    } else {
        matched_upto(v, pat, n - 1)
    }
}

/// Search rows: every listed match, none selected, while the row
/// `y_start + k` is not below row `height`; a search without any row
/// shows that nothing matches.
pub open spec fn search_rows(v: PanelView, pat: Seq<char>, y_start: u16, height: u16) -> Seq<ListRow> {
    let m = matched_upto(v, pat, v.elements.len() as int);
    let cap = if height >= y_start {
        height - y_start + 1
    } else {
        0
    };
    let t = m.take(min_int(cap, m.len() as int));
    if t.len() == 0 {
        seq![ListRow::NoMatch]
    } else {
        t.map_values(|i: usize| ListRow::Elem(i, false))
    }
}

/// Whether element `e` goes before a new element with lowercase name `lc`
/// (a directory when `d`): directories first, then by name.
pub open spec fn before_new(e: ElemView, lc: Seq<char>, d: bool) -> bool {
    if d {
        e.is_dir && seq_lt(e.lowercase, lc)
    } else {
        e.is_dir || seq_lt(e.lowercase, lc)
    }
}

/// The first element from `i` on that does not go before the new element
/// (the number of elements when all do).
pub open spec fn new_partition_from(v: PanelView, lc: Seq<char>, d: bool, i: int) -> int
    decreases v.elements.len() - i,
{
    if i >= v.elements.len() || i < 0 {
        v.elements.len() as int
    } else if !before_new(v.elements[i], lc, d) {
        i
    } else {
        new_partition_from(v, lc, d, i + 1)
    }
}

/// Rows for the first `k` window entries while an element is being
/// created: the new element is drawn just above the element whose index is
/// its place.
pub open spec fn new_rows_upto(v: PanelView, win: Seq<usize>, p: int, shown: bool, k: int) -> Seq<ListRow>
    decreases k,
{
    if k <= 0 {
        Seq::empty()
    } else {
        let prev = new_rows_upto(v, win, p, shown, k - 1);
        let idx = win[k - 1];
        let with_new = if idx == p && shown {
            prev.push(ListRow::NewElement)
        } else {
            prev
        };
        with_new.push(elem_row(v, idx))
    }
}

/// The listing while an element named `name` (a directory when `d`) is
/// being created: one row fewer of elements, the new element above the
/// element at its place, or after the last row when as many rows were
/// drawn as its place.
pub open spec fn new_element_rows(v: PanelView, name: Seq<char>, d: bool, height: u16) -> Seq<ListRow> {
    let p = new_partition_from(v, lowercase_of(name), d, 0);
    let shown = name.len() > 0;
    let win = list_window(v, height, sat_sub(height as int, 1));
    let rows = new_rows_upto(v, win, p, shown, win.len() as int);
    if rows.len() == p && shown {
        rows.push(ListRow::NewElement)
    } else {
        rows
    }
}

/// Whether element `i` counts for the place of a renamed element: it is
/// not the element itself, it is listed, and a directory when the renamed
/// element is one.
pub open spec fn rename_counts(v: PanelView, o: usize, d: bool, i: int) -> bool {
    i != o && visible(v, i) && (!d || v.elements[i].is_dir)
}

/// How many of the counted elements from `i` on come before the new name
/// `lc`, up to the first that does not.
pub open spec fn rename_partition_from(v: PanelView, o: usize, lc: Seq<char>, d: bool, i: int) -> int
    decreases v.elements.len() - i,
{
    if i >= v.elements.len() || i < 0 {
        0
    } else if !rename_counts(v, o, d, i) {
        rename_partition_from(v, o, lc, d, i + 1)
    } else if before_new(v.elements[i], lc, d) {
        1 + rename_partition_from(v, o, lc, d, i + 1)
    } else {
        0
    }
}

/// The rows and the count of element rows after the first `k` window
/// entries of a rename preview: the renamed element is left out, the
/// preview goes above the element row with its place, and the listing
/// stops once `height` rows are drawn.
pub open spec fn rename_state(
    v: PanelView,
    win: Seq<usize>,
    o: usize,
    p: int,
    shown: bool,
    height: u16,
    k: int,
) -> (Seq<ListRow>, int)
    decreases k,
{
    if k <= 0 {
        (Seq::empty(), 0)
    } else {
        let (rows, vis) = rename_state(v, win, o, p, shown, height, k - 1);
        let idx = win[k - 1];
        if rows.len() >= height || idx == o {
            (rows, vis)
        } else {
            let pv = vis == p && shown;
            let rows1 = if pv {
                rows.push(ListRow::RenamePreview)
            } else {
                rows
            };
            if pv && rows1.len() >= height {
                (rows1, vis)
            } else {
                (rows1.push(elem_row(v, idx)), vis + 1)
            }
        }
    }
}

/// The listing while element `o` is being renamed to `name`.
pub open spec fn rename_rows(v: PanelView, name: Seq<char>, o: usize, d: bool, height: u16) -> Seq<ListRow> {
    let p = rename_partition_from(v, o, lowercase_of(name), d, 0);
    let shown = name.len() > 0;
    let win = list_window(v, height, height as int);
    let (rows, vis) = rename_state(v, win, o, p, shown, height, win.len() as int);
    if vis == p && shown && rows.len() < height {
        rows.push(ListRow::RenamePreview)
    } else {
        rows
    }
}

/// The rows of the listing of a panel drawn from row `y_start`, `height`
/// rows high: the search matches while searching; else the window of
/// listed elements, with the element being created or renamed at its
/// place.
pub open spec fn rows_of(v: PanelView, y_start: u16, height: u16) -> Seq<ListRow> {
    match v.search {
        Some(pat) => search_rows(v, pat, y_start, height),
        None => match v.new_element {
            Some((name, d)) => new_element_rows(v, name, d, height),
            None => match v.rename_preview {
                Some((name, o, d)) => rename_rows(v, name, o, d, height),
                None => list_window(v, height, height as int).map_values(|i: usize| elem_row(v, i)),
            },
        },
    }
}

/// The listed element indices of `panel`; see [`listed`].
fn listed_indices(panel: &DirPanel) -> (r: Vec<usize>)
    ensures
        r@ == listed(panel@),
        forall|j: int| 0 <= j < r@.len() ==> (#[trigger] r@[j]) < panel@.elements.len(),
{
    let ghost v = panel@;
    let mut out: Vec<usize> = Vec::new();
    let mut i: usize = 0;
    while i < panel.elements.len()
        invariant
            v == panel@,
            v.elements.len() == panel.elements@.len(),
            i <= panel.elements@.len(),
            out@ == listed_upto(v, i as int),
            forall|j: int| 0 <= j < out@.len() ==> (#[trigger] out@[j]) < i,
        decreases panel.elements@.len() - i,
    {
        assert(v.elements[i as int] == panel.elements@[i as int]@);
        if panel.show_hidden || !panel.elements[i].is_hidden {
            out.push(i);
        }
        i = i + 1;
    }
    out
}

/// The listed elements after the scroll, at most `take`; see
/// [`list_window`].
fn window_of(panel: &DirPanel, shown: &Vec<usize>, height: u16, take: usize) -> (r: Vec<usize>)
    requires
        shown@ == listed(panel@),
    ensures
        r@ == list_window(panel@, height, take as int),
{
    let h: usize = (height as usize + 1) / 2;
    let bot: usize = if panel.show_hidden {
        let up = panel.selected_idx.saturating_add(h);
        if panel.elements.len() <= up {
            panel.elements.len()
        } else {
            up
        }
    } else {
        let up = panel.non_hidden_idx.saturating_add(h);
        if panel.non_hidden.len() <= up {
            panel.non_hidden.len()
        } else {
            up
        }
    };
    let scroll: usize = bot.saturating_sub(height as usize);
    assert(scroll == list_scroll(panel@, height));
    let n = shown.len();
    let start: usize = if scroll <= n {
        scroll
    } else {
        n
    };
    let end: usize = if take <= n - start {
        start + take
    } else {
        n
    };
    let mut out: Vec<usize> = Vec::new();
    let mut k: usize = start;
    while k < end
        invariant
            start <= k <= end <= n,
            n == shown@.len(),
            out@ == shown@.subrange(start as int, k as int),
        decreases end - k,
    {
        out.push(shown[k]);
        k = k + 1;
        assert(out@ =~= shown@.subrange(start as int, k as int));
    }
    out
}

/// The listed elements whose lowercase name contains `pat`; see
/// [`matched_upto`].
fn matched_indices(panel: &DirPanel, pat: &str) -> (r: Vec<usize>)
    ensures
        r@ == matched_upto(panel@, pat@, panel@.elements.len() as int),
{
    let ghost v = panel@;
    let needle = chars_of(pat);
    let mut out: Vec<usize> = Vec::new();
    let mut i: usize = 0;
    while i < panel.elements.len()
        invariant
            v == panel@,
            needle@ == pat@,
            v.elements.len() == panel.elements@.len(),
            i <= panel.elements@.len(),
            out@ == matched_upto(v, pat@, i as int),
        decreases panel.elements@.len() - i,
    {
        assert(v.elements[i as int] == panel.elements@[i as int]@);
        if panel.show_hidden || !panel.elements[i].is_hidden {
            let hay = chars_of(panel.elements[i].lowercase.as_str());
            if find_chars(hay.as_slice(), needle.as_slice()).is_some() {
                out.push(i);
            }
        }
        i = i + 1;
    }
    out
}

/// Whether `e` goes before a new element with lowercase name `lc`.
fn goes_before_new(e: &DirElem, lc: &str, d: bool) -> (r: bool)
    ensures
        r == before_new(e@, lc@, d),
{
    if d {
        e.is_dir && str_lt(e.lowercase.as_str(), lc)
    } else {
        e.is_dir || str_lt(e.lowercase.as_str(), lc)
    }
}

/// The place of a new element; see [`new_partition_from`].
fn new_partition(panel: &DirPanel, lc: &str, d: bool) -> (r: usize)
    ensures
        r == new_partition_from(panel@, lc@, d, 0),
{
    let ghost v = panel@;
    let mut i: usize = 0;
    while i < panel.elements.len()
        invariant
            v == panel@,
            v.elements.len() == panel.elements@.len(),
            i <= panel.elements@.len(),
            new_partition_from(v, lc@, d, 0) == new_partition_from(v, lc@, d, i as int),
        decreases panel.elements@.len() - i,
    {
        assert(v.elements[i as int] == panel.elements@[i as int]@);
        if !goes_before_new(&panel.elements[i], lc, d) {
            return i;
        }
        i = i + 1;
    }
    i
}

/// The place of a renamed element among the others; see
/// [`rename_partition_from`].
fn rename_partition(panel: &DirPanel, o: usize, lc: &str, d: bool) -> (r: usize)
    ensures
        r == rename_partition_from(panel@, o, lc@, d, 0),
{
    let ghost v = panel@;
    let mut i: usize = 0;
    let mut count: usize = 0;
    while i < panel.elements.len()
        invariant
            v == panel@,
            v.elements.len() == panel.elements@.len(),
            i <= panel.elements@.len(),
            count <= i,
            count + rename_partition_from(v, o, lc@, d, i as int) == rename_partition_from(v, o, lc@, d, 0),
        decreases panel.elements@.len() - i,
    {
        assert(v.elements[i as int] == panel.elements@[i as int]@);
        let e = &panel.elements[i];
        let counts = i != o && (panel.show_hidden || !e.is_hidden) && (!d || e.is_dir);
        if counts {
            if goes_before_new(e, lc, d) {
                count = count + 1;
            } else {
                return count;
            }
        }
        i = i + 1;
    }
    count
}

/// Rows while an element is being created; see [`new_element_rows`].
fn new_element_listing(panel: &DirPanel, win: &Vec<usize>, p: usize, shown: bool) -> (r: Vec<ListRow>)
    ensures
        r@ == ({
            let rows = new_rows_upto(panel@, win@, p as int, shown, win@.len() as int);
            if rows.len() == p && shown {
                rows.push(ListRow::NewElement)
            } else {
                rows
            }
        }),
{
    let ghost v = panel@;
    let mut rows: Vec<ListRow> = Vec::new();
    let mut k: usize = 0;
    while k < win.len()
        invariant
            v == panel@,
            k <= win@.len(),
            rows@ == new_rows_upto(v, win@, p as int, shown, k as int),
            rows@.len() <= 2 * k,
        decreases win@.len() - k,
    {
        let idx = win[k];
        if idx == p && shown {
            rows.push(ListRow::NewElement);
        }
        rows.push(ListRow::Elem(idx, idx == panel.selected_idx));
        k = k + 1;
    }
    if rows.len() == p && shown {
        rows.push(ListRow::NewElement);
    }
    rows
}

/// Rows while an element is being renamed; see [`rename_rows`].
fn rename_listing(panel: &DirPanel, win: &Vec<usize>, o: usize, p: usize, shown: bool, height: u16) -> (r: Vec<
    ListRow,
>)
    ensures
        r@ == ({
            let (rows, vis) = rename_state(panel@, win@, o, p as int, shown, height, win@.len() as int);
            if vis == p && shown && rows.len() < height {
                rows.push(ListRow::RenamePreview)
            } else {
                rows
            }
        }),
{
    let ghost v = panel@;
    let mut rows: Vec<ListRow> = Vec::new();
    let mut vis: usize = 0;
    let mut k: usize = 0;
    while k < win.len()
        invariant
            v == panel@,
            k <= win@.len(),
            (rows@, vis as int) == rename_state(v, win@, o, p as int, shown, height, k as int),
            vis <= k,
            rows@.len() <= 2 * k,
        decreases win@.len() - k,
    {
        let idx = win[k];
        if rows.len() < height as usize && idx != o {
            let pv = vis == p && shown;
            if pv {
                rows.push(ListRow::RenamePreview);
            }
            if !(pv && rows.len() >= height as usize) {
                rows.push(ListRow::Elem(idx, idx == panel.selected_idx));
                vis = vis + 1;
            }
        }
        k = k + 1;
    }
    if vis == p && shown && rows.len() < height as usize {
        rows.push(ListRow::RenamePreview);
    }
    rows
}

/// The rows of the listing of `panel` drawn from row `y_start`, `height`
/// rows high: what each row shows, top to bottom; see [`rows_of`]. Below
/// the rows the listing is blank.
pub fn listing_rows(panel: &DirPanel, y_start: u16, height: u16) -> (r: Vec<ListRow>)
    ensures
        r@ == rows_of(panel@, y_start, height),
{
    let ghost v = panel@;
    match &panel.search {
        Some(pat) => {
            let m = matched_indices(panel, pat.as_str());
            let cap: usize = if height >= y_start {
                (height - y_start) as usize + 1
            } else {
                0
            };
            let t: usize = if cap <= m.len() {
                cap
            } else {
                m.len()
            };
            if t == 0 {
                let mut r: Vec<ListRow> = Vec::new();
                r.push(ListRow::NoMatch);
                assert(r@ =~= seq![ListRow::NoMatch]);
                return r;
            }
            let mut r: Vec<ListRow> = Vec::new();
            let mut k: usize = 0;
            while k < t
                invariant
                    k <= t <= m@.len(),
                    r@ == m@.take(k as int).map_values(|i: usize| ListRow::Elem(i, false)),
                decreases t - k,
            {
                r.push(ListRow::Elem(m[k], false));
                k = k + 1;
                assert(r@ =~= m@.take(k as int).map_values(|i: usize| ListRow::Elem(i, false)));
            }
            r
        },
        None => {
            let shown_idx = listed_indices(panel);
            match &panel.new_element {
                Some((name, d)) => {
                    let lc = to_lowercase(name.as_str());
                    let p = new_partition(panel, lc.as_str(), *d);
                    let take: usize = if height >= 1 {
                        (height - 1) as usize
                    } else {
                        0
                    };
                    let win = window_of(panel, &shown_idx, height, take);
                    let shown = name.unicode_len() > 0;
                    proof {
                        assert(shown == (name@.len() > 0));
                    }
                    new_element_listing(panel, &win, p, shown)
                },
                None => match &panel.rename_preview {
                    Some((name, o, d)) => {
                        let lc = to_lowercase(name.as_str());
                        let p = rename_partition(panel, *o, lc.as_str(), *d);
                        let win = window_of(panel, &shown_idx, height, height as usize);
                        let shown = name.unicode_len() > 0;
                        proof {
                            assert(shown == (name@.len() > 0));
                        }
                        rename_listing(panel, &win, *o, p, shown, height)
                    },
                    None => {
                        let win = window_of(panel, &shown_idx, height, height as usize);
                        let mut r: Vec<ListRow> = Vec::new();
                        let mut k: usize = 0;
                        while k < win.len()
                            invariant
                                v == panel@,
                                k <= win@.len(),
                                r@ == win@.take(k as int).map_values(|i: usize| elem_row(v, i)),
                            decreases win@.len() - k,
                        {
                            r.push(ListRow::Elem(win[k], win[k] == panel.selected_idx));
                            k = k + 1;
                            assert(r@ =~= win@.take(k as int).map_values(|i: usize| elem_row(v, i)));
                        }
                        assert(win@.take(win@.len() as int) =~= win@);
                        r
                    },
                },
            }
        },
    }
}

} // verus!
