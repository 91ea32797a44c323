//! Renaming many files at once through a text editor.
//!
//! The names of the files are written one per line into a file that the
//! user edits. What comes back is reviewed: an unchanged list renames
//! nothing; a list with lines added or removed, or with names that clash,
//! is written back with a note after each offending line for another round
//! in the editor; otherwise a plan of renames is made, in which a file
//! renamed onto the name of another file of the batch first moves to a
//! temporary name, so that names can be swapped.
//!
//! Whether a target exists is asked of the filesystem through a function
//! the application hands in; the contracts say what the review does for
//! whatever answers come back.

use vstd::prelude::*;
use crate::console::{lines_from, split_lines, strings_of};
use crate::digits::{dec_chars, decimal};
use crate::dir_console::{path_parent, path_parent_of};
use crate::directory::{file_name_of, path_file_name};
use crate::text::{chars_of, copy_string, owned, str_eq, string_of};
use crate::util::{join_name, joined};

verus! {

/// Whether `Path` equality holds between two paths given as text.
pub uninterp spec fn path_eq(a: Seq<char>, b: Seq<char>) -> bool;

/// `Path == Path`: the paths are compared component by component.
#[verifier::external_body]
fn same_path(a: &str, b: &str) -> (r: bool)
    ensures
        r == path_eq(a@, b@),
{
    std::path::Path::new(a) == std::path::Path::new(b)
}

/// `Path::join`: an absolute name replaces the directory; a relative one
/// is appended to it.
pub open spec fn path_join(dir: Seq<char>, name: Seq<char>) -> Seq<char> {
    if name.len() > 0 && name[0] == '/' {
        name
    } else {
        joined(dir, name)
    }
}

/// `dir` joined with `name` (see [`path_join`]).
pub fn join_path(dir: &str, name: &str) -> (r: String)
    ensures
        r@ == path_join(dir@, name@),
{
    let n = chars_of(name);
    if n.len() > 0 && n[0] == '/' {
        owned(name)
    } else {
        let d = chars_of(dir);
        join_name(d.as_slice(), n.as_slice())
    }
}

/// The file names of `files`, skipping the paths that have none.
pub open spec fn named(files: Seq<Seq<char>>) -> Seq<Seq<char>>
    decreases files.len(),
{
    if files.len() == 0 {
        Seq::empty()
    } else {
        let rest = named(files.drop_last());
        let n = path_file_name(files.last());
        if n.len() > 0 {
            rest.push(n)
        } else {
            rest
        }
    }
}

/// There are no more names than files.
pub proof fn lemma_named_len(files: Seq<Seq<char>>)
    ensures
        named(files).len() <= files.len(),
    decreases files.len(),
{
    if files.len() > 0 {
        lemma_named_len(files.drop_last());
    }
}

/// The names the editor starts with: the file name of each file that has
/// one (`Path::file_name` never gives an empty name).
pub fn original_names(files: &Vec<String>) -> (r: Vec<String>)
    ensures
        strings_of(r@) == named(strings_of(files@)),
{
    let ghost fs = strings_of(files@);
    let mut out: Vec<String> = Vec::new();
    let mut i: usize = 0;
    while i < files.len()
        invariant
            fs == strings_of(files@),
            i <= files@.len(),
            strings_of(out@) == named(fs.take(i as int)),
        decreases files@.len() - i,
    {
        assert(fs.take(i + 1).drop_last() =~= fs.take(i as int));
        assert(fs.take(i + 1).last() == files@[i as int]@);
        let n = file_name_of(files[i].as_str());
        if n.as_str().unicode_len() > 0 {
            let ghost before = out@;
            out.push(n);
            assert(strings_of(out@) =~= strings_of(before).push(n@));
        }
        i += 1;
    }
    assert(fs.take(i as int) =~= fs);
    out
}

/// The directory of the batch: the parent of the first file, `.` when it
/// has none.
pub open spec fn batch_dir(files: Seq<Seq<char>>) -> Seq<char> {
    if files.len() == 0 {
        seq!['.']
    } else {
        match path_parent_of(files[0]) {
            Some(p) => p,
            None => seq!['.'],
        }
    }
}

/// The directory of the batch (see [`batch_dir`]).
pub fn bulk_dir(files: &Vec<String>) -> (r: String)
    ensures
        r@ == batch_dir(strings_of(files@)),
{
    if files.len() == 0 {
        let r = string_of(&['.']);
        assert(r@ =~= seq!['.']);
        r
    } else {
        assert(strings_of(files@)[0] == files@[0]@);
        match path_parent(files[0].as_str()) {
            Some(p) => p,
            None => {
                let r = string_of(&['.']);
                assert(r@ =~= seq!['.']);
                r
            },
        }
    }
}

/// The editor's text: each line, followed by ` # ` and its note where it
/// has one, and a newline.
pub open spec fn text_of(lines: Seq<Seq<char>>, notes: Seq<Option<Seq<char>>>) -> Seq<char>
    decreases lines.len(),
{
    if lines.len() == 0 {
        Seq::empty()
    } else {
        let k = lines.len() - 1;
        let note = match notes[k] {
            Some(c) => seq![' ', '#', ' '] + c,
            None => Seq::empty(),
        };
        text_of(lines.drop_last(), notes.take(k)) + lines[k] + note + seq!['\n']
    }
}

fn push_chars(out: &mut Vec<char>, s: &str)
    ensures
        final(out)@ == old(out)@ + s@,
{
    let c = chars_of(s);
    let ghost head = out@;
    let mut i: usize = 0;
    while i < c.len()
        invariant
            i <= c@.len(),
            c@ == s@,
            out@ == head + c@.subrange(0, i as int),
        decreases c@.len() - i,
    {
        out.push(c[i]);
        i += 1;
        assert(out@ =~= head + c@.subrange(0, i as int));
    }
    assert(c@.subrange(0, i as int) =~= c@);
}

/// The editor's text for `lines` with `notes` (see [`text_of`]).
fn editor_text(lines: &Vec<String>, notes: &Vec<Option<String>>) -> (r: String)
    requires
        lines@.len() == notes@.len(),
    ensures
        r@ == text_of(strings_of(lines@), notes@.map_values(|o: Option<String>| match o {
            Some(s) => Some(s@),
            None => None,
        })),
{
    let ghost ls = strings_of(lines@);
    let ghost ns = notes@.map_values(|o: Option<String>| match o {
        Some(s) => Some(s@),
        None => None,
    });
    let mut out: Vec<char> = Vec::new();
    let mut i: usize = 0;
    while i < lines.len()
        invariant
            lines@.len() == notes@.len(),
            ls == strings_of(lines@),
            ns == notes@.map_values(|o: Option<String>| match o {
                Some(s) => Some(s@),
                None => None,
            }),
            i <= lines@.len(),
            out@ == text_of(ls.take(i as int), ns.take(i as int)),
        decreases lines@.len() - i,
    {
        let ghost before = out@;
        push_chars(&mut out, lines[i].as_str());
        match &notes[i] {
            Some(c) => {
                out.push(' ');
                out.push('#');
                out.push(' ');
                push_chars(&mut out, c.as_str());
            },
            None => {},
        }
        out.push('\n');
        proof {
            let l2 = ls.take(i + 1);
            let n2 = ns.take(i + 1);
            assert(l2.drop_last() =~= ls.take(i as int));
            assert(n2.take(i as int) =~= ns.take(i as int));
            assert(l2[i as int] == lines@[i as int]@);
            assert(n2[i as int] == ns[i as int]);
            let note = match n2[i as int] {
                Some(c) => seq![' ', '#', ' '] + c,
                None => Seq::<char>::empty(),
            };
            assert(out@ =~= before + l2[i as int] + note + seq!['\n']);
        }
        i += 1;
    }
    assert(ls.take(i as int) =~= ls);
    assert(ns.take(i as int) =~= ns);
    string_of(out.as_slice())
}

/// The text the editor starts with: one name per line.
pub fn listing_text(names: &Vec<String>) -> (r: String)
    ensures
        r@ == text_of(strings_of(names@), Seq::new(names@.len(), |k: int| None::<Seq<char>>)),
{
    let mut notes: Vec<Option<String>> = Vec::new();
    let mut i: usize = 0;
    while i < names.len()
        invariant
            i <= names@.len(),
            notes@.len() == i,
            forall|k: int| 0 <= k < i ==> (#[trigger] notes@[k]) is None,
        decreases names@.len() - i,
    {
        notes.push(None);
        i += 1;
    }
    let r = editor_text(names, &notes);
    assert(notes@.map_values(|o: Option<String>| match o {
        Some(s) => Some(s@),
        None => None,
    }) =~= Seq::new(names@.len(), |k: int| None::<Seq<char>>));
    r
}

/// The filesystem answered `b` when asked whether `p` exists.
pub open spec fn answered<F: Fn(&str) -> bool>(f: F, p: Seq<char>, b: bool) -> bool {
    exists|a: &str| a@ == p && call_ensures(f, (a,), b)
}

/// Line `k` of `n` has the same name as another line, and of the first of
/// the two lines the name was changed.
pub open spec fn dup_at(o: Seq<Seq<char>>, n: Seq<Seq<char>>, k: int) -> bool {
    exists|j: int|
        0 <= j < n.len() && j != k && #[trigger] n[j] == n[k] && (if k < j {
            n[k] != o[k]
        } else {
            n[j] != o[j]
        })
}

/// `p` is one of the files of the batch.
pub open spec fn in_files(files: Seq<Seq<char>>, p: Seq<char>) -> bool {
    exists|i: int| 0 <= i < files.len() && path_eq(#[trigger] files[i], p)
}

/// Line `k` was changed to a name that exists (as answered in `ans`) and
/// is not a file of the batch.
pub open spec fn conflict_at(
    files: Seq<Seq<char>>,
    dir: Seq<char>,
    o: Seq<Seq<char>>,
    n: Seq<Seq<char>>,
    ans: Seq<bool>,
    k: int,
) -> bool {
    n[k] != o[k] && ans[k] && !in_files(files, path_join(dir, n[k]))
}

/// The note written after line `k`: a conflict with an existing file
/// outranks a duplicate name.
pub open spec fn note_at(
    files: Seq<Seq<char>>,
    dir: Seq<char>,
    o: Seq<Seq<char>>,
    n: Seq<Seq<char>>,
    ans: Seq<bool>,
    k: int,
) -> Option<Seq<char>> {
    if conflict_at(files, dir, o, n, ans, k) {
        Some("already exists"@)
    } else if dup_at(o, n, k) {
        Some("duplicate target name"@)
    } else {
        None
    }
}

/// The notes of all lines.
pub open spec fn notes_of(
    files: Seq<Seq<char>>,
    dir: Seq<char>,
    o: Seq<Seq<char>>,
    n: Seq<Seq<char>>,
    ans: Seq<bool>,
) -> Seq<Option<Seq<char>>> {
    Seq::new(n.len(), |k: int| note_at(files, dir, o, n, ans, k))
}

/// The temporary name of line `k` when it takes part in a swap.
pub open spec fn temp_name(uid: Seq<char>, k: nat, original: Seq<char>) -> Seq<char> {
    ".rfm-bulkrename-"@ + uid + seq!['-'] + dec_chars(k) + seq!['-'] + original
}

/// A planned final rename.
pub struct RenameView {
    pub from: Seq<char>,
    pub to: Seq<char>,
    pub new_name: Seq<char>,
    pub original: Seq<char>,
}

/// The renames for the first `k` lines: each changed line renames its file
/// to its name in the batch's directory; when that target is a file of the
/// batch, the file first moves to its temporary name.
pub open spec fn plan_upto(
    files: Seq<Seq<char>>,
    dir: Seq<char>,
    o: Seq<Seq<char>>,
    n: Seq<Seq<char>>,
    uid: Seq<char>,
    k: nat,
) -> (Seq<(Seq<char>, Seq<char>)>, Seq<RenameView>)
    decreases k,
{
    if k == 0 {
        (Seq::empty(), Seq::empty())
    } else {
        let p = plan_upto(files, dir, o, n, uid, (k - 1) as nat);
        let i = k - 1;
        if n[i] == o[i] {
            p
        } else {
            let to = path_join(dir, n[i]);
            if in_files(files, to) {
                let tp = path_join(dir, temp_name(uid, i as nat, o[i]));
                (
                    p.0.push((files[i], tp)),
                    p.1.push(RenameView { from: tp, to, new_name: n[i], original: files[i] }),
                )
            } else {
                (p.0, p.1.push(RenameView { from: files[i], to, new_name: n[i], original: files[i] }))
            }
        }
    }
}

/// The outcome of a review.
pub enum ReviewView {
    Unchanged,
    Rewrite(Seq<char>),
    Apply(Seq<(Seq<char>, Seq<char>)>, Seq<RenameView>),
}

/// What the review of the edited `lines` gives for the batch `files`
/// whose original names are `o` and whose directory is `dir`, with `ans`
/// the answers to whether the targets of the changed lines exist.
pub open spec fn reviewed_with(
    files: Seq<Seq<char>>,
    o: Seq<Seq<char>>,
    dir: Seq<char>,
    lines: Seq<Seq<char>>,
    uid: Seq<char>,
    ans: Seq<bool>,
) -> ReviewView {
    if lines == o {
        ReviewView::Unchanged
    } else if lines.len() != o.len() {
        ReviewView::Rewrite(text_of(o, Seq::new(o.len(), |k: int| Some("DO NOT add or remove lines"@))))
    } else if exists|k: int| 0 <= k < lines.len() && #[trigger] note_at(files, dir, o, lines, ans, k) is Some {
        ReviewView::Rewrite(text_of(lines, notes_of(files, dir, o, lines, ans)))
    } else {
        let p = plan_upto(files, dir, o, lines, uid, lines.len());
        ReviewView::Apply(p.0, p.1)
    }
}

/// The review of the batch `files` (see [`reviewed_with`]).
pub open spec fn reviewed(files: Seq<Seq<char>>, lines: Seq<Seq<char>>, uid: Seq<char>, ans: Seq<bool>) -> ReviewView {
    reviewed_with(files, named(files), batch_dir(files), lines, uid, ans)
}

/// The filesystem was asked about the target of every changed line when
/// the review got that far, and answered `ans`.
pub open spec fn targets_answered<F: Fn(&str) -> bool>(
    f: F,
    o: Seq<Seq<char>>,
    dir: Seq<char>,
    lines: Seq<Seq<char>>,
    ans: Seq<bool>,
) -> bool {
    &&& ans.len() == lines.len()
    &&& (lines.len() == o.len() && lines != o) ==> forall|k: int|
        0 <= k < lines.len() && lines[k] != o[k] ==> answered(f, path_join(dir, lines[k]), #[trigger] ans[k])
}

/// A file moving to a temporary name.
#[derive(Debug, PartialEq, Eq)]
pub struct FileMove {
    pub from: String,
    pub to: String,
}

/// A file renamed to its new name: `from` is where it is (its temporary
/// name in a swap), `original` where it was before the batch.
#[derive(Debug, PartialEq, Eq)]
pub struct FinalRename {
    pub from: String,
    pub to: String,
    pub new_name: String,
    pub original: String,
}

/// The renames of a batch: the temporary moves first, then the final ones.
#[derive(Debug, PartialEq, Eq)]
pub struct BulkPlan {
    pub temp_renames: Vec<FileMove>,
    pub final_renames: Vec<FinalRename>,
}

/// The outcome of reviewing the edited list.
#[derive(Debug, PartialEq, Eq)]
pub enum BulkReview {
    /// Nothing was changed.
    Unchanged,
    /// The list goes back to the editor with this text.
    Rewrite(String),
    /// The renames to perform.
    Apply(BulkPlan),
}

pub open spec fn moves_view(v: Seq<FileMove>) -> Seq<(Seq<char>, Seq<char>)> {
    v.map_values(|m: FileMove| (m.from@, m.to@))
}

pub open spec fn finals_view(v: Seq<FinalRename>) -> Seq<RenameView> {
    v.map_values(|m: FinalRename| RenameView { from: m.from@, to: m.to@, new_name: m.new_name@, original: m.original@ })
}

impl View for BulkReview {
    type V = ReviewView;

    open spec fn view(&self) -> ReviewView {
        match self {
            BulkReview::Unchanged => ReviewView::Unchanged,
            BulkReview::Rewrite(t) => ReviewView::Rewrite(t@),
            BulkReview::Apply(p) => ReviewView::Apply(moves_view(p.temp_renames@), finals_view(p.final_renames@)),
        }
    }
}

/// Whether the two lists hold the same strings.
fn same_strings(a: &Vec<String>, b: &Vec<String>) -> (r: bool)
    ensures
        r == (strings_of(a@) == strings_of(b@)),
{
    if a.len() != b.len() {
        return false;
    }
    let mut i: usize = 0;
    while i < a.len()
        invariant
            a@.len() == b@.len(),
            i <= a@.len(),
            forall|k: int| 0 <= k < i ==> (#[trigger] a@[k])@ == b@[k]@,
        decreases a@.len() - i,
    {
        if !str_eq(a[i].as_str(), b[i].as_str()) {
            assert(strings_of(a@)[i as int] != strings_of(b@)[i as int]);
            return false;
        }
        i += 1;
    }
    assert(strings_of(a@) =~= strings_of(b@));
    true
}

/// Whether `p` is one of the files (see [`in_files`]).
fn any_same(files: &Vec<String>, p: &str) -> (r: bool)
    ensures
        r == in_files(strings_of(files@), p@),
{
    let ghost fs = strings_of(files@);
    let mut i: usize = 0;
    while i < files.len()
        invariant
            fs == strings_of(files@),
            i <= files@.len(),
            forall|k: int| 0 <= k < i ==> !path_eq(#[trigger] fs[k], p@),
        decreases files@.len() - i,
    {
        if same_path(files[i].as_str(), p) {
            assert(path_eq(fs[i as int], p@));
            return true;
        }
        i += 1;
    }
    false
}

/// Whether line `k` shares its name with another line (see [`dup_at`]).
fn duplicate_at(o: &Vec<String>, n: &Vec<String>, k: usize) -> (r: bool)
    requires
        o@.len() == n@.len(),
        k < n@.len(),
    ensures
        r == dup_at(strings_of(o@), strings_of(n@), k as int),
{
    let ghost os = strings_of(o@);
    let ghost ns = strings_of(n@);
    let mut j: usize = 0;
    while j < n.len()
        invariant
            os == strings_of(o@),
            ns == strings_of(n@),
            o@.len() == n@.len(),
            k < n@.len(),
            j <= n@.len(),
            forall|m: int|
                0 <= m < j ==> !(m != k && #[trigger] ns[m] == ns[k as int] && (if k < m {
                    ns[k as int] != os[k as int]
                } else {
                    ns[m] != os[m]
                })),
        decreases n@.len() - j,
    {
        if j != k && str_eq(n[j].as_str(), n[k].as_str()) {
            let first_changed = if k < j {
                !str_eq(n[k].as_str(), o[k].as_str())
            } else {
                !str_eq(n[j].as_str(), o[j].as_str())
            };
            if first_changed {
                assert(ns[j as int] == ns[k as int]);
                return true;
            }
        }
        j += 1;
    }
    false
}

/// The temporary name of line `k` (see [`temp_name`]).
fn temp_name_of(uid: &str, k: usize, original: &str) -> (r: String)
    ensures
        r@ == temp_name(uid@, k as nat, original@),
{
    let mut out: Vec<char> = Vec::new();
    push_chars(&mut out, ".rfm-bulkrename-");
    push_chars(&mut out, uid);
    out.push('-');
    let d = decimal(k as u64);
    let ds = string_of(d.as_slice());
    push_chars(&mut out, ds.as_str());
    out.push('-');
    push_chars(&mut out, original);
    assert(out@ =~= temp_name(uid@, k as nat, original@));
    string_of(out.as_slice())
}

/// Every line followed by the same note.
fn noted_all(lines: &Vec<String>, note: &str) -> (r: Vec<Option<String>>)
    ensures
        r@.len() == lines@.len(),
        forall|k: int| 0 <= k < r@.len() ==> ((#[trigger] r@[k]) matches Some(c) && c@ == note@),
{
    let mut notes: Vec<Option<String>> = Vec::new();
    let mut i: usize = 0;
    while i < lines.len()
        invariant
            i <= lines@.len(),
            notes@.len() == i,
            forall|k: int| 0 <= k < i ==> ((#[trigger] notes@[k]) matches Some(c) && c@ == note@),
        decreases lines@.len() - i,
    {
        notes.push(Some(owned(note)));
        i += 1;
    }
    notes
}

pub open spec fn notes_view(v: Seq<Option<String>>) -> Seq<Option<Seq<char>>> {
    v.map_values(|o: Option<String>| match o {
        Some(s) => Some(s@),
        None => None,
    })
}

/// Reviews the edited text `content` of the batch `files`, whose original
/// names are `originals` and whose directory is `dir` (see
/// [`reviewed_with`]); `unique_id` goes into the temporary names, and
/// `path_exists` tells whether a path exists.
pub fn review_with<F: Fn(&str) -> bool>(
    files: &Vec<String>,
    originals: &Vec<String>,
    dir: &str,
    content: &str,
    unique_id: &str,
    path_exists: &F,
) -> (r: BulkReview)
    requires
        originals@.len() <= files@.len(),
        forall|a: &str| call_requires(*path_exists, (a,)),
    ensures
        exists|ans: Seq<bool>| {
            &&& targets_answered(*path_exists, strings_of(originals@), dir@, lines_from(content@, 0), ans)
            &&& r@ == reviewed_with(strings_of(files@), strings_of(originals@), dir@, lines_from(content@, 0), unique_id@, ans)
        },
{
    let ghost fs = strings_of(files@);
    let orig = originals;
    let lines = split_lines(content);
    let ghost o = strings_of(orig@);
    let ghost n = strings_of(lines@);
    if same_strings(&lines, orig) {
        let ghost ans = Seq::new(n.len(), |k: int| false);
        assert(targets_answered(*path_exists, o, dir@, n, ans));
        return BulkReview::Unchanged;
    }
    if lines.len() != orig.len() {
        let notes = noted_all(orig, "DO NOT add or remove lines");
        let t = editor_text(orig, &notes);
        let ghost ans = Seq::new(n.len(), |k: int| false);
        assert(notes_view(notes@) =~= Seq::new(o.len(), |k: int| Some("DO NOT add or remove lines"@)));
        assert(targets_answered(*path_exists, o, dir@, n, ans));
        return BulkReview::Rewrite(t);
    }
    let mut notes: Vec<Option<String>> = Vec::new();
    let mut any = false;
    let ghost mut ans: Seq<bool> = Seq::empty();
    let mut k: usize = 0;
    while k < lines.len()
        invariant
            fs == strings_of(files@),
            o == strings_of(orig@),
            n == strings_of(lines@),
            lines@.len() == orig@.len(),
            orig@.len() <= files@.len(),
            forall|a: &str| call_requires(*path_exists, (a,)),
            k <= lines@.len(),
            notes@.len() == k,
            ans.len() == k,
            forall|m: int| 0 <= m < k ==> #[trigger] notes_view(notes@)[m] == note_at(fs, dir@, o, n, ans, m),
            any == exists|m: int| 0 <= m < k && #[trigger] note_at(fs, dir@, o, n, ans, m) is Some,
            forall|m: int| 0 <= m < k && n[m] != o[m] ==> answered(*path_exists, path_join(dir@, n[m]), #[trigger] ans[m]),
        decreases lines@.len() - k,
    {
        let changed = !str_eq(lines[k].as_str(), orig[k].as_str());
        let dup = duplicate_at(orig, &lines, k);
        let mut conflict = false;
        let e = if changed {
            let target = join_path(dir, lines[k].as_str());
            let e = path_exists(target.as_str());
            assert(answered(*path_exists, target@, e));
            if e && !any_same(files, target.as_str()) {
                conflict = true;
            }
            e
        } else {
            false
        };
        let ghost old_ans = ans;
        let ghost old_notes = notes@;
        proof {
            ans = ans.push(e);
            assert forall|m: int| 0 <= m < k implies note_at(fs, dir@, o, n, ans, m) == note_at(fs, dir@, o, n, old_ans, m) by {
                assert(ans[m] == old_ans[m]);
            }
        }
        let note = if conflict {
            Some(owned("already exists"))
        } else if dup {
            Some(owned("duplicate target name"))
        } else {
            None
        };
        assert(conflict == conflict_at(fs, dir@, o, n, ans, k as int));
        match note {
            Some(_) => {
                any = true;
            },
            None => {},
        }
        notes.push(note);
        proof {
            assert(notes_view(notes@) =~= notes_view(old_notes).push(notes_view(notes@)[k as int]));
            assert forall|m: int| 0 <= m < k + 1 implies #[trigger] notes_view(notes@)[m] == note_at(fs, dir@, o, n, ans, m) by {
                if m < k {
                    assert(notes_view(notes@)[m] == notes_view(old_notes)[m]);
                }
            }
            assert forall|m: int| 0 <= m < k + 1 && n[m] != o[m] implies answered(*path_exists, path_join(dir@, n[m]), #[trigger] ans[m]) by {
                if m < k {
                    assert(ans[m] == old_ans[m]);
                }
            }
            if note_at(fs, dir@, o, n, ans, k as int) is Some {
                assert(exists|m: int| 0 <= m < k + 1 && #[trigger] note_at(fs, dir@, o, n, ans, m) is Some);
            }
        }
        k += 1;
    }
    proof {
        assert(targets_answered(*path_exists, o, dir@, n, ans));
    }
    if any {
        let t = editor_text(&lines, &notes);
        assert(notes_view(notes@) =~= notes_of(fs, dir@, o, n, ans));
        return BulkReview::Rewrite(t);
    }
    let mut temp_renames: Vec<FileMove> = Vec::new();
    let mut final_renames: Vec<FinalRename> = Vec::new();
    let mut k: usize = 0;
    while k < lines.len()
        invariant
            fs == strings_of(files@),
            o == strings_of(orig@),
            n == strings_of(lines@),
            lines@.len() == orig@.len(),
            orig@.len() <= files@.len(),
            k <= lines@.len(),
            (moves_view(temp_renames@), finals_view(final_renames@)) == plan_upto(fs, dir@, o, n, unique_id@, k as nat),
        decreases lines@.len() - k,
    {
        let ghost t0 = temp_renames@;
        let ghost f0 = final_renames@;
        assert(fs[k as int] == files@[k as int]@);
        if !str_eq(lines[k].as_str(), orig[k].as_str()) {
            let to = join_path(dir, lines[k].as_str());
            if any_same(files, to.as_str()) {
                let tn = temp_name_of(unique_id, k, orig[k].as_str());
                let tp = join_path(dir, tn.as_str());
                temp_renames.push(FileMove { from: copy_string(&files[k]), to: copy_string(&tp) });
                final_renames.push(
                    FinalRename { from: tp, to, new_name: copy_string(&lines[k]), original: copy_string(&files[k]) },
                );
                assert(moves_view(temp_renames@) =~= moves_view(t0).push((fs[k as int], tp@)));
                assert(finals_view(final_renames@) =~= finals_view(f0).push(
                    RenameView { from: tp@, to: to@, new_name: n[k as int], original: fs[k as int] },
                ));
            } else {
                final_renames.push(
                    FinalRename {
                        from: copy_string(&files[k]),
                        to,
                        new_name: copy_string(&lines[k]),
                        original: copy_string(&files[k]),
                    },
                );
                assert(moves_view(temp_renames@) =~= moves_view(t0));
                assert(finals_view(final_renames@) =~= finals_view(f0).push(
                    RenameView { from: fs[k as int], to: path_join(dir@, n[k as int]), new_name: n[k as int], original: fs[k as int] },
                ));
            }
        }
        k += 1;
    }
    BulkReview::Apply(BulkPlan { temp_renames, final_renames })
}

/// Reviews the edited text `content` of the list of `files` (see
/// [`reviewed`]): the original names and the directory are those of the
/// files.
pub fn review<F: Fn(&str) -> bool>(files: &Vec<String>, content: &str, unique_id: &str, path_exists: &F) -> (r: BulkReview)
    requires
        forall|a: &str| call_requires(*path_exists, (a,)),
    ensures
        exists|ans: Seq<bool>| {
            &&& targets_answered(*path_exists, named(strings_of(files@)), batch_dir(strings_of(files@)), lines_from(content@, 0), ans)
            &&& r@ == reviewed(strings_of(files@), lines_from(content@, 0), unique_id@, ans)
        },
{
    let originals = original_names(files);
    let dir = bulk_dir(files);
    proof {
        lemma_named_len(strings_of(files@));
    }
    let r = review_with(files, &originals, dir.as_str(), content, unique_id, path_exists);
    proof {
        let n = lines_from(content@, 0);
        let ans = choose|ans: Seq<bool>| {
            &&& targets_answered(*path_exists, strings_of(originals@), dir@, n, ans)
            &&& r@ == reviewed_with(strings_of(files@), strings_of(originals@), dir@, n, unique_id@, ans)
        };
        assert(targets_answered(*path_exists, named(strings_of(files@)), batch_dir(strings_of(files@)), n, ans));
        assert(r@ == reviewed(strings_of(files@), n, unique_id@, ans));
    }
    r
}

} // verus!
verus! {

/// How many of the first `k` lines were changed.
pub open spec fn changed_count(o: Seq<Seq<char>>, n: Seq<Seq<char>>, k: nat) -> nat
    decreases k,
{
    if k == 0 {
        0
    } else if n[k - 1] != o[k - 1] {
        changed_count(o, n, (k - 1) as nat) + 1
    } else {
        changed_count(o, n, (k - 1) as nat)
    }
}

/// The final rename `f` is the one of line `i`.
pub open spec fn renames_line(files: Seq<Seq<char>>, dir: Seq<char>, n: Seq<Seq<char>>, f: RenameView, i: int) -> bool {
    &&& f.to == path_join(dir, n[i])
    &&& f.new_name == n[i]
    &&& f.original == files[i]
}

proof fn lemma_plan_shape(
    files: Seq<Seq<char>>,
    dir: Seq<char>,
    o: Seq<Seq<char>>,
    n: Seq<Seq<char>>,
    uid: Seq<char>,
    k: nat,
)
    requires
        k <= n.len(),
    ensures
        plan_upto(files, dir, o, n, uid, k).1.len() == changed_count(o, n, k),
        forall|m: int|
            0 <= m < plan_upto(files, dir, o, n, uid, k).1.len() ==> exists|i: int|
                0 <= i < k && n[i] != o[i] && renames_line(files, dir, n, #[trigger] plan_upto(files, dir, o, n, uid, k).1[m], i),
        forall|t: int|
            0 <= t < plan_upto(files, dir, o, n, uid, k).0.len() ==> exists|m: int|
                0 <= m < plan_upto(files, dir, o, n, uid, k).1.len()
                    && plan_upto(files, dir, o, n, uid, k).1[m].from == (#[trigger] plan_upto(files, dir, o, n, uid, k).0[t]).1
                    && plan_upto(files, dir, o, n, uid, k).1[m].original == plan_upto(files, dir, o, n, uid, k).0[t].0,
    decreases k,
{
    if k > 0 {
        let j = (k - 1) as nat;
        lemma_plan_shape(files, dir, o, n, uid, j);
        let p = plan_upto(files, dir, o, n, uid, j);
        let q = plan_upto(files, dir, o, n, uid, k);
        let i = k - 1;
        if n[i] != o[i] {
            assert forall|m: int| 0 <= m < q.1.len() implies exists|i2: int|
                0 <= i2 < k && n[i2] != o[i2] && renames_line(files, dir, n, #[trigger] q.1[m], i2) by {
                if m < p.1.len() {
                    assert(q.1[m] == p.1[m]);
                    let i2 = choose|i2: int| 0 <= i2 < j && n[i2] != o[i2] && renames_line(files, dir, n, p.1[m], i2);
                    assert(renames_line(files, dir, n, q.1[m], i2));
                } else {
                    assert(renames_line(files, dir, n, q.1[m], i as int));
                }
            }
            assert forall|t: int| 0 <= t < q.0.len() implies exists|m: int|
                0 <= m < q.1.len() && q.1[m].from == (#[trigger] q.0[t]).1 && q.1[m].original == q.0[t].0 by {
                if t < p.0.len() {
                    assert(q.0[t] == p.0[t]);
                    let m = choose|m: int| 0 <= m < p.1.len() && p.1[m].from == p.0[t].1 && p.1[m].original == p.0[t].0;
                    assert(q.1[m] == p.1[m]);
                } else {
                    assert(q.1[p.1.len() as int].from == q.0[t].1);
                }
            }
        }
    }
}

/// A batch is renamed as planned only when every renamed line got its own
/// name: no two changed lines carry the same name, and no changed line's
/// target exists outside the batch.
pub proof fn law_applied_batch_has_no_clashes(
    files: Seq<Seq<char>>,
    o: Seq<Seq<char>>,
    dir: Seq<char>,
    lines: Seq<Seq<char>>,
    uid: Seq<char>,
    ans: Seq<bool>,
)
    requires
        reviewed_with(files, o, dir, lines, uid, ans) is Apply,
    ensures
        lines.len() == o.len(),
        forall|i: int, j: int|
            0 <= i < lines.len() && 0 <= j < lines.len() && i != j && lines[i] != o[i] && lines[j] != o[j]
                ==> #[trigger] lines[i] != #[trigger] lines[j],
        forall|k: int|
            0 <= k < lines.len() && lines[k] != o[k] && #[trigger] ans[k] ==> in_files(files, path_join(dir, lines[k])),
{
    assert forall|i: int, j: int|
        0 <= i < lines.len() && 0 <= j < lines.len() && i != j && lines[i] != o[i] && lines[j] != o[j]
            implies #[trigger] lines[i] != #[trigger] lines[j] by {
        if lines[i] == lines[j] {
            assert(note_at(files, dir, o, lines, ans, i) is None);
            assert(!dup_at(o, lines, i));
            assert(lines[j] == lines[i]);
        }
    }
    assert forall|k: int| 0 <= k < lines.len() && lines[k] != o[k] && #[trigger] ans[k] implies in_files(files, path_join(dir, lines[k])) by {
        assert(note_at(files, dir, o, lines, ans, k) is None);
    }
}

/// The final rename `f` is the one of some changed line.
pub open spec fn of_changed_line(files: Seq<Seq<char>>, o: Seq<Seq<char>>, dir: Seq<char>, lines: Seq<Seq<char>>, f: RenameView) -> bool {
    exists|i: int| 0 <= i < lines.len() && lines[i] != o[i] && #[trigger] renames_line(files, dir, lines, f, i)
}

/// Some final rename moves the file of the temporary move `t` on from
/// where `t` put it.
pub open spec fn moved_on(finals: Seq<RenameView>, t: (Seq<char>, Seq<char>)) -> bool {
    exists|m: int| 0 <= m < finals.len() && (#[trigger] finals[m]).from == t.1 && finals[m].original == t.0
}

/// A planned batch renames exactly the changed lines: one final rename per
/// changed line, each to that line's name in the batch's directory, and
/// every temporary move is followed by the final rename of the same file.
pub proof fn law_plan_renames_the_changed_lines(
    files: Seq<Seq<char>>,
    o: Seq<Seq<char>>,
    dir: Seq<char>,
    lines: Seq<Seq<char>>,
    uid: Seq<char>,
    ans: Seq<bool>,
    temps: Seq<(Seq<char>, Seq<char>)>,
    finals: Seq<RenameView>,
)
    requires
        reviewed_with(files, o, dir, lines, uid, ans) == ReviewView::Apply(temps, finals),
    ensures
        finals.len() == changed_count(o, lines, lines.len()),
        forall|m: int| 0 <= m < finals.len() ==> of_changed_line(files, o, dir, lines, #[trigger] finals[m]),
        forall|t: int| 0 <= t < temps.len() ==> moved_on(finals, #[trigger] temps[t]),
{
    lemma_plan_shape(files, dir, o, lines, uid, lines.len());
    let p = plan_upto(files, dir, o, lines, uid, lines.len());
    assert(reviewed_with(files, o, dir, lines, uid, ans) == ReviewView::Apply(p.0, p.1));
    assert(temps == p.0 && finals == p.1);
    assert forall|m: int| 0 <= m < finals.len() implies of_changed_line(files, o, dir, lines, #[trigger] finals[m]) by {
        let i = choose|i: int| 0 <= i < lines.len() && lines[i] != o[i] && renames_line(files, dir, lines, p.1[m], i);
        assert(renames_line(files, dir, lines, finals[m], i));
    }
    assert forall|t: int| 0 <= t < temps.len() implies moved_on(finals, #[trigger] temps[t]) by {
        let m = choose|m: int| 0 <= m < p.1.len() && p.1[m].from == p.0[t].1 && p.1[m].original == p.0[t].0;
        assert(finals[m].from == temps[t].1);
    }
}

/// Saving the list as it was renames nothing.
pub proof fn law_unchanged_list_renames_nothing(files: Seq<Seq<char>>, uid: Seq<char>, ans: Seq<bool>)
    ensures
        reviewed(files, named(files), uid, ans) == ReviewView::Unchanged,
{
}

} // verus!
