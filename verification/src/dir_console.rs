//! The `cd` console: typing completes directory names live, Tab and
//! Shift-Tab cycle through the completions, and the console navigates as
//! soon as the typed name is a directory.
//!
//! The console asks the filesystem two questions, through the functions the
//! application hands it: whether a path is a directory, and what a
//! directory lists. Its contracts say what it does for whatever answers
//! come back.

use vstd::prelude::*;
use crate::console::strings_of;
use crate::directory::{hidden_name, is_hidden_name, opt_str_view, views, DirPanel, ElemView};
use crate::input::{KeyCode, KeyEvent};
use crate::mode::{Cleanup, ModalRegion, ModeOp};
use crate::text::{
    chars_of, has_prefix, lemma_seq_lt_asymmetric, lemma_seq_lt_irreflexive, lemma_seq_lt_total,
    lemma_seq_lt_transitive, lowercase_of, copy_string, owned, seq_lt, str_lt, string_of, to_lowercase,
};
use crate::util::{join_name, joined};

verus! {

/// A patricia-tree set of byte strings.
#[verifier::external_type_specification]
#[verifier::external_body]
#[verifier::reject_recursive_types(T)]
pub struct ExGenericPatriciaSet<T>(patricia_tree::GenericPatriciaSet<T>);

/// The names a completion set holds (every key is inserted from a string,
/// so every key decodes as UTF-8).
pub uninterp spec fn rec_names(set: patricia_tree::GenericPatriciaSet<Vec<u8>>) -> Set<Seq<char>>;

/// `PatriciaSet::new`: an empty set.
#[verifier::external_body]
fn rec_new() -> (r: patricia_tree::GenericPatriciaSet<Vec<u8>>)
    ensures
        rec_names(r) == Set::<Seq<char>>::empty(),
{
    patricia_tree::GenericPatriciaSet::new()
}

/// `PatriciaSet::insert` of the name's bytes: the set then holds the name.
#[verifier::external_body]
fn rec_insert(set: &mut patricia_tree::GenericPatriciaSet<Vec<u8>>, name: &str)
    ensures
        rec_names(*final(set)) == rec_names(*old(set)).insert(name@),
{
    set.insert(name);
}

/// `PatriciaSet::len`: how many names the set holds.
#[verifier::external_body]
fn rec_len(set: &patricia_tree::GenericPatriciaSet<Vec<u8>>) -> (r: usize)
    ensures
        r == rec_names(*set).len(),
{
    set.len()
}

/// What `Path::parent` gives for a path.
pub uninterp spec fn path_parent_of(path: Seq<char>) -> Option<Seq<char>>;

/// `Path::parent`: the path without its last component, `None` for a root
/// or the empty path.
#[verifier::external_body]
pub(crate) fn path_parent(path: &str) -> (r: Option<String>)
    ensures
        match r {
            Some(p) => path_parent_of(path@) == Some(p@),
            None => path_parent_of(path@) is None,
        },
{
    std::path::Path::new(path).parent().map(|p| p.to_string_lossy().into_owned())
}

/// Every element of `s` is smaller than the ones after it.
pub open spec fn strictly_sorted(s: Seq<Seq<char>>) -> bool {
    forall|i: int, j: int| 0 <= i < j < s.len() ==> seq_lt(#[trigger] s[i], #[trigger] s[j])
}

/// The names of `names` that start with `prefix`.
pub open spec fn with_prefix(names: Set<Seq<char>>, prefix: Seq<char>) -> Set<Seq<char>> {
    names.filter(|k: Seq<char>| has_prefix(k, prefix))
}

/// `l` lists the names of `names` that start with `prefix`, ascending.
pub open spec fn is_prefix_listing(names: Set<Seq<char>>, prefix: Seq<char>, l: Seq<Seq<char>>) -> bool {
    &&& strictly_sorted(l)
    &&& l.to_set() == with_prefix(names, prefix)
}

/// `PatriciaSet::iter_prefix` of the prefix's bytes, each key decoded as
/// UTF-8: the names that start with `prefix`, in sorted order. (For UTF-8,
/// a byte prefix is a character prefix and byte order is code point order.)
#[verifier::external_body]
fn rec_with_prefix(set: &patricia_tree::GenericPatriciaSet<Vec<u8>>, prefix: &[char]) -> (r: Vec<String>)
    ensures
        is_prefix_listing(rec_names(*set), prefix@, r@.map_values(|s: String| s@)),
{
    let p: String = prefix.iter().collect();
    set.iter_prefix(p.as_bytes()).map(|k| String::from_utf8_lossy(&k).into_owned()).collect()
}

/// Two ascending listings of the same names are the same listing.
pub proof fn lemma_listing_unique(s: Seq<Seq<char>>, t: Seq<Seq<char>>)
    requires
        strictly_sorted(s),
        strictly_sorted(t),
        s.to_set() == t.to_set(),
    ensures
        s == t,
    decreases s.len() + t.len(),
{
    if s.len() == 0 {
        if t.len() > 0 {
            assert(t.to_set().contains(t[0]));
        }
        assert(s =~= t);
    } else if t.len() == 0 {
        assert(s.to_set().contains(s[0]));
    } else {
        assert(s.to_set().contains(s[0]));
        assert(t.to_set().contains(t[0]));
        let i = choose|i: int| 0 <= i < s.len() && s[i] == t[0];
        let j = choose|j: int| 0 <= j < t.len() && t[j] == s[0];
        if s[0] != t[0] {
            assert(i > 0 && j > 0);
            assert(seq_lt(s[0], s[i]));
            assert(seq_lt(t[0], t[j]));
            lemma_seq_lt_asymmetric(s[0], t[0]);
        }
        let s2 = s.drop_first();
        let t2 = t.drop_first();
        assert forall|x: Seq<char>| s2.to_set().contains(x) implies t2.to_set().contains(x) by {
            let a = choose|a: int| 0 <= a < s2.len() && s2[a] == x;
            assert(s[a + 1] == x);
            assert(seq_lt(s[0], x));
            lemma_seq_lt_irreflexive(x);
            assert(t.to_set().contains(x));
            let b = choose|b: int| 0 <= b < t.len() && t[b] == x;
            assert(b != 0);
            assert(t2[b - 1] == x);
        }
        assert forall|x: Seq<char>| t2.to_set().contains(x) implies s2.to_set().contains(x) by {
            let a = choose|a: int| 0 <= a < t2.len() && t2[a] == x;
            assert(t[a + 1] == x);
            assert(seq_lt(t[0], x));
            lemma_seq_lt_irreflexive(x);
            assert(s.to_set().contains(x));
            let b = choose|b: int| 0 <= b < s.len() && s[b] == x;
            assert(b != 0);
            assert(s2[b - 1] == x);
        }
        assert(s2.to_set() =~= t2.to_set());
        assert(strictly_sorted(s2)) by {
            assert forall|p: int, q: int| 0 <= p < q < s2.len() implies seq_lt(#[trigger] s2[p], #[trigger] s2[q]) by {
                assert(s2[p] == s[p + 1] && s2[q] == s[q + 1]);
            }
        }
        assert(strictly_sorted(t2)) by {
            assert forall|p: int, q: int| 0 <= p < q < t2.len() implies seq_lt(#[trigger] t2[p], #[trigger] t2[q]) by {
                assert(t2[p] == t[p + 1] && t2[q] == t[q + 1]);
            }
        }
        lemma_listing_unique(s2, t2);
        assert(s =~= seq![s[0]] + s2);
        assert(t =~= seq![t[0]] + t2);
    }
}

/// The ascending listing of the names of `names` that start with `prefix`.
pub open spec fn prefix_listing(names: Set<Seq<char>>, prefix: Seq<char>) -> Seq<Seq<char>> {
    choose|l: Seq<Seq<char>>| is_prefix_listing(names, prefix, l)
}

/// The names that start with `prefix`, ascending.
fn listing_of(set: &patricia_tree::GenericPatriciaSet<Vec<u8>>, prefix: &[char]) -> (r: Vec<String>)
    ensures
        strings_of(r@) == prefix_listing(rec_names(*set), prefix@),
{
    let r = rec_with_prefix(set, prefix);
    proof {
        let l = strings_of(r@);
        assert(l == r@.map_values(|s: String| s@));
        assert(is_prefix_listing(rec_names(*set), prefix@, l));
        let c = prefix_listing(rec_names(*set), prefix@);
        assert(is_prefix_listing(rec_names(*set), prefix@, c));
        lemma_listing_unique(l, c);
    }
    r
}

/// How many names start with `prefix`.
fn count_with_prefix(set: &patricia_tree::GenericPatriciaSet<Vec<u8>>, prefix: &[char]) -> (r: usize)
    ensures
        r == prefix_listing(rec_names(*set), prefix@).len(),
{
    let l = listing_of(set, prefix);
    l.len()
}

/// A copy of `v`.
fn copy_chars(v: &[char]) -> (r: Vec<char>)
    ensures
        r@ == v@,
{
    let mut r: Vec<char> = Vec::new();
    let mut i: usize = 0;
    while i < v.len()
        invariant
            i <= v@.len(),
            r@ == v@.subrange(0, i as int),
        decreases v@.len() - i,
    {
        r.push(v[i]);
        i += 1;
        assert(r@ =~= v@.subrange(0, i as int));
    }
    assert(r@ =~= v@);
    r
}

/// Whether `a` and `b` hold the same characters.
fn chars_eq(a: &[char], b: &[char]) -> (r: bool)
    ensures
        r == (a@ == b@),
{
    if a.len() != b.len() {
        return false;
    }
    let mut i: usize = 0;
    while i < a.len()
        invariant
            a@.len() == b@.len(),
            i <= a@.len(),
            a@.subrange(0, i as int) == b@.subrange(0, i as int),
        decreases a@.len() - i,
    {
        if a[i] != b[i] {
            assert(a@.subrange(0, i + 1)[i as int] != b@.subrange(0, i + 1)[i as int]);
            assert(a@ != b@) by {
                if a@ == b@ {
                    assert(a@[i as int] == b@[i as int]);
                }
            }
            return false;
        }
        i += 1;
        assert(a@.subrange(0, i as int) =~= a@.subrange(0, i - 1).push(a@[i - 1]));
        assert(b@.subrange(0, i as int) =~= b@.subrange(0, i - 1).push(b@[i - 1]));
    }
    assert(a@.subrange(0, i as int) =~= a@);
    assert(b@.subrange(0, i as int) =~= b@);
    true
}

/// `a` may precede `b` when sorting by lowercase name.
pub open spec fn lc_le(a: Seq<char>, b: Seq<char>) -> bool {
    !seq_lt(lowercase_of(b), lowercase_of(a))
}

/// Inserts `x` in front of the first name it may precede.
pub open spec fn insert_lc(x: Seq<char>, s: Seq<Seq<char>>) -> Seq<Seq<char>>
    decreases s.len(),
{
    if s.len() == 0 {
        seq![x]
    } else if lc_le(x, s[0]) {
        seq![x] + s
    } else {
        seq![s[0]] + insert_lc(x, s.drop_first())
    }
}

/// The stable sort of `s` by lowercase name.
pub open spec fn sort_lc(s: Seq<Seq<char>>) -> Seq<Seq<char>>
    decreases s.len(),
{
    if s.len() == 0 {
        Seq::empty()
    } else {
        insert_lc(s[0], sort_lc(s.drop_first()))
    }
}

proof fn lemma_insert_lc_at(x: Seq<char>, s: Seq<Seq<char>>, p: int)
    requires
        0 <= p <= s.len(),
        forall|j: int| 0 <= j < p ==> !lc_le(x, #[trigger] s[j]),
        p < s.len() ==> lc_le(x, s[p]),
    ensures
        insert_lc(x, s) == s.insert(p, x),
    decreases s.len(),
{
    if s.len() == 0 {
        assert(s.insert(p, x) =~= seq![x]);
    } else if p == 0 {
        assert(s.insert(0, x) =~= seq![x] + s);
    } else {
        let t = s.drop_first();
        assert forall|j: int| 0 <= j < p - 1 implies !lc_le(x, #[trigger] t[j]) by {
            assert(t[j] == s[j + 1]);
        }
        lemma_insert_lc_at(x, t, p - 1);
        assert(s.insert(p, x) =~= seq![s[0]] + t.insert(p - 1, x));
    }
}

/// Sorts names by their lowercase form, stably (see [`sort_lc`]).
fn sort_by_lowercase(v: Vec<String>) -> (r: Vec<String>)
    ensures
        strings_of(r@) == sort_lc(strings_of(v@)),
{
    let ghost orig = strings_of(v@);
    let ghost n = v@.len();
    let mut rest = v;
    let mut sorted: Vec<String> = Vec::new();
    let mut keys: Vec<String> = Vec::new();
    proof {
        assert(orig.subrange(n as int, n as int) =~= Seq::<Seq<char>>::empty());
        assert(strings_of(sorted@) =~= Seq::<Seq<char>>::empty());
        assert(strings_of(rest@) =~= orig.subrange(0, n as int));
    }
    while rest.len() > 0
        invariant
            orig.len() == n,
            rest.len() <= n,
            strings_of(rest@) == orig.subrange(0, rest.len() as int),
            strings_of(sorted@) == sort_lc(orig.subrange(rest.len() as int, n as int)),
            keys@.len() == sorted@.len(),
            forall|j: int| 0 <= j < keys@.len() ==> (#[trigger] keys@[j])@ == lowercase_of(sorted@[j]@),
        decreases rest.len(),
    {
        let ghost k = rest.len();
        let ghost old_rest = rest@;
        let e = rest.pop().unwrap();
        proof {
            assert(strings_of(old_rest)[k - 1] == old_rest[k - 1]@);
            assert(orig.subrange(0, k as int)[k - 1] == orig[k - 1]);
            assert(e@ == orig[k - 1]);
            assert(strings_of(rest@) =~= orig.subrange(0, k - 1));
        }
        let key = to_lowercase(e.as_str());
        let mut p: usize = 0;
        while p < sorted.len() && str_lt(keys[p].as_str(), key.as_str())
            invariant
                p <= sorted.len(),
                keys@.len() == sorted@.len(),
                forall|j: int| 0 <= j < keys@.len() ==> (#[trigger] keys@[j])@ == lowercase_of(sorted@[j]@),
                key@ == lowercase_of(e@),
                forall|j: int| 0 <= j < p ==> !lc_le(e@, #[trigger] strings_of(sorted@)[j]),
            decreases sorted.len() - p,
        {
            p += 1;
        }
        proof {
            let s = strings_of(sorted@);
            if p < sorted.len() {
                assert(keys@[p as int]@ == lowercase_of(s[p as int]));
            }
            lemma_insert_lc_at(e@, s, p as int);
            let sub = orig.subrange(k - 1, n as int);
            assert(sub[0] == orig[k - 1]);
            assert(sub.drop_first() =~= orig.subrange(k as int, n as int));
        }
        let ghost before = sorted@;
        let ghost before_keys = keys@;
        sorted.insert(p, e);
        keys.insert(p, key);
        proof {
            assert(strings_of(sorted@) =~= strings_of(before).insert(p as int, e@));
            assert forall|j: int| 0 <= j < keys@.len() implies (#[trigger] keys@[j])@ == lowercase_of(sorted@[j]@) by {
                if j < p {
                    assert(keys@[j] == before_keys[j] && sorted@[j] == before[j]);
                } else if j > p {
                    assert(keys@[j] == before_keys[j - 1] && sorted@[j] == before[j - 1]);
                }
            }
        }
    }
    proof {
        assert(orig.subrange(0, n as int) =~= orig);
    }
    sorted
}

/// The completion shown for `tmp` at cycling index `idx`: the names that
/// start with `tmp`, sorted by lowercase name, walked round and round; the
/// empty string when there are none.
pub open spec fn recommended(names: Set<Seq<char>>, tmp: Seq<char>, idx: usize) -> Seq<char> {
    let l = sort_lc(prefix_listing(names, tmp));
    if l.len() == 0 {
        Seq::empty()
    } else {
        l[idx as int % l.len() as int]
    }
}

proof fn lemma_insert_lc_len(x: Seq<char>, s: Seq<Seq<char>>)
    ensures
        insert_lc(x, s).len() == s.len() + 1,
    decreases s.len(),
{
    if s.len() > 0 && !lc_le(x, s[0]) {
        lemma_insert_lc_len(x, s.drop_first());
    }
}

proof fn lemma_sort_lc_len(s: Seq<Seq<char>>)
    ensures
        sort_lc(s).len() == s.len(),
    decreases s.len(),
{
    if s.len() > 0 {
        lemma_sort_lc_len(s.drop_first());
        lemma_insert_lc_len(s[0], sort_lc(s.drop_first()));
    }
}

/// The filesystem said that `p` is (`b`) or is not a directory.
pub open spec fn said_dir<F: Fn(&str) -> bool>(f: F, p: Seq<char>, b: bool) -> bool {
    exists|a: &str| a@ == p && call_ensures(f, (a,), b)
}

/// A directory listing: each entry's name and whether it is a directory.
pub open spec fn listing_view(o: Option<Vec<(String, bool)>>) -> Option<Seq<(Seq<char>, bool)>> {
    match o {
        Some(v) => Some(v@.map_values(|e: (String, bool)| (e.0@, e.1))),
        None => None,
    }
}

/// The filesystem listed `p` as `l` (`None`: it could not be read).
pub open spec fn said_list<G: Fn(&str) -> Option<Vec<(String, bool)>>>(
    g: G,
    p: Seq<char>,
    l: Option<Seq<(Seq<char>, bool)>>,
) -> bool {
    exists|a: &str, o: Option<Vec<(String, bool)>>| a@ == p && call_ensures(g, (a,), o) && listing_view(o) == l
}

/// The names flagged `true`.
pub open spec fn flagged(es: Seq<(Seq<char>, bool)>) -> Set<Seq<char>>
    decreases es.len(),
{
    if es.len() == 0 {
        Set::empty()
    } else {
        let s = flagged(es.drop_last());
        if es.last().1 {
            s.insert(es.last().0)
        } else {
            s
        }
    }
}

/// Each entry flagged when it is a visible directory.
pub open spec fn visible_dirs(es: Seq<(Seq<char>, bool)>) -> Seq<(Seq<char>, bool)> {
    es.map_values(|e: (Seq<char>, bool)| (e.0, e.1 && !hidden_name(e.0)))
}

/// The visible subdirectories of a listing; none when it could not be read.
pub open spec fn listed_dirs(l: Option<Seq<(Seq<char>, bool)>>) -> Set<Seq<char>> {
    match l {
        Some(es) => flagged(visible_dirs(es)),
        None => Set::empty(),
    }
}

/// The console's state: the typed input, the input as typed before a
/// completion was taken (`tmp`), the directory it completes in, the
/// directory it started from, the cycling index, the number of completions
/// of the input, and the completion names.
pub struct ConsoleView {
    pub input: Seq<char>,
    pub tmp: Seq<char>,
    pub path: Seq<char>,
    pub start: Seq<char>,
    pub rec_idx: usize,
    pub rec_total: usize,
    pub names: Set<Seq<char>>,
}

/// The state after changing to `p`, listed as `l`: the completions are its
/// visible subdirectories, the input is cleared.
pub open spec fn changed_dir(v: ConsoleView, p: Seq<char>, l: Option<Seq<(Seq<char>, bool)>>) -> ConsoleView {
    ConsoleView {
        path: p,
        names: listed_dirs(l),
        input: Seq::empty(),
        tmp: Seq::empty(),
        rec_total: listed_dirs(l).len() as usize,
        rec_idx: 0,
        ..v
    }
}

/// The input and the typed input, emptied.
pub open spec fn cleared(v: ConsoleView) -> ConsoleView {
    ConsoleView { input: Seq::empty(), tmp: Seq::empty(), ..v }
}

/// `c` typed into the input, except `/`.
pub open spec fn pushed(v: ConsoleView, c: char) -> ConsoleView {
    if c == '/' {
        v
    } else {
        ConsoleView { input: v.input.push(c), tmp: v.tmp.push(c), ..v }
    }
}

/// The cycling index reset and the completions of the input counted.
pub open spec fn recounted(v: ConsoleView) -> ConsoleView {
    ConsoleView { rec_idx: 0, rec_total: prefix_listing(v.names, v.input).len() as usize, ..v }
}

/// `s` without its last character (unchanged when empty).
pub open spec fn popped(s: Seq<char>) -> Seq<char> {
    if s.len() == 0 {
        s
    } else {
        s.drop_last()
    }
}

/// Characters taken off the input and the typed input together until some
/// name starts with the typed input or it is empty.
pub open spec fn backed_off(v: ConsoleView) -> ConsoleView
    decreases v.tmp.len(),
{
    let w = ConsoleView { input: popped(v.input), tmp: popped(v.tmp), ..v };
    if prefix_listing(w.names, w.tmp).len() > 0 || w.tmp.len() == 0 {
        w
    } else {
        backed_off(w)
    }
}

/// The console moved to `p`, as the filesystem listed it.
pub open spec fn moved_to<G: Fn(&str) -> Option<Vec<(String, bool)>>>(
    g: G,
    v: ConsoleView,
    p: Seq<char>,
    w: ConsoleView,
) -> bool {
    exists|l: Option<Seq<(Seq<char>, bool)>>| said_list(g, p, l) && w == changed_dir(v, p, l)
}

/// The final check of a typed character: when the input names a directory
/// (other than `.`), the console moves into it.
pub open spec fn entered<F: Fn(&str) -> bool, G: Fn(&str) -> Option<Vec<(String, bool)>>>(
    f: F,
    g: G,
    v: ConsoleView,
    w: ConsoleView,
    r: Option<Seq<char>>,
) -> bool {
    let jp = joined(v.path, v.input);
    exists|d: bool| {
        &&& said_dir(f, jp, d)
        &&& if d && v.input != seq!['.'] {
            moved_to(g, v, jp, w) && r == Some(jp)
        } else {
            w == v && r is None
        }
    }
}

/// Backspace: with an empty input the console moves to the parent
/// directory; with no completions it backs off; after taking a completion
/// it returns to what was typed; otherwise it reloads the directory.
pub open spec fn deleted<G: Fn(&str) -> Option<Vec<(String, bool)>>>(
    g: G,
    v: ConsoleView,
    w: ConsoleView,
    r: Option<Seq<char>>,
) -> bool {
    if v.input.len() == 0 {
        match path_parent_of(v.path) {
            Some(p) => moved_to(g, v, p, w) && r == Some(p),
            None => w == v && r is None,
        }
    } else if v.rec_total == 0 {
        w == backed_off(v) && r is None
    } else if v.tmp != v.input {
        w == (ConsoleView { input: v.tmp, ..v }) && r == Some(v.path)
    } else {
        moved_to(g, v, v.path, w) && r == Some(v.path)
    }
}

/// A typed character: `..` followed by anything goes up like Backspace on
/// an empty input; otherwise the character is typed, and when the input
/// already named a directory the console moves into it unless some name
/// starts with the input and the character; then the final check applies.
pub open spec fn inserted<F: Fn(&str) -> bool, G: Fn(&str) -> Option<Vec<(String, bool)>>>(
    f: F,
    g: G,
    v: ConsoleView,
    c: char,
    w: ConsoleView,
    r: Option<Seq<char>>,
) -> bool {
    if v.input == seq!['.', '.'] {
        deleted(g, cleared(v), w, r)
    } else {
        let jp = joined(v.path, v.input);
        let n = prefix_listing(v.names, v.input.push(c)).len();
        exists|d: bool| {
            &&& said_dir(f, jp, d)
            &&& if d && v.input != seq!['.'] {
                if n == 0 {
                    exists|m: ConsoleView| moved_to(g, v, jp, m) && w == pushed(m, c) && r == Some(jp)
                } else {
                    entered(f, g, recounted(ConsoleView { input: v.input.push(c), tmp: v.input.push(c), ..v }), w, r)
                }
            } else {
                entered(f, g, recounted(pushed(v, c)), w, r)
            }
        }
    }
}

/// Taking the completion in `v1`: when it names a directory the console
/// reports it, and moves into it when it was the only completion.
pub open spec fn took<F: Fn(&str) -> bool, G: Fn(&str) -> Option<Vec<(String, bool)>>>(
    f: F,
    g: G,
    v1: ConsoleView,
    w: ConsoleView,
    r: Option<Seq<char>>,
) -> bool {
    let jp = joined(v1.path, v1.input);
    exists|d: bool| {
        &&& said_dir(f, jp, d)
        &&& if d {
            &&& r == Some(jp)
            &&& if v1.rec_total <= 1 { moved_to(g, v1, jp, w) } else { w == v1 }
        } else {
            w == v1 && r is None
        }
    }
}

/// Tab: the input becomes the current completion and the index moves on.
pub open spec fn tab_taken(v: ConsoleView) -> ConsoleView {
    ConsoleView {
        input: recommended(v.names, v.tmp, v.rec_idx),
        rec_idx: if v.rec_idx == usize::MAX { v.rec_idx } else { (v.rec_idx + 1) as usize },
        ..v
    }
}

/// Shift-Tab: the index moves back and the input becomes that completion.
pub open spec fn backtab_taken(v: ConsoleView) -> ConsoleView {
    let i: usize = if v.rec_idx == 0 { 0 } else { (v.rec_idx - 1) as usize };
    ConsoleView { input: recommended(v.names, v.tmp, i), rec_idx: i, ..v }
}

/// The operation a console step hands back: a move reported as `Cd`.
pub open spec fn cd_or_noop(op: ModeOp, r: Option<Seq<char>>) -> bool {
    match r {
        Some(p) => op matches ModeOp::Cd(q) && q@ == p,
        None => op == ModeOp::NoOp,
    }
}

/// The candidates of a panel's elements, each flagged when the filesystem
/// said (`dirs`) it is a directory and it is shown.
pub open spec fn panel_candidates(elems: Seq<ElemView>, dirs: Seq<bool>, show_hidden: bool) -> Seq<(Seq<char>, bool)> {
    Seq::new(elems.len(), |i: int| (elems[i].name, dirs[i] && (show_hidden || !elems[i].is_hidden)))
}

/// The filesystem said, for each element, whether its path is a directory.
pub open spec fn said_dirs<F: Fn(&str) -> bool>(f: F, elems: Seq<ElemView>, dirs: Seq<bool>) -> bool {
    &&& dirs.len() == elems.len()
    &&& forall|i: int| 0 <= i < elems.len() ==> said_dir(f, #[trigger] elems[i].path, dirs[i])
}

/// The `cd` console.
pub struct DirConsole {
    input: Vec<char>,
    path: Vec<char>,
    starting_path: String,
    rec_idx: usize,
    rec_total: usize,
    tmp_input: Vec<char>,
    recommendations: patricia_tree::GenericPatriciaSet<Vec<u8>>,
}

impl View for DirConsole {
    type V = ConsoleView;

    closed spec fn view(&self) -> ConsoleView {
        ConsoleView {
            input: self.input@,
            tmp: self.tmp_input@,
            path: self.path@,
            start: self.starting_path@,
            rec_idx: self.rec_idx,
            rec_total: self.rec_total,
            names: rec_names(self.recommendations),
        }
    }
}

impl DirConsole {
    /// The completion names form a finite set.
    pub closed spec fn wf(&self) -> bool {
        rec_names(self.recommendations).finite()
    }

    /// A console in `path`, started from `starting_path`, with no
    /// completions and an empty input.
    pub fn new(path: String, starting_path: String) -> (r: Self)
        ensures
            r.wf(),
            r@ == (ConsoleView {
                input: Seq::empty(),
                tmp: Seq::empty(),
                path: path@,
                start: starting_path@,
                rec_idx: 0,
                rec_total: 0,
                names: Set::empty(),
            }),
    {
        let r = DirConsole {
            input: Vec::new(),
            path: chars_of(path.as_str()),
            starting_path,
            rec_idx: 0,
            rec_total: 0,
            tmp_input: Vec::new(),
            recommendations: rec_new(),
        };
        assert(r@.input =~= Seq::<char>::empty());
        assert(r@.tmp =~= Seq::<char>::empty());
        r
    }

    /// A console in the panel's directory, completing the names of its
    /// shown subdirectories, with the cycling index at the panel's cursor.
    pub fn from_panel<F: Fn(&str) -> bool>(panel: &DirPanel, is_dir: &F) -> (r: Self)
        requires
            forall|a: &str| call_requires(*is_dir, (a,)),
        ensures
            r.wf(),
            exists|dirs: Seq<bool>| {
                &&& said_dirs(*is_dir, panel@.elements, dirs)
                &&& r@ == (ConsoleView {
                    input: Seq::empty(),
                    tmp: Seq::empty(),
                    path: panel@.path,
                    start: panel@.path,
                    rec_idx: if panel@.show_hidden { panel@.selected } else { panel@.non_hidden_idx },
                    rec_total: flagged(panel_candidates(panel@.elements, dirs, panel@.show_hidden)).len() as usize,
                    names: flagged(panel_candidates(panel@.elements, dirs, panel@.show_hidden)),
                })
            },
    {
        let elems = panel.elements();
        let show_hidden = panel.show_hidden();
        let ghost ev = panel@.elements;
        let mut recs = rec_new();
        let ghost mut dirs: Seq<bool> = Seq::empty();
        let mut i: usize = 0;
        while i < elems.len()
            invariant
                views(elems@) == ev,
                show_hidden == panel@.show_hidden,
                forall|a: &str| call_requires(*is_dir, (a,)),
                i <= elems@.len(),
                said_dirs(*is_dir, ev.take(i as int), dirs),
                rec_names(recs) == flagged(panel_candidates(ev.take(i as int), dirs, show_hidden)),
                rec_names(recs).finite(),
            decreases elems@.len() - i,
        {
            let e = &elems[i];
            assert(ev[i as int] == e@);
            let d = is_dir(e.path());
            let ghost old_dirs = dirs;
            proof {
                dirs = dirs.push(d);
                assert(said_dir(*is_dir, e@.path, d));
                assert(ev.take(i + 1) =~= ev.take(i as int).push(e@));
                let c = panel_candidates(ev.take(i + 1), dirs, show_hidden);
                assert(c.drop_last() =~= panel_candidates(ev.take(i as int), old_dirs, show_hidden));
                assert forall|k: int| 0 <= k < ev.take(i + 1).len() implies said_dir(*is_dir, #[trigger] ev.take(i + 1)[k].path, dirs[k]) by {
                    if k < i {
                        assert(ev.take(i + 1)[k] == ev.take(i as int)[k]);
                    }
                }
            }
            if d && (show_hidden || !e.is_hidden()) {
                rec_insert(&mut recs, e.name().as_str());
            }
            i += 1;
        }
        assert(ev.take(i as int) =~= ev);
        let path = panel.path();
        let rec_total = rec_len(&recs);
        let r = DirConsole {
            input: Vec::new(),
            path: chars_of(path),
            starting_path: owned(path),
            rec_idx: panel.index(),
            rec_total,
            tmp_input: Vec::new(),
            recommendations: recs,
        };
        assert(r@.input =~= Seq::<char>::empty());
        assert(r@.tmp =~= Seq::<char>::empty());
        r
    }

    /// Empties the input and the typed input.
    pub fn clear(&mut self)
        ensures
            final(self).wf() == old(self).wf(),
            final(self)@ == (ConsoleView { input: Seq::empty(), tmp: Seq::empty(), ..old(self)@ }),
    {
        self.input.clear();
        self.tmp_input.clear();
    }

    /// Types `c` into the input, except `/`.
    fn push_char(&mut self, c: char)
        ensures
            final(self).wf() == old(self).wf(),
            c == '/' ==> final(self)@ == old(self)@,
            c != '/' ==> final(self)@ == (ConsoleView {
                input: old(self)@.input.push(c),
                tmp: old(self)@.tmp.push(c),
                ..old(self)@
            }),
    {
        if c != '/' {
            self.input.push(c);
            self.tmp_input.push(c);
        }
    }

    /// The completion shown: see [`recommended`].
    pub fn recommendation(&self) -> (r: String)
        ensures
            r@ == recommended(self@.names, self@.tmp, self@.rec_idx),
    {
        let l = listing_of(&self.recommendations, self.tmp_input.as_slice());
        let sorted = sort_by_lowercase(l);
        proof {
            lemma_sort_lc_len(prefix_listing(self@.names, self@.tmp));
        }
        let n = sorted.len();
        if n == 0 {
            String::new()
        } else {
            let k = self.rec_idx % n;
            assert(strings_of(sorted@)[k as int] == sorted@[k as int]@);
            crate::text::copy_string(&sorted[k])
        }
    }

    /// Moves to `path`: the completions become its visible subdirectories
    /// (as `list` reports them) and the input is cleared.
    fn change_dir<G: Fn(&str) -> Option<Vec<(String, bool)>>>(&mut self, path: Vec<char>, list: &G)
        requires
            forall|a: &str| call_requires(*list, (a,)),
        ensures
            final(self).wf(),
            moved_to(*list, old(self)@, path@, final(self)@),
    {
        self.path = path;
        let mut recs = rec_new();
        let p = string_of(self.path.as_slice());
        let answer = list(p.as_str());
        let ghost l = listing_view(answer);
        proof {
            assert(said_list(*list, path@, l));
        }
        match answer {
            Some(entries) => {
                let ghost es = entries@.map_values(|e: (String, bool)| (e.0@, e.1));
                let ghost fs = visible_dirs(es);
                let mut i: usize = 0;
                assert(flagged(fs.take(0)) =~= Set::<Seq<char>>::empty());
                while i < entries.len()
                    invariant
                        es == entries@.map_values(|e: (String, bool)| (e.0@, e.1)),
                        fs == visible_dirs(es),
                        i <= entries@.len(),
                        rec_names(recs) == flagged(fs.take(i as int)),
                        rec_names(recs).finite(),
                    decreases entries@.len() - i,
                {
                    assert(fs.take(i + 1).drop_last() =~= fs.take(i as int));
                    let (name, is_dir) = &entries[i];
                    if *is_dir && !is_hidden_name(name.as_str()) {
                        rec_insert(&mut recs, name.as_str());
                    }
                    i += 1;
                }
                assert(fs.take(i as int) =~= fs);
                assert(l == Some(es));
            },
            None => {},
        }
        assert(rec_names(recs) == listed_dirs(l));
        self.recommendations = recs;
        self.clear();
        self.rec_total = rec_len(&self.recommendations);
        self.rec_idx = 0;
        assert(self@.input =~= Seq::<char>::empty());
        assert(self@.tmp =~= Seq::<char>::empty());
        assert(self@ == changed_dir(old(self)@, path@, l));
        assert(said_list(*list, path@, l) && self@ == changed_dir(old(self)@, path@, l));
    }

    /// The final check of a typed character (see [`entered`]).
    fn enter_if_dir<F: Fn(&str) -> bool, G: Fn(&str) -> Option<Vec<(String, bool)>>>(
        &mut self,
        is_dir: &F,
        list: &G,
    ) -> (r: Option<String>)
        requires
            forall|a: &str| call_requires(*is_dir, (a,)),
            forall|a: &str| call_requires(*list, (a,)),
            old(self).wf(),
        ensures
            final(self).wf(),
            entered(*is_dir, *list, old(self)@, final(self)@, opt_str_view(r)),
    {
        let jp = join_name(self.path.as_slice(), self.input.as_slice());
        let d = is_dir(jp.as_str());
        let dot = self.input.len() == 1 && self.input[0] == '.';
        proof {
            assert(said_dir(*is_dir, jp@, d));
            if self.input@.len() == 1 && self.input@[0] == '.' {
                assert(self.input@ =~= seq!['.']);
            }
        }
        let r = if d && !dot {
            self.change_dir(chars_of(jp.as_str()), list);
            Some(jp)
        } else {
            None
        };
        assert(if d && old(self)@.input != seq!['.'] {
            moved_to(*list, old(self)@, jp@, self@) && opt_str_view(r) == Some(jp@)
        } else {
            self@ == old(self)@ && opt_str_view(r) is None
        });
        assert(jp@ == joined(old(self)@.path, old(self)@.input));
        assert(said_dir(*is_dir, joined(old(self)@.path, old(self)@.input), d));
        r
    }

    /// Types `c` (see [`inserted`]); returns the directory moved into.
    pub fn insert<F: Fn(&str) -> bool, G: Fn(&str) -> Option<Vec<(String, bool)>>>(
        &mut self,
        c: char,
        is_dir: &F,
        list: &G,
    ) -> (r: Option<String>)
        requires
            old(self).wf(),
            forall|a: &str| call_requires(*is_dir, (a,)),
            forall|a: &str| call_requires(*list, (a,)),
        ensures
            final(self).wf(),
            inserted(*is_dir, *list, old(self)@, c, final(self)@, opt_str_view(r)),
    {
        let ghost v = self@;
        if self.input.len() == 2 && self.input[0] == '.' && self.input[1] == '.' {
            assert(self.input@ =~= seq!['.', '.']);
            self.clear();
            return self.del(list);
        }
        assert(self.input@ != seq!['.', '.']);
        let mut ic = copy_chars(self.input.as_slice());
        ic.push(c);
        let n = count_with_prefix(&self.recommendations, ic.as_slice());
        let jp = join_name(self.path.as_slice(), self.input.as_slice());
        let d = is_dir(jp.as_str());
        let dot = self.input.len() == 1 && self.input[0] == '.';
        proof {
            assert(said_dir(*is_dir, jp@, d));
            if self.input@.len() == 1 && self.input@[0] == '.' {
                assert(self.input@ =~= seq!['.']);
            }
        }
        if d && !dot {
            if n == 0 {
                self.change_dir(chars_of(jp.as_str()), list);
                let ghost m = self@;
                self.push_char(c);
                assert(moved_to(*list, v, jp@, m) && self@ == pushed(m, c) && opt_str_view(Some(jp)) == Some(jp@));
                return Some(jp);
            } else {
                self.input.push(c);
                self.tmp_input = copy_chars(self.input.as_slice());
            }
        } else {
            self.push_char(c);
        }
        self.rec_idx = 0;
        self.rec_total = count_with_prefix(&self.recommendations, self.input.as_slice());
        self.enter_if_dir(is_dir, list)
    }

    /// Takes the completion in the input: when it names a directory, that
    /// directory is returned, and moved into when it was the only one.
    fn take_completion<F: Fn(&str) -> bool, G: Fn(&str) -> Option<Vec<(String, bool)>>>(
        &mut self,
        is_dir: &F,
        list: &G,
    ) -> (r: Option<String>)
        requires
            forall|a: &str| call_requires(*is_dir, (a,)),
            forall|a: &str| call_requires(*list, (a,)),
            old(self).wf(),
        ensures
            final(self).wf(),
            took(*is_dir, *list, old(self)@, final(self)@, opt_str_view(r)),
    {
        let jp = join_name(self.path.as_slice(), self.input.as_slice());
        let d = is_dir(jp.as_str());
        assert(said_dir(*is_dir, jp@, d));
        let r = if d {
            if self.rec_total <= 1 {
                self.change_dir(chars_of(jp.as_str()), list);
            }
            Some(jp)
        } else {
            None
        };
        assert(if d {
            &&& opt_str_view(r) == Some(jp@)
            &&& if old(self)@.rec_total <= 1 { moved_to(*list, old(self)@, jp@, self@) } else { self@ == old(self)@ }
        } else {
            self@ == old(self)@ && opt_str_view(r) is None
        });
        assert(jp@ == joined(old(self)@.path, old(self)@.input));
        assert(said_dir(*is_dir, joined(old(self)@.path, old(self)@.input), d));
        r
    }

    /// Tab: takes the current completion and moves the index on.
    pub fn tab<F: Fn(&str) -> bool, G: Fn(&str) -> Option<Vec<(String, bool)>>>(
        &mut self,
        is_dir: &F,
        list: &G,
    ) -> (r: Option<String>)
        requires
            old(self).wf(),
            forall|a: &str| call_requires(*is_dir, (a,)),
            forall|a: &str| call_requires(*list, (a,)),
        ensures
            final(self).wf(),
            took(*is_dir, *list, tab_taken(old(self)@), final(self)@, opt_str_view(r)),
    {
        let rec = self.recommendation();
        self.input = chars_of(rec.as_str());
        self.rec_idx = if self.rec_idx == usize::MAX { self.rec_idx } else { self.rec_idx + 1 };
        self.take_completion(is_dir, list)
    }

    /// Shift-Tab: moves the index back and takes that completion.
    pub fn backtab<F: Fn(&str) -> bool, G: Fn(&str) -> Option<Vec<(String, bool)>>>(
        &mut self,
        is_dir: &F,
        list: &G,
    ) -> (r: Option<String>)
        requires
            old(self).wf(),
            forall|a: &str| call_requires(*is_dir, (a,)),
            forall|a: &str| call_requires(*list, (a,)),
        ensures
            final(self).wf(),
            took(*is_dir, *list, backtab_taken(old(self)@), final(self)@, opt_str_view(r)),
    {
        self.rec_idx = if self.rec_idx == 0 { 0 } else { self.rec_idx - 1 };
        let rec = self.recommendation();
        self.input = chars_of(rec.as_str());
        self.take_completion(is_dir, list)
    }

    /// Backspace (see [`deleted`]); returns the directory the console is
    /// then in, when it moved or returned to what was typed.
    pub fn del<G: Fn(&str) -> Option<Vec<(String, bool)>>>(&mut self, list: &G) -> (r: Option<String>)
        requires
            old(self).wf(),
            forall|a: &str| call_requires(*list, (a,)),
        ensures
            final(self).wf(),
            deleted(*list, old(self)@, final(self)@, opt_str_view(r)),
    {
        if self.input.len() == 0 {
            let cur = string_of(self.path.as_slice());
            match path_parent(cur.as_str()) {
                Some(p) => {
                    self.change_dir(chars_of(p.as_str()), list);
                    assert(moved_to(*list, old(self)@, p@, self@));
                    Some(p)
                },
                None => None,
            }
        } else if self.rec_total == 0 {
            let ghost target = backed_off(self@);
            loop
                invariant_except_break
                    backed_off(self@) == target,
                invariant
                    self.wf(),
                ensures
                    self.wf(),
                    self@ == target,
                decreases self.tmp_input@.len(),
            {
                let ghost prev = self@;
                self.input.pop();
                self.tmp_input.pop();
                assert(self@ == (ConsoleView { input: popped(prev.input), tmp: popped(prev.tmp), ..prev }));
                let k = count_with_prefix(&self.recommendations, self.tmp_input.as_slice());
                assert(backed_off(prev) == if k > 0 || self@.tmp.len() == 0 { self@ } else { backed_off(self@) });
                if k > 0 || self.tmp_input.len() == 0 {
                    break;
                }
            }
            None
        } else if !chars_eq(self.tmp_input.as_slice(), self.input.as_slice()) {
            self.input = copy_chars(self.tmp_input.as_slice());
            Some(string_of(self.path.as_slice()))
        } else {
            self.clear();
            let here = copy_chars(self.path.as_slice());
            let ghost c = self@;
            self.change_dir(here, list);
            proof {
                let l = choose|l: Option<Seq<(Seq<char>, bool)>>| said_list(*list, old(self)@.path, l) && self@ == changed_dir(c, old(self)@.path, l);
                assert(changed_dir(c, old(self)@.path, l) == changed_dir(old(self)@, old(self)@.path, l));
            }
            Some(string_of(self.path.as_slice()))
        }
    }

    /// A key: Backspace, Tab, Shift-Tab and typed characters act as above
    /// and report a move as `Cd`; Enter leaves the console where it is,
    /// Esc leaves it for the directory it started from; other keys do
    /// nothing.
    pub fn handle_key<F: Fn(&str) -> bool, G: Fn(&str) -> Option<Vec<(String, bool)>>>(
        &mut self,
        key: KeyEvent,
        is_dir: &F,
        list: &G,
    ) -> (op: ModeOp)
        requires
            old(self).wf(),
            forall|a: &str| call_requires(*is_dir, (a,)),
            forall|a: &str| call_requires(*list, (a,)),
        ensures
            final(self).wf(),
            match key.code {
                KeyCode::Backspace => exists|r: Option<Seq<char>>|
                    deleted(*list, old(self)@, final(self)@, r) && cd_or_noop(op, r),
                KeyCode::Enter => final(self)@ == old(self)@ && op == (ModeOp::Exit { cleanup: Cleanup::Nothing }),
                KeyCode::Esc => final(self)@ == old(self)@ && (op matches ModeOp::Exit { cleanup: Cleanup::CdTo(p) } && p@ == old(self)@.start),
                KeyCode::Tab => exists|r: Option<Seq<char>>|
                    took(*is_dir, *list, tab_taken(old(self)@), final(self)@, r) && cd_or_noop(op, r),
                KeyCode::BackTab => exists|r: Option<Seq<char>>|
                    took(*is_dir, *list, backtab_taken(old(self)@), final(self)@, r) && cd_or_noop(op, r),
                KeyCode::Char(c) => exists|r: Option<Seq<char>>|
                    inserted(*is_dir, *list, old(self)@, c, final(self)@, r) && cd_or_noop(op, r),
                _ => final(self)@ == old(self)@ && op == ModeOp::NoOp,
            },
    {
        let r = match key.code {
            KeyCode::Backspace => self.del(list),
            KeyCode::Enter => {
                return ModeOp::Exit { cleanup: Cleanup::Nothing };
            },
            KeyCode::Esc => {
                return ModeOp::Exit { cleanup: Cleanup::CdTo(copy_string(&self.starting_path)) };
            },
            KeyCode::Tab => self.tab(is_dir, list),
            KeyCode::BackTab => self.backtab(is_dir, list),
            KeyCode::Char(c) => self.insert(c, is_dir, list),
            _ => None,
        };
        let ghost rv = opt_str_view(r);
        let op = match r {
            Some(p) => ModeOp::Cd(p),
            None => ModeOp::NoOp,
        };
        assert(cd_or_noop(op, rv));
        op
    }

    pub fn region(&self) -> (r: ModalRegion)
        ensures
            r == ModalRegion::ConsoleOverlay,
    {
        ModalRegion::ConsoleOverlay
    }

    /// Both consoles report `console`.
    pub fn name(&self) -> (r: &'static str)
        ensures
            r@ == "console"@,
    {
        "console"
    }
}

/// Where the parts of the `cd` console go in the area `x_start..x_end` by
/// `y_start..y_end`: the directory (with a trailing `/`) and the input on
/// the middle row, centered while they are short, the greyed rest of the
/// completion after them, and the bars above and below with junctions at
/// the column dividers.
pub struct ConsoleLayout {
    pub path_text: String,
    pub rec_text: String,
    pub x_path: u16,
    pub x_text: u16,
    pub x_rec: u16,
    pub y_center: u16,
    pub bars: bool,
    pub top_y: u16,
    pub bot_y: u16,
    pub div_center: u16,
    pub div_right: u16,
}

/// The directory as shown: with a trailing `/`.
pub open spec fn slash_path(p: Seq<char>) -> Seq<char> {
    if p.len() > 0 && p.last() == '/' {
        p
    } else {
        p.push('/')
    }
}

/// The rest of the completion `rec` after the input, or `/` when the
/// completion does not start with it.
pub open spec fn completion_rest(rec: Seq<char>, input: Seq<char>) -> Seq<char> {
    if has_prefix(rec, input) {
        rec.subrange(input.len() as int, rec.len() as int)
    } else {
        seq!['/']
    }
}

pub open spec fn sub_sat(a: int, b: int) -> int {
    if a >= b {
        a - b
    } else {
        0
    }
}

pub open spec fn add_sat16(a: int, b: int) -> int {
    if a + b <= u16::MAX {
        a + b
    } else {
        u16::MAX as int
    }
}

/// The text length the console lays out: the shown directory's and the
/// input's character counts, each taken modulo 2^16.
pub open spec fn console_text_len(v: ConsoleView) -> int {
    slash_path(v.path).len() as int % 65536 + v.input.len() as int % 65536
}

/// How far the text starts from the left edge in `width` columns.
pub open spec fn console_offset(text_len: int, width: int) -> int {
    if text_len < width / 2 {
        width / 4
    } else if text_len < width {
        sub_sat(width - text_len, 1) / 2
    } else {
        0
    }
}

impl DirConsole {
    /// The layout of the console in the area `x_start..x_end` by
    /// `y_start..y_end`; see [`ConsoleLayout`].
    pub fn layout(&self, x_start: u16, x_end: u16, y_start: u16, y_end: u16) -> (r: ConsoleLayout)
        requires
            self.wf(),
            console_text_len(self@) <= u16::MAX,
        ensures
            ({
                let v = self@;
                let width = sub_sat(x_end as int, x_start as int);
                let height = sub_sat(y_end as int, y_start as int);
                let y_center = add_sat16(y_end as int, y_start as int) / 2;
                let path_len = slash_path(v.path).len() as int % 65536;
                let text_len = console_text_len(v);
                let offset = console_offset(text_len, width);
                &&& r.path_text@ == slash_path(v.path)
                &&& r.rec_text@ == completion_rest(recommended(v.names, v.tmp, v.rec_idx), v.input)
                &&& r.y_center == y_center
                &&& r.bars == (height >= 3)
                &&& r.top_y == sub_sat(y_center, 1)
                &&& r.bot_y == add_sat16(y_center, 1)
                &&& r.div_center == width / 8
                &&& r.div_right == width / 2
                &&& r.x_path == add_sat16(x_start as int, offset)
                &&& r.x_text == add_sat16(add_sat16(x_start as int, offset), path_len)
                &&& r.x_rec == add_sat16(x_start as int, add_sat16(offset, text_len))
            }),
    {
        let width: u16 = x_end.saturating_sub(x_start);
        let height: u16 = y_end.saturating_sub(y_start);
        let y_center: u16 = y_end.saturating_add(y_start) / 2;
        let mut path: Vec<char> = Vec::new();
        let mut i: usize = 0;
        while i < self.path.len()
            invariant
                i <= self.path@.len(),
                path@ == self.path@.take(i as int),
            decreases self.path@.len() - i,
        {
            path.push(self.path[i]);
            i = i + 1;
            assert(path@ =~= self.path@.take(i as int));
        }
        assert(self.path@.take(i as int) =~= self.path@);
        let n = path.len();
        if !(n > 0 && path[n - 1] == '/') {
            path.push('/');
        }
        let path_len: u16 = (path.len() % 65536) as u16;
        let input_len: u16 = (self.input.len() % 65536) as u16;
        let text_len: u16 = path_len + input_len;
        let offset: u16 = if text_len < width / 2 {
            width / 4
        } else if text_len < width {
            (width - text_len).saturating_sub(1) / 2
        } else {
            0
        };
        let rec_offset = offset.saturating_add(text_len);
        let rec = chars_of(self.recommendation().as_str());
        let ghost input = self.input@;
        let mut starts = rec.len() >= self.input.len();
        let mut k: usize = 0;
        while starts && k < self.input.len()
            invariant
                input == self.input@,
                starts ==> rec@.len() >= input.len(),
                k <= input.len(),
                starts ==> forall|j: int| 0 <= j < k ==> rec@[j] == input[j],
                !starts ==> !has_prefix(rec@, input),
            decreases input.len() - k + (if starts { 1int } else { 0int }),
        {
            if rec[k] != self.input[k] {
                starts = false;
            } else {
                k = k + 1;
            }
        }
        let rec_text: String = if starts {
            assert(rec@.subrange(0, input.len() as int) =~= input);
            let mut rest: Vec<char> = Vec::new();
            let mut j: usize = self.input.len();
            while j < rec.len()
                invariant
                    input.len() <= j <= rec@.len(),
                    rest@ == rec@.subrange(input.len() as int, j as int),
                decreases rec@.len() - j,
            {
                rest.push(rec[j]);
                j = j + 1;
                assert(rest@ =~= rec@.subrange(input.len() as int, j as int));
            }
            string_of(rest.as_slice())
        } else {
            let mut t = String::new();
            crate::text::push_char(&mut t, '/');
            assert(t@ =~= seq!['/']);
            t
        };
        let x_path = x_start.saturating_add(offset);
        ConsoleLayout {
            path_text: string_of(path.as_slice()),
            rec_text,
            x_path,
            x_text: x_path.saturating_add(path_len),
            x_rec: x_start.saturating_add(rec_offset),
            y_center,
            bars: height >= 3,
            top_y: y_center.saturating_sub(1),
            bot_y: y_center.saturating_add(1),
            div_center: width / 8,
            div_right: width / 2,
        }
    }
}

} // verus!
