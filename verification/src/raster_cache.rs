//! Naming and bookkeeping of the persistent preview raster cache in
//! `$XDG_CACHE_HOME/rfm/thumbnails/`.
//!
//! The filename is the entire metadata:
//! `<seahash(abs path):016x>-<mtime_secs>-<kind>.jpg`. The application
//! reads, writes, renames and removes the files; this module names them and
//! decides which of them a store sweeps away.

use vstd::prelude::*;
use crate::digits::{dec_chars, hex_fixed, push_dec, push_hex_fixed};
use crate::text::{chars_match_at, chars_of, has_prefix, occurs_at, string_of};

verus! {

/// Kind tag for image thumbnails (bounded to 960x540 by the producer).
pub const KIND_IMAGE: &'static str = "img960";

/// Kind tag for ffmpeg video frames (`scale=120:-1`).
pub const KIND_VIDEO: &'static str = "vid120";

/// Kind tag for the first page of a PDF, rendered 960 pixels wide.
pub const KIND_PDF: &'static str = "pdf-p1-960";

/// What `seahash::hash` gives for the bytes of `path`.
pub uninterp spec fn seahash_of_path(path: Seq<char>) -> u64;

/// `seahash::hash` of the path's bytes (UTF-8, which on Unix are the bytes
/// of the path's OS string). The result is named, not stated.
#[verifier::external_body]
pub(crate) fn path_hash(path: &str) -> (r: u64)
    ensures
        r == seahash_of_path(path@),
{
    seahash::hash(path.as_bytes())
}

/// `<hash:016x>-`: the prefix of everything cached for one source path.
pub open spec fn hash_prefix_of(hash: u64) -> Seq<char> {
    hex_fixed(hash as nat, 16).push('-')
}

/// `<hash:016x>-<mtime>-`: the prefix of every entry of one source path
/// at one modification time, any kind.
pub open spec fn keep_prefix_of(hash: u64, mtime_secs: u64) -> Seq<char> {
    hash_prefix_of(hash) + dec_chars(mtime_secs as nat).push('-')
}

/// `<hash:016x>-<mtime>-<kind>.jpg`.
pub open spec fn entry_name_of(hash: u64, mtime_secs: u64, kind: Seq<char>) -> Seq<char> {
    keep_prefix_of(hash, mtime_secs) + kind + seq!['.', 'j', 'p', 'g']
}

fn push_str(out: &mut Vec<char>, s: &str)
    ensures
        final(out)@ == old(out)@ + s@,
{
    let cs = chars_of(s);
    let mut i: usize = 0;
    while i < cs.len()
        invariant
            cs@ == s@,
            i <= cs@.len(),
            out@ == old(out)@ + s@.subrange(0, i as int),
        decreases cs@.len() - i,
    {
        out.push(cs[i]);
        i = i + 1;
        assert(out@ =~= old(out)@ + s@.subrange(0, i as int));
    }
    assert(s@.subrange(0, i as int) =~= s@);
}

/// The characters of the keep prefix for `hash` and `mtime_secs`.
fn keep_prefix_chars(hash: u64, mtime_secs: u64) -> (r: Vec<char>)
    ensures
        r@ == keep_prefix_of(hash, mtime_secs),
{
    let mut out: Vec<char> = Vec::new();
    push_hex_fixed(&mut out, hash, 16);
    out.push('-');
    push_dec(&mut out, mtime_secs);
    out.push('-');
    assert(out@ =~= keep_prefix_of(hash, mtime_secs));
    out
}

/// The entry name for a source whose path hashes to `hash`.
pub fn entry_name_for_hash(hash: u64, mtime_secs: u64, kind: &str) -> (r: String)
    ensures
        r@ == entry_name_of(hash, mtime_secs, kind@),
{
    let mut out = keep_prefix_chars(hash, mtime_secs);
    push_str(&mut out, kind);
    out.push('.');
    out.push('j');
    out.push('p');
    out.push('g');
    assert(out@ =~= entry_name_of(hash, mtime_secs, kind@));
    string_of(out.as_slice())
}

/// `<seahash(path):016x>-<mtime_secs>-<kind>.jpg`: the filename is the
/// entire metadata. `kind` must be filename-safe (`[a-z0-9-]`).
pub fn entry_name(path: &str, mtime_secs: u64, kind: &str) -> (r: String)
    ensures
        r@ == entry_name_of(seahash_of_path(path@), mtime_secs, kind@),
{
    entry_name_for_hash(path_hash(path), mtime_secs, kind)
}

/// Same-directory temp name for the atomic write: `<final>.<token>.part`,
/// where `token` is unique to the writer (process id and a per-process
/// sequence number).
pub fn part_name(final_name: &str, token: &str) -> (r: String)
    ensures
        r@ == final_name@ + seq!['.'] + token@ + seq!['.', 'p', 'a', 'r', 't'],
{
    let mut out: Vec<char> = Vec::new();
    push_str(&mut out, final_name);
    out.push('.');
    push_str(&mut out, token);
    out.push('.');
    out.push('p');
    out.push('a');
    out.push('r');
    out.push('t');
    assert(out@ =~= final_name@ + seq!['.'] + token@ + seq!['.', 'p', 'a', 'r', 't']);
    string_of(out.as_slice())
}

/// A directory entry named `name` is a stale sibling of a source whose
/// path hashes to `hash`, stored at `mtime_secs`: it belongs to that
/// source (any kind, `.part` files too) but not to this modification time.
pub open spec fn stale_sibling(name: Seq<char>, hash: u64, mtime_secs: u64) -> bool {
    has_prefix(name, hash_prefix_of(hash)) && !has_prefix(name, keep_prefix_of(hash, mtime_secs))
}

/// Decides [`stale_sibling`] for a source whose path hashes to `hash`.
pub fn is_stale_sibling_for_hash(name: &str, hash: u64, mtime_secs: u64) -> (r: bool)
    ensures
        r == stale_sibling(name@, hash, mtime_secs),
{
    let n = chars_of(name);
    let keep = keep_prefix_chars(hash, mtime_secs);
    let mut own: Vec<char> = Vec::new();
    push_hex_fixed(&mut own, hash, 16);
    own.push('-');
    assert(own@ =~= hash_prefix_of(hash));
    let belongs = chars_match_at(n.as_slice(), own.as_slice(), 0);
    let current = chars_match_at(n.as_slice(), keep.as_slice(), 0);
    assert(belongs == has_prefix(name@, hash_prefix_of(hash)));
    assert(current == has_prefix(name@, keep_prefix_of(hash, mtime_secs)));
    belongs && !current
}

/// Whether the entry `name` is a stale sibling of `src` stored at
/// `mtime_secs`; a store of `src` sweeps these away.
pub fn is_stale_sibling(name: &str, src: &str, mtime_secs: u64) -> (r: bool)
    ensures
        r == stale_sibling(name@, seahash_of_path(src@), mtime_secs),
{
    is_stale_sibling_for_hash(name, path_hash(src), mtime_secs)
}

/// The session-wide cache setting: unset until the application initializes
/// it, then the `preview_cache` switch and the resolved directory.
pub struct RasterCacheSettings {
    state: Option<(bool, Option<String>)>,
}

impl RasterCacheSettings {
    pub closed spec fn spec_state(&self) -> Option<(bool, Option<Seq<char>>)> {
        match self.state {
            Some((e, d)) => Some((
                e,
                match d {
                    Some(p) => Some(p@),
                    None => None,
                },
            )),
            None => None,
        }
    }

    /// The setting before initialization, which counts as opted out.
    pub fn uninitialized() -> (r: Self)
        ensures
            r.spec_state() is None,
    {
        RasterCacheSettings { state: None }
    }

    /// Initializes the setting from the `preview_cache` switch and the
    /// directory the application resolved and created (`None` when that
    /// failed). A disabled cache has no directory. Only the first
    /// initialization counts: a later one changes nothing.
    pub fn init(&mut self, enabled: bool, resolved_dir: Option<String>)
        ensures
            old(self).spec_state() is Some ==> final(self).spec_state() == old(self).spec_state(),
            old(self).spec_state() is None ==> final(self).spec_state() == Some(
                (
                    enabled,
                    if enabled {
                        match resolved_dir {
                            Some(p) => Some(p@),
                            None => None,
                        }
                    } else {
                        None
                    },
                ),
            ),
    {
        if self.state.is_some() {
            return;
        }
        let dir = if enabled {
            resolved_dir
        } else {
            None
        };
        self.state = Some((enabled, dir));
    }

    /// The cache directory, or `None` when persistence is disabled or
    /// unavailable.
    pub fn dir(&self) -> (r: Option<String>)
        ensures
            match self.spec_state() {
                Some((_, Some(p))) => r matches Some(s) && s@ == p,
                _ => r is None,
            },
    {
        match &self.state {
            Some((_, Some(p))) => Some(crate::text::copy_string(p)),
            _ => None,
        }
    }

    /// `false` iff the user opted out via `preview_cache = false`, or the
    /// setting was never initialized.
    pub fn persistence_enabled(&self) -> (r: bool)
        ensures
            r == (self.spec_state() matches Some((e, _)) && e),
    {
        match &self.state {
            Some((e, _)) => *e,
            None => false,
        }
    }
}

impl Default for RasterCacheSettings {
    /// Uninitialized: persistence off.
    fn default() -> (r: Self)
        ensures
            r.spec_state() is None,
    {
        RasterCacheSettings::uninitialized()
    }
}

/// A regular file of the cache directory, as the startup prune sees it:
/// its modification time in nanoseconds since the UNIX epoch and its size.
#[derive(Debug, Clone, Copy, PartialEq, Eq)]
pub struct CacheFile {
    pub mtime_ns: u128,
    pub len: u64,
}

/// Entries untouched for longer than this are dropped at startup (30 days).
pub const MAX_AGE_NS: u128 = 2_592_000_000_000_000;

/// After the age pass, the oldest entries are evicted down to this budget
/// (256 MiB, one budget for every kind).
pub const MAX_TOTAL_BYTES: u64 = 268_435_456;

/// A file is expired when it was modified more than `max_age_ns` before
/// `now_ns`; a modification time in the future never expires.
pub open spec fn is_expired(now_ns: u128, mtime_ns: u128, max_age_ns: u128) -> bool {
    now_ns >= mtime_ns && now_ns - mtime_ns > max_age_ns
}

/// Decides [`is_expired`].
pub fn expired(now_ns: u128, mtime_ns: u128, max_age_ns: u128) -> (r: bool)
    ensures
        r == is_expired(now_ns, mtime_ns, max_age_ns),
{
    now_ns >= mtime_ns && now_ns - mtime_ns > max_age_ns
}

/// Inserts index `x` of `files` in front of the first index whose file is
/// not older than it.
pub open spec fn insert_oldest_first(files: Seq<CacheFile>, x: int, s: Seq<int>) -> Seq<int>
    decreases s.len(),
{
    if s.len() == 0 {
        seq![x]
    } else if files[x].mtime_ns <= files[s[0]].mtime_ns {
        seq![x] + s
    } else {
        seq![s[0]] + insert_oldest_first(files, x, s.drop_first())
    }
}

/// The indices `from..files.len()` in eviction order: oldest first, files
/// of equal age in their listed order.
pub open spec fn oldest_first_from(files: Seq<CacheFile>, from: int) -> Seq<int>
    decreases files.len() - from,
{
    if from < 0 || from >= files.len() {
        Seq::empty()
    } else {
        insert_oldest_first(files, from, oldest_first_from(files, from + 1))
    }
}

proof fn lemma_insert_oldest_at(files: Seq<CacheFile>, x: int, s: Seq<int>, p: int)
    requires
        0 <= p <= s.len(),
        forall|j: int| 0 <= j < p ==> files[x].mtime_ns > files[#[trigger] s[j]].mtime_ns,
        p < s.len() ==> files[x].mtime_ns <= files[s[p]].mtime_ns,
    ensures
        insert_oldest_first(files, x, s) == s.insert(p, x),
    decreases s.len(),
{
    if s.len() == 0 {
        assert(s.insert(p, x) =~= seq![x]);
    } else if p == 0 {
        assert(s.insert(0, x) =~= seq![x] + s);
    } else {
        let t = s.drop_first();
        assert forall|j: int| 0 <= j < p - 1 implies files[x].mtime_ns > files[#[trigger] t[j]].mtime_ns by {
            assert(t[j] == s[j + 1]);
        }
        lemma_insert_oldest_at(files, x, t, p - 1);
        assert(s.insert(p, x) =~= seq![s[0]] + t.insert(p - 1, x));
    }
}

/// The size pass of the startup prune: the files that survived the age
/// pass are evicted oldest first while their total exceeds the budget;
/// only a removal that succeeded lowers the total.
pub struct SizePass {
    files: Vec<CacheFile>,
    order: Vec<usize>,
    next: usize,
    total: u64,
    cap: u64,
}

/// Indices as integers.
pub open spec fn index_ints(v: Seq<usize>) -> Seq<int> {
    v.map_values(|i: usize| i as int)
}

/// The sum of the sizes of `files`.
pub open spec fn total_len(files: Seq<CacheFile>) -> int
    decreases files.len(),
{
    if files.len() == 0 {
        0
    } else {
        total_len(files.drop_last()) + files.last().len
    }
}

impl SizePass {
    pub closed spec fn spec_order(&self) -> Seq<int> {
        index_ints(self.order@)
    }

    pub closed spec fn spec_next(&self) -> int {
        self.next as int
    }

    pub closed spec fn spec_total(&self) -> u64 {
        self.total
    }

    pub closed spec fn spec_cap(&self) -> u64 {
        self.cap
    }

    pub closed spec fn spec_files(&self) -> Seq<CacheFile> {
        self.files@
    }

    pub closed spec fn wf(&self) -> bool {
        &&& self.next <= self.order@.len()
        &&& self.order@.len() == self.files@.len()
        &&& forall|k: int| 0 <= k < self.order@.len() ==> (#[trigger] self.order@[k]) < self.files@.len()
    }

    /// The pass over the survivors `files`, in eviction order, with their
    /// total size and the budget `cap`.
    pub fn new(files: Vec<CacheFile>, cap: u64) -> (r: Self)
        requires
            total_len(files@) <= u64::MAX,
        ensures
            r.wf(),
            r.spec_files() == files@,
            r.spec_order() == oldest_first_from(files@, 0),
            r.spec_next() == 0,
            r.spec_total() == total_len(files@),
            r.spec_cap() == cap,
    {
        let n = files.len();
        let mut total: u64 = 0;
        let mut i: usize = 0;
        while i < n
            invariant
                n == files@.len(),
                i <= n,
                total == total_len(files@.take(i as int)),
                total_len(files@) <= u64::MAX,
            decreases n - i,
        {
            assert(files@.take(i + 1).drop_last() =~= files@.take(i as int));
            proof {
                lemma_total_len_prefix(files@, i + 1);
            }
            total = total + files[i].len;
            i += 1;
        }
        assert(files@.take(n as int) =~= files@);
        let mut order: Vec<usize> = Vec::new();
        let mut k: usize = n;
        while k > 0
            invariant
                n == files@.len(),
                k <= n,
                index_ints(order@) == oldest_first_from(files@, k as int),
                forall|j: int| 0 <= j < order@.len() ==> (#[trigger] order@[j]) < n,
                order@.len() == n - k,
            decreases k,
        {
            k -= 1;
            let mut p: usize = 0;
            while p < order.len() && files[k].mtime_ns > files[order[p]].mtime_ns
                invariant
                    n == files@.len(),
                    k < n,
                    p <= order@.len(),
                    forall|j: int| 0 <= j < order@.len() ==> (#[trigger] order@[j]) < n,
                    forall|j: int|
                        0 <= j < p ==> files@[k as int].mtime_ns > files@[#[trigger] index_ints(order@)[j]].mtime_ns,
                decreases order@.len() - p,
            {
                p += 1;
            }
            let ghost before = index_ints(order@);
            proof {
                lemma_insert_oldest_at(files@, k as int, before, p as int);
                lemma_insert_oldest_len(files@, k as int, before);
            }
            order.insert(p, k);
            assert(index_ints(order@) =~= before.insert(p as int, k as int));
        }
        SizePass { files, order, next: 0, total, cap }
    }

    /// The next file to remove (an index of the survivors), or `None` once
    /// the total fits the budget or every file was tried.
    pub fn next_victim(&self) -> (r: Option<usize>)
        requires
            self.wf(),
        ensures
            self.spec_total() <= self.spec_cap() || self.spec_next() >= self.spec_order().len() ==> r is None,
            self.spec_total() > self.spec_cap() && self.spec_next() < self.spec_order().len() ==> r == Some(
                self.spec_order()[self.spec_next()] as usize,
            ),
    {
        if self.total <= self.cap || self.next >= self.order.len() {
            None
        } else {
            Some(self.order[self.next])
        }
    }

    /// Reports how removing the current victim went: a successful removal
    /// takes its size off the total (saturating); either way the pass moves
    /// on to the next file.
    pub fn removed(&mut self, ok: bool)
        requires
            old(self).wf(),
            old(self).spec_next() < old(self).spec_order().len(),
        ensures
            final(self).wf(),
            final(self).spec_files() == old(self).spec_files(),
            final(self).spec_order() == old(self).spec_order(),
            final(self).spec_cap() == old(self).spec_cap(),
            final(self).spec_next() == old(self).spec_next() + 1,
            final(self).spec_total() == (if ok {
                let l = old(self).spec_files()[old(self).spec_order()[old(self).spec_next()]].len;
                if old(self).spec_total() >= l {
                    old(self).spec_total() - l
                } else {
                    0
                }
            } else {
                old(self).spec_total() as int
            }),
    {
        let n = self.order.len();
        assert(index_ints(self.order@).len() == n);
        if ok {
            let l = self.files[self.order[self.next]].len;
            self.total = if self.total >= l {
                self.total - l
            } else {
                0
            };
        }
        self.next = self.next + 1;
    }
}

proof fn lemma_total_len_prefix(files: Seq<CacheFile>, i: int)
    requires
        0 <= i <= files.len(),
    ensures
        total_len(files.take(i)) <= total_len(files),
    decreases files.len() - i,
{
    if i < files.len() {
        lemma_total_len_prefix(files, i + 1);
        assert(files.take(i + 1).drop_last() =~= files.take(i));
    } else {
        assert(files.take(i) =~= files);
    }
}

proof fn lemma_insert_oldest_len(files: Seq<CacheFile>, x: int, s: Seq<int>)
    ensures
        insert_oldest_first(files, x, s).len() == s.len() + 1,
    decreases s.len(),
{
    if s.len() > 0 && files[x].mtime_ns > files[s[0]].mtime_ns {
        lemma_insert_oldest_len(files, x, s.drop_first());
    }
}

/// `s` lists file indices oldest first.
pub open spec fn oldest_sorted(files: Seq<CacheFile>, s: Seq<int>) -> bool {
    forall|i: int, j: int| 0 <= i < j < s.len() ==> files[#[trigger] s[i]].mtime_ns <= files[#[trigger] s[j]].mtime_ns
}

proof fn lemma_insert_oldest_props(files: Seq<CacheFile>, x: int, s: Seq<int>)
    ensures
        insert_oldest_first(files, x, s).len() == s.len() + 1,
        insert_oldest_first(files, x, s).contains(x),
        forall|k: int| 0 <= k < s.len() ==> insert_oldest_first(files, x, s).contains(#[trigger] s[k]),
        forall|k: int|
            0 <= k < insert_oldest_first(files, x, s).len() ==> #[trigger] insert_oldest_first(files, x, s)[k] == x
                || s.contains(insert_oldest_first(files, x, s)[k]),
        oldest_sorted(files, s) ==> oldest_sorted(files, insert_oldest_first(files, x, s)),
    decreases s.len(),
{
    let r = insert_oldest_first(files, x, s);
    if s.len() == 0 {
        assert(r[0] == x);
    } else if files[x].mtime_ns <= files[s[0]].mtime_ns {
        assert(r =~= s.insert(0, x));
        assert(r[0] == x);
        assert forall|k: int| 0 <= k < s.len() implies r.contains(#[trigger] s[k]) by {
            assert(r[k + 1] == s[k]);
        }
        assert forall|k: int| 0 <= k < r.len() implies #[trigger] r[k] == x || s.contains(r[k]) by {
            if k > 0 {
                assert(r[k] == s[k - 1]);
            }
        }
        if oldest_sorted(files, s) {
            assert forall|i: int, j: int| 0 <= i < j < r.len() implies files[#[trigger] r[i]].mtime_ns
                <= files[#[trigger] r[j]].mtime_ns by {
                if i == 0 {
                    if j > 1 {
                        assert(r[j] == s[j - 1]);
                    }
                } else {
                    assert(r[i] == s[i - 1] && r[j] == s[j - 1]);
                }
            }
        }
    } else {
        let t = s.drop_first();
        lemma_insert_oldest_props(files, x, t);
        let rt = insert_oldest_first(files, x, t);
        assert(r =~= rt.insert(0, s[0]));
        assert(r[0] == s[0]);
        let jx = choose|j: int| 0 <= j < rt.len() && rt[j] == x;
        assert(r[jx + 1] == x);
        assert forall|k: int| 0 <= k < s.len() implies r.contains(#[trigger] s[k]) by {
            if k > 0 {
                assert(s[k] == t[k - 1]);
                assert(rt.contains(t[k - 1]));
                let j = choose|j: int| 0 <= j < rt.len() && rt[j] == t[k - 1];
                assert(r[j + 1] == rt[j]);
            }
        }
        assert forall|k: int| 0 <= k < r.len() implies #[trigger] r[k] == x || s.contains(r[k]) by {
            if k == 0 {
                assert(s[0] == r[0]);
            } else {
                assert(r[k] == rt[k - 1]);
                if rt[k - 1] != x {
                    let j = choose|j: int| 0 <= j < t.len() && t[j] == rt[k - 1];
                    assert(s[j + 1] == t[j]);
                }
            }
        }
        if oldest_sorted(files, s) {
            assert(oldest_sorted(files, t)) by {
                assert forall|i: int, j: int| 0 <= i < j < t.len() implies files[#[trigger] t[i]].mtime_ns
                    <= files[#[trigger] t[j]].mtime_ns by {
                    assert(t[i] == s[i + 1] && t[j] == s[j + 1]);
                }
            }
            assert forall|i: int, j: int| 0 <= i < j < r.len() implies files[#[trigger] r[i]].mtime_ns
                <= files[#[trigger] r[j]].mtime_ns by {
                if i == 0 {
                    let e = rt[j - 1];
                    assert(r[j] == e);
                    if e != x {
                        let m = choose|m: int| 0 <= m < t.len() && t[m] == e;
                        assert(s[m + 1] == e);
                    }
                } else {
                    assert(r[i] == rt[i - 1] && r[j] == rt[j - 1]);
                }
            }
        }
    }
}

proof fn lemma_oldest_first_from(files: Seq<CacheFile>, from: int)
    requires
        0 <= from <= files.len(),
    ensures
        oldest_first_from(files, from).len() == files.len() - from,
        oldest_sorted(files, oldest_first_from(files, from)),
        forall|k: int| from <= k < files.len() ==> oldest_first_from(files, from).contains(k),
        forall|i: int|
            0 <= i < oldest_first_from(files, from).len() ==> from <= #[trigger] oldest_first_from(files, from)[i]
                < files.len(),
    decreases files.len() - from,
{
    if from < files.len() {
        lemma_oldest_first_from(files, from + 1);
        let s = oldest_first_from(files, from + 1);
        lemma_insert_oldest_props(files, from, s);
        let r = oldest_first_from(files, from);
        assert forall|k: int| from <= k < files.len() implies r.contains(k) by {
            if k > from {
                assert(s.contains(k));
                let j = choose|j: int| 0 <= j < s.len() && s[j] == k;
                assert(r.contains(s[j]));
            } else {
                assert(r.contains(from));
            }
        }
        assert forall|i: int| 0 <= i < r.len() implies from <= #[trigger] r[i] < files.len() by {
            if r[i] != from {
                let j = choose|j: int| 0 <= j < s.len() && s[j] == r[i];
            }
        }
    }
}

/// The size pass evicts in the order oldest first: every surviving file
/// appears in it, each once in range, and modification times never
/// decrease along it.
pub proof fn law_eviction_order_is_oldest_first(files: Seq<CacheFile>)
    ensures
        oldest_first_from(files, 0).len() == files.len(),
        oldest_sorted(files, oldest_first_from(files, 0)),
        forall|k: int| 0 <= k < files.len() ==> oldest_first_from(files, 0).contains(k),
        forall|i: int|
            0 <= i < files.len() ==> 0 <= #[trigger] oldest_first_from(files, 0)[i] < files.len(),
{
    lemma_oldest_first_from(files, 0);
}

/// The cache directory under the cache home: `<cache_home>/rfm/thumbnails`.
pub open spec fn cache_dir_in(cache_home: Seq<char>) -> Seq<char> {
    if cache_home.len() == 0 {
        seq!['r', 'f', 'm', '/', 't', 'h', 'u', 'm', 'b', 'n', 'a', 'i', 'l', 's']
    } else if cache_home.last() == '/' {
        cache_home + seq!['r', 'f', 'm', '/', 't', 'h', 'u', 'm', 'b', 'n', 'a', 'i', 'l', 's']
    } else {
        cache_home + seq!['/', 'r', 'f', 'm', '/', 't', 'h', 'u', 'm', 'b', 'n', 'a', 'i', 'l', 's']
    }
}

/// `<cache_home>/rfm/thumbnails`, joined as `Path::join` joins relative
/// components.
pub fn cache_dir_under(cache_home: &str) -> (r: String)
    ensures
        r@ == cache_dir_in(cache_home@),
{
    let mut out = chars_of(cache_home);
    let n = out.len();
    if n > 0 && out[n - 1] != '/' {
        out.push('/');
    }
    let tail = ['r', 'f', 'm', '/', 't', 'h', 'u', 'm', 'b', 'n', 'a', 'i', 'l', 's'];
    let ghost before = out@;
    let mut i: usize = 0;
    while i < 14
        invariant
            i <= 14,
            tail@ == seq!['r', 'f', 'm', '/', 't', 'h', 'u', 'm', 'b', 'n', 'a', 'i', 'l', 's'],
            out@ == before + tail@.subrange(0, i as int),
        decreases 14 - i,
    {
        out.push(tail[i]);
        i = i + 1;
        assert(out@ =~= before + tail@.subrange(0, i as int));
    }
    assert(tail@.subrange(0, 14) =~= tail@);
    assert(out@ =~= cache_dir_in(cache_home@));
    string_of(out.as_slice())
}

/// Entries of one source at one time but of different kinds have different
/// names, and they share the keep prefix; entries of different times never
/// share it, so a store at a new time sweeps the old ones and only them.
pub proof fn law_kinds_coexist_times_do_not(hash: u64, mtime: u64, other_mtime: u64, k1: Seq<char>, k2: Seq<char>)
    requires
        k1 != k2,
        other_mtime != mtime,
    ensures
        entry_name_of(hash, mtime, k1) != entry_name_of(hash, mtime, k2),
        !stale_sibling(entry_name_of(hash, mtime, k1), hash, mtime),
        stale_sibling(entry_name_of(hash, other_mtime, k1), hash, mtime),
{
    let p = keep_prefix_of(hash, mtime);
    let a = entry_name_of(hash, mtime, k1);
    let b = entry_name_of(hash, mtime, k2);
    if a == b {
        assert(a.subrange(p.len() as int, a.len() - 4) =~= k1);
        assert(b.subrange(p.len() as int, b.len() - 4) =~= k2);
    }
    assert(a.subrange(0, p.len() as int) =~= p);
    let h = hash_prefix_of(hash);
    assert(a.subrange(0, h.len() as int) =~= h);
    let o = entry_name_of(hash, other_mtime, k1);
    let q = keep_prefix_of(hash, other_mtime);
    assert(o.subrange(0, h.len() as int) =~= h);
    assert(q.subrange(0, h.len() as int) =~= h);
    lemma_dec_prefix_free(mtime as nat, other_mtime as nat);
    if has_prefix(o, p) {
        let dm = dec_chars(mtime as nat).push('-');
        let dn = dec_chars(other_mtime as nat).push('-');
        assert(o.subrange(h.len() as int, o.len() as int) =~= dn + k1 + seq!['.', 'j', 'p', 'g']);
        assert(p =~= h + dm);
        assert(o.subrange(0, p.len() as int) =~= p);
        assert(p.subrange(h.len() as int, p.len() as int) =~= dm);
        assert(o.subrange(h.len() as int, p.len() as int) =~= o.subrange(0, p.len() as int).subrange(
            h.len() as int,
            p.len() as int,
        ));
        assert(o.subrange(h.len() as int, p.len() as int) =~= dm);
        assert(o.subrange(h.len() as int, (h.len() + dn.len()) as int) =~= dn);
        if dm.len() <= dn.len() {
            assert(dn.subrange(0, dm.len() as int) =~= dm);
        } else {
            assert(dm.subrange(0, dn.len() as int) =~= dn);
        }
    }
}

proof fn lemma_dec_digits(n: nat)
    ensures
        dec_chars(n).len() >= 1,
        forall|i: int| 0 <= i < dec_chars(n).len() ==> '0' <= #[trigger] dec_chars(n)[i] <= '9',
    decreases n,
{
    if n >= 10 {
        lemma_dec_digits(n / 10);
    }
}

/// A decimal rendering followed by `-` is never a prefix of another one.
proof fn lemma_dec_prefix_free(m: nat, n: nat)
    requires
        m != n,
    ensures
        ({
            let dm = dec_chars(m).push('-');
            let dn = dec_chars(n).push('-');
            &&& dm.len() <= dn.len() ==> dn.subrange(0, dm.len() as int) != dm
            &&& dn.len() <= dm.len() ==> dm.subrange(0, dn.len() as int) != dn
        }),
    decreases m + n,
{
    lemma_dec_digits(m);
    lemma_dec_digits(n);
    let dm = dec_chars(m).push('-');
    let dn = dec_chars(n).push('-');
    if dm.len() < dn.len() {
        assert(dn[dm.len() - 1] != '-');
        assert(dn.subrange(0, dm.len() as int)[dm.len() - 1] == dn[dm.len() - 1]);
    } else if dn.len() < dm.len() {
        assert(dm[dn.len() - 1] != '-');
        assert(dm.subrange(0, dn.len() as int)[dn.len() - 1] == dm[dn.len() - 1]);
    } else {
        lemma_dec_injective(m, n);
        assert(dn.subrange(0, dm.len() as int) =~= dn);
        assert(dm.subrange(0, dn.len() as int) =~= dm);
        if dm == dn {
            assert(dec_chars(m) =~= dm.drop_last());
            assert(dec_chars(n) =~= dn.drop_last());
        }
    }
}

/// Different numbers have different decimal renderings.
proof fn lemma_dec_injective(m: nat, n: nat)
    requires
        m != n,
    ensures
        dec_chars(m) != dec_chars(n),
    decreases m + n,
{
    lemma_dec_digits(m);
    lemma_dec_digits(n);
    if m < 10 && n < 10 {
        assert(dec_chars(m)[0] != dec_chars(n)[0]);
    } else if m < 10 {
        lemma_dec_digits(n / 10);
        assert(dec_chars(n).len() >= 2);
    } else if n < 10 {
        lemma_dec_digits(m / 10);
        assert(dec_chars(m).len() >= 2);
    } else if m % 10 != n % 10 {
        assert(dec_chars(m).last() != dec_chars(n).last());
    } else {
        lemma_dec_injective(m / 10, n / 10);
        if dec_chars(m) == dec_chars(n) {
            assert(dec_chars(m / 10) =~= dec_chars(m).drop_last());
            assert(dec_chars(n / 10) =~= dec_chars(n).drop_last());
        }
    }
}

} // verus!
