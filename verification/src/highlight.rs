//! How an entry of a directory listing is laid out: the mark, the name
//! fitted to the columns left beside the symbol and the suffix, the muted
//! cursor, and where the live-search match is drawn inside the name.
//!
//! A search pattern (already lowercase) is matched against the lowercased
//! displayed name; the match is recorded as a character range, which the
//! renderer turns into a byte range of the name, clamped to its end.

use vstd::prelude::*;
use crate::text::{chars_of, contains_seq, find_chars, lowercase_of, occurs_at, to_lowercase};
use crate::util::{exact_width, exact_width_of, utf8_width, width_of};

verus! {

/// The UTF-8 length of a character sequence.
pub open spec fn utf8_len(s: Seq<char>) -> nat
    decreases s.len(),
{
    if s.len() == 0 {
        0
    } else {
        utf8_len(s.drop_last()) + utf8_width(s.last())
    }
}

/// A prefix is no longer in UTF-8 than the whole.
pub proof fn lemma_utf8_len_prefix(s: Seq<char>, k: int)
    requires
        0 <= k <= s.len(),
    ensures
        utf8_len(s.take(k)) <= utf8_len(s),
    decreases s.len() - k,
{
    if k < s.len() {
        lemma_utf8_len_prefix(s, k + 1);
        assert(s.take(k + 1).drop_last() =~= s.take(k));
    } else {
        assert(s.take(k) =~= s);
    }
}

/// The byte range of the highlight `(char_start, char_len)` within `name`:
/// none for an empty highlight or one that starts past the end; the end is
/// clamped to the end of the name.
pub open spec fn highlight_bytes(name: Seq<char>, highlight: Option<(usize, usize)>) -> Option<(int, int)> {
    match highlight {
        None => None,
        Some((start, len)) => {
            if len == 0 || start >= name.len() {
                None
            } else {
                let end = if start + len < name.len() { start + len } else { name.len() as int };
                Some((utf8_len(name.take(start as int)) as int, utf8_len(name.take(end)) as int))
            }
        },
    }
}

/// Converts a character highlight into a byte range of `name` (see
/// [`highlight_bytes`]).
pub fn highlight_byte_range(name: &str, highlight: Option<(usize, usize)>) -> (r: Option<(usize, usize)>)
    requires
        utf8_len(name@) <= usize::MAX,
    ensures
        match r {
            Some((a, b)) => highlight_bytes(name@, highlight) == Some((a as int, b as int)),
            None => highlight_bytes(name@, highlight) is None,
        },
{
    let (start, len) = match highlight {
        Some(h) => h,
        None => {
            return None;
        },
    };
    if len == 0 {
        return None;
    }
    let chars = chars_of(name);
    let total = chars.len();
    if start >= total {
        return None;
    }
    let end = if len < total - start { start + len } else { total };
    let ghost s = name@;
    let mut bytes: usize = 0;
    let mut byte_start: usize = 0;
    let mut i: usize = 0;
    proof {
        assert(s.take(0) =~= Seq::<char>::empty());
    }
    while i < end
        invariant
            chars@ == s,
            utf8_len(s) <= usize::MAX,
            start < end <= s.len(),
            i <= end,
            bytes == utf8_len(s.take(i as int)),
            i > start ==> byte_start == utf8_len(s.take(start as int)),
        decreases end - i,
    {
        if i == start {
            byte_start = bytes;
        }
        proof {
            lemma_utf8_len_prefix(s, i + 1);
            assert(s.take(i + 1).drop_last() =~= s.take(i as int));
        }
        bytes = bytes + width_of(chars[i]) as usize;
        i += 1;
    }
    Some((byte_start, bytes))
}

/// `h` is where `pattern` first occurs in the lowercased `name`, as
/// `(char_start, char_len)`; `None` when it does not occur.
pub open spec fn is_search_highlight(name: Seq<char>, pattern: Seq<char>, h: Option<(usize, usize)>) -> bool {
    match h {
        Some((start, len)) => {
            &&& len == pattern.len()
            &&& occurs_at(lowercase_of(name), pattern, start as int)
            &&& forall|j: int| 0 <= j < start ==> !occurs_at(lowercase_of(name), pattern, j)
        },
        None => !contains_seq(lowercase_of(name), pattern),
    }
}

/// Where `pattern` first occurs in the lowercased `name` (see
/// [`is_search_highlight`]).
pub fn search_highlight(name: &str, pattern: &str) -> (r: Option<(usize, usize)>)
    ensures
        is_search_highlight(name@, pattern@, r),
{
    let lc = to_lowercase(name);
    let hay = chars_of(lc.as_str());
    let needle = chars_of(pattern);
    match find_chars(hay.as_slice(), needle.as_slice()) {
        Some(k) => Some((k, needle.len())),
        None => None,
    }
}

/// What `unicode_display_width::width` gives for a text: the sum, over
/// its grapheme clusters, of 2 for a cluster holding a double-width
/// character or the emoji variation selector, and 1 for any other.
pub uninterp spec fn display_width_of(s: Seq<char>) -> u64;

/// The terminal columns `s` takes (`unicode_display_width::width`). Every
/// cluster holds at least one character and counts at most 2, so the
/// width is at most twice the number of characters.
#[verifier::external_body]
pub(crate) fn display_width(s: &str) -> (r: u64)
    ensures
        r == display_width_of(s@),
        r <= 2 * s@.len(),
{
    unicode_display_width::width(s)
}

/// `a - b`, or 0 when `b` is larger.
pub open spec fn minus(a: int, b: int) -> int {
    if a >= b {
        a - b
    } else {
        0
    }
}

/// The columns left for the name in a row of `max_len` columns: the row
/// holds a lead character, the symbol, the name, a space, the suffix and a
/// space.
pub open spec fn name_columns(max_len: u16, suffix_len: nat, symbol_width: usize) -> int {
    minus(minus(minus(max_len as int, suffix_len as int), symbol_width as int), 3)
}

/// How one entry of a directory listing is laid out.
pub struct EntryLayout {
    /// `x` for a marked entry, a space otherwise.
    pub lead: char,
    /// The name fitted to its columns.
    pub name: String,
    /// The cursor is muted: the selected row of an inactive panel.
    pub dimmed: bool,
    /// Where the search pattern matches the fitted name.
    pub highlight: Option<(usize, usize)>,
}

/// Lays out an entry named `name` with `suffix` and the symbol `symbol` in
/// a row of `max_len` columns; `search` is the live search pattern
/// (already lowercase), if any.
pub fn entry_layout(
    name: &str,
    suffix: &str,
    symbol: &str,
    max_len: u16,
    is_marked: bool,
    selected: bool,
    active: bool,
    search: Option<&str>,
) -> (r: EntryLayout)
    ensures
        r.lead == (if is_marked { 'x' } else { ' ' }),
        r.name@ == exact_width_of(name@, name_columns(max_len, suffix@.len(), display_width_of(symbol@) as usize)),
        r.dimmed == (selected && !active),
        match search {
            Some(p) => is_search_highlight(r.name@, p@, r.highlight),
            None => r.highlight is None,
        },
{
    let suffix_len = suffix.unicode_len();
    let symbol_width = display_width(symbol) as usize;
    let m = max_len as usize;
    let a = if m >= suffix_len { m - suffix_len } else { 0 };
    let b = if a >= symbol_width { a - symbol_width } else { 0 };
    let cols = if b >= 3 { b - 3 } else { 0 };
    let fitted = exact_width(name, cols);
    let highlight = match search {
        Some(p) => search_highlight(fitted.as_str(), p),
        None => None,
    };
    EntryLayout { lead: if is_marked { 'x' } else { ' ' }, name: fitted, dimmed: selected && !active, highlight }
}

} // verus!
