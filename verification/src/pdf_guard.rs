//! The decompression guard for PDF cross-reference streams.
//!
//! A PDF parser inflates PDF-1.5+ cross-reference streams (`/Type /XRef`
//! with `/Filter /FlateDecode`) while it reads the trailer, before any
//! per-object guard can run; a small file whose xref stream inflates to
//! gigabytes would exhaust memory. So the raw bytes are scanned first, and
//! every stream object carrying the `/XRef` marker is charged with what
//! decompressing it would materialize: a sole `FlateDecode` is measured by
//! a counting decompression that never reads past `budget + 1` bytes, any
//! other chain with inflating stages is charged at `1032^k` times its size.

use vstd::prelude::*;
use crate::text::occurs_at;

verus! {

/// Maximum single-stage deflate/LZW expansion ratio (1032:1).
pub const MAX_INFLATE_RATIO: u64 = 1032;

/// `FlateDecode`.
pub open spec fn flate_name() -> Seq<u8> {
    seq![70u8, 108u8, 97u8, 116u8, 101u8, 68u8, 101u8, 99u8, 111u8, 100u8, 101u8]
}

/// `LZWDecode`.
pub open spec fn lzw_name() -> Seq<u8> {
    seq![76u8, 90u8, 87u8, 68u8, 101u8, 99u8, 111u8, 100u8, 101u8]
}

/// `stream`.
pub open spec fn stream_kw() -> Seq<u8> {
    seq![115u8, 116u8, 114u8, 101u8, 97u8, 109u8]
}

/// `endstream`.
pub open spec fn endstream_kw() -> Seq<u8> {
    seq![101u8, 110u8, 100u8, 115u8, 116u8, 114u8, 101u8, 97u8, 109u8]
}

/// `end`.
pub open spec fn end_kw() -> Seq<u8> {
    seq![101u8, 110u8, 100u8]
}

/// `obj`.
pub open spec fn obj_kw() -> Seq<u8> {
    seq![111u8, 98u8, 106u8]
}

/// `/XRef`.
pub open spec fn xref_kw() -> Seq<u8> {
    seq![47u8, 88u8, 82u8, 101u8, 102u8]
}

/// `/Filter`.
pub open spec fn filter_kw() -> Seq<u8> {
    seq![47u8, 70u8, 105u8, 108u8, 116u8, 101u8, 114u8]
}

/// A filter name that inflates its input (deflate or LZW).
pub open spec fn inflating(name: Seq<u8>) -> bool {
    name == flate_name() || name == lzw_name()
}

/// The first position `j` in `from..` at which `needle` occurs entirely
/// before `to`; `None` for an empty needle.
pub open spec fn find_within(hay: Seq<u8>, needle: Seq<u8>, from: int, to: int) -> Option<int>
    decreases to - from,
{
    if needle.len() == 0 || from < 0 || to > hay.len() || from + needle.len() > to {
        None
    } else if occurs_at(hay, needle, from) {
        Some(from)
    } else {
        find_within(hay, needle, from + 1, to)
    }
}

/// The last position at which `needle` occurs entirely before `to`; `None`
/// for an empty needle.
pub open spec fn rfind_within(hay: Seq<u8>, needle: Seq<u8>, to: int) -> Option<int>
    decreases to,
{
    if needle.len() == 0 || to > hay.len() || to < needle.len() {
        None
    } else if occurs_at(hay, needle, to - needle.len()) {
        Some(to - needle.len())
    } else {
        rfind_within(hay, needle, to - 1)
    }
}

/// A found position lies in the searched range, and `needle` is there.
pub proof fn lemma_find_within(hay: Seq<u8>, needle: Seq<u8>, from: int, to: int)
    ensures
        find_within(hay, needle, from, to) matches Some(j) ==> from <= j && j + needle.len() <= to
            && occurs_at(hay, needle, j),
    decreases to - from,
{
    if !(needle.len() == 0 || from < 0 || to > hay.len() || from + needle.len() > to) && !occurs_at(
        hay,
        needle,
        from,
    ) {
        lemma_find_within(hay, needle, from + 1, to);
    }
}

proof fn lemma_rfind_within(hay: Seq<u8>, needle: Seq<u8>, to: int)
    ensures
        rfind_within(hay, needle, to) matches Some(j) ==> 0 <= j && j + needle.len() <= to,
    decreases to,
{
    if !(needle.len() == 0 || to > hay.len() || to < needle.len()) && !occurs_at(
        hay,
        needle,
        to - needle.len(),
    ) {
        lemma_rfind_within(hay, needle, to - 1);
    }
}

/// Whether `needle` occurs in `hay` at `i`.
fn bytes_at(hay: &[u8], needle: &[u8], i: usize) -> (r: bool)
    ensures
        r == occurs_at(hay@, needle@, i as int),
{
    if i > hay.len() || needle.len() > hay.len() - i {
        return false;
    }
    let mut k: usize = 0;
    while k < needle.len()
        invariant
            i + needle@.len() <= hay.len(),
            k <= needle@.len(),
            forall|j: int| 0 <= j < k ==> hay@[i + j] == needle@[j],
        decreases needle@.len() - k,
    {
        if hay[i + k] != needle[k] {
            assert(hay@.subrange(i as int, i + needle@.len())[k as int] != needle@[k as int]);
            return false;
        }
        k += 1;
    }
    assert(hay@.subrange(i as int, i + needle@.len()) =~= needle@);
    true
}

/// Decides [`find_within`].
fn find_in(hay: &[u8], needle: &[u8], from: usize, to: usize) -> (r: Option<usize>)
    ensures
        match find_within(hay@, needle@, from as int, to as int) {
            Some(j) => r == Some(j as usize),
            None => r is None,
        },
{
    if needle.len() == 0 || to > hay.len() {
        return None;
    }
    let mut i = from;
    while i <= to && needle.len() <= to - i
        invariant
            needle@.len() > 0,
            to <= hay@.len(),
            from <= i,
            find_within(hay@, needle@, from as int, to as int) == find_within(hay@, needle@, i as int, to as int),
        decreases to - i,
    {
        if bytes_at(hay, needle, i) {
            return Some(i);
        }
        i += 1;
    }
    None
}

/// First index of `needle` in `haystack`; `None` for an empty needle.
pub fn find_bytes(haystack: &[u8], needle: &[u8]) -> (r: Option<usize>)
    ensures
        match find_within(haystack@, needle@, 0, haystack@.len() as int) {
            Some(j) => r == Some(j as usize),
            None => r is None,
        },
{
    find_in(haystack, needle, 0, haystack.len())
}

/// Decides [`rfind_within`].
fn rfind_in(hay: &[u8], needle: &[u8], to: usize) -> (r: Option<usize>)
    ensures
        match rfind_within(hay@, needle@, to as int) {
            Some(j) => r == Some(j as usize),
            None => r is None,
        },
{
    if needle.len() == 0 || to > hay.len() {
        return None;
    }
    let mut t = to;
    while t >= needle.len()
        invariant
            needle@.len() > 0,
            t <= to <= hay@.len(),
            rfind_within(hay@, needle@, to as int) == rfind_within(hay@, needle@, t as int),
        decreases t,
    {
        if bytes_at(hay, needle, t - needle.len()) {
            return Some(t - needle.len());
        }
        t -= 1;
    }
    None
}

/// Last index of `needle` in `haystack`; `None` for an empty needle.
pub fn rfind_bytes(haystack: &[u8], needle: &[u8]) -> (r: Option<usize>)
    ensures
        match rfind_within(haystack@, needle@, haystack@.len() as int) {
            Some(j) => r == Some(j as usize),
            None => r is None,
        },
{
    rfind_in(haystack, needle, haystack.len())
}

/// Equality of two byte strings.
fn bytes_eq(a: &[u8], b: &[u8]) -> (r: bool)
    ensures
        r == (a@ == b@),
{
    if a.len() != b.len() {
        return false;
    }
    let r = bytes_at(a, b, 0);
    proof {
        if r {
            assert(a@.subrange(0, b@.len() as int) =~= a@);
        } else {
            if a@ == b@ {
                assert(a@.subrange(0, b@.len() as int) =~= b@);
            }
        }
    }
    r
}

/// True for a filter name that inflates its input (deflate or LZW).
pub fn is_inflating_filter(name: &[u8]) -> (r: bool)
    ensures
        r == inflating(name@),
{
    let flate: [u8; 11] = [70, 108, 97, 116, 101, 68, 101, 99, 111, 100, 101];
    let lzw: [u8; 9] = [76, 90, 87, 68, 101, 99, 111, 100, 101];
    assert(flate@ == flate_name());
    assert(lzw@ == lzw_name());
    bytes_eq(name, flate.as_slice()) || bytes_eq(name, lzw.as_slice())
}

/// `u8::is_ascii_whitespace`: space, tab, line feed, form feed, carriage return.
pub open spec fn ascii_ws(c: u8) -> bool {
    c == 32 || c == 9 || c == 10 || c == 12 || c == 13
}

/// The bytes that end a scan: in mode 0 `/` or `]` (the next name in an
/// array, or its end); in mode 1 the end of a name inside an array
/// (whitespace, `/`, `]`, `[`); in mode 2 the end of a single name
/// (whitespace, `/`, `[`, `>`).
pub open spec fn stops(mode: u8, c: u8) -> bool {
    if mode == 0 {
        c == 47 || c == 93
    } else if mode == 1 {
        ascii_ws(c) || c == 47 || c == 93 || c == 91
    } else {
        ascii_ws(c) || c == 47 || c == 91 || c == 62
    }
}

/// The first position at or after `i` holding a byte that ends a scan in
/// `mode`, or the length of `d`.
pub open spec fn scan_to(d: Seq<u8>, i: int, mode: u8) -> int
    decreases d.len() - i,
{
    if i < 0 || i >= d.len() {
        d.len() as int
    } else if stops(mode, d[i]) {
        i
    } else {
        scan_to(d, i + 1, mode)
    }
}

/// The first position at or after `i` that is not whitespace.
pub open spec fn skip_ws(d: Seq<u8>, i: int) -> int
    decreases d.len() - i,
{
    if 0 <= i < d.len() && ascii_ws(d[i]) {
        skip_ws(d, i + 1)
    } else {
        i
    }
}

/// A scan from `i` ends in `i..=len`.
pub proof fn lemma_scan_to_bounds(d: Seq<u8>, i: int, mode: u8)
    requires
        0 <= i <= d.len(),
    ensures
        i <= scan_to(d, i, mode) <= d.len(),
    decreases d.len() - i,
{
    if i < d.len() && !stops(mode, d[i]) {
        lemma_scan_to_bounds(d, i + 1, mode);
    }
}

proof fn lemma_skip_ws_bounds(d: Seq<u8>, i: int)
    requires
        0 <= i <= d.len(),
    ensures
        i <= skip_ws(d, i) <= d.len(),
    decreases d.len() - i,
{
    if i < d.len() && ascii_ws(d[i]) {
        lemma_skip_ws_bounds(d, i + 1);
    }
}

/// The names of a filter array, read from just after its `[`.
pub open spec fn array_names(d: Seq<u8>, i: int) -> Seq<Seq<u8>>
    decreases d.len() - i,
{
    if i < 0 || i >= d.len() {
        Seq::empty()
    } else {
        let pos = scan_to(d, i, 0);
        if pos >= d.len() || d[pos] == 93 {
            Seq::empty()
        } else {
            let e = scan_to(d, pos + 1, 1);
            proof {
                lemma_scan_to_bounds(d, i, 0);
                lemma_scan_to_bounds(d, pos + 1, 1);
            }
            seq![d.subrange(pos + 1, e)] + array_names(d, e)
        }
    }
}

/// The `/Filter` names of an xref-stream dictionary: empty when there is no
/// `/Filter`; `/Filter /Name` gives one name and `/Filter [/A /B]` the
/// names of the array.
pub open spec fn filters_of(d: Seq<u8>) -> Seq<Seq<u8>> {
    match find_within(d, filter_kw(), 0, d.len() as int) {
        None => Seq::empty(),
        Some(rel) => {
            let i = skip_ws(d, rel + 7);
            if i < d.len() && d[i] == 91 {
                array_names(d, i + 1)
            } else if i < d.len() && d[i] == 47 {
                seq![d.subrange(i + 1, scan_to(d, i + 1, 2))]
            } else {
                Seq::empty()
            }
        },
    }
}

/// The byte strings of `v`.
pub open spec fn byte_strings(v: Seq<Vec<u8>>) -> Seq<Seq<u8>> {
    v.map_values(|b: Vec<u8>| b@)
}

fn is_ws(c: u8) -> (r: bool)
    ensures
        r == ascii_ws(c),
{
    c == 32 || c == 9 || c == 10 || c == 12 || c == 13
}

fn stops_exec(mode: u8, c: u8) -> (r: bool)
    ensures
        r == stops(mode, c),
{
    if mode == 0 {
        c == 47 || c == 93
    } else if mode == 1 {
        is_ws(c) || c == 47 || c == 93 || c == 91
    } else {
        is_ws(c) || c == 47 || c == 91 || c == 62
    }
}

fn scan_to_exec(d: &[u8], i: usize, mode: u8) -> (r: usize)
    requires
        i <= d@.len(),
    ensures
        r == scan_to(d@, i as int, mode),
{
    let mut j = i;
    while j < d.len() && !stops_exec(mode, d[j])
        invariant
            i <= j <= d@.len(),
            scan_to(d@, i as int, mode) == scan_to(d@, j as int, mode),
        decreases d@.len() - j,
    {
        j += 1;
    }
    j
}

fn skip_ws_exec(d: &[u8], i: usize) -> (r: usize)
    requires
        i <= d@.len(),
    ensures
        r == skip_ws(d@, i as int),
{
    let mut j = i;
    while j < d.len() && is_ws(d[j])
        invariant
            i <= j <= d@.len(),
            skip_ws(d@, i as int) == skip_ws(d@, j as int),
        decreases d@.len() - j,
    {
        j += 1;
    }
    j
}

/// A copy of `d[s..e]`.
fn copy_range(d: &[u8], s: usize, e: usize) -> (r: Vec<u8>)
    requires
        s <= e <= d@.len(),
    ensures
        r@ == d@.subrange(s as int, e as int),
{
    let mut out: Vec<u8> = Vec::new();
    let mut k = s;
    while k < e
        invariant
            s <= k <= e <= d@.len(),
            out@ == d@.subrange(s as int, k as int),
        decreases e - k,
    {
        out.push(d[k]);
        k += 1;
        assert(out@ =~= d@.subrange(s as int, k as int));
    }
    out
}

/// The `/Filter` names of an xref-stream dictionary (raw dictionary bytes);
/// see [`filters_of`].
pub fn xref_stream_filters(dict: &[u8]) -> (r: Vec<Vec<u8>>)
    ensures
        byte_strings(r@) == filters_of(dict@),
{
    let filter: [u8; 7] = [47, 70, 105, 108, 116, 101, 114];
    assert(filter@ == filter_kw());
    let mut names: Vec<Vec<u8>> = Vec::new();
    let rel = match find_in(dict, filter.as_slice(), 0, dict.len()) {
        None => {
            assert(byte_strings(names@) =~= Seq::<Seq<u8>>::empty());
            return names;
        },
        Some(rel) => rel,
    };
    proof {
        lemma_find_within(dict@, filter_kw(), 0, dict@.len() as int);
    }
    let i = skip_ws_exec(dict, rel + 7);
    proof {
        lemma_skip_ws_bounds(dict@, rel + 7);
    }
    if i < dict.len() && dict[i] == 91 {
        let mut j = i + 1;
        while j < dict.len()
            invariant_except_break
                i + 1 <= j <= dict@.len(),
                byte_strings(names@) + array_names(dict@, j as int) == array_names(dict@, i + 1),
            ensures
                byte_strings(names@) == array_names(dict@, i + 1),
            decreases dict@.len() - j,
        {
            let pos = scan_to_exec(dict, j, 0);
            proof {
                lemma_scan_to_bounds(dict@, j as int, 0);
            }
            if pos >= dict.len() || dict[pos] == 93 {
                assert(byte_strings(names@) =~= byte_strings(names@) + array_names(dict@, j as int));
                break;
            }
            let e = scan_to_exec(dict, pos + 1, 1);
            proof {
                lemma_scan_to_bounds(dict@, pos + 1, 1);
            }
            let name = copy_range(dict, pos + 1, e);
            let ghost before = byte_strings(names@);
            names.push(name);
            assert(byte_strings(names@) =~= before.push(dict@.subrange(pos + 1, e as int)));
            assert(byte_strings(names@) + array_names(dict@, e as int) =~= before + array_names(dict@, j as int));
            j = e;
        }
        proof {
            if j >= dict@.len() {
                assert(byte_strings(names@) =~= byte_strings(names@) + array_names(dict@, j as int));
            }
        }
        names
    } else if i < dict.len() && dict[i] == 47 {
        let e = scan_to_exec(dict, i + 1, 2);
        proof {
            lemma_scan_to_bounds(dict@, i + 1, 2);
        }
        names.push(copy_range(dict, i + 1, e));
        assert(byte_strings(names@) =~= filters_of(dict@));
        names
    } else {
        assert(byte_strings(names@) =~= filters_of(dict@));
        names
    }
}

/// `1032^k`.
pub open spec fn ratio_pow(k: nat) -> int
    decreases k,
{
    if k == 0 {
        1
    } else {
        1032 * ratio_pow((k - 1) as nat)
    }
}

/// `x`, saturated at `u64::MAX`.
pub open spec fn capped(x: int) -> u64 {
    if x <= u64::MAX {
        x as u64
    } else {
        u64::MAX
    }
}

/// How many stages of a filter chain inflate.
pub open spec fn inflating_count(fs: Seq<Seq<u8>>) -> nat
    decreases fs.len(),
{
    if fs.len() == 0 {
        0
    } else {
        inflating_count(fs.drop_last()) + if inflating(fs.last()) {
            1nat
        } else {
            0nat
        }
    }
}

/// The chain is `FlateDecode` alone.
pub open spec fn sole_flate(fs: Seq<Seq<u8>>) -> bool {
    fs.len() == 1 && fs[0] == flate_name()
}

/// What decompressing a stream of `content_len` bytes through `fs` would
/// materialize, or `None` when that is over `budget`. A sole `FlateDecode`
/// is charged with `flate_len`, what a counting decompression measured;
/// another chain with `k > 0` inflating stages with `content_len * 1032^k`
/// (saturating); a chain that inflates nothing with 0.
pub open spec fn charge_for(flate_len: u64, content_len: u64, fs: Seq<Seq<u8>>, budget: u64) -> Option<u64> {
    if sole_flate(fs) {
        if flate_len <= budget {
            Some(flate_len)
        } else {
            None
        }
    } else if inflating_count(fs) > 0 {
        let charge = capped(content_len * capped(ratio_pow(inflating_count(fs))));
        if charge <= budget {
            Some(charge)
        } else {
            None
        }
    } else {
        Some(0)
    }
}

proof fn lemma_ratio_pow_positive(k: nat)
    ensures
        ratio_pow(k) >= 1,
    decreases k,
{
    if k > 0 {
        lemma_ratio_pow_positive((k - 1) as nat);
    }
}

/// `1032^k`, saturating at `u64::MAX`.
fn ratio_for(k: u64) -> (r: u64)
    ensures
        r == capped(ratio_pow(k as nat)),
{
    let mut acc: Option<u64> = Some(1);
    let mut j: u64 = 0;
    while j < k
        invariant
            j <= k,
            acc == (if ratio_pow(j as nat) <= u64::MAX {
                Some(ratio_pow(j as nat) as u64)
            } else {
                None::<u64>
            }),
        decreases k - j,
    {
        proof {
            lemma_ratio_pow_positive(j as nat);
        }
        acc = match acc {
            Some(a) => a.checked_mul(MAX_INFLATE_RATIO),
            None => None,
        };
        j = j + 1;
        proof {
            let p = ratio_pow((j - 1) as nat);
            assert(ratio_pow(j as nat) == 1032 * p);
            if p > u64::MAX {
                assert(1032 * p > u64::MAX) by (nonlinear_arith)
                    requires
                        p > u64::MAX,
                ;
            }
        }
    }
    match acc {
        Some(a) => a,
        None => u64::MAX,
    }
}

/// Counts the inflating stages of a filter chain.
fn count_inflating(filters: &[Vec<u8>]) -> (r: u64)
    ensures
        r == inflating_count(byte_strings(filters@)),
{
    let mut n: u64 = 0;
    let mut i: usize = 0;
    while i < filters.len()
        invariant
            i <= filters@.len(),
            n == inflating_count(byte_strings(filters@).take(i as int)),
            n <= i,
        decreases filters@.len() - i,
    {
        assert(byte_strings(filters@).take(i + 1).drop_last() =~= byte_strings(filters@).take(i as int));
        if is_inflating_filter(filters[i].as_slice()) {
            n = n + 1;
        }
        i = i + 1;
    }
    assert(byte_strings(filters@).take(i as int) =~= byte_strings(filters@));
    n
}

/// [`charge_for`], given what the counting decompression measured.
pub fn inflation_charge_for(flate_len: u64, content_len: u64, filters: &[Vec<u8>], budget: u64) -> (r: Option<u64>)
    ensures
        r == charge_for(flate_len, content_len, byte_strings(filters@), budget),
{
    if is_sole_flate(filters) {
        return if flate_len <= budget {
            Some(flate_len)
        } else {
            None
        };
    }
    let stages = count_inflating(filters);
    if stages > 0 {
        let ratio = ratio_for(stages);
        let charge = match content_len.checked_mul(ratio) {
            Some(c) => c,
            None => u64::MAX,
        };
        if charge <= budget {
            Some(charge)
        } else {
            None
        }
    } else {
        Some(0)
    }
}

/// The guard is conservative: a file without cross-reference streams always
/// passes, and a stream whose filter chain inflates nothing (no `/Filter`,
/// or only shrinking filters) never fails, whatever was measured.
pub proof fn law_guard_only_rejects_inflating_streams(b: Seq<u8>, budget: u64, lens: Seq<u64>, i: int)
    ensures
        xref_spans(b).len() == 0 ==> within_budget_given(b, budget, lens),
        0 <= i < xref_spans(b).len() && inflating_count(span_filters(b, xref_spans(b)[i])) == 0 ==> span_within(
            b,
            xref_spans(b)[i],
            lens[i],
            budget,
        ),
{
    let fs = span_filters(b, xref_spans(b)[i]);
    if 0 <= i < xref_spans(b).len() && inflating_count(fs) == 0 && sole_flate(fs) {
        assert(fs.drop_last().len() == 0);
        assert(inflating(fs.last()));
    }
}

/// How many bytes a zlib decoder over `content` yields, read to the end of
/// the stream but never past `limit` bytes; a decoding error ends the count
/// at the bytes that came out before it.
pub uninterp spec fn zlib_counted(content: Seq<u8>, limit: u64) -> u64;

/// Reads `flate2::read::ZlibDecoder` over `content` through `Read::take`
/// with `limit`, by `Read::read_to_end`, and counts the bytes that came
/// out: `read_to_end` keeps what was read before an error, and `take`
/// yields at most `limit` bytes.
#[verifier::external_body]
fn zlib_read_upto(content: &[u8], limit: u64) -> (n: u64)
    ensures
        n == zlib_counted(content@, limit),
        n <= limit,
{
    let mut out: Vec<u8> = Vec::new();
    let mut reader = std::io::Read::take(flate2::read::ZlibDecoder::new(content), limit);
    let _ = std::io::Read::read_to_end(&mut reader, &mut out);
    out.len() as u64
}

/// `budget + 1`, saturating: how far a counting decompression reads to
/// tell a stream that fits `budget` from one that does not.
pub open spec fn counting_limit(budget: u64) -> u64 {
    if budget < u64::MAX {
        (budget + 1) as u64
    } else {
        u64::MAX
    }
}

/// What the counting decompression measures for a stream with `content`
/// and the filter chain `fs`: the zlib output count for a sole
/// `FlateDecode`, nothing for any other chain.
pub open spec fn measured_flate(content: Seq<u8>, fs: Seq<Seq<u8>>, budget: u64) -> u64 {
    if sole_flate(fs) {
        zlib_counted(content, counting_limit(budget))
    } else {
        0
    }
}

/// Counting-decompresses `content` as zlib, never reading past
/// `budget + 1` output bytes (saturating), and returns how many bytes came
/// out before the end of the stream or an error.
pub fn flate_output_len(content: &[u8], budget: u64) -> (n: u64)
    ensures
        n == zlib_counted(content@, counting_limit(budget)),
        n <= counting_limit(budget),
{
    let limit: u64 = if budget < u64::MAX {
        budget + 1
    } else {
        u64::MAX
    };
    zlib_read_upto(content, limit)
}

/// How many bytes decompressing `content` through `filters` would
/// materialize, or `None` when that is over `budget`; see [`charge_for`].
/// A sole `FlateDecode` is measured by [`flate_output_len`]; every other
/// chain is charged exactly as [`charge_for`] says.
pub fn inflation_charge(content: &[u8], filters: &[Vec<u8>], budget: u64) -> (r: Option<u64>)
    ensures
        r == charge_for(
            measured_flate(content@, byte_strings(filters@), budget),
            content@.len() as u64,
            byte_strings(filters@),
            budget,
        ),
{
    let measured = if is_sole_flate(filters) {
        flate_output_len(content, budget)
    } else {
        0
    };
    inflation_charge_for(measured, content.len() as u64, filters, budget)
}

/// The cross-reference streams the scan finds from `cursor` on, each as
/// `(dict_start, keyword, data_start, data_end)`: at every `stream` keyword
/// that is not the tail of an `endstream`, the dictionary runs from just
/// after the nearest preceding `obj` (or the start of the file) to the
/// keyword; it is a cross-reference stream when the dictionary holds
/// `/XRef`; its data starts after the keyword and one optional CR and LF,
/// and ends at the next `endstream` (or the end of the file).
pub open spec fn spans_from(b: Seq<u8>, cursor: int) -> Seq<(int, int, int, int)>
    decreases b.len() - cursor,
{
    if cursor < 0 || cursor > b.len() {
        Seq::empty()
    } else {
        match find_within(b, stream_kw(), cursor, b.len() as int) {
            None => Seq::empty(),
            Some(kw) => {
                proof {
                    lemma_find_within(b, stream_kw(), cursor, b.len() as int);
                }
                if kw >= 3 && occurs_at(b, end_kw(), kw - 3) {
                    spans_from(b, kw + 6)
                } else {
                    let ds = match rfind_within(b, obj_kw(), kw) {
                        Some(p) => p + 3,
                        None => 0,
                    };
                    if find_within(b, xref_kw(), ds, kw) is None {
                        spans_from(b, kw + 6)
                    } else {
                        let d0 = kw + 6;
                        let d1 = if d0 < b.len() && b[d0] == 13 {
                            d0 + 1
                        } else {
                            d0
                        };
                        let d2 = if d1 < b.len() && b[d1] == 10 {
                            d1 + 1
                        } else {
                            d1
                        };
                        let de = match find_within(b, endstream_kw(), d2, b.len() as int) {
                            Some(r) => r,
                            None => b.len() as int,
                        };
                        seq![(ds, kw, d2, de)] + spans_from(b, kw + 6)
                    }
                }
            },
        }
    }
}

/// The cross-reference streams of the whole file.
pub open spec fn xref_spans(b: Seq<u8>) -> Seq<(int, int, int, int)> {
    spans_from(b, 0)
}

/// The spans as integers.
pub open spec fn span_ints(v: Seq<(usize, usize, usize, usize)>) -> Seq<(int, int, int, int)> {
    v.map_values(|t: (usize, usize, usize, usize)| (t.0 as int, t.1 as int, t.2 as int, t.3 as int))
}

/// The filter chain of a span's dictionary.
pub open spec fn span_filters(b: Seq<u8>, sp: (int, int, int, int)) -> Seq<Seq<u8>> {
    filters_of(b.subrange(sp.0, sp.1))
}

/// The span's stream fits the budget, a sole `FlateDecode` having measured
/// `flate_len`.
pub open spec fn span_within(b: Seq<u8>, sp: (int, int, int, int), flate_len: u64, budget: u64) -> bool {
    charge_for(flate_len, (sp.3 - sp.2) as u64, span_filters(b, sp), budget) is Some
}

/// Every cross-reference stream fits the budget, given what the counting
/// decompression measured for each (`lens[i]` for the `i`-th; only sole
/// `FlateDecode` streams use it).
pub open spec fn within_budget_given(b: Seq<u8>, budget: u64, lens: Seq<u64>) -> bool {
    forall|i: int| 0 <= i < xref_spans(b).len() ==> span_within(b, #[trigger] xref_spans(b)[i], lens[i], budget)
}

/// The span lies in a file of `len` bytes, its dictionary before its data.
pub open spec fn span_ok(sp: (usize, usize, usize, usize), len: int) -> bool {
    sp.0 <= sp.1 <= sp.2 <= sp.3 <= len
}

/// Finds the cross-reference streams of `bytes`; see [`spans_from`].
pub fn xref_stream_spans(bytes: &[u8]) -> (r: Vec<(usize, usize, usize, usize)>)
    ensures
        span_ints(r@) == xref_spans(bytes@),
        forall|i: int| 0 <= i < r@.len() ==> span_ok(#[trigger] r@[i], bytes@.len() as int),
{
    let stream: [u8; 6] = [115, 116, 114, 101, 97, 109];
    let end: [u8; 3] = [101, 110, 100];
    let obj: [u8; 3] = [111, 98, 106];
    let xref: [u8; 5] = [47, 88, 82, 101, 102];
    let endstream: [u8; 9] = [101, 110, 100, 115, 116, 114, 101, 97, 109];
    assert(stream@ == stream_kw());
    assert(end@ == end_kw());
    assert(obj@ == obj_kw());
    assert(xref@ == xref_kw());
    assert(endstream@ == endstream_kw());
    let ghost b = bytes@;
    let len = bytes.len();
    let mut spans: Vec<(usize, usize, usize, usize)> = Vec::new();
    let mut cursor: usize = 0;
    loop
        invariant
            b == bytes@,
            len == b.len(),
            cursor <= len,
            stream@ == stream_kw(),
            end@ == end_kw(),
            obj@ == obj_kw(),
            xref@ == xref_kw(),
            endstream@ == endstream_kw(),
            span_ints(spans@) + spans_from(b, cursor as int) == spans_from(b, 0),
            forall|i: int| 0 <= i < spans@.len() ==> span_ok(#[trigger] spans@[i], len as int),
        ensures
            span_ints(spans@) == spans_from(b, 0),
            forall|i: int| 0 <= i < spans@.len() ==> span_ok(#[trigger] spans@[i], len as int),
        decreases len - cursor,
    {
        let found = find_in(bytes, stream.as_slice(), cursor, len);
        proof {
            lemma_find_within(b, stream_kw(), cursor as int, len as int);
        }
        match found {
            None => {
                assert(span_ints(spans@) =~= span_ints(spans@) + spans_from(b, cursor as int));
                break;
            },
            Some(kw) => {
                let next = kw + 6;
                if kw >= 3 && bytes_at(bytes, end.as_slice(), kw - 3) {
                    cursor = next;
                } else {
                    let found_obj = rfind_in(bytes, obj.as_slice(), kw);
                    proof {
                        lemma_rfind_within(b, obj_kw(), kw as int);
                    }
                    let ds = match found_obj {
                        Some(p) => p + 3,
                        None => 0,
                    };
                    if find_in(bytes, xref.as_slice(), ds, kw).is_none() {
                        cursor = next;
                    } else {
                        let d0 = kw + 6;
                        let d1 = if d0 < len && bytes[d0] == 13 {
                            d0 + 1
                        } else {
                            d0
                        };
                        let d2 = if d1 < len && bytes[d1] == 10 {
                            d1 + 1
                        } else {
                            d1
                        };
                        let found_end = find_in(bytes, endstream.as_slice(), d2, len);
                        proof {
                            lemma_find_within(b, endstream_kw(), d2 as int, len as int);
                        }
                        let de = match found_end {
                            Some(r) => r,
                            None => len,
                        };
                        let ghost before = span_ints(spans@);
                        spans.push((ds, kw, d2, de));
                        assert(span_ints(spans@) =~= before.push((ds as int, kw as int, d2 as int, de as int)));
                        assert(span_ints(spans@) + spans_from(b, next as int) =~= before + spans_from(b, cursor as int));
                        cursor = next;
                    }
                }
            },
        }
    }
    spans
}

/// Whether the chain is `FlateDecode` alone.
fn is_sole_flate(filters: &[Vec<u8>]) -> (r: bool)
    ensures
        r == sole_flate(byte_strings(filters@)),
{
    let flate: [u8; 11] = [70, 108, 97, 116, 101, 68, 101, 99, 111, 100, 101];
    assert(flate@ == flate_name());
    filters.len() == 1 && bytes_eq(filters[0].as_slice(), flate.as_slice())
}

/// Whether every cross-reference stream fits the budget, given the counts
/// the decompression measured; see [`within_budget_given`].
pub fn xref_streams_within_budget_given(bytes: &[u8], budget: u64, flate_lens: &[u64]) -> (r: bool)
    requires
        flate_lens@.len() == xref_spans(bytes@).len(),
    ensures
        r == within_budget_given(bytes@, budget, flate_lens@),
{
    let spans = xref_stream_spans(bytes);
    let mut i: usize = 0;
    while i < spans.len()
        invariant
            span_ints(spans@) == xref_spans(bytes@),
            forall|j: int| 0 <= j < spans@.len() ==> span_ok(#[trigger] spans@[j], bytes@.len() as int),
            flate_lens@.len() == spans@.len(),
            i <= spans@.len(),
            forall|j: int|
                0 <= j < i ==> span_within(bytes@, #[trigger] xref_spans(bytes@)[j], flate_lens@[j], budget),
        decreases spans@.len() - i,
    {
        let (ds, kw, d2, de) = spans[i];
        assert(span_ok(spans@[i as int], bytes@.len() as int));
        assert(xref_spans(bytes@)[i as int] == (ds as int, kw as int, d2 as int, de as int));
        let dict = &bytes[ds..kw];
        let filters = xref_stream_filters(dict);
        if inflation_charge_for(flate_lens[i], (de - d2) as u64, filters.as_slice(), budget).is_none() {
            return false;
        }
        i = i + 1;
    }
    true
}

/// What the counting decompression measures for each cross-reference
/// stream of `b`; see [`measured_flate`].
pub open spec fn measured_lens(b: Seq<u8>, budget: u64) -> Seq<u64> {
    Seq::new(
        xref_spans(b).len(),
        |i: int|
            measured_flate(
                b.subrange(xref_spans(b)[i].2, xref_spans(b)[i].3),
                span_filters(b, xref_spans(b)[i]),
                budget,
            ),
    )
}

/// Whether every cross-reference stream of the raw PDF `bytes` fits the
/// decompression budget: `false` exactly when one is measured or charged
/// over it; see [`within_budget_given`] and [`measured_lens`].
pub fn pdf_xref_streams_within_budget(bytes: &[u8], budget: u64) -> (r: bool)
    ensures
        r == within_budget_given(bytes@, budget, measured_lens(bytes@, budget)),
{
    let spans = xref_stream_spans(bytes);
    let ghost lens = measured_lens(bytes@, budget);
    let mut i: usize = 0;
    while i < spans.len()
        invariant
            span_ints(spans@) == xref_spans(bytes@),
            lens == measured_lens(bytes@, budget),
            forall|j: int| 0 <= j < spans@.len() ==> span_ok(#[trigger] spans@[j], bytes@.len() as int),
            i <= spans@.len(),
            forall|j: int| 0 <= j < i ==> span_within(bytes@, #[trigger] xref_spans(bytes@)[j], lens[j], budget),
        decreases spans@.len() - i,
    {
        let (ds, kw, d2, de) = spans[i];
        assert(span_ok(spans@[i as int], bytes@.len() as int));
        assert(xref_spans(bytes@)[i as int] == (ds as int, kw as int, d2 as int, de as int));
        let dict = &bytes[ds..kw];
        let filters = xref_stream_filters(dict);
        let content = &bytes[d2..de];
        assert(dict@ == bytes@.subrange(ds as int, kw as int));
        assert(content@ == bytes@.subrange(d2 as int, de as int));
        let verdict = inflation_charge(content, filters.as_slice(), budget);
        assert(lens[i as int] == measured_flate(content@, byte_strings(filters@), budget));
        if verdict.is_none() {
            assert(!span_within(bytes@, xref_spans(bytes@)[i as int], lens[i as int], budget));
            return false;
        }
        i = i + 1;
    }
    true
}

/// The decompression budget that the streams of one PDF load share: each
/// stream is charged what decompressing it would materialize; a stream over
/// what is left is dropped and the budget is spent, so every later
/// inflating stream is dropped too.
pub struct StreamBudget {
    left: u64,
}

/// What is left of `left` after a stream charged `charge` (`None`: over
/// budget): the charge when it fits, everything otherwise.
pub open spec fn budget_step(left: u64, charge: Option<u64>) -> u64 {
    match charge {
        Some(k) => if k <= left {
            (left - k) as u64
        } else {
            0
        },
        None => 0,
    }
}

/// Whether a stream charged `charge` is kept with `left` remaining.
pub open spec fn kept(left: u64, charge: Option<u64>) -> bool {
    charge matches Some(k) && k <= left
}

/// The budget left after the streams charged `charges`, from `left`.
pub open spec fn budget_after(left: u64, charges: Seq<Option<u64>>) -> u64
    decreases charges.len(),
{
    if charges.len() == 0 {
        left
    } else {
        budget_after(budget_step(left, charges[0]), charges.drop_first())
    }
}

/// What the kept streams among `charges` cost in all, from `left`.
pub open spec fn kept_total(left: u64, charges: Seq<Option<u64>>) -> nat
    decreases charges.len(),
{
    if charges.len() == 0 {
        0
    } else {
        let here: nat = if kept(left, charges[0]) { charges[0]->0 as nat } else { 0 };
        here + kept_total(budget_step(left, charges[0]), charges.drop_first())
    }
}

/// However the streams of a file are built, what the kept ones cost
/// together never exceeds the budget the load started with, less what is
/// left of it.
pub proof fn law_kept_streams_fit_the_budget(left: u64, charges: Seq<Option<u64>>)
    ensures
        kept_total(left, charges) + budget_after(left, charges) <= left,
    decreases charges.len(),
{
    if charges.len() > 0 {
        law_kept_streams_fit_the_budget(budget_step(left, charges[0]), charges.drop_first());
    }
}

impl StreamBudget {
    pub closed spec fn spec_left(&self) -> u64 {
        self.left
    }

    pub fn new(budget: u64) -> (r: Self)
        ensures
            r.spec_left() == budget,
    {
        StreamBudget { left: budget }
    }

    /// What is left of the budget.
    pub fn left(&self) -> (r: u64)
        ensures
            r == self.spec_left(),
    {
        self.left
    }

    /// Settles a stream charged `charge` (`None`: over budget): it is kept
    /// and paid for, or dropped and the budget spent.
    pub fn settle(&mut self, charge: Option<u64>) -> (keep: bool)
        ensures
            keep == kept(old(self).spec_left(), charge),
            final(self).spec_left() == budget_step(old(self).spec_left(), charge),
    {
        match charge {
            Some(k) => {
                if k <= self.left {
                    self.left = self.left - k;
                    true
                } else {
                    self.left = 0;
                    false
                }
            },
            None => {
                self.left = 0;
                false
            },
        }
    }

    /// Charges a stream with `content` whose dictionary names `filters`
    /// (`None` when it names no readable filter, so nothing inflates): it
    /// is kept when its [`inflation_charge`] fits what is left.
    pub fn charge_stream(&mut self, content: &[u8], filters: Option<&[Vec<u8>]>) -> (keep: bool)
        ensures
            match filters {
                None => keep && final(self).spec_left() == old(self).spec_left(),
                Some(fs) => {
                    let left = old(self).spec_left();
                    let c = charge_for(
                        measured_flate(content@, byte_strings(fs@), left),
                        content@.len() as u64,
                        byte_strings(fs@),
                        left,
                    );
                    &&& keep == kept(left, c)
                    &&& final(self).spec_left() == budget_step(left, c)
                },
            },
    {
        let charge = match filters {
            Some(fs) => inflation_charge(content, fs, self.left),
            None => Some(0),
        };
        self.settle(charge)
    }
}

} // verus!
