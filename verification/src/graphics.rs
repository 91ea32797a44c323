//! Terminal graphics protocol negotiation: which protocol (kitty graphics,
//! sixel, or the half-block fallback) image previews use, decoded from the
//! environment and from the terminal's replies to a startup probe, plus the
//! cell/pixel geometry the emitters need.

use vstd::prelude::*;
use vstd::utf8::valid_utf8;
use crate::text::{has_prefix, owned};

verus! {

/// The graphics protocol the preview column draws images with.
#[derive(Debug, Clone, Copy, PartialEq, Eq, Structural)]
pub enum GraphicsProtocol {
    Kitty,
    Sixel,
    HalfBlock,
}

/// The `image_protocol` configuration choice.
#[derive(Debug, Clone, Copy, PartialEq, Eq, Structural)]
pub enum ImageProtocolChoice {
    Auto,
    Kitty,
    Sixel,
    HalfBlock,
}

impl GraphicsProtocol {
    /// Stable string form, matching the `image_protocol` config values.
    pub fn name(&self) -> (r: &'static str)
        ensures
            *self == GraphicsProtocol::Kitty ==> r@ == "kitty"@,
            *self == GraphicsProtocol::Sixel ==> r@ == "sixel"@,
            *self == GraphicsProtocol::HalfBlock ==> r@ == "half-block"@,
    {
        match self {
            GraphicsProtocol::Kitty => "kitty",
            GraphicsProtocol::Sixel => "sixel",
            GraphicsProtocol::HalfBlock => "half-block",
        }
    }
}

/// The value of the first entry for `key` in an environment listing.
pub open spec fn env_lookup(env: Seq<(String, String)>, key: Seq<char>) -> Option<Seq<char>>
    decreases env.len(),
{
    if env.len() == 0 {
        None
    } else if env[0].0@ == key {
        Some(env[0].1@)
    } else {
        env_lookup(env.drop_first(), key)
    }
}

/// Looks `key` up in an environment listing (first entry wins).
pub fn env_get(env: &[(String, String)], key: &str) -> (r: Option<String>)
    ensures
        match r {
            Some(v) => env_lookup(env@, key@) == Some(v@),
            None => env_lookup(env@, key@) is None,
        },
{
    let mut i: usize = 0;
    assert(env@.subrange(0, env@.len() as int) =~= env@);
    while i < env.len()
        invariant
            i <= env.len(),
            env_lookup(env@, key@) == env_lookup(env@.subrange(i as int, env@.len() as int), key@),
        decreases env.len() - i,
    {
        let ghost rest = env@.subrange(i as int, env@.len() as int);
        proof {
            assert(rest[0] == env@[i as int]);
            assert(rest.drop_first() =~= env@.subrange(i + 1, env@.len() as int));
        }
        if crate::text::str_eq(env[i].0.as_str(), key) {
            return Some(crate::text::copy_string(&env[i].1));
        }
        i += 1;
    }
    proof {
        assert(env@.subrange(i as int, env@.len() as int) =~= Seq::<(String, String)>::empty());
    }
    None
}

/// ASCII lowercase of one character; other characters are unchanged.
pub open spec fn ascii_lower(c: char) -> char {
    if 'A' <= c && c <= 'Z' {
        ((c as u32) + 32) as char
    } else {
        c
    }
}

/// Case-insensitive equality on ASCII letters.
pub open spec fn eq_ignore_ascii_case(a: Seq<char>, b: Seq<char>) -> bool {
    a.len() == b.len() && forall|i: int| 0 <= i < a.len() ==> ascii_lower(#[trigger] a[i]) == ascii_lower(b[i])
}

/// Decides [`ascii_lower`] equality of two characters.
fn chars_eq_ignore_ascii_case(a: char, b: char) -> (r: bool)
    ensures
        r == (ascii_lower(a) == ascii_lower(b)),
{
    let la: u32 = if 'A' <= a && a <= 'Z' { (a as u32) + 32 } else { a as u32 };
    let lb: u32 = if 'A' <= b && b <= 'Z' { (b as u32) + 32 } else { b as u32 };
    proof {
        assert(ascii_lower(a) as u32 == la);
        assert(ascii_lower(b) as u32 == lb);
    }
    la == lb
}

/// Decides [`eq_ignore_ascii_case`].
pub fn str_eq_ignore_ascii_case(a: &str, b: &[char]) -> (r: bool)
    ensures
        r == eq_ignore_ascii_case(a@, b@),
{
    let va = crate::text::chars_of(a);
    if va.len() != b.len() {
        return false;
    }
    let mut i: usize = 0;
    while i < va.len()
        invariant
            va@ == a@,
            va.len() == b.len(),
            i <= va.len(),
            forall|j: int| 0 <= j < i ==> ascii_lower(#[trigger] va@[j]) == ascii_lower(b@[j]),
        decreases va.len() - i,
    {
        if !chars_eq_ignore_ascii_case(va[i], b[i]) {
            return false;
        }
        i += 1;
    }
    true
}

pub open spec fn tmux_chars() -> Seq<char> {
    seq!['t', 'm', 'u', 'x']
}

pub open spec fn screen_chars() -> Seq<char> {
    seq!['s', 'c', 'r', 'e', 'e', 'n']
}

pub open spec fn xterm_kitty_chars() -> Seq<char> {
    seq!['x', 't', 'e', 'r', 'm', '-', 'k', 'i', 't', 't', 'y']
}

pub open spec fn wezterm_chars() -> Seq<char> {
    seq!['w', 'e', 'z', 't', 'e', 'r', 'm']
}

pub open spec fn ghostty_chars() -> Seq<char> {
    seq!['g', 'h', 'o', 's', 't', 't', 'y']
}

/// The environment heuristic: multiplexers (which swallow graphics
/// escapes) force half-blocks; kitty and the terminals implementing its
/// protocol (WezTerm, Ghostty) select kitty; anything else is
/// inconclusive (`None`: run the probe).
pub open spec fn env_protocol(env: Seq<(String, String)>) -> Option<GraphicsProtocol> {
    let term = match env_lookup(env, "TERM"@) {
        Some(t) => t,
        None => Seq::empty(),
    };
    if env_lookup(env, "TMUX"@) is Some {
        Some(GraphicsProtocol::HalfBlock)
    } else if has_prefix(term, tmux_chars()) || has_prefix(term, screen_chars()) {
        Some(GraphicsProtocol::HalfBlock)
    } else if env_lookup(env, "KITTY_WINDOW_ID"@) is Some || term == xterm_kitty_chars() {
        Some(GraphicsProtocol::Kitty)
    } else {
        match env_lookup(env, "TERM_PROGRAM"@) {
            Some(prog) => if eq_ignore_ascii_case(prog, wezterm_chars()) || eq_ignore_ascii_case(
                prog,
                ghostty_chars(),
            ) {
                Some(GraphicsProtocol::Kitty)
            } else {
                None
            },
            None => None,
        }
    }
}

fn starts_with_chars(s: &[char], p: &[char]) -> (r: bool)
    ensures
        r == has_prefix(s@, p@),
{
    if p.len() > s.len() {
        return false;
    }
    let r = crate::text::chars_match_at(s, p, 0);
    proof {
        assert(s@.subrange(0, p@.len() as int) =~= s@.subrange(0, 0 + p@.len() as int));
    }
    r
}

/// Environment heuristics for `auto` detection over a listing of
/// environment variables; see [`env_protocol`].
pub fn detect_from_env(env: &[(String, String)]) -> (r: Option<GraphicsProtocol>)
    ensures
        r == env_protocol(env@),
{
    let tmux = env_get(env, "TMUX");
    let term_opt = env_get(env, "TERM");
    let kitty = env_get(env, "KITTY_WINDOW_ID");
    let prog = env_get(env, "TERM_PROGRAM");
    let term = match term_opt {
        Some(t) => crate::text::chars_of(t.as_str()),
        None => Vec::new(),
    };
    let v_tmux = vec!['t', 'm', 'u', 'x'];
    let v_screen = vec!['s', 'c', 'r', 'e', 'e', 'n'];
    let v_xk = vec!['x', 't', 'e', 'r', 'm', '-', 'k', 'i', 't', 't', 'y'];
    let v_wez = vec!['w', 'e', 'z', 't', 'e', 'r', 'm'];
    let v_ghost = vec!['g', 'h', 'o', 's', 't', 't', 'y'];
    proof {
        assert(v_tmux@ =~= tmux_chars());
        assert(v_screen@ =~= screen_chars());
        assert(v_xk@ =~= xterm_kitty_chars());
        assert(v_wez@ =~= wezterm_chars());
        assert(v_ghost@ =~= ghostty_chars());
        assert(term_opt is None ==> term@ =~= Seq::<char>::empty());
    }
    if tmux.is_some() {
        return Some(GraphicsProtocol::HalfBlock);
    }
    if starts_with_chars(&term, &v_tmux) || starts_with_chars(&term, &v_screen) {
        return Some(GraphicsProtocol::HalfBlock);
    }
    let is_xk = term.len() == v_xk.len() && starts_with_chars(&term, &v_xk);
    proof {
        if term@.len() == v_xk@.len() {
            assert(term@.subrange(0, term@.len() as int) =~= term@);
        }
    }
    if kitty.is_some() || is_xk {
        return Some(GraphicsProtocol::Kitty);
    }
    if let Some(p) = prog {
        if str_eq_ignore_ascii_case(p.as_str(), &v_wez) || str_eq_ignore_ascii_case(p.as_str(), &v_ghost) {
            return Some(GraphicsProtocol::Kitty);
        }
    }
    None
}

/// What the startup probe replies revealed about the terminal.
#[derive(Debug, Clone, Copy, PartialEq, Eq)]
pub struct ProbeOutcome {
    /// The kitty graphics query was answered with `OK`.
    pub kitty_ok: bool,
    /// Primary Device Attributes listed capability `4` (sixel).
    pub sixel: bool,
    /// `CSI 14 t` text-area size reply, as `(width_px, height_px)`.
    pub pixel_size: Option<(u16, u16)>,
    /// A DA1 reply arrived (the "all replies are in" marker).
    pub da1_seen: bool,
}

pub open spec fn no_probe_data() -> ProbeOutcome {
    ProbeOutcome { kitty_ok: false, sixel: false, pixel_size: None, da1_seen: false }
}

impl Default for ProbeOutcome {
    fn default() -> (r: Self)
        ensures
            r == no_probe_data(),
    {
        ProbeOutcome { kitty_ok: false, sixel: false, pixel_size: None, da1_seen: false }
    }
}


/// First position `p >= k` where the string terminator `ESC \` starts.
pub open spec fn st_from(buf: Seq<u8>, k: int) -> Option<int>
    decreases buf.len() - k,
{
    if k < 0 || k + 1 >= buf.len() {
        None
    } else if buf[k] == 0x1b && buf[k + 1] == 0x5c {
        Some(k)
    } else {
        st_from(buf, k + 1)
    }
}

/// First position `p >= k` holding a CSI final byte (`0x40..=0x7e`).
pub open spec fn final_from(buf: Seq<u8>, k: int) -> Option<int>
    decreases buf.len() - k,
{
    if k < 0 || k >= buf.len() {
        None
    } else if 0x40 <= buf[k] && buf[k] <= 0x7e {
        Some(k)
    } else {
        final_from(buf, k + 1)
    }
}

/// First position of byte `b` in `s`.
pub open spec fn first_pos(s: Seq<u8>, b: u8, k: int) -> Option<int>
    decreases s.len() - k,
{
    if k < 0 || k >= s.len() {
        None
    } else if s[k] == b {
        Some(k)
    } else {
        first_pos(s, b, k + 1)
    }
}

/// A kitty graphics reply payload `G<keys>;OK` signals success.
pub open spec fn kitty_payload_ok(payload: Seq<u8>) -> bool {
    payload.len() > 0 && payload[0] == 0x47 && match first_pos(payload.drop_first(), 0x3b, 0) {
        Some(sep) => payload.drop_first().subrange(sep + 1, payload.len() - 1) =~= seq![0x4fu8, 0x4bu8],
        None => false,
    }
}

/// `s`, split at `;`, has a piece that is exactly `4`.
pub open spec fn has_piece_4(s: Seq<u8>) -> bool {
    exists|k: int|
        0 <= k < s.len() && #[trigger] s[k] == 0x34 && (k == 0 || s[k - 1] == 0x3b) && (k + 1 == s.len() || s[k + 1]
            == 0x3b)
}

/// The piece of `s` before the first `;`, and what follows that `;`.
pub open spec fn split_first(s: Seq<u8>) -> (Seq<u8>, Option<Seq<u8>>) {
    match first_pos(s, 0x3b, 0) {
        Some(p) => (s.subrange(0, p), Some(s.subrange(p + 1, s.len() as int))),
        None => (s, None),
    }
}

pub open spec fn is_digit(b: u8) -> bool {
    0x30 <= b && b <= 0x39
}

/// Decimal value of a digit string.
pub open spec fn digits_value(s: Seq<u8>) -> nat
    decreases s.len(),
{
    if s.len() == 0 {
        0
    } else {
        digits_value(s.drop_last()) * 10 + (s.last() - 0x30) as nat
    }
}

/// What `str::parse::<u16>` accepts: an optional `+`, then one or more
/// decimal digits whose value fits in 16 bits.
pub open spec fn parse_u16_spec(s: Seq<u8>) -> Option<u16> {
    let d = plus_stripped(s);
    if d.len() > 0 && all_digits(d) && digits_value(d) <= 65535 {
        Some(digits_value(d) as u16)
    } else {
        None
    }
}

/// `s` without one leading `+`.
pub open spec fn plus_stripped(s: Seq<u8>) -> Seq<u8> {
    if s.len() > 0 && s[0] == 0x2b {
        s.drop_first()
    } else {
        s
    }
}

pub open spec fn all_digits(d: Seq<u8>) -> bool {
    forall|i: int| 0 <= i < d.len() ==> is_digit(#[trigger] d[i])
}

/// The text-area size reply parameters `4;<height>;<width>`, as
/// `(width, height)`.
pub open spec fn size_reply(params: Seq<u8>) -> Option<(u16, u16)> {
    let (s1, r1) = split_first(params);
    if valid_utf8(params) && s1 =~= seq![0x34u8] && r1 is Some {
        let (s2, r2) = split_first(r1->0);
        if r2 is Some {
            let (s3, _) = split_first(r2->0);
            match (parse_u16_spec(s2), parse_u16_spec(s3)) {
                (Some(h), Some(w)) => Some((w, h)),
                _ => None,
            }
        } else {
            None
        }
    } else {
        None
    }
}

/// One step of the reply scan at position `i`: the position to continue
/// from and the updated outcome, or `None` to stop (a truncated CSI).
pub open spec fn probe_step(buf: Seq<u8>, i: int, acc: ProbeOutcome) -> Option<(int, ProbeOutcome)> {
    if buf[i] != 0x1b || i + 1 >= buf.len() {
        Some((i + 1, acc))
    } else if buf[i + 1] == 0x5f {
        let s = i + 2;
        let end = match st_from(buf, s) {
            Some(p) => p,
            None => buf.len() as int,
        };
        let next = match st_from(buf, s) {
            Some(p) => p + 2,
            None => buf.len() as int,
        };
        Some((next, ProbeOutcome { kitty_ok: acc.kitty_ok || kitty_payload_ok(buf.subrange(s, end)), ..acc }))
    } else if buf[i + 1] == 0x5b {
        let s = i + 2;
        match final_from(buf, s) {
            None => None,
            Some(p) => {
                let params = buf.subrange(s, p);
                let attrs = params.drop_first();
                let acc2 = if buf[p] == 0x63 && params.len() > 0 && params[0] == 0x3f {
                    ProbeOutcome {
                        da1_seen: true,
                        sixel: acc.sixel || (valid_utf8(attrs) && has_piece_4(attrs)),
                        ..acc
                    }
                } else if buf[p] == 0x74 {
                    match size_reply(params) {
                        Some(sz) => ProbeOutcome { pixel_size: Some(sz), ..acc },
                        None => acc,
                    }
                } else {
                    acc
                };
                Some((p + 1, acc2))
            },
        }
    } else {
        Some((i + 1, acc))
    }
}

/// The outcome of scanning the replies from position `i` on.
pub open spec fn probe_from(buf: Seq<u8>, i: int, acc: ProbeOutcome) -> ProbeOutcome
    decreases buf.len() - i,
{
    if i < 0 || i >= buf.len() {
        acc
    } else {
        match probe_step(buf, i, acc) {
            None => acc,
            Some((j, a)) => if i < j <= buf.len() {
                probe_from(buf, j, a)
            } else {
                acc
            },
        }
    }
}

/// What the probe replies in `buf` reveal, garbage before or between the
/// replies being skipped.
pub open spec fn probe_outcome(buf: Seq<u8>) -> ProbeOutcome {
    probe_from(buf, 0, no_probe_data())
}

/// Whether `bytes` is valid UTF-8.
///
/// Calls `std::str::from_utf8`; the contract claims it accepts exactly the
/// byte strings vstd's `valid_utf8` describes (well-formed, non-overlong,
/// non-surrogate scalar values).
#[verifier::external_body]
fn is_utf8(bytes: &[u8]) -> (r: bool)
    ensures
        r == valid_utf8(bytes@),
{
    std::str::from_utf8(bytes).is_ok()
}

/// Copies `buf[lo..hi]`.
pub fn sub_bytes(buf: &[u8], lo: usize, hi: usize) -> (r: Vec<u8>)
    requires
        lo <= hi <= buf.len(),
    ensures
        r@ == buf@.subrange(lo as int, hi as int),
{
    let mut v: Vec<u8> = Vec::new();
    let mut k = lo;
    while k < hi
        invariant
            lo <= k <= hi,
            hi <= buf.len(),
            v@ == buf@.subrange(lo as int, k as int),
        decreases hi - k,
    {
        v.push(buf[k]);
        k += 1;
        assert(v@ =~= buf@.subrange(lo as int, k as int));
    }
    v
}

/// Find the string terminator (`ESC \`) at or after `k`, returning the
/// index of its ESC.
fn find_st(buf: &[u8], k: usize) -> (r: Option<usize>)
    requires
        k <= buf.len(),
    ensures
        match r {
            Some(p) => st_from(buf@, k as int) == Some(p as int),
            None => st_from(buf@, k as int) is None,
        },
    decreases buf.len() - k,
{
    if k >= buf.len() || buf.len() - k < 2 {
        return None;
    }
    if buf[k] == 0x1b && buf[k + 1] == 0x5c {
        return Some(k);
    }
    find_st(buf, k + 1)
}

fn find_final(buf: &[u8], k: usize) -> (r: Option<usize>)
    ensures
        match r {
            Some(p) => final_from(buf@, k as int) == Some(p as int) && k <= p < buf.len(),
            None => final_from(buf@, k as int) is None,
        },
    decreases buf.len() - k,
{
    if k >= buf.len() {
        return None;
    }
    if 0x40 <= buf[k] && buf[k] <= 0x7e {
        return Some(k);
    }
    find_final(buf, k + 1)
}

fn find_byte(s: &[u8], b: u8, k: usize) -> (r: Option<usize>)
    ensures
        match r {
            Some(p) => first_pos(s@, b, k as int) == Some(p as int) && k <= p < s.len(),
            None => first_pos(s@, b, k as int) is None,
        },
    decreases s.len() - k,
{
    if k >= s.len() {
        return None;
    }
    if s[k] == b {
        return Some(k);
    }
    find_byte(s, b, k + 1)
}

proof fn lemma_first_pos_shift(s: Seq<u8>, b: u8, k: int)
    requires
        0 <= k,
    ensures
        match first_pos(s, b, k) {
            Some(p) => k <= p < s.len() && s[p] == b,
            None => true,
        },
    decreases s.len() - k,
{
    if k < s.len() && s[k] != b {
        lemma_first_pos_shift(s, b, k + 1);
    }
}

proof fn lemma_st_from_range(s: Seq<u8>, k: int)
    requires
        0 <= k,
    ensures
        match st_from(s, k) {
            Some(p) => k <= p && p + 1 < s.len(),
            None => true,
        },
    decreases s.len() - k,
{
    if k + 1 < s.len() && !(s[k] == 0x1b && s[k + 1] == 0x5c) {
        lemma_st_from_range(s, k + 1);
    }
}

/// Decides [`kitty_payload_ok`].
fn kitty_ok_exec(payload: &[u8]) -> (r: bool)
    ensures
        r == kitty_payload_ok(payload@),
{
    if payload.len() == 0 || payload[0] != 0x47 {
        return false;
    }
    let stripped = sub_bytes(payload, 1, payload.len());
    proof {
        assert(stripped@ =~= payload@.drop_first());
    }
    match find_byte(&stripped, 0x3b, 0) {
        Some(sep) => {
            proof {
                lemma_first_pos_shift(stripped@, 0x3b, 0);
            }
            let n = stripped.len();
            let ok = n - (sep + 1) == 2 && stripped[sep + 1] == 0x4f && stripped[sep + 2] == 0x4b;
            proof {
                let t = stripped@.subrange(sep + 1, n as int);
                if ok {
                    assert(t =~= seq![0x4fu8, 0x4bu8]);
                } else if t.len() == 2 {
                    assert(t[0] != 0x4f || t[1] != 0x4b);
                }
            }
            ok
        },
        None => false,
    }
}

/// Decides [`has_piece_4`].
fn has_piece_4_exec(s: &[u8]) -> (r: bool)
    ensures
        r == has_piece_4(s@),
{
    let n = s.len();
    let mut k: usize = 0;
    while k < n
        invariant
            n == s.len(),
            k <= n,
            forall|j: int|
                0 <= j < k ==> !(#[trigger] s@[j] == 0x34 && (j == 0 || s@[j - 1] == 0x3b) && (j + 1 == n || s@[j
                    + 1] == 0x3b)),
        decreases n - k,
    {
        if s[k] == 0x34 && (k == 0 || s[k - 1] == 0x3b) && (k + 1 == n || s[k + 1] == 0x3b) {
            return true;
        }
        k += 1;
    }
    false
}

proof fn lemma_digits_value_push(s: Seq<u8>, b: u8)
    ensures
        digits_value(s.push(b)) == digits_value(s) * 10 + (b - 0x30) as nat,
{
    assert(s.push(b).drop_last() =~= s);
}

proof fn lemma_digits_value_mono(s: Seq<u8>, k: int)
    requires
        0 <= k <= s.len(),
        forall|i: int| 0 <= i < s.len() ==> is_digit(#[trigger] s[i]),
    ensures
        digits_value(s.subrange(0, k)) <= digits_value(s),
    decreases s.len() - k,
{
    if k < s.len() {
        lemma_digits_value_mono(s, k + 1);
        lemma_digits_value_push(s.subrange(0, k), s[k]);
        assert(s.subrange(0, k).push(s[k]) =~= s.subrange(0, k + 1));
    } else {
        assert(s.subrange(0, k) =~= s);
    }
}

/// `str::parse::<u16>` on a byte string; see [`parse_u16_spec`].
fn parse_u16(s: &[u8]) -> (r: Option<u16>)
    ensures
        r == parse_u16_spec(s@),
{
    let start: usize = if s.len() > 0 && s[0] == 0x2b { 1 } else { 0 };
    let ghost d = plus_stripped(s@);
    proof {
        assert(d =~= s@.subrange(start as int, s@.len() as int));
    }
    if start >= s.len() {
        assert(d.len() == 0);
        return None;
    }
    let mut v: u32 = 0;
    let mut k = start;
    while k < s.len()
        invariant
            start <= k <= s.len(),
            d == plus_stripped(s@),
            start == (if s@.len() > 0 && s@[0] == 0x2b { 1int } else { 0int }),
            d =~= s@.subrange(start as int, s@.len() as int),
            forall|i: int| start <= i < k ==> is_digit(#[trigger] s@[i]),
            v == digits_value(s@.subrange(start as int, k as int)),
            v <= 65535,
        decreases s.len() - k,
    {
        let b = s[k];
        if !(0x30 <= b && b <= 0x39) {
            proof {
                assert(d[k - start] == b);
                assert(!is_digit(d[k - start]));
                assert(!all_digits(d));
                assert(parse_u16_spec(s@) is None);
            }
            return None;
        }
        let nv = v * 10 + ((b - 0x30) as u32);
        proof {
            lemma_digits_value_push(s@.subrange(start as int, k as int), b);
            assert(s@.subrange(start as int, k as int).push(b) =~= s@.subrange(start as int, k + 1));
        }
        if nv > 65535 {
            proof {
                if all_digits(d) {
                    lemma_digits_value_mono(d, k - start + 1);
                    assert(d.subrange(0, k - start + 1) =~= s@.subrange(start as int, k + 1));
                    assert(digits_value(d) > 65535);
                }
                assert(parse_u16_spec(s@) is None);
            }
            return None;
        }
        v = nv;
        k += 1;
    }
    proof {
        assert(s@.subrange(start as int, k as int) =~= d);
    }
    Some(v as u16)
}

/// Splits `s[lo..hi]` at its first `;`: the end of the first piece and,
/// when there is a `;`, the start of the rest.
fn split_first_exec(s: &[u8]) -> (r: (Vec<u8>, Option<Vec<u8>>))
    ensures
        r.0@ == split_first(s@).0,
        match r.1 {
            Some(rest) => split_first(s@).1 == Some(rest@),
            None => split_first(s@).1 is None,
        },
{
    match find_byte(s, 0x3b, 0) {
        Some(p) => (sub_bytes(s, 0, p), Some(sub_bytes(s, p + 1, s.len()))),
        None => {
            let all = sub_bytes(s, 0, s.len());
            proof {
                assert(all@ =~= s@);
            }
            (all, None)
        },
    }
}

/// Decides [`size_reply`].
fn size_reply_exec(params: &[u8]) -> (r: Option<(u16, u16)>)
    ensures
        r == size_reply(params@),
{
    if !is_utf8(params) {
        return None;
    }
    let (s1, r1) = split_first_exec(params);
    if !(s1.len() == 1 && s1[0] == 0x34) {
        proof {
            if s1@.len() == 1 {
                assert(!(s1@ =~= seq![0x34u8]) || s1@[0] == 0x34);
            }
        }
        return None;
    }
    proof {
        assert(s1@ =~= seq![0x34u8]);
    }
    let rest1 = match r1 {
        Some(r) => r,
        None => {
            return None;
        },
    };
    let (s2, r2) = split_first_exec(&rest1);
    let rest2 = match r2 {
        Some(r) => r,
        None => {
            return None;
        },
    };
    let (s3, _) = split_first_exec(&rest2);
    match (parse_u16(&s2), parse_u16(&s3)) {
        (Some(h), Some(w)) => Some((w, h)),
        _ => None,
    }
}

/// Parses the byte stream read back after the probe batch; see
/// [`probe_outcome`].
pub fn parse_probe(buf: &[u8]) -> (r: ProbeOutcome)
    ensures
        r == probe_outcome(buf@),
{
    let mut acc = ProbeOutcome::default();
    let mut i: usize = 0;
    let n = buf.len();
    while i < n
        invariant
            n == buf.len(),
            probe_outcome(buf@) == probe_from(buf@, i as int, acc),
        decreases n - i,
    {
        if buf[i] != 0x1b || i + 1 >= n {
            i += 1;
            continue;
        }
        if buf[i + 1] == 0x5f {
            let s = i + 2;
            let st = find_st(buf, s);
            proof {
                lemma_st_from_range(buf@, s as int);
            }
            let (end, next) = match st {
                Some(p) => (p, p + 2),
                None => (n, n),
            };
            let payload = sub_bytes(buf, s, end);
            let ok = kitty_ok_exec(&payload);
            acc = ProbeOutcome { kitty_ok: acc.kitty_ok || ok, ..acc };
            i = next;
        } else if buf[i + 1] == 0x5b {
            let s = i + 2;
            match find_final(buf, s) {
                None => {
                    return acc;
                },
                Some(p) => {
                    let params = sub_bytes(buf, s, p);
                    if buf[p] == 0x63 && params.len() > 0 && params[0] == 0x3f {
                        let attrs = sub_bytes(&params, 1, params.len());
                        proof {
                            assert(attrs@ =~= params@.drop_first());
                        }
                        let six = is_utf8(&attrs) && has_piece_4_exec(&attrs);
                        acc = ProbeOutcome { da1_seen: true, sixel: acc.sixel || six, ..acc };
                    } else if buf[p] == 0x74 {
                        match size_reply_exec(&params) {
                            Some(sz) => {
                                acc = ProbeOutcome { pixel_size: Some(sz), ..acc };
                            },
                            None => {},
                        }
                    }
                    i = p + 1;
                },
            }
        } else {
            i += 1;
        }
    }
    acc
}

/// Combines the config choice, the environment heuristic and the probe
/// outcome: explicit choices win; `auto` prefers the environment, then the
/// probe (kitty over sixel), and falls back to half-blocks.
pub fn resolve(
    choice: ImageProtocolChoice,
    env_hit: Option<GraphicsProtocol>,
    probe: Option<&ProbeOutcome>,
) -> (r: GraphicsProtocol)
    ensures
        r == match choice {
            ImageProtocolChoice::Kitty => GraphicsProtocol::Kitty,
            ImageProtocolChoice::Sixel => GraphicsProtocol::Sixel,
            ImageProtocolChoice::HalfBlock => GraphicsProtocol::HalfBlock,
            ImageProtocolChoice::Auto => match env_hit {
                Some(hit) => hit,
                None => match probe {
                    Some(p) => if p.kitty_ok {
                        GraphicsProtocol::Kitty
                    } else if p.sixel {
                        GraphicsProtocol::Sixel
                    } else {
                        GraphicsProtocol::HalfBlock
                    },
                    None => GraphicsProtocol::HalfBlock,
                },
            },
        },
{
    match choice {
        ImageProtocolChoice::Kitty => GraphicsProtocol::Kitty,
        ImageProtocolChoice::Sixel => GraphicsProtocol::Sixel,
        ImageProtocolChoice::HalfBlock => GraphicsProtocol::HalfBlock,
        ImageProtocolChoice::Auto => {
            if let Some(hit) = env_hit {
                return hit;
            }
            match probe {
                Some(p) => if p.kitty_ok {
                    GraphicsProtocol::Kitty
                } else if p.sixel {
                    GraphicsProtocol::Sixel
                } else {
                    GraphicsProtocol::HalfBlock
                },
                None => GraphicsProtocol::HalfBlock,
            }
        },
    }
}

/// Size of one character cell in pixels.
#[derive(Debug, Clone, Copy, PartialEq, Eq, Structural)]
pub struct CellGeometry {
    pub cell_w: u16,
    pub cell_h: u16,
}

/// Derives the cell size from a window size report; `None` on any zero or
/// degenerate input (a zero never reaches a division).
pub fn cell_geometry_from_winsize(cols: u16, rows: u16, xpx: u16, ypx: u16) -> (r: Option<CellGeometry>)
    ensures
        r == if cols == 0 || rows == 0 || xpx == 0 || ypx == 0 || xpx / cols == 0 || ypx / rows == 0 {
            None
        } else {
            Some(CellGeometry { cell_w: xpx / cols, cell_h: ypx / rows })
        },
{
    if cols == 0 || rows == 0 || xpx == 0 || ypx == 0 {
        return None;
    }
    let cell_w = xpx / cols;
    let cell_h = ypx / rows;
    if cell_w == 0 || cell_h == 0 {
        return None;
    }
    Some(CellGeometry { cell_w, cell_h })
}

/// The pixel box covered by a span of cells.
pub fn pixel_box(cols: u16, rows: u16, geo: CellGeometry) -> (r: (u32, u32))
    ensures
        r.0 == cols * geo.cell_w,
        r.1 == rows * geo.cell_h,
{
    assert(cols * geo.cell_w <= 65535 * 65535) by (nonlinear_arith)
        requires
            cols <= 65535,
            geo.cell_w <= 65535,
    ;
    assert(rows * geo.cell_h <= 65535 * 65535) by (nonlinear_arith)
        requires
            rows <= 65535,
            geo.cell_h <= 65535,
    ;
    ((cols as u32) * (geo.cell_w as u32), (rows as u32) * (geo.cell_h as u32))
}

/// Cells needed to cover `px` pixels (ceiling division, capped at
/// `u16::MAX`); a zero cell size yields zero cells.
pub fn cells_for(px: u32, cell_px: u16) -> (r: u16)
    ensures
        cell_px == 0 ==> r == 0,
        cell_px > 0 ==> r == if (px + cell_px - 1) / (cell_px as int) > 65535 {
            65535
        } else {
            (px + cell_px - 1) / (cell_px as int)
        },
{
    if cell_px == 0 {
        return 0;
    }
    let c = cell_px as u64;
    let p = px as u64;
    let q: u64 = p / c + if p % c != 0 { 1 } else { 0 };
    assert(q == (p + c - 1) / (c as int)) by (nonlinear_arith)
        requires
            c > 0,
            q == p / c + if p % c != 0 { 1int } else { 0int },
    ;
    if q > 65535 { 65535 } else { q as u16 }
}

} // verus!
