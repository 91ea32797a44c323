//! Small text utilities: fixed-width names and destination names for copy
//! and move.

use vstd::prelude::*;
use crate::directory::{file_name_of, path_file_name};
use crate::text::{chars_of, string_of};

verus! {

/// The UTF-8 length of a character.
pub open spec fn utf8_width(c: char) -> nat {
    if (c as u32) < 0x80 {
        1
    } else if (c as u32) < 0x800 {
        2
    } else if (c as u32) < 0x10000 {
        3
    } else {
        4
    }
}

/// How many leading characters of `s[i..]` fit in `budget` UTF-8 bytes.
pub open spec fn chars_fitting(s: Seq<char>, i: int, budget: int) -> int
    decreases s.len() - i,
{
    if i < 0 || i >= s.len() || utf8_width(s[i]) > budget {
        0
    } else {
        1 + chars_fitting(s, i + 1, budget - utf8_width(s[i]))
    }
}

/// `s` padded with spaces to `len` characters.
pub open spec fn padded(s: Seq<char>, len: int) -> Seq<char> {
    if s.len() < len {
        s + Seq::new((len - s.len()) as nat, |k: int| ' ')
    } else {
        s
    }
}

/// `s` in exactly `len` columns: padded with spaces when shorter; when
/// longer, cut to the longest prefix of at most `len` UTF-8 bytes, its last
/// character replaced by `~`.
pub open spec fn exact_width_of(s: Seq<char>, len: int) -> Seq<char> {
    let p = padded(s, len);
    if p.len() > len {
        let q = p.take(chars_fitting(p, 0, len));
        (if q.len() > 0 {
            q.drop_last()
        } else {
            q
        }).push('~')
    } else {
        p
    }
}

proof fn lemma_chars_fitting_bounds(s: Seq<char>, i: int, budget: int)
    requires
        0 <= i <= s.len(),
    ensures
        0 <= chars_fitting(s, i, budget) <= s.len() - i,
    decreases s.len() - i,
{
    if i < s.len() && utf8_width(s[i]) <= budget {
        lemma_chars_fitting_bounds(s, i + 1, budget - utf8_width(s[i]));
    }
}

proof fn lemma_ascii_fitting(s: Seq<char>, i: int, budget: int)
    requires
        0 <= i <= s.len(),
        budget >= 0,
        forall|k: int| 0 <= k < s.len() ==> (#[trigger] s[k] as u32) < 0x80,
    ensures
        chars_fitting(s, i, budget) == (if budget < s.len() - i {
            budget
        } else {
            s.len() - i
        }),
    decreases s.len() - i,
{
    if i < s.len() && budget >= 1 {
        assert((s[i] as u32) < 0x80);
        lemma_ascii_fitting(s, i + 1, budget - 1);
    }
}

/// For plain ASCII text the result fills exactly the `len` columns asked
/// for.
pub proof fn law_exact_width_fills_the_columns(s: Seq<char>, len: int)
    requires
        len > 0,
        forall|k: int| 0 <= k < s.len() ==> (#[trigger] s[k] as u32) < 0x80,
    ensures
        exact_width_of(s, len).len() == len,
{
    let p = padded(s, len);
    if p.len() > len {
        assert(p == s);
        lemma_ascii_fitting(p, 0, len);
    }
}

pub(crate) fn width_of(c: char) -> (r: u64)
    ensures
        r == utf8_width(c),
{
    let v = c as u32;
    if v < 0x80 {
        1
    } else if v < 0x800 {
        2
    } else if v < 0x10000 {
        3
    } else {
        4
    }
}

/// Fits text into an exact number of columns (see [`exact_width_of`]).
pub trait ExactWidth {
    fn exact_width(&self, len: usize) -> String;
}

impl ExactWidth for String {
    fn exact_width(&self, len: usize) -> (r: String)
        ensures
            r@ == exact_width_of(self@, len as int),
    {
        exact_width(self.as_str(), len)
    }
}

/// `s` in exactly `len` columns; see [`exact_width_of`].
pub fn exact_width(s: &str, len: usize) -> (r: String)
    ensures
        r@ == exact_width_of(s@, len as int),
{
    let mut p = chars_of(s);
    let ghost orig = p@;
    if p.len() < len {
        let mut k = p.len();
        while k < len
            invariant
                orig.len() <= k <= len,
                p@ == orig + Seq::new((k - orig.len()) as nat, |j: int| ' '),
            decreases len - k,
        {
            p.push(' ');
            k += 1;
            assert(p@ =~= orig + Seq::new((k - orig.len()) as nat, |j: int| ' '));
        }
    }
    assert(p@ =~= padded(s@, len as int));
    if p.len() <= len {
        return string_of(p.as_slice());
    }
    let ghost pp = p@;
    let mut n: usize = 0;
    let mut budget: u64 = len as u64;
    while n < p.len() && width_of(p[n]) <= budget
        invariant
            pp == p@,
            n <= p@.len(),
            budget <= len,
            chars_fitting(pp, 0, len as int) == n + chars_fitting(pp, n as int, budget as int),
        decreases p@.len() - n,
    {
        budget = budget - width_of(p[n]);
        n += 1;
    }
    proof {
        lemma_chars_fitting_bounds(pp, 0, len as int);
    }
    p.truncate(n);
    if p.len() > 0 {
        p.pop();
    }
    p.push('~');
    string_of(p.as_slice())
}

/// `Path::join` of a relative name: `name` alone under an empty directory,
/// otherwise joined with exactly one `/`.
pub open spec fn joined(dir: Seq<char>, name: Seq<char>) -> Seq<char> {
    if dir.len() == 0 {
        name
    } else if dir.last() == '/' {
        dir + name
    } else {
        dir.push('/') + name
    }
}

pub(crate) fn join_name(dir: &[char], name: &[char]) -> (r: String)
    ensures
        r@ == joined(dir@, name@),
{
    let mut out: Vec<char> = Vec::new();
    let mut i: usize = 0;
    while i < dir.len()
        invariant
            i <= dir@.len(),
            out@ == dir@.subrange(0, i as int),
        decreases dir@.len() - i,
    {
        out.push(dir[i]);
        i += 1;
        assert(out@ =~= dir@.subrange(0, i as int));
    }
    assert(out@ =~= dir@);
    if dir.len() > 0 && dir[dir.len() - 1] != '/' {
        out.push('/');
    }
    let ghost head = out@;
    let mut j: usize = 0;
    while j < name.len()
        invariant
            j <= name@.len(),
            out@ == head + name@.subrange(0, j as int),
        decreases name@.len() - j,
    {
        out.push(name[j]);
        j += 1;
        assert(out@ =~= head + name@.subrange(0, j as int));
    }
    assert(name@.subrange(0, j as int) =~= name@);
    string_of(out.as_slice())
}

/// The search for a free destination when copying or moving `source` into
/// the directory `destination`: the candidate is the source's file name in
/// that directory, and every time it turns out to be taken an underscore is
/// appended to the name.
pub struct DestinationSearch {
    dir: Vec<char>,
    name: Vec<char>,
}

impl DestinationSearch {
    pub closed spec fn spec_dir(&self) -> Seq<char> {
        self.dir@
    }

    pub closed spec fn spec_name(&self) -> Seq<char> {
        self.name@
    }

    /// Starts with the source's file name (empty when it has none).
    pub fn new(source: &str, destination: &str) -> (r: Self)
        ensures
            r.spec_dir() == destination@,
            r.spec_name() == path_file_name(source@),
    {
        let name = file_name_of(source);
        DestinationSearch { dir: chars_of(destination), name: chars_of(name.as_str()) }
    }

    /// The current candidate path.
    pub fn candidate(&self) -> (r: String)
        ensures
            r@ == joined(self.spec_dir(), self.spec_name()),
    {
        join_name(self.dir.as_slice(), self.name.as_slice())
    }

    /// The candidate is taken: try the name with one more underscore.
    pub fn taken(&mut self)
        ensures
            final(self).spec_dir() == old(self).spec_dir(),
            final(self).spec_name() == old(self).spec_name().push('_'),
    {
        self.name.push('_');
    }
}

/// A character that passes unquoted in a shell word.
pub open spec fn shell_plain(c: char) -> bool {
    ||| ('a' <= c && c <= 'z')
    ||| ('A' <= c && c <= 'Z')
    ||| ('0' <= c && c <= '9')
    ||| c == '-' || c == '_' || c == '=' || c == '/' || c == ',' || c == '.' || c == '+'
}

/// The inside of a single-quoted shell word for `s`: a quote or an
/// exclamation mark closes the quoting, is escaped, and reopens it.
pub open spec fn quoted_body(s: Seq<char>) -> Seq<char>
    decreases s.len(),
{
    if s.len() == 0 {
        Seq::empty()
    } else {
        let c = s[0];
        (if c == '\'' || c == '!' {
            seq!['\'', '\\', c, '\'']
        } else {
            seq![c]
        }) + quoted_body(s.drop_first())
    }
}

/// `s` as one shell word: as it is when non-empty and made of plain
/// characters only, else single-quoted.
pub open spec fn shell_escaped(s: Seq<char>) -> Seq<char> {
    if s.len() > 0 && forall|i: int| 0 <= i < s.len() ==> shell_plain(#[trigger] s[i]) {
        s
    } else {
        seq!['\''] + quoted_body(s) + seq!['\'']
    }
}

/// `shell_escape::escape`, which on Unix is `shell_escape::unix::escape`
/// (see [`shell_escaped`]).
#[verifier::external_body]
fn shell_escape(s: &str) -> (r: String)
    ensures
        r@ == shell_escaped(s@),
{
    shell_escape::escape(std::borrow::Cow::Borrowed(s)).into_owned()
}

/// The parts joined with `sep` between them.
pub open spec fn interspersed(parts: Seq<Seq<char>>, sep: Seq<char>) -> Seq<char>
    decreases parts.len(),
{
    if parts.len() == 0 {
        Seq::empty()
    } else if parts.len() == 1 {
        parts[0]
    } else {
        interspersed(parts.drop_last(), sep) + sep + parts.last()
    }
}

/// `h` with every `$@`, from left to right, replaced by `with`
/// (`str::replace`).
pub open spec fn with_paths(h: Seq<char>, with: Seq<char>) -> Seq<char>
    decreases h.len(),
{
    if h.len() == 0 {
        Seq::empty()
    } else if h.len() >= 2 && h[0] == '$' && h[1] == '@' {
        with + with_paths(h.subrange(2, h.len() as int), with)
    } else {
        seq![h[0]] + with_paths(h.drop_first(), with)
    }
}

/// The shell words of `paths`.
pub open spec fn escaped_all(paths: Seq<String>) -> Seq<Seq<char>> {
    paths.map_values(|p: String| shell_escaped(p@))
}

fn push_str_chars(out: &mut Vec<char>, s: &str)
    ensures
        final(out)@ == old(out)@ + s@,
{
    let c = chars_of(s);
    let ghost head = out@;
    let mut i: usize = 0;
    while i < c.len()
        invariant
            i <= c@.len(),
            c@ == s@,
            out@ == head + c@.subrange(0, i as int),
        decreases c@.len() - i,
    {
        out.push(c[i]);
        i += 1;
        assert(out@ =~= head + c@.subrange(0, i as int));
    }
    assert(c@.subrange(0, i as int) =~= c@);
}

/// Expands a command template: every `$@` becomes the shell-escaped
/// `paths`, joined with `separator`.
pub fn expand_command(cmd: &str, paths: &Vec<String>, separator: &str) -> (r: String)
    ensures
        r@ == with_paths(cmd@, interspersed(escaped_all(paths@), separator@)),
{
    let ghost parts = escaped_all(paths@);
    let mut joined_paths: Vec<char> = Vec::new();
    let mut k: usize = 0;
    while k < paths.len()
        invariant
            parts == escaped_all(paths@),
            k <= paths@.len(),
            joined_paths@ == interspersed(parts.take(k as int), separator@),
        decreases paths@.len() - k,
    {
        assert(parts.take(k + 1).drop_last() =~= parts.take(k as int));
        if k > 0 {
            push_str_chars(&mut joined_paths, separator);
        }
        let e = shell_escape(paths[k].as_str());
        push_str_chars(&mut joined_paths, e.as_str());
        proof {
            if k == 0 {
                assert(joined_paths@ =~= parts.take(1)[0]);
            }
        }
        k += 1;
    }
    assert(parts.take(k as int) =~= parts);
    let ghost w = joined_paths@;
    let c = chars_of(cmd);
    let n = c.len();
    let mut out: Vec<char> = Vec::new();
    let mut i: usize = 0;
    assert(c@.subrange(0, n as int) =~= c@);
    assert(out@ + c@ =~= c@);
    while i < n
        invariant
            n == c@.len(),
            c@ == cmd@,
            w == joined_paths@,
            i <= n,
            out@ + with_paths(c@.subrange(i as int, n as int), w) == with_paths(c@, w),
        decreases n - i,
    {
        let ghost t = c@.subrange(i as int, n as int);
        if i + 1 < n && c[i] == '$' && c[i + 1] == '@' {
            assert(t.subrange(2, t.len() as int) =~= c@.subrange(i + 2, n as int));
            let ghost before = out@;
            let mut j: usize = 0;
            while j < joined_paths.len()
                invariant
                    j <= joined_paths@.len(),
                    out@ == before + joined_paths@.subrange(0, j as int),
                decreases joined_paths@.len() - j,
            {
                out.push(joined_paths[j]);
                j += 1;
                assert(out@ =~= before + joined_paths@.subrange(0, j as int));
            }
            assert(joined_paths@.subrange(0, j as int) =~= joined_paths@);
            assert(out@ + with_paths(c@.subrange(i + 2, n as int), w) =~= before + with_paths(t, w));
            i += 2;
        } else {
            assert(t.drop_first() =~= c@.subrange(i + 1, n as int));
            let ghost before = out@;
            out.push(c[i]);
            assert(out@ + with_paths(c@.subrange(i + 1, n as int), w) =~= before + with_paths(t, w));
            i += 1;
        }
    }
    assert(c@.subrange(0, n as int) =~= c@);
    assert(c@.subrange(n as int, n as int) =~= Seq::<char>::empty());
    string_of(out.as_slice())
}

} // verus!
