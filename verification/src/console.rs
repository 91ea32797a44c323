//! The zoxide console: typing narrows a `zoxide query`, Tab and Shift-Tab
//! cycle through its answers, and the console navigates live.
//!
//! Every key either concludes at once or asks the application to run the
//! query; the application runs `zoxide query -l <words>` and hands the
//! output back, and, when the console names a directory, checks that it
//! exists before changing to it.

use vstd::prelude::*;
use crate::directory::DirPanel;
use crate::input::{KeyCode, KeyEvent};
use crate::mode::{Cleanup, ModalRegion, ModeOp};
use crate::text::{chars_of, copy_string, owned, string_of};

verus! {

/// `char::is_ascii_whitespace`: space, tab, line feed, form feed, carriage
/// return.
pub open spec fn is_ascii_ws(c: char) -> bool {
    c == ' ' || c == '\t' || c == '\n' || c == '\x0C' || c == '\r'
}

/// The first position at or after `i` whose character is (`ws`) or is not
/// (`!ws`) whitespace, or the length.
pub open spec fn scan_ws(s: Seq<char>, i: int, ws: bool) -> int
    decreases s.len() - i,
{
    if i < 0 || i >= s.len() {
        s.len() as int
    } else if is_ascii_ws(s[i]) == ws {
        i
    } else {
        scan_ws(s, i + 1, ws)
    }
}

/// A scan from `i` ends in `i..=len`.
pub proof fn lemma_scan_ws_bounds(s: Seq<char>, i: int, ws: bool)
    requires
        0 <= i <= s.len(),
    ensures
        i <= scan_ws(s, i, ws) <= s.len(),
        scan_ws(s, i, ws) < s.len() ==> is_ascii_ws(s[scan_ws(s, i, ws)]) == ws,
    decreases s.len() - i,
{
    if i < s.len() && is_ascii_ws(s[i]) != ws {
        lemma_scan_ws_bounds(s, i + 1, ws);
    }
}

/// The words of `s[i..]`, split at ASCII whitespace, empty words skipped.
pub open spec fn words_from(s: Seq<char>, i: int) -> Seq<Seq<char>>
    decreases s.len() - i,
{
    if i < 0 || i > s.len() {
        Seq::empty()
    } else {
        let st = scan_ws(s, i, false);
        if st >= s.len() {
            Seq::empty()
        } else {
            let e = scan_ws(s, st, true);
            proof {
                lemma_scan_ws_bounds(s, i, false);
                lemma_scan_ws_bounds(s, st, true);
            }
            seq![s.subrange(st, e)] + words_from(s, e)
        }
    }
}

fn is_ws(c: char) -> (r: bool)
    ensures
        r == is_ascii_ws(c),
{
    c == ' ' || c == '\t' || c == '\n' || c == '\x0C' || c == '\r'
}

fn scan_ws_exec(s: &[char], i: usize, ws: bool) -> (r: usize)
    requires
        i <= s@.len(),
    ensures
        r == scan_ws(s@, i as int, ws),
{
    let mut j = i;
    while j < s.len() && is_ws(s[j]) != ws
        invariant
            i <= j <= s@.len(),
            scan_ws(s@, i as int, ws) == scan_ws(s@, j as int, ws),
        decreases s@.len() - j,
    {
        j += 1;
    }
    j
}

fn string_of_range(s: &[char], a: usize, b: usize) -> (r: String)
    requires
        a <= b <= s@.len(),
    ensures
        r@ == s@.subrange(a as int, b as int),
{
    let mut v: Vec<char> = Vec::new();
    let mut k = a;
    while k < b
        invariant
            a <= k <= b <= s@.len(),
            v@ == s@.subrange(a as int, k as int),
        decreases b - k,
    {
        v.push(s[k]);
        k += 1;
        assert(v@ =~= s@.subrange(a as int, k as int));
    }
    string_of(v.as_slice())
}

/// The strings of `v`.
pub open spec fn strings_of(v: Seq<String>) -> Seq<Seq<char>> {
    v.map_values(|x: String| x@)
}

/// `str::split_ascii_whitespace`: the words of `s`.
pub fn ascii_words(s: &[char]) -> (r: Vec<String>)
    ensures
        strings_of(r@) == words_from(s@, 0),
{
    let mut out: Vec<String> = Vec::new();
    let mut i: usize = 0;
    loop
        invariant
            i <= s@.len(),
            strings_of(out@) + words_from(s@, i as int) == words_from(s@, 0),
        ensures
            strings_of(out@) == words_from(s@, 0),
        decreases s@.len() - i,
    {
        let st = scan_ws_exec(s, i, false);
        proof {
            lemma_scan_ws_bounds(s@, i as int, false);
        }
        if st >= s.len() {
            assert(strings_of(out@) =~= strings_of(out@) + words_from(s@, i as int));
            break;
        }
        let e = scan_ws_exec(s, st, true);
        proof {
            lemma_scan_ws_bounds(s@, st as int, true);
        }
        let w = string_of_range(s, st, e);
        let ghost before = strings_of(out@);
        out.push(w);
        assert(strings_of(out@) =~= before.push(s@.subrange(st as int, e as int)));
        assert(strings_of(out@) + words_from(s@, e as int) =~= before + words_from(s@, i as int));
        i = e;
    }
    out
}

/// The first `\n` at or after `i`, or the length.
pub open spec fn newline_from(s: Seq<char>, i: int) -> int
    decreases s.len() - i,
{
    if i < 0 || i >= s.len() {
        s.len() as int
    } else if s[i] == '\n' {
        i
    } else {
        newline_from(s, i + 1)
    }
}

/// A newline scan from `i` ends in `i..=len`, at a `\n` when inside.
pub proof fn lemma_newline_bounds(s: Seq<char>, i: int)
    requires
        0 <= i <= s.len(),
    ensures
        i <= newline_from(s, i) <= s.len(),
        newline_from(s, i) < s.len() ==> s[newline_from(s, i)] == '\n',
    decreases s.len() - i,
{
    if i < s.len() && s[i] != '\n' {
        lemma_newline_bounds(s, i + 1);
    }
}

/// The lines of `s[i..]` as `str::lines` gives them: split after each
/// `\n`, which is dropped together with one `\r` before it; a last line
/// without `\n` is kept as it is, and a final `\n` ends no empty line.
pub open spec fn lines_from(s: Seq<char>, i: int) -> Seq<Seq<char>>
    decreases s.len() + 1 - i,
{
    if i < 0 || i >= s.len() {
        Seq::empty()
    } else {
        let nl = newline_from(s, i);
        proof {
            lemma_newline_bounds(s, i);
        }
        let line = if nl < s.len() {
            let l = s.subrange(i, nl);
            if l.len() > 0 && l.last() == '\r' {
                l.drop_last()
            } else {
                l
            }
        } else {
            s.subrange(i, s.len() as int)
        };
        seq![line] + lines_from(s, nl + 1)
    }
}

/// `str::lines`: the lines of `text`.
pub fn split_lines(text: &str) -> (r: Vec<String>)
    ensures
        strings_of(r@) == lines_from(text@, 0),
{
    let s = chars_of(text);
    let n = s.len();
    let mut out: Vec<String> = Vec::new();
    let mut i: usize = 0;
    if n == 0 {
        assert(strings_of(out@) =~= lines_from(s@, 0));
        return out;
    }
    loop
        invariant_except_break
            i < n,
            strings_of(out@) + lines_from(s@, i as int) == lines_from(s@, 0),
        invariant
            s@ == text@,
            n == s@.len(),
        ensures
            strings_of(out@) == lines_from(s@, 0),
        decreases n - i,
    {
        let mut nl = i;
        while nl < n && s[nl] != '\n'
            invariant
                i <= nl <= n,
                n == s@.len(),
                newline_from(s@, i as int) == newline_from(s@, nl as int),
            decreases n - nl,
        {
            nl += 1;
        }
        proof {
            lemma_newline_bounds(s@, i as int);
        }
        let end = if nl < n && nl > i && s[nl - 1] == '\r' {
            nl - 1
        } else {
            nl
        };
        proof {
            let l = s@.subrange(i as int, nl as int);
            if nl < n && nl > i {
                assert(l.last() == s@[nl - 1]);
                if s@[nl - 1] == '\r' {
                    assert(l.drop_last() =~= s@.subrange(i as int, end as int));
                }
            }
        }
        let line = string_of_range(s.as_slice(), i, end);
        let ghost before = strings_of(out@);
        out.push(line);
        assert(strings_of(out@) =~= before.push(lines_from(s@, i as int)[0]));
        assert(strings_of(out@) + lines_from(s@, nl + 1) =~= before + lines_from(s@, i as int));
        if nl >= n - 1 {
            assert(strings_of(out@) =~= strings_of(out@) + lines_from(s@, nl + 1));
            break;
        }
        i = nl + 1;
    }
    out
}

/// What a key does to the console: conclude with an op, or run the query.
pub enum ZoxideStep {
    /// Apply this op; no query runs.
    Done(ModeOp),
    /// Run `zoxide query -l` with [`Zoxide::query_words`] and hand the
    /// outcome to [`Zoxide::on_query`].
    Query,
}

/// What the console makes of a query's outcome.
pub enum ZoxideAnswer {
    /// Apply this op.
    Op(ModeOp),
    /// Change to this directory if it exists and is a directory; otherwise
    /// do nothing.
    CdIfDir(String),
}

/// The zoxide console.
pub struct Zoxide {
    starting_path: String,
    input: Vec<char>,
    path: String,
    options: Vec<String>,
    opt_idx: usize,
}

/// The option shown for a cycling index: the options walked round and
/// round, `opt_idx` steps in; nothing when there are none.
pub open spec fn cycled(options: Seq<Seq<char>>, opt_idx: int) -> Seq<char> {
    if options.len() == 0 {
        Seq::empty()
    } else {
        options[opt_idx % (options.len() as int)]
    }
}

impl Zoxide {
    pub closed spec fn spec_start(&self) -> Seq<char> {
        self.starting_path@
    }

    pub closed spec fn spec_input(&self) -> Seq<char> {
        self.input@
    }

    /// The line shown under the input: the chosen directory, or an error.
    pub closed spec fn spec_path(&self) -> Seq<char> {
        self.path@
    }

    pub closed spec fn spec_options(&self) -> Seq<Seq<char>> {
        strings_of(self.options@)
    }

    pub closed spec fn spec_opt_idx(&self) -> int {
        self.opt_idx as int
    }

    /// A console starting at `starting_path` with an empty input.
    pub fn new(starting_path: String) -> (r: Self)
        ensures
            r.spec_start() == starting_path@,
            r.spec_input().len() == 0,
            r.spec_path() == seq!['.'],
            r.spec_options().len() == 0,
            r.spec_opt_idx() == 0,
    {
        let mut path: Vec<char> = Vec::new();
        path.push('.');
        let r = Zoxide {
            starting_path,
            input: Vec::new(),
            path: string_of(path.as_slice()),
            options: Vec::new(),
            opt_idx: 0,
        };
        assert(r.spec_options() =~= Seq::<Seq<char>>::empty());
        r
    }

    /// A console starting at the panel's directory.
    pub fn from_panel(panel: &DirPanel) -> (r: Self)
        ensures
            r.spec_start() == panel@.path,
            r.spec_input().len() == 0,
            r.spec_path() == seq!['.'],
            r.spec_options().len() == 0,
            r.spec_opt_idx() == 0,
    {
        Zoxide::new(owned(panel.path()))
    }

    /// The input as typed.
    pub fn input(&self) -> (r: String)
        ensures
            r@ == self.spec_input(),
    {
        string_of(self.input.as_slice())
    }

    /// The line shown under the input.
    pub fn path(&self) -> (r: String)
        ensures
            r@ == self.spec_path(),
    {
        copy_string(&self.path)
    }

    /// The words of the input, the arguments of the query after `query -l`.
    pub fn query_words(&self) -> (r: Vec<String>)
        ensures
            strings_of(r@) == words_from(self.spec_input(), 0),
    {
        ascii_words(self.input.as_slice())
    }

    /// Handles one key. Backspace that empties a non-empty input goes back
    /// to the starting directory (the path line resets to `.`); Enter exits;
    /// Esc exits back to the starting directory; a character is typed;
    /// Tab and Shift-Tab step the option index. Typing, erasing and other
    /// keys reset or keep the index as the key says and ask for a query.
    pub fn handle_key(&mut self, key_event: KeyEvent) -> (r: ZoxideStep)
        ensures
            final(self).spec_start() == old(self).spec_start(),
            final(self).spec_options() == old(self).spec_options(),
            ({
                let code = key_event.code;
                let inp = old(self).spec_input();
                if code == KeyCode::Backspace {
                    &&& final(self).spec_opt_idx() == 0
                    &&& final(self).spec_input() == (if inp.len() > 0 {
                        inp.drop_last()
                    } else {
                        inp
                    })
                    &&& if inp.len() == 1 {
                        final(self).spec_path() == seq!['.'] && (r matches ZoxideStep::Done(op) && (
                        op matches ModeOp::Cd(p) && p@ == old(self).spec_start()))
                    } else {
                        final(self).spec_path() == old(self).spec_path() && r is Query
                    }
                } else if code == KeyCode::Enter {
                    final(self).spec_input() == inp && final(self).spec_opt_idx() == old(self).spec_opt_idx()
                        && final(self).spec_path() == old(self).spec_path() && (r matches ZoxideStep::Done(op)
                        && op == (ModeOp::Exit { cleanup: Cleanup::Nothing }))
                } else if code == KeyCode::Esc {
                    final(self).spec_input() == inp && final(self).spec_opt_idx() == old(self).spec_opt_idx()
                        && final(self).spec_path() == old(self).spec_path() && (r matches ZoxideStep::Done(op)
                        && (op matches ModeOp::Exit { cleanup: Cleanup::CdTo(p) } && p@
                        == old(self).spec_start()))
                } else {
                    &&& final(self).spec_path() == old(self).spec_path()
                    &&& r is Query
                    &&& match code {
                        KeyCode::Char(c) => final(self).spec_input() == inp.push(c) && final(self).spec_opt_idx()
                            == 0,
                        KeyCode::Tab => final(self).spec_input() == inp && final(self).spec_opt_idx() == (
                        if old(self).spec_opt_idx() < usize::MAX {
                            old(self).spec_opt_idx() + 1
                        } else {
                            old(self).spec_opt_idx()
                        }),
                        KeyCode::BackTab => final(self).spec_input() == inp && final(self).spec_opt_idx() == (
                        if old(self).spec_opt_idx() > 0 {
                            old(self).spec_opt_idx() - 1
                        } else {
                            0
                        }),
                        _ => final(self).spec_input() == inp && final(self).spec_opt_idx()
                            == old(self).spec_opt_idx(),
                    }
                }
            }),
    {
        match key_event.code {
            KeyCode::Backspace => {
                self.opt_idx = 0;
                let len_before = self.input.len();
                self.input.pop();
                if self.input.len() == 0 && len_before > 0 {
                    let mut dot: Vec<char> = Vec::new();
                    dot.push('.');
                    self.path = string_of(dot.as_slice());
                    return ZoxideStep::Done(ModeOp::Cd(copy_string(&self.starting_path)));
                }
            },
            KeyCode::Enter => {
                return ZoxideStep::Done(ModeOp::Exit { cleanup: Cleanup::Nothing });
            },
            KeyCode::Esc => {
                return ZoxideStep::Done(
                    ModeOp::Exit { cleanup: Cleanup::CdTo(copy_string(&self.starting_path)) },
                );
            },
            KeyCode::Char(c) => {
                self.opt_idx = 0;
                self.input.push(c);
            },
            KeyCode::Tab => {
                if self.opt_idx < usize::MAX {
                    self.opt_idx = self.opt_idx + 1;
                }
            },
            KeyCode::BackTab => {
                if self.opt_idx > 0 {
                    self.opt_idx = self.opt_idx - 1;
                }
            },
            _ => {},
        }
        ZoxideStep::Query
    }

    /// Takes the query's outcome: the lines it printed, or why it could not
    /// run. The lines become the options; the one at the cycling index is
    /// shown and, when the application finds it is a directory, visited;
    /// no answer at all goes back to the starting directory. A query that
    /// could not run shows `failed to execute zoxide: <why>` and does
    /// nothing.
    pub fn on_query(&mut self, outcome: Result<Vec<String>, String>) -> (r: ZoxideAnswer)
        ensures
            final(self).spec_start() == old(self).spec_start(),
            final(self).spec_input() == old(self).spec_input(),
            final(self).spec_opt_idx() == old(self).spec_opt_idx(),
            match outcome {
                Ok(lines) => {
                    let chosen = cycled(strings_of(lines@), old(self).spec_opt_idx());
                    &&& final(self).spec_options() == strings_of(lines@)
                    &&& if chosen.len() > 0 {
                        final(self).spec_path() == chosen && (r matches ZoxideAnswer::CdIfDir(p) && p@
                            == chosen)
                    } else {
                        final(self).spec_path() == old(self).spec_path() && (r matches ZoxideAnswer::Op(op)
                            && (op matches ModeOp::Cd(p) && p@ == old(self).spec_start()))
                    }
                },
                Err(why) => {
                    &&& final(self).spec_options() == old(self).spec_options()
                    &&& final(self).spec_path() == seq![
                        'f',
                        'a',
                        'i',
                        'l',
                        'e',
                        'd',
                        ' ',
                        't',
                        'o',
                        ' ',
                        'e',
                        'x',
                        'e',
                        'c',
                        'u',
                        't',
                        'e',
                        ' ',
                        'z',
                        'o',
                        'x',
                        'i',
                        'd',
                        'e',
                        ':',
                        ' ',
                    ] + why@
                    &&& r matches ZoxideAnswer::Op(op) && op == ModeOp::NoOp
                },
            },
    {
        match outcome {
            Ok(lines) => {
                self.options = lines;
                let n = self.options.len();
                let chosen = if n == 0 {
                    String::new()
                } else {
                    copy_string(&self.options[self.opt_idx % n])
                };
                if !chosen.as_str().is_empty() {
                    let shown = copy_string(&chosen);
                    self.path = shown;
                    ZoxideAnswer::CdIfDir(chosen)
                } else {
                    ZoxideAnswer::Op(ModeOp::Cd(copy_string(&self.starting_path)))
                }
            },
            Err(why) => {
                let prefix = ['f', 'a', 'i', 'l', 'e', 'd', ' ', 't', 'o', ' ', 'e', 'x', 'e', 'c', 'u', 't', 'e', ' ', 'z', 'o', 'x', 'i', 'd', 'e', ':', ' '];
                let mut msg: Vec<char> = Vec::new();
                let mut k: usize = 0;
                while k < 26
                    invariant
                        k <= 26,
                        prefix@.len() == 26,
                        msg@ == prefix@.subrange(0, k as int),
                    decreases 26 - k,
                {
                    msg.push(prefix[k]);
                    k += 1;
                    assert(msg@ =~= prefix@.subrange(0, k as int));
                }
                let w = chars_of(why.as_str());
                let mut j: usize = 0;
                let ghost head = msg@;
                while j < w.len()
                    invariant
                        j <= w@.len(),
                        msg@ == head + w@.subrange(0, j as int),
                    decreases w@.len() - j,
                {
                    msg.push(w[j]);
                    j += 1;
                    assert(msg@ =~= head + w@.subrange(0, j as int));
                }
                assert(w@.subrange(0, j as int) =~= w@);
                assert(prefix@.subrange(0, 26) =~= prefix@);
                self.path = string_of(msg.as_slice());
                ZoxideAnswer::Op(ModeOp::NoOp)
            },
        }
    }

    pub fn region(&self) -> (r: ModalRegion)
        ensures
            r == ModalRegion::ConsoleOverlay,
    {
        ModalRegion::ConsoleOverlay
    }

    /// Both consoles report `console`.
    pub fn name(&self) -> (r: &'static str)
        ensures
            r@ == "console"@,
    {
        "console"
    }
}

} // verus!
