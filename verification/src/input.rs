//! Single-line text input with a cursor, as used by the footer prompts.

use vstd::prelude::*;
use crate::text::{chars_of, string_of};

verus! {

/// A key, as the modal modes see it.
#[derive(Debug, Clone, Copy, PartialEq, Eq)]
pub enum KeyCode {
    Char(char),
    Backspace,
    Delete,
    Left,
    Right,
    Up,
    Down,
    Enter,
    Esc,
    Tab,
    /// Shift-Tab.
    BackTab,
    /// Any other key (function keys, Home, End, ...).
    Other,
}

/// Modifier keys held with a key.
#[derive(Debug, Clone, Copy, PartialEq, Eq)]
pub struct KeyModifiers {
    pub shift: bool,
    pub control: bool,
}

impl KeyModifiers {
    pub fn none() -> (r: Self)
        ensures
            !r.shift && !r.control,
    {
        KeyModifiers { shift: false, control: false }
    }
}

/// A key press.
#[derive(Debug, Clone, Copy, PartialEq, Eq)]
pub struct KeyEvent {
    pub code: KeyCode,
    pub modifiers: KeyModifiers,
}

impl KeyEvent {
    pub fn new(code: KeyCode, modifiers: KeyModifiers) -> (r: Self)
        ensures
            r.code == code,
            r.modifiers == modifiers,
    {
        KeyEvent { code, modifiers }
    }
}

/// ASCII uppercase of a character; other characters are unchanged.
pub open spec fn ascii_upper(c: char) -> char {
    if 'a' <= c && c <= 'z' {
        ((c as u32) - 32) as char
    } else {
        c
    }
}

/// ASCII lowercase of a character; other characters are unchanged.
pub open spec fn ascii_lower(c: char) -> char {
    if 'A' <= c && c <= 'Z' {
        ((c as u32) + 32) as char
    } else {
        c
    }
}

/// `char::to_ascii_uppercase`.
pub fn to_ascii_upper(c: char) -> (r: char)
    ensures
        r == ascii_upper(c),
{
    if 'a' <= c && c <= 'z' {
        let b = (c as u8) - 32;
        assert(b == (c as u32) - 32);
        b as char
    } else {
        c
    }
}

/// `char::to_ascii_lowercase`.
pub fn to_ascii_lower(c: char) -> (r: char)
    ensures
        r == ascii_lower(c),
{
    if 'A' <= c && c <= 'Z' {
        let b = (c as u8) + 32;
        assert(b == (c as u32) + 32);
        b as char
    } else {
        c
    }
}

/// The content of an [`Input`]: its characters and the cursor position
/// (a character index, `0..=text.len()`).
pub struct InputView {
    pub text: Seq<char>,
    pub cursor: nat,
}

/// A single-line input field.
pub struct Input {
    input: Vec<char>,
    cursor: usize,
}

impl View for Input {
    type V = InputView;

    closed spec fn view(&self) -> InputView {
        InputView { text: self.input@, cursor: self.cursor as nat }
    }
}

pub open spec fn input_wf(v: InputView) -> bool {
    v.cursor <= v.text.len()
}

/// Last position of `.` in `s`.
pub open spec fn last_dot(s: Seq<char>, k: int) -> Option<int>
    decreases k,
{
    if k <= 0 {
        None
    } else if s[k - 1] == '.' {
        Some(k - 1)
    } else {
        last_dot(s, k - 1)
    }
}

/// Bulk delete: at the end of the text keep only the extension (from the
/// last `.`; nothing if there is none), elsewhere drop everything left of
/// the cursor. The cursor moves to the start.
pub open spec fn bulk_deleted(v: InputView) -> InputView {
    if v.cursor == v.text.len() {
        match last_dot(v.text, v.text.len() as int) {
            Some(d) => InputView { text: v.text.subrange(d, v.text.len() as int), cursor: 0 },
            None => InputView { text: Seq::empty(), cursor: 0 },
        }
    } else {
        InputView { text: v.text.subrange(v.cursor as int, v.text.len() as int), cursor: 0 }
    }
}

/// The effect of one key on an input field.
pub open spec fn input_updated(v: InputView, code: KeyCode, m: KeyModifiers) -> InputView {
    match code {
        KeyCode::Char(c) => if c == 'u' && m.control {
            bulk_deleted(v)
        } else {
            let ch = if m.shift {
                ascii_upper(c)
            } else {
                ascii_lower(c)
            };
            InputView { text: v.text.insert(v.cursor as int, ch), cursor: v.cursor + 1 }
        },
        KeyCode::Backspace => if m.shift || m.control {
            bulk_deleted(v)
        } else if v.cursor > 0 {
            InputView { text: v.text.remove(v.cursor - 1), cursor: (v.cursor - 1) as nat }
        } else {
            v
        },
        KeyCode::Delete => if v.cursor < v.text.len() {
            InputView { text: v.text.remove(v.cursor as int), ..v }
        } else {
            v
        },
        KeyCode::Left => if v.cursor > 0 {
            InputView { cursor: (v.cursor - 1) as nat, ..v }
        } else {
            v
        },
        KeyCode::Right => if v.cursor < v.text.len() {
            InputView { cursor: v.cursor + 1, ..v }
        } else {
            v
        },
        _ => v,
    }
}

impl Input {
    /// An empty input.
    pub fn empty() -> (r: Self)
        ensures
            r@.text.len() == 0,
            r@.cursor == 0,
    {
        Input { input: Vec::new(), cursor: 0 }
    }

    /// An input holding `string`, with the cursor at its end.
    pub fn from_str(string: &str) -> (r: Self)
        ensures
            r@.text == string@,
            r@.cursor == string@.len(),
    {
        let input = chars_of(string);
        let cursor = input.len();
        Input { input, cursor }
    }

    /// The text of the input.
    pub fn get(&self) -> (r: String)
        ensures
            r@ == self@.text,
    {
        string_of(self.input.as_slice())
    }

    /// Moves the cursor one character left (stays at the start).
    fn decrease_cursor(&mut self)
        requires
            input_wf(old(self)@),
        ensures
            input_wf(final(self)@),
            final(self)@.text == old(self)@.text,
            final(self)@.cursor == if old(self)@.cursor > 0 {
                (old(self)@.cursor - 1) as nat
            } else {
                0
            },
    {
        if self.cursor == 0 {
            return;
        }
        self.cursor -= 1;
    }

    /// Moves the cursor one character right, saturating at the end.
    fn increase_cursor(&mut self)
        requires
            input_wf(old(self)@),
        ensures
            input_wf(final(self)@),
            final(self)@.text == old(self)@.text,
            final(self)@.cursor == if old(self)@.cursor < old(self)@.text.len() {
                old(self)@.cursor + 1
            } else {
                old(self)@.text.len()
            },
    {
        if self.cursor < self.input.len() {
            self.cursor += 1;
        }
    }

    /// See [`bulk_deleted`].
    fn bulk_delete(&mut self)
        requires
            input_wf(old(self)@),
        ensures
            final(self)@ == bulk_deleted(old(self)@),
            input_wf(final(self)@),
    {
        let n = self.input.len();
        let ghost v = self@;
        if self.cursor == n {
            let mut k = n;
            while k > 0 && self.input[k - 1] != '.'
                invariant
                    k <= n,
                    n == self.input.len(),
                    self@ == v,
                    last_dot(v.text, n as int) == last_dot(v.text, k as int),
                decreases k,
            {
                k -= 1;
            }
            if k > 0 {
                let kept = self.input.split_off(k - 1);
                self.input = kept;
            } else {
                self.input = Vec::new();
            }
            self.cursor = 0;
            proof {
                if k > 0 {
                    assert(self@.text =~= v.text.subrange(k - 1, n as int));
                } else {
                    assert(self@.text =~= Seq::<char>::empty());
                }
            }
        } else {
            let kept = self.input.split_off(self.cursor);
            self.input = kept;
            self.cursor = 0;
            proof {
                assert(self@.text =~= v.text.subrange(v.cursor as int, n as int));
            }
        }
    }

    /// Updates the input with one key; see [`input_updated`].
    pub fn update(&mut self, key_code: KeyCode, modifiers: KeyModifiers)
        requires
            input_wf(old(self)@),
        ensures
            input_wf(final(self)@),
            final(self)@ == input_updated(old(self)@, key_code, modifiers),
    {
        let ghost v = self@;
        match key_code {
            KeyCode::Char(c) => {
                if c == 'u' && modifiers.control {
                    self.bulk_delete();
                } else {
                    let ch = if modifiers.shift { to_ascii_upper(c) } else { to_ascii_lower(c) };
                    self.input.insert(self.cursor, ch);
                    self.increase_cursor();
                }
            },
            KeyCode::Backspace => {
                if modifiers.shift || modifiers.control {
                    self.bulk_delete();
                } else if self.cursor > 0 {
                    self.decrease_cursor();
                    self.input.remove(self.cursor);
                }
            },
            KeyCode::Delete => {
                if self.cursor < self.input.len() {
                    self.input.remove(self.cursor);
                }
            },
            KeyCode::Left => {
                self.decrease_cursor();
            },
            KeyCode::Right => {
                self.increase_cursor();
            },
            _ => {},
        }
    }
}

/// Backspace without modifiers deletes exactly the character before the
/// cursor: the text gets one shorter, everything before the deleted
/// character stays where it was, everything after it moves one to the
/// left, and the cursor moves one to the left. At the start it changes
/// nothing.
pub proof fn law_backspace_deletes_the_character_before_the_cursor(v: InputView, m: KeyModifiers)
    requires
        input_wf(v),
        !m.shift,
        !m.control,
    ensures
        ({
            let r = input_updated(v, KeyCode::Backspace, m);
            &&& v.cursor > 0 ==> {
                &&& r.text.len() == v.text.len() - 1
                &&& r.cursor == v.cursor - 1
                &&& forall|i: int| 0 <= i < v.cursor - 1 ==> #[trigger] r.text[i] == v.text[i]
                &&& forall|i: int| v.cursor - 1 <= i < r.text.len() ==> #[trigger] r.text[i] == v.text[i + 1]
            }
            &&& v.cursor == 0 ==> r == v
        }),
{
}

/// Delete without modifiers deletes exactly the character under the
/// cursor and keeps the cursor; at the end it changes nothing.
pub proof fn law_delete_removes_the_character_under_the_cursor(v: InputView, m: KeyModifiers)
    requires
        input_wf(v),
    ensures
        ({
            let r = input_updated(v, KeyCode::Delete, m);
            &&& v.cursor < v.text.len() ==> {
                &&& r.text.len() == v.text.len() - 1
                &&& r.cursor == v.cursor
                &&& forall|i: int| 0 <= i < v.cursor ==> #[trigger] r.text[i] == v.text[i]
                &&& forall|i: int| v.cursor <= i < r.text.len() ==> #[trigger] r.text[i] == v.text[i + 1]
            }
            &&& v.cursor == v.text.len() ==> r == v
        }),
{
}

} // verus!
