//! The decision-flow overlay: a list of decision items, each with a prompt,
//! a few keyed choices and optionally a safe default, answered one keypress
//! per item. The answers travel back wholesale in `ModeOp::FlowResolved`;
//! the flow itself never interprets an answer.

use vstd::prelude::*;
use crate::input::{KeyCode, KeyEvent};
use crate::mode::{FlowKind, ModalRegion, ModeOp};

verus! {

/// One keyed answer option of a [`DecisionItem`].
#[derive(Debug, Clone, PartialEq, Eq)]
pub struct Choice {
    pub key: char,
    pub label: String,
}

/// One decision: a prompt, optional detail lines and 2 to 4 choices.
#[derive(Debug, Clone, PartialEq, Eq)]
pub struct DecisionItem {
    pub prompt: String,
    pub detail: Vec<String>,
    /// Between 2 and 4 choices, enforced by [`DecisionFlow::new`].
    pub choices: Vec<Choice>,
    /// Preselected choice (`Enter` accepts it); `None` means the user must answer.
    pub default: Option<usize>,
}

/// The keys of an item's choices, in order.
pub open spec fn choice_keys(item: DecisionItem) -> Seq<char> {
    item.choices@.map_values(|c: Choice| c.key)
}

/// What `DecisionFlow::new` accepts: at least one item, each with 2 to 4
/// choices, none of them keyed `'j'` or `'q'` (those navigate and close).
pub open spec fn items_ok(items: Seq<DecisionItem>) -> bool {
    &&& items.len() >= 1
    &&& forall|i: int|
        0 <= i < items.len() ==> 2 <= (#[trigger] items[i]).choices@.len() <= 4
    &&& forall|i: int, j: int|
        0 <= i < items.len() && 0 <= j < items[i].choices@.len() ==> (#[trigger] items[i].choices@[j]).key
            != 'j' && items[i].choices@[j].key != 'q'
}

/// Index of the first occurrence of `c` in `keys` at or after `i`, or -1.
pub open spec fn key_pos_from(keys: Seq<char>, c: char, i: int) -> int
    decreases keys.len() - i,
{
    if i < 0 || i >= keys.len() {
        -1
    } else if keys[i] == c {
        i
    } else {
        key_pos_from(keys, c, i + 1)
    }
}

/// Index of the first occurrence of `c` in `keys`, or -1.
pub open spec fn key_pos(keys: Seq<char>, c: char) -> int {
    key_pos_from(keys, c, 0)
}

/// The choice of the current item that `code` selects, or -1.
pub open spec fn pressed_choice(code: KeyCode, keys: Seq<char>) -> int {
    match code {
        KeyCode::Char(c) => key_pos(keys, c),
        _ => -1,
    }
}

/// The index `d` steps after `cursor`, wrapping around `n` (for `d <= n`).
pub open spec fn wrap_after(cursor: int, d: int, n: int) -> int {
    if cursor + d < n {
        cursor + d
    } else {
        cursor + d - n
    }
}

/// The first unanswered index met when walking `d, d+1, ..., n` steps
/// after `cursor` (wrapping), if any.
pub open spec fn open_after(answers: Seq<Option<usize>>, cursor: int, d: int) -> Option<int>
    decreases answers.len() + 1 - d,
{
    if d > answers.len() || d < 1 {
        None
    } else if answers[wrap_after(cursor, d, answers.len() as int)] is None {
        Some(wrap_after(cursor, d, answers.len() as int))
    } else {
        open_after(answers, cursor, d + 1)
    }
}

/// The answers with every `Some` unwrapped.
pub open spec fn unwrapped(answers: Seq<Option<usize>>) -> Seq<usize> {
    Seq::new(
        answers.len(),
        |i: int|
            match answers[i] {
                Some(x) => x,
                None => 0,
            },
    )
}

/// Every item is answered, or has a default to fall back on.
pub open spec fn all_answerable(answers: Seq<Option<usize>>, items: Seq<DecisionItem>) -> bool {
    forall|i: int| 0 <= i < answers.len() ==> #[trigger] answers[i] is Some || items[i].default is Some
}

/// Unanswered items take their default.
pub open spec fn with_defaults(answers: Seq<Option<usize>>, items: Seq<DecisionItem>) -> Seq<Option<usize>> {
    Seq::new(
        answers.len(),
        |i: int|
            if answers[i] is Some {
                answers[i]
            } else {
                items[i].default
            },
    )
}

/// `op` resolves the flow of `kind` with exactly `answers`.
pub open spec fn is_flow_resolved(op: ModeOp, kind: FlowKind, answers: Seq<usize>) -> bool {
    match op {
        ModeOp::FlowResolved { kind: k, answers: a } => k == kind && a@ == answers,
        _ => false,
    }
}

/// A flow of items answered one keypress per item.
pub struct DecisionFlow {
    kind: FlowKind,
    title: String,
    items: Vec<DecisionItem>,
    cursor: usize,
    answers: Vec<Option<usize>>,
}

/// Answering `choice` on `pre`'s current item gives `post` and `r`: the
/// answer is recorded; the cursor moves to the next unanswered item after
/// it (wrapping), or, when none is left, the flow resolves.
pub open spec fn answer_step(pre: DecisionFlow, post: DecisionFlow, choice: usize, r: ModeOp) -> bool {
    let a = pre.spec_answers().update(pre.spec_cursor(), Some(choice));
    &&& post.spec_answers() == a
    &&& match open_after(a, pre.spec_cursor(), 1) {
        Some(i) => post.spec_cursor() == i && r == ModeOp::NoOp,
        None => post.spec_cursor() == pre.spec_cursor() && is_flow_resolved(
            r,
            pre.spec_kind(),
            unwrapped(a),
        ),
    }
}

/// No item is left unanswered.
pub open spec fn all_answered(answers: Seq<Option<usize>>) -> bool {
    forall|i: int| 0 <= i < answers.len() ==> #[trigger] answers[i] is Some
}

proof fn lemma_open_after_none(answers: Seq<Option<usize>>, cursor: int, d: int)
    requires
        0 <= cursor < answers.len(),
        1 <= d,
        open_after(answers, cursor, d) is None,
    ensures
        forall|e: int|
            d <= e <= answers.len() ==> (#[trigger] answers[wrap_after(cursor, e, answers.len() as int)]) is Some,
    decreases answers.len() + 1 - d,
{
    if d <= answers.len() {
        lemma_open_after_none(answers, cursor, d + 1);
    }
}

proof fn lemma_none_open_means_all_answered(answers: Seq<Option<usize>>, cursor: int)
    requires
        0 <= cursor < answers.len(),
        open_after(answers, cursor, 1) is None,
    ensures
        all_answered(answers),
{
    lemma_open_after_none(answers, cursor, 1);
    let n = answers.len() as int;
    assert forall|i: int| 0 <= i < n implies #[trigger] answers[i] is Some by {
        let e = if i > cursor {
            i - cursor
        } else {
            i - cursor + n
        };
        assert(wrap_after(cursor, e, n) == i);
        assert(answers[wrap_after(cursor, e, n)] is Some);
    }
}

proof fn lemma_open_after_in_range(answers: Seq<Option<usize>>, cursor: int, d: int)
    requires
        0 <= cursor < answers.len(),
        1 <= d,
    ensures
        open_after(answers, cursor, d) matches Some(i) ==> 0 <= i < answers.len() && answers[i] is None,
    decreases answers.len() + 1 - d,
{
    if d <= answers.len() {
        lemma_open_after_in_range(answers, cursor, d + 1);
    }
}

/// `post` is `pre` with nothing changed.
pub open spec fn flow_unchanged(pre: DecisionFlow, post: DecisionFlow) -> bool {
    post.spec_cursor() == pre.spec_cursor() && post.spec_answers() == pre.spec_answers()
}

/// One key on the flow `pre` gives `post` and `r`. A choice key of the
/// current item answers it (choice keys win over navigation); `j`/Down and
/// `k`/Up move the cursor, clamped; Enter accepts the current item's default,
/// if any; Esc/`q` resolves with defaults for the unanswered items when
/// every one of them has a default, and aborts otherwise; any other key
/// does nothing.
pub open spec fn flow_key_step(pre: DecisionFlow, post: DecisionFlow, code: KeyCode, r: ModeOp) -> bool {
    let n = pre.spec_items().len();
    let cur = pre.spec_cursor();
    let item = pre.spec_items()[cur];
    let hit = pressed_choice(code, choice_keys(item));
    if hit >= 0 {
        answer_step(pre, post, hit as usize, r)
    } else if code == KeyCode::Char('j') || code == KeyCode::Down {
        &&& post.spec_answers() == pre.spec_answers()
        &&& post.spec_cursor() == (if cur + 1 < n {
            cur + 1
        } else {
            cur
        })
        &&& r == ModeOp::NoOp
    } else if code == KeyCode::Char('k') || code == KeyCode::Up {
        &&& post.spec_answers() == pre.spec_answers()
        &&& post.spec_cursor() == (if cur > 0 {
            cur - 1
        } else {
            0
        })
        &&& r == ModeOp::NoOp
    } else if code == KeyCode::Enter {
        match item.default {
            Some(d) => answer_step(pre, post, d, r),
            None => flow_unchanged(pre, post) && r == ModeOp::NoOp,
        }
    } else if code == KeyCode::Esc || code == KeyCode::Char('q') {
        if all_answerable(pre.spec_answers(), pre.spec_items()) {
            let filled = with_defaults(pre.spec_answers(), pre.spec_items());
            &&& post.spec_cursor() == cur
            &&& post.spec_answers() == filled
            &&& is_flow_resolved(r, pre.spec_kind(), unwrapped(filled))
        } else {
            flow_unchanged(pre, post) && r == (ModeOp::FlowAborted { kind: pre.spec_kind() })
        }
    } else {
        flow_unchanged(pre, post) && r == ModeOp::NoOp
    }
}

/// A flow resolves only once every item has an answer, and it hands back
/// exactly the answers it then holds.
pub proof fn law_resolves_only_when_complete(pre: DecisionFlow, post: DecisionFlow, code: KeyCode, r: ModeOp)
    requires
        pre.wf(),
        flow_key_step(pre, post, code, r),
        r is FlowResolved,
    ensures
        all_answered(post.spec_answers()),
        is_flow_resolved(r, pre.spec_kind(), unwrapped(post.spec_answers())),
{
    let n = pre.spec_items().len();
    let cur = pre.spec_cursor();
    let hit = pressed_choice(code, choice_keys(pre.spec_items()[cur]));
    if hit >= 0 {
        let a = pre.spec_answers().update(cur, Some(hit as usize));
        if open_after(a, cur, 1) is None {
            lemma_none_open_means_all_answered(a, cur);
        }
    } else if code == KeyCode::Enter {
        if let Some(d) = pre.spec_items()[cur].default {
            let a = pre.spec_answers().update(cur, Some(d));
            if open_after(a, cur, 1) is None {
                lemma_none_open_means_all_answered(a, cur);
            }
        }
    } else if code == KeyCode::Esc || code == KeyCode::Char('q') {
        if all_answerable(pre.spec_answers(), pre.spec_items()) {
            let filled = with_defaults(pre.spec_answers(), pre.spec_items());
            assert forall|i: int| 0 <= i < filled.len() implies #[trigger] filled[i] is Some by {
                assert(pre.spec_answers()[i] is Some || pre.spec_items()[i].default is Some);
            }
        }
    }
}

impl DecisionFlow {
    pub closed spec fn spec_kind(&self) -> FlowKind {
        self.kind
    }

    pub closed spec fn spec_title(&self) -> Seq<char> {
        self.title@
    }

    pub closed spec fn spec_items(&self) -> Seq<DecisionItem> {
        self.items@
    }

    pub closed spec fn spec_cursor(&self) -> int {
        self.cursor as int
    }

    pub closed spec fn spec_answers(&self) -> Seq<Option<usize>> {
        self.answers@
    }

    /// The flow's invariant: valid items, one answer slot per item, and the
    /// cursor on an item.
    pub closed spec fn wf(&self) -> bool {
        &&& items_ok(self.items@)
        &&& self.answers@.len() == self.items@.len()
        &&& self.cursor < self.items@.len()
    }

    /// A flow with nothing answered yet and the cursor on the first item.
    pub fn new(kind: FlowKind, title: String, items: Vec<DecisionItem>) -> (r: Self)
        requires
            items_ok(items@),
        ensures
            r.wf(),
            r.spec_kind() == kind,
            r.spec_title() == title@,
            r.spec_items() == items@,
            r.spec_cursor() == 0,
            r.spec_answers() == Seq::new(items@.len(), |i: int| None::<usize>),
    {
        let n = items.len();
        let mut answers: Vec<Option<usize>> = Vec::new();
        let mut i: usize = 0;
        while i < n
            invariant
                n == items@.len(),
                i <= n,
                answers@ == Seq::new(i as nat, |j: int| None::<usize>),
            decreases n - i,
        {
            answers.push(None);
            i = i + 1;
        }
        DecisionFlow { kind, title, items, cursor: 0, answers }
    }

    /// The item the cursor is on.
    pub fn cursor(&self) -> (r: usize)
        ensures
            r == self.spec_cursor(),
    {
        self.cursor
    }

    /// Chosen choice index per item; `None` means still unanswered.
    pub fn answers(&self) -> (r: &[Option<usize>])
        ensures
            r@ == self.spec_answers(),
    {
        self.answers.as_slice()
    }

    pub fn items(&self) -> (r: &[DecisionItem])
        ensures
            r@ == self.spec_items(),
    {
        self.items.as_slice()
    }

    /// Records `choice` for the current item, then moves to the next
    /// unanswered item (searching from the one after the cursor, wrapping);
    /// when none remains the flow resolves.
    fn answer(&mut self, choice: usize) -> (r: ModeOp)
        requires
            old(self).wf(),
        ensures
            final(self).wf(),
            final(self).spec_kind() == old(self).spec_kind(),
            final(self).spec_title() == old(self).spec_title(),
            final(self).spec_items() == old(self).spec_items(),
            answer_step(*old(self), *final(self), choice, r),
    {
        let cursor = self.cursor;
        self.answers.set(cursor, Some(choice));
        let n = self.items.len();
        let ghost a = self.answers@;
        // `k` steps taken so far; the candidate is `k + 1` steps after the cursor.
        let mut k: usize = 0;
        let mut idx: usize = if cursor + 1 < n {
            cursor + 1
        } else {
            0
        };
        while k < n
            invariant_except_break
                k <= n,
                k < n ==> idx == wrap_after(cursor as int, k + 1, n as int),
                open_after(a, cursor as int, 1) == open_after(a, cursor as int, k + 1),
            invariant
                n == self.items@.len(),
                n == a.len(),
                cursor < n,
                idx < n,
                a == self.answers@,
                self.answers@ == old(self).answers@.update(cursor as int, Some(choice)),
                self.items@ == old(self).items@,
                self.kind == old(self).kind,
                self.title@ == old(self).title@,
                self.cursor == old(self).cursor,
            ensures
                k < n ==> self.answers@[idx as int] is None && open_after(a, cursor as int, 1) == Some(
                    idx as int,
                ),
                k >= n ==> open_after(a, cursor as int, 1) is None,
            decreases n - k,
        {
            if self.answers[idx].is_none() {
                break;
            }
            k = k + 1;
            idx = if idx + 1 < n {
                idx + 1
            } else {
                0
            };
        }
        if k < n {
            self.cursor = idx;
            ModeOp::NoOp
        } else {
            proof {
                lemma_none_open_means_all_answered(a, cursor as int);
            }
            self.resolve()
        }
    }

    /// Handles one key; see [`flow_key_step`].
    pub fn handle_key(&mut self, key_event: KeyEvent) -> (r: ModeOp)
        requires
            old(self).wf(),
        ensures
            final(self).wf(),
            final(self).spec_kind() == old(self).spec_kind(),
            final(self).spec_title() == old(self).spec_title(),
            final(self).spec_items() == old(self).spec_items(),
            flow_key_step(*old(self), *final(self), key_event.code, r),
    {
        let cur = self.cursor;
        let n = self.items.len();
        if let KeyCode::Char(c) = key_event.code {
            let m = self.items[cur].choices.len();
            let ghost keys = choice_keys(self.items@[cur as int]);
            let mut i: usize = 0;
            while i < m
                invariant
                    self.wf(),
                    self.kind == old(self).kind,
                    self.title@ == old(self).title@,
                    self.items@ == old(self).items@,
                    self.answers@ == old(self).answers@,
                    self.cursor == cur,
                    cur == old(self).cursor,
                    n == self.items@.len(),
                    m == keys.len(),
                    key_event.code == KeyCode::Char(c),
                    cur < self.items@.len(),
                    keys == choice_keys(self.items@[cur as int]),
                    i <= m,
                    key_pos(keys, c) == key_pos_from(keys, c, i as int),
                decreases m - i,
            {
                if self.items[cur].choices[i].key == c {
                    assert(keys[i as int] == c);
                    assert(pressed_choice(key_event.code, keys) == i);
                    return self.answer(i);
                }
                i = i + 1;
            }
        }
        match key_event.code {
            KeyCode::Char('j') | KeyCode::Down => {
                if cur + 1 < n {
                    self.cursor = cur + 1;
                }
                ModeOp::NoOp
            },
            KeyCode::Char('k') | KeyCode::Up => {
                if cur > 0 {
                    self.cursor = cur - 1;
                }
                ModeOp::NoOp
            },
            KeyCode::Enter => match self.items[cur].default {
                Some(d) => self.answer(d),
                None => ModeOp::NoOp,
            },
            KeyCode::Esc | KeyCode::Char('q') => {
                let mut ok = true;
                let mut i: usize = 0;
                while i < n
                    invariant
                        self.wf(),
                        self.kind == old(self).kind,
                        self.title@ == old(self).title@,
                        self.items@ == old(self).items@,
                        self.answers@ == old(self).answers@,
                        self.cursor == cur,
                        n == self.items@.len(),
                        n == self.answers@.len(),
                        i <= n,
                        ok <==> forall|j: int|
                            0 <= j < i ==> #[trigger] self.answers@[j] is Some
                                || self.items@[j].default is Some,
                    decreases n - i,
                {
                    if self.answers[i].is_none() && self.items[i].default.is_none() {
                        ok = false;
                    }
                    i = i + 1;
                }
                if ok {
                    let ghost before = self.answers@;
                    let mut i: usize = 0;
                    while i < n
                        invariant
                            n == self.items@.len(),
                            n == self.answers@.len(),
                            n == before.len(),
                            i <= n,
                            self.items@ == old(self).items@,
                            self.kind == old(self).kind,
                            self.title@ == old(self).title@,
                            self.cursor == cur,
                            before == old(self).answers@,
                            forall|j: int|
                                0 <= j < i ==> #[trigger] self.answers@[j] == with_defaults(
                                    before,
                                    self.items@,
                                )[j],
                            forall|j: int| i <= j < n ==> #[trigger] self.answers@[j] == before[j],
                        decreases n - i,
                    {
                        if self.answers[i].is_none() {
                            let d = self.items[i].default;
                            self.answers.set(i, d);
                        }
                        i = i + 1;
                    }
                    assert(self.answers@ =~= with_defaults(before, self.items@));
                    self.resolve()
                } else {
                    ModeOp::FlowAborted { kind: self.kind }
                }
            },
            _ => ModeOp::NoOp,
        }
    }

    pub fn region(&self) -> (r: ModalRegion)
        ensures
            r == ModalRegion::ConsoleOverlay,
    {
        ModalRegion::ConsoleOverlay
    }

    /// The mode string.
    pub fn name(&self) -> (r: &'static str)
        ensures
            r@ == "decision-flow"@,
    {
        "decision-flow"
    }

    /// All items answered: hand the unwrapped answers back.
    fn resolve(&self) -> (r: ModeOp)
        requires
            all_answered(self.spec_answers()),
        ensures
            is_flow_resolved(r, self.spec_kind(), unwrapped(self.spec_answers())),
    {
        let mut out: Vec<usize> = Vec::new();
        let mut i: usize = 0;
        while i < self.answers.len()
            invariant
                i <= self.answers@.len(),
                all_answered(self.answers@),
                out@ == unwrapped(self.answers@).take(i as int),
            decreases self.answers@.len() - i,
        {
            match self.answers[i] {
                Some(x) => out.push(x),
                None => {},
            }
            proof {
                assert(self.answers@[i as int] is Some);
            }
            assert(out@ =~= unwrapped(self.answers@).take(i + 1));
            i = i + 1;
        }
        assert(out@ =~= unwrapped(self.answers@));
        ModeOp::FlowResolved { kind: self.kind, answers: out }
    }
}

} // verus!
