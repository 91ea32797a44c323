//! In-session undo/redo stack.
//!
//! Every reversible file operation maps to a [`Transaction`] of atomic
//! [`FsChange`]s. The stack decides what to undo or redo and where the
//! transaction goes afterwards; the application applies the changes to the
//! filesystem between [`UndoStack::begin_undo`] and [`UndoStack::finish_undo`]
//! (or the redo pair) and reports back.

use vstd::prelude::*;
use crate::text::copy_string;

verus! {

/// An item in the freedesktop trash, carried through as it is.
#[verifier::external_type_specification]
#[verifier::external_body]
pub struct ExTrashItem(trash::TrashItem);

/// An atomic, reversible filesystem change.
#[derive(Debug)]
pub enum FsChange {
    /// A path was created (mkdir/touch/zip/tar). Undo deletes it.
    Create { path: String, is_dir: bool },
    /// A path moved from `from` to `to` (rename/move). `to` is the reached path.
    Move { from: String, to: String },
    /// `from` was copied to `to`. Undo deletes `to`; `from` is untouched.
    Copy { from: String, to: String },
    /// A file moved to the freedesktop trash. Undo restores it to `original`.
    Trash { item: trash::TrashItem, original: String },
}

/// One user action's worth of changes: the unit of undo and redo.
#[derive(Debug)]
pub struct Transaction {
    pub label: String,
    pub changes: Vec<FsChange>,
    pub redoable: bool,
}

impl Transaction {
    /// An empty, redoable transaction.
    pub fn new(label: String) -> (r: Self)
        ensures
            r.label@ == label@,
            r.changes@.len() == 0,
            r.redoable,
    {
        Transaction { label, changes: Vec::new(), redoable: true }
    }

    pub fn push(&mut self, change: FsChange)
        ensures
            final(self).changes@ == old(self).changes@.push(change),
            final(self).label == old(self).label,
            final(self).redoable == old(self).redoable,
    {
        self.changes.push(change);
    }

    pub fn is_empty(&self) -> (r: bool)
        ensures
            r == (self.changes@.len() == 0),
    {
        self.changes.len() == 0
    }

    /// Marks the transaction as undoable but not redoable (zip/tar: the
    /// content cannot be replayed).
    pub fn no_redo(self) -> (r: Self)
        ensures
            r.label == self.label,
            r.changes == self.changes,
            !r.redoable,
    {
        Transaction { redoable: false, ..self }
    }
}

/// An entry of the undo stack.
pub enum UndoEntry {
    Tx(Transaction),
    /// Nothing below this point can be undone.
    Barrier { reason: String },
}

/// The outcome of a single undo or redo, for user feedback.
#[derive(Debug, Clone, PartialEq, Eq)]
pub enum UndoOutcome {
    Done(String),
    Empty,
    Blocked(String),
    Failed(String),
}

/// What an undo or redo starts with.
pub enum UndoStart {
    /// Nothing to undo or redo.
    Empty,
    /// A barrier stops the undo; its reason.
    Blocked(String),
    /// Apply this transaction, then report back.
    Apply(Transaction),
}

/// The undo stack and the redo stack.
pub struct UndoStack {
    undo: Vec<UndoEntry>,
    redo: Vec<Transaction>,
}

/// The undo entries after `tx` is recorded: an empty transaction is not.
pub open spec fn recorded(u: Seq<UndoEntry>, tx: Transaction) -> Seq<UndoEntry> {
    if tx.changes@.len() == 0 {
        u
    } else {
        u.push(UndoEntry::Tx(tx))
    }
}

/// The redo stack after a finished undo of `tx`: it is kept for redo only
/// if it is redoable.
pub open spec fn redo_after_undo(r: Seq<Transaction>, tx: Transaction) -> Seq<Transaction> {
    if tx.redoable {
        r.push(tx)
    } else {
        r
    }
}

/// Undoing the top transaction and redoing it puts both stacks back as they
/// were; a failed undo puts the transaction back where it was taken from.
pub proof fn law_undo_then_redo_restores(u: Seq<UndoEntry>, r: Seq<Transaction>, tx: Transaction)
    requires
        u.len() > 0,
        u.last() == UndoEntry::Tx(tx),
    ensures
        u.drop_last().push(UndoEntry::Tx(tx)) == u,
        tx.redoable ==> redo_after_undo(r, tx).len() > 0 && redo_after_undo(r, tx).last() == tx
            && redo_after_undo(r, tx).drop_last() == r,
        !tx.redoable ==> redo_after_undo(r, tx) == r,
{
    assert(u.drop_last().push(UndoEntry::Tx(tx)) =~= u);
    if tx.redoable {
        assert(r.push(tx).drop_last() =~= r);
    }
}

/// `f` undid each change of `changes` from index `k` on.
pub open spec fn undone_from<F: Fn(&FsChange) -> Result<(), String>>(f: F, changes: Seq<FsChange>, k: int) -> bool {
    forall|j: int| k <= j < changes.len() ==> #[trigger] f.ensures((&changes[j],), Ok::<(), String>(()))
}

/// `f` redid each change of `old` before index `k`, `new[j]` being what the
/// `j`-th change became.
pub open spec fn redone_upto<F: Fn(&FsChange) -> Result<FsChange, String>>(
    f: F,
    old: Seq<FsChange>,
    new: Seq<FsChange>,
    k: int,
) -> bool {
    forall|j: int| 0 <= j < k ==> #[trigger] f.ensures((&old[j],), Ok::<FsChange, String>(new[j]))
}

/// Undoing `changes` with `f`, last first, stopped with `msg`: some change
/// failed with it after every later one had been undone.
pub open spec fn undo_failed<F: Fn(&FsChange) -> Result<(), String>>(f: F, changes: Seq<FsChange>, msg: String) -> bool {
    exists|k: int|
        0 <= k < changes.len() && undone_from(f, changes, k + 1) && #[trigger] f.ensures(
            (&changes[k],),
            Err::<(), String>(msg),
        )
}

/// Redoing `old` with `f`, first first, stopped with `msg` and left the
/// changes `new`: some change failed with it after every earlier one had
/// been redone, and it and the later ones are as they were.
pub open spec fn redo_failed<F: Fn(&FsChange) -> Result<FsChange, String>>(
    f: F,
    old: Seq<FsChange>,
    new: Seq<FsChange>,
    msg: String,
) -> bool {
    exists|k: int|
        0 <= k < old.len() && new.len() == old.len() && redone_upto(f, old, new, k) && new.subrange(k, old.len() as int)
            == old.subrange(k, old.len() as int) && #[trigger] f.ensures((&old[k],), Err::<FsChange, String>(msg))
}

impl UndoStack {
    pub closed spec fn undo_entries(&self) -> Seq<UndoEntry> {
        self.undo@
    }

    pub closed spec fn redo_entries(&self) -> Seq<Transaction> {
        self.redo@
    }

    /// Both stacks empty.
    pub fn new() -> (r: Self)
        ensures
            r.undo_entries() == Seq::<UndoEntry>::empty(),
            r.redo_entries() == Seq::<Transaction>::empty(),
    {
        UndoStack { undo: Vec::new(), redo: Vec::new() }
    }

    /// Records a new action: it clears the redo stack and goes on top of the
    /// undo stack; an empty transaction changes nothing.
    pub fn record(&mut self, tx: Transaction)
        ensures
            final(self).undo_entries() == recorded(old(self).undo_entries(), tx),
            tx.changes@.len() == 0 ==> final(self).redo_entries() == old(self).redo_entries(),
            tx.changes@.len() > 0 ==> final(self).redo_entries() == Seq::<Transaction>::empty(),
    {
        if tx.is_empty() {
            return;
        }
        self.redo.clear();
        self.undo.push(UndoEntry::Tx(tx));
    }

    /// Records an irreversible action: undo stops here, redo is cleared.
    pub fn barrier(&mut self, reason: String)
        ensures
            final(self).undo_entries() == old(self).undo_entries().push(UndoEntry::Barrier { reason }),
            final(self).redo_entries() == Seq::<Transaction>::empty(),
    {
        self.redo.clear();
        self.undo.push(UndoEntry::Barrier { reason });
    }

    pub fn undo_depth(&self) -> (r: usize)
        ensures
            r == self.undo_entries().len(),
    {
        self.undo.len()
    }

    pub fn redo_depth(&self) -> (r: usize)
        ensures
            r == self.redo_entries().len(),
    {
        self.redo.len()
    }

    /// Starts an undo: an empty stack gives `Empty`, a barrier on top gives
    /// `Blocked` with its reason and stays; otherwise the top transaction is
    /// taken off to be undone, its changes in reverse order.
    pub fn begin_undo(&mut self) -> (r: UndoStart)
        ensures
            final(self).redo_entries() == old(self).redo_entries(),
            old(self).undo_entries().len() == 0 ==> r is Empty && final(self).undo_entries()
                == old(self).undo_entries(),
            old(self).undo_entries().len() > 0 ==> match old(self).undo_entries().last() {
                UndoEntry::Barrier { reason } => final(self).undo_entries() == old(self).undo_entries()
                    && (r matches UndoStart::Blocked(m) && m@ == reason@),
                UndoEntry::Tx(tx) => final(self).undo_entries() == old(self).undo_entries().drop_last()
                    && r == UndoStart::Apply(tx),
            },
    {
        let n = self.undo.len();
        if n == 0 {
            return UndoStart::Empty;
        }
        if let UndoEntry::Barrier { reason } = &self.undo[n - 1] {
            return UndoStart::Blocked(copy_string(reason));
        }
        match self.undo.pop() {
            Some(UndoEntry::Tx(tx)) => UndoStart::Apply(tx),
            Some(UndoEntry::Barrier { reason }) => UndoStart::Blocked(reason),
            None => UndoStart::Empty,
        }
    }

    /// Ends an undo whose changes were all undone: the transaction moves to
    /// the redo stack if it is redoable.
    pub fn finish_undo(&mut self, tx: Transaction) -> (r: UndoOutcome)
        ensures
            final(self).undo_entries() == old(self).undo_entries(),
            final(self).redo_entries() == redo_after_undo(old(self).redo_entries(), tx),
            r matches UndoOutcome::Done(l) && l@ == tx.label@,
    {
        let label = copy_string(&tx.label);
        if tx.redoable {
            self.redo.push(tx);
        }
        UndoOutcome::Done(label)
    }

    /// Ends an undo that failed with `msg`: the transaction goes back on top
    /// of the undo stack.
    pub fn fail_undo(&mut self, tx: Transaction, msg: String) -> (r: UndoOutcome)
        ensures
            final(self).undo_entries() == old(self).undo_entries().push(UndoEntry::Tx(tx)),
            final(self).redo_entries() == old(self).redo_entries(),
            r == UndoOutcome::Failed(msg),
    {
        self.undo.push(UndoEntry::Tx(tx));
        UndoOutcome::Failed(msg)
    }

    /// Starts a redo: the top of the redo stack is taken off to be redone,
    /// its changes in order; an empty redo stack gives `Empty`.
    pub fn begin_redo(&mut self) -> (r: UndoStart)
        ensures
            final(self).undo_entries() == old(self).undo_entries(),
            old(self).redo_entries().len() == 0 ==> r is Empty && final(self).redo_entries()
                == old(self).redo_entries(),
            old(self).redo_entries().len() > 0 ==> final(self).redo_entries() == old(self).redo_entries().drop_last()
                && r == UndoStart::Apply(old(self).redo_entries().last()),
    {
        match self.redo.pop() {
            Some(tx) => UndoStart::Apply(tx),
            None => UndoStart::Empty,
        }
    }

    /// Ends a redo whose changes were all applied: the transaction goes back
    /// on top of the undo stack.
    pub fn finish_redo(&mut self, tx: Transaction) -> (r: UndoOutcome)
        ensures
            final(self).undo_entries() == old(self).undo_entries().push(UndoEntry::Tx(tx)),
            final(self).redo_entries() == old(self).redo_entries(),
            r matches UndoOutcome::Done(l) && l@ == tx.label@,
    {
        let label = copy_string(&tx.label);
        self.undo.push(UndoEntry::Tx(tx));
        UndoOutcome::Done(label)
    }

    /// Ends a redo that failed with `msg`: the transaction goes back on top
    /// of the redo stack.
    pub fn fail_redo(&mut self, tx: Transaction, msg: String) -> (r: UndoOutcome)
        ensures
            final(self).undo_entries() == old(self).undo_entries(),
            final(self).redo_entries() == old(self).redo_entries().push(tx),
            r == UndoOutcome::Failed(msg),
    {
        self.redo.push(tx);
        UndoOutcome::Failed(msg)
    }

    /// Undoes the latest transaction by applying `undo_change` to its changes,
    /// last change first, and stops at the first that fails: then the
    /// transaction stays on top of the undo stack and the outcome is
    /// `Failed` with that change's message. An empty stack gives `Empty`, a
    /// barrier on top `Blocked` with its reason; both leave the stacks as
    /// they are. When every change was undone the outcome is `Done` with the
    /// label, and the transaction moves to the redo stack if it is redoable.
    #[verifier::loop_isolation(false)]
    pub fn undo(&mut self, undo_change: impl Fn(&FsChange) -> Result<(), String>) -> (r: UndoOutcome)
        requires
            forall|c: &FsChange| #[trigger] undo_change.requires((c,)),
        ensures
            old(self).undo_entries().len() == 0 ==> r == UndoOutcome::Empty && final(self).undo_entries() == old(self).undo_entries()
                && final(self).redo_entries() == old(self).redo_entries(),
            old(self).undo_entries().len() > 0 ==> match old(self).undo_entries().last() {
                UndoEntry::Barrier { reason } => final(self).undo_entries() == old(self).undo_entries()
                    && final(self).redo_entries() == old(self).redo_entries() && (r matches UndoOutcome::Blocked(m)
                    && m@ == reason@),
                UndoEntry::Tx(tx) => match r {
                    UndoOutcome::Done(l) => {
                        &&& l@ == tx.label@
                        &&& undone_from(undo_change, tx.changes@, 0)
                        &&& final(self).undo_entries() == old(self).undo_entries().drop_last()
                        &&& final(self).redo_entries() == redo_after_undo(old(self).redo_entries(), tx)
                    },
                    UndoOutcome::Failed(msg) => {
                        &&& undo_failed(undo_change, tx.changes@, msg)
                        &&& final(self).undo_entries() == old(self).undo_entries()
                        &&& final(self).redo_entries() == old(self).redo_entries()
                    },
                    _ => false,
                },
            },
    {
        let ghost before = *self;
        match self.begin_undo() {
            UndoStart::Empty => {
                assert(self.undo@ =~= before.undo@);
                UndoOutcome::Empty
            },
            UndoStart::Blocked(reason) => UndoOutcome::Blocked(reason),
            UndoStart::Apply(tx) => {
                let n = tx.changes.len();
                let mut i = n;
                while i > 0
                    invariant
                        i <= n,
                        n == tx.changes@.len(),
                        forall|c: &FsChange| #[trigger] undo_change.requires((c,)),
                        undone_from(undo_change, tx.changes@, i as int),
                        self.undo@ == before.undo@.drop_last(),
                        self.redo@ == before.redo@,
                        before.undo@.len() > 0,
                        before.undo@.last() == UndoEntry::Tx(tx),
                    decreases i,
                {
                    i = i - 1;
                    let res = undo_change(&tx.changes[i]);
                    assert(undo_change.ensures((&tx.changes@[i as int],), res));
                    match res {
                        Ok(u) => {
                            assert(res == Ok::<(), String>(()));
                        },
                        Err(msg) => {
                            assert(undone_from(undo_change, tx.changes@, i + 1));
                            assert(undo_change.ensures((&tx.changes@[i as int],), Err::<(), String>(msg)));
                            assert(undo_failed(undo_change, tx.changes@, msg));
                            let r = self.fail_undo(tx, msg);
                            assert(self.undo@ =~= before.undo@);
                            return r;
                        },
                    }
                }
                self.finish_undo(tx)
            },
        }
    }

    /// Redoes the latest undone transaction by applying `redo_change` to its
    /// changes, first change first; each change becomes what `redo_change`
    /// gives back for it (re-trashing finds a new trash entry). At the first
    /// change that fails the transaction goes back on top of the redo stack,
    /// the changes before it as they became, and the outcome is `Failed`
    /// with its message. An empty redo stack gives `Empty` and changes
    /// nothing. When every change was redone the outcome is `Done` with the
    /// label and the transaction goes back on top of the undo stack.
    #[verifier::loop_isolation(false)]
    pub fn redo(&mut self, redo_change: impl Fn(&FsChange) -> Result<FsChange, String>) -> (r: UndoOutcome)
        requires
            forall|c: &FsChange| #[trigger] redo_change.requires((c,)),
        ensures
            old(self).redo_entries().len() == 0 ==> r == UndoOutcome::Empty && final(self).undo_entries() == old(self).undo_entries()
                && final(self).redo_entries() == old(self).redo_entries(),
            old(self).redo_entries().len() > 0 ==> {
                let tx = old(self).redo_entries().last();
                let n = tx.changes@.len();
                match r {
                    UndoOutcome::Done(l) => {
                        &&& l@ == tx.label@
                        &&& final(self).redo_entries() == old(self).redo_entries().drop_last()
                        &&& final(self).undo_entries().len() == old(self).undo_entries().len() + 1
                        &&& final(self).undo_entries().drop_last() == old(self).undo_entries()
                        &&& final(self).undo_entries().last() matches UndoEntry::Tx(t) && t.label == tx.label
                            && t.redoable == tx.redoable && t.changes@.len() == n && redone_upto(
                            redo_change,
                            tx.changes@,
                            t.changes@,
                            n as int,
                        )
                    },
                    UndoOutcome::Failed(msg) => {
                        &&& final(self).undo_entries() == old(self).undo_entries()
                        &&& final(self).redo_entries().len() == old(self).redo_entries().len()
                        &&& final(self).redo_entries().drop_last() == old(self).redo_entries().drop_last()
                        &&& final(self).redo_entries().last().label == tx.label
                        &&& final(self).redo_entries().last().redoable == tx.redoable
                        &&& redo_failed(redo_change, tx.changes@, final(self).redo_entries().last().changes@, msg)
                    },
                    _ => false,
                }
            },
    {
        let ghost before = *self;
        match self.begin_redo() {
            UndoStart::Apply(tx) => {
                let ghost old_changes = tx.changes@;
                let Transaction { label, changes, redoable } = tx;
                let n = changes.len();
                let mut rev: Vec<FsChange> = Vec::new();
                let mut rest = changes;
                while rest.len() > 0
                    invariant
                        rev@.len() + rest@.len() == n,
                        rest@ == old_changes.take(rest@.len() as int),
                        forall|j: int| 0 <= j < rev@.len() ==> #[trigger] rev@[j] == old_changes[n - 1 - j],
                        n == old_changes.len(),
                    decreases rest@.len(),
                {
                    let c = rest.pop().unwrap();
                    rev.push(c);
                }
                let mut done: Vec<FsChange> = Vec::new();
                while rev.len() > 0
                    invariant
                        rev@.len() + done@.len() == n,
                        n == old_changes.len(),
                        forall|j: int| 0 <= j < rev@.len() ==> #[trigger] rev@[j] == old_changes[n - 1 - j],
                        forall|c: &FsChange| #[trigger] redo_change.requires((c,)),
                        redone_upto(redo_change, old_changes, done@, done@.len() as int),
                        self.undo@ == before.undo@,
                        self.redo@ == before.redo@.drop_last(),
                        before.redo@.len() > 0,
                        before.redo@.last().changes@ == old_changes,
                        before.redo@.last().label == label,
                        before.redo@.last().redoable == redoable,
                    decreases rev@.len(),
                {
                    let k = done.len();
                    let ghost kept = done@;
                    let c = rev.pop().unwrap();
                    assert(c == old_changes[k as int]);
                    let res = redo_change(&c);
                    assert(redo_change.ensures((&old_changes[k as int],), res));
                    match res {
                        Ok(nc) => {
                            done.push(nc);
                        },
                        Err(msg) => {
                            assert(redo_change.ensures((&old_changes[k as int],), Err::<FsChange, String>(msg)));
                            done.push(c);
                            while rev.len() > 0
                                invariant
                                    rev@.len() + done@.len() == n,
                                    n == old_changes.len(),
                                    k < done@.len(),
                                    kept.len() == k,
                                    redone_upto(redo_change, old_changes, kept, k as int),
                                    forall|j: int| 0 <= j < rev@.len() ==> #[trigger] rev@[j] == old_changes[n - 1 - j],
                                    forall|j: int| 0 <= j < k ==> #[trigger] done@[j] == kept[j],
                                    forall|j: int| k <= j < done@.len() ==> #[trigger] done@[j] == old_changes[j],
                                decreases rev@.len(),
                            {
                                let c2 = rev.pop().unwrap();
                                done.push(c2);
                            }
                            assert(done@.subrange(k as int, n as int) =~= old_changes.subrange(k as int, n as int));
                            assert(redone_upto(redo_change, old_changes, done@, k as int)) by {
                                assert forall|j: int| 0 <= j < k implies #[trigger] redo_change.ensures(
                                    (&old_changes[j],),
                                    Ok::<FsChange, String>(done@[j]),
                                ) by {
                                    assert(done@[j] == kept[j]);
                                }
                            }
                            assert(redo_failed(redo_change, old_changes, done@, msg));
                            let tx = Transaction { label, changes: done, redoable };
                            let r = self.fail_redo(tx, msg);
                            assert(self.redo@.drop_last() =~= before.redo@.drop_last());
                            return r;
                        },
                    }
                }
                let tx = Transaction { label, changes: done, redoable };
                let r = self.finish_redo(tx);
                assert(self.undo@.drop_last() =~= before.undo@);
                r
            },
            _ => {
                assert(self.redo@ =~= before.redo@);
                UndoOutcome::Empty
            },
        }
    }
}

} // verus!
