//! The navigation history of one Miller-columns stack.
//!
//! Descending into a directory remembers where the left column was and
//! what it had selected, so that going back up restores it; going up
//! remembers the directory that was left, so that descending again
//! selects it. Moving the cursor forgets the way back down; jumping
//! elsewhere forgets both.

use vstd::prelude::*;
use crate::dir_console::{path_parent, path_parent_of};
use crate::text::copy_string;

verus! {

/// The history as values: the way back up (left column's directory and
/// selection, innermost last), the way back down (innermost last) and the
/// directory before the last move.
pub struct NavView {
    pub fwd: Seq<(Seq<char>, Seq<char>)>,
    pub rev: Seq<Seq<char>>,
    pub previous: Seq<char>,
}

/// The navigation history of one stack.
pub struct NavHistory {
    fwd: Vec<(String, String)>,
    rev: Vec<String>,
    previous: String,
}

/// Where the left column goes after moving up: a remembered directory and
/// selection, or the parent of the new center (`dir` is `None` when it has
/// none) with the new center selected.
pub struct LeftTarget {
    pub dir: Option<String>,
    pub select: String,
}

pub open spec fn pairs_view(v: Seq<(String, String)>) -> Seq<(Seq<char>, Seq<char>)> {
    v.map_values(|p: (String, String)| (p.0@, p.1@))
}

pub open spec fn strs_view(v: Seq<String>) -> Seq<Seq<char>> {
    v.map_values(|s: String| s@)
}

impl View for NavHistory {
    type V = NavView;

    closed spec fn view(&self) -> NavView {
        NavView { fwd: pairs_view(self.fwd@), rev: strs_view(self.rev@), previous: self.previous@ }
    }
}

pub open spec fn opt_view(o: Option<String>) -> Option<Seq<char>> {
    match o {
        Some(s) => Some(s@),
        None => None,
    }
}

/// Descending from the center directory `center` while the left column
/// shows `left` with `left_selected` selected: the left column is
/// remembered, and the last way back down, if any, is taken (it is the
/// entry to select in the new center).
pub open spec fn descended(v: NavView, center: Seq<char>, left: Seq<char>, left_selected: Seq<char>) -> (NavView, Option<Seq<char>>) {
    let fwd = v.fwd.push((left, left_selected));
    if v.rev.len() == 0 {
        (NavView { fwd, rev: v.rev, previous: center }, None)
    } else {
        (NavView { fwd, rev: v.rev.drop_last(), previous: center }, Some(v.rev.last()))
    }
}

/// Going up from the center directory `center`, whose left column shows
/// `left`, with the preview showing the directory `right` (if any): that
/// directory becomes the way back down, and the left column goes to the
/// remembered place, or else to the parent of `left` with `left` selected.
pub open spec fn ascended(v: NavView, right: Option<Seq<char>>, center: Seq<char>, left: Seq<char>) -> (NavView, (Option<Seq<char>>, Seq<char>)) {
    let rev = match right {
        Some(r) => v.rev.push(r),
        None => v.rev,
    };
    if v.fwd.len() == 0 {
        (NavView { fwd: v.fwd, rev, previous: center }, (path_parent_of(left), left))
    } else {
        (NavView { fwd: v.fwd.drop_last(), rev, previous: center }, (Some(v.fwd.last().0), v.fwd.last().1))
    }
}

impl NavHistory {
    /// A fresh history whose previous directory is `cwd` itself.
    pub fn new(cwd: String) -> (r: Self)
        ensures
            r@ == (NavView { fwd: Seq::empty(), rev: Seq::empty(), previous: cwd@ }),
    {
        let r = NavHistory { fwd: Vec::new(), rev: Vec::new(), previous: cwd };
        assert(r@.fwd =~= Seq::<(Seq<char>, Seq<char>)>::empty());
        assert(r@.rev =~= Seq::<Seq<char>>::empty());
        r
    }

    /// The directory before the last move.
    pub fn previous(&self) -> (r: &String)
        ensures
            r@ == self@.previous,
    {
        &self.previous
    }

    /// The way back up, innermost last.
    pub fn fwd(&self) -> (r: &[(String, String)])
        ensures
            pairs_view(r@) == self@.fwd,
    {
        self.fwd.as_slice()
    }

    /// The way back down, innermost last.
    pub fn rev(&self) -> (r: &[String])
        ensures
            strs_view(r@) == self@.rev,
    {
        self.rev.as_slice()
    }

    /// The entry to select in the preview after descending: the next way
    /// back down.
    pub fn right_selection(&self) -> (r: Option<String>)
        ensures
            opt_view(r) == (if self@.rev.len() == 0 { None } else { Some(self@.rev.last()) }),
    {
        let n = self.rev.len();
        if n == 0 {
            None
        } else {
            assert(strs_view(self.rev@)[n - 1] == self.rev@[n - 1]@);
            Some(copy_string(&self.rev[n - 1]))
        }
    }

    /// The cursor moved within the center column: the way back down no
    /// longer applies.
    pub fn cursor_moved(&mut self)
        ensures
            final(self)@ == (NavView { rev: Seq::empty(), ..old(self)@ }),
    {
        self.rev.clear();
        assert(self@.rev =~= Seq::<Seq<char>>::empty());
    }

    /// Descending (see [`descended`]); returns the entry to select.
    pub fn descend(&mut self, center: String, left: String, left_selected: String) -> (r: Option<String>)
        ensures
            (final(self)@, opt_view(r)) == descended(old(self)@, center@, left@, left_selected@),
    {
        let ghost v = self@;
        self.previous = center;
        self.fwd.push((left, left_selected));
        assert(pairs_view(self.fwd@) =~= v.fwd.push((left@, left_selected@)));
        let r = self.rev.pop();
        proof {
            if v.rev.len() > 0 {
                assert(strs_view(self.rev@) =~= v.rev.drop_last());
            } else {
                assert(strs_view(self.rev@) =~= v.rev);
            }
        }
        r
    }

    /// Going up (see [`ascended`]); returns where the left column goes.
    pub fn ascend(&mut self, right: Option<String>, center: String, left: &str) -> (r: LeftTarget)
        ensures
            (final(self)@, (opt_view(r.dir), r.select@)) == ascended(old(self)@, opt_view(right), center@, left@),
    {
        let ghost v = self@;
        match right {
            Some(p) => {
                self.rev.push(p);
            },
            None => {},
        }
        assert(strs_view(self.rev@) =~= (match opt_view(right) {
            Some(r) => v.rev.push(r),
            None => v.rev,
        }));
        self.previous = center;
        match self.fwd.pop() {
            Some((dir, select)) => {
                assert(pairs_view(self.fwd@) =~= v.fwd.drop_last());
                LeftTarget { dir: Some(dir), select }
            },
            None => {
                let l = crate::text::owned(left);
                LeftTarget { dir: path_parent(left), select: l }
            },
        }
    }

    /// Jumping to `center` elsewhere: both ways are forgotten.
    pub fn jump(&mut self, center: String)
        ensures
            final(self)@ == (NavView { fwd: Seq::empty(), rev: Seq::empty(), previous: center@ }),
    {
        self.fwd.clear();
        self.rev.clear();
        self.previous = center;
        assert(self@.fwd =~= Seq::<(Seq<char>, Seq<char>)>::empty());
        assert(self@.rev =~= Seq::<Seq<char>>::empty());
    }
}

/// Going up right after descending undoes the descent: the way back up is
/// as before, and the left column returns to the directory and selection
/// it had.
pub proof fn law_ascend_undoes_descend(
    v: NavView,
    center: Seq<char>,
    left: Seq<char>,
    left_selected: Seq<char>,
    right: Option<Seq<char>>,
    center2: Seq<char>,
    left2: Seq<char>,
)
    ensures
        ({
            let (v1, _) = descended(v, center, left, left_selected);
            let (v2, target) = ascended(v1, right, center2, left2);
            v2.fwd == v.fwd && target == (Some(left), left_selected)
        }),
{
    let (v1, _) = descended(v, center, left, left_selected);
    assert(v1.fwd.drop_last() =~= v.fwd);
}

/// Descending right after going up returns to where the way up started:
/// the directory that was left is selected again, and the way back down is
/// as before.
pub proof fn law_descend_undoes_ascend(
    v: NavView,
    right: Seq<char>,
    center: Seq<char>,
    left: Seq<char>,
    center2: Seq<char>,
    left2: Seq<char>,
    left_selected2: Seq<char>,
)
    ensures
        ({
            let (v1, _) = ascended(v, Some(right), center, left);
            let (v2, sel) = descended(v1, center2, left2, left_selected2);
            v2.rev == v.rev && sel == Some(right)
        }),
{
    let (v1, _) = ascended(v, Some(right), center, left);
    assert(v1.rev.drop_last() =~= v.rev);
}

/// Every move remembers the directory it left as the previous one, so that
/// jumping to the previous directory returns there: going down from
/// `center`, going up from `center`, whether or not a way back up was
/// remembered, and jumping away.
pub proof fn law_every_move_remembers_the_directory_left(
    v: NavView,
    center: Seq<char>,
    left: Seq<char>,
    left_selected: Seq<char>,
    right: Option<Seq<char>>,
)
    ensures
        descended(v, center, left, left_selected).0.previous == center,
        ascended(v, right, center, left).0.previous == center,
        v.fwd.len() == 0 ==> ascended(v, right, center, left).0.previous == center,
        v.fwd.len() > 0 ==> ascended(v, right, center, left).0.previous == center,
{
}

/// Going down and then up again leaves the directory gone down into as the
/// previous one, not the one before.
pub proof fn law_down_then_up_remembers_the_inner_directory(
    v: NavView,
    outer: Seq<char>,
    left: Seq<char>,
    left_selected: Seq<char>,
    right: Option<Seq<char>>,
    inner: Seq<char>,
)
    ensures
        ascended(descended(v, outer, left, left_selected).0, right, inner, outer).0.previous == inner,
{
}

} // verus!
