//! A list of tabs with one of them in focus: the focus follows its tab as tabs are added,
//! removed and moved.
use vstd::prelude::*;

verus! {

/// Tabs in order, and the place of the tab in focus (meaningless while there are none).
#[derive(Debug)]
pub struct TabList<T> {
    tabs: Vec<T>,
    focused: usize,
}

/// The number of tabs before `limit` that `keep` drops.
pub open spec fn dropped_before(keep: Seq<bool>, limit: int) -> nat
    decreases limit,
{
    if limit <= 0 || keep.len() == 0 {
        0
    } else if limit > keep.len() {
        dropped_before(keep, keep.len() as int)
    } else {
        dropped_before(keep, limit - 1) + if keep[limit - 1] {
            0nat
        } else {
            1nat
        }
    }
}

/// The tabs that `keep` keeps, in order.
pub open spec fn kept<T>(tabs: Seq<T>, keep: Seq<bool>) -> Seq<T>
    decreases tabs.len(),
{
    if tabs.len() == 0 {
        tabs
    } else {
        let rest = kept(tabs.drop_last(), keep);
        if keep[tabs.len() - 1] {
            rest.push(tabs.last())
        } else {
            rest
        }
    }
}

/// At most as many are dropped before a limit as there are places before it.
proof fn lemma_dropped_before_bound(keep: Seq<bool>, limit: int)
    requires
        0 <= limit <= keep.len(),
    ensures
        dropped_before(keep, limit) <= limit,
    decreases limit,
{
    if limit > 0 {
        lemma_dropped_before_bound(keep, limit - 1);
    }
}

impl<T> TabList<T> {
    /// The tabs, in order.
    pub closed spec fn tabs_view(&self) -> Seq<T> {
        self.tabs@
    }

    /// The place of the tab in focus.
    pub closed spec fn focus_index(&self) -> int {
        self.focused as int
    }

    /// An empty list.
    pub fn new() -> (r: TabList<T>)
        ensures
            r.tabs_view() == Seq::<T>::empty(),
            r.focus_index() == 0,
    {
        TabList { tabs: Vec::new(), focused: 0 }
    }

    /// A list of `tabs`, with the first in focus.
    pub fn with_tabs(tabs: Vec<T>) -> (r: TabList<T>)
        ensures
            r.tabs_view() == tabs@,
            r.focus_index() == 0,
    {
        TabList { tabs, focused: 0 }
    }

    /// The number of tabs.
    pub fn len(&self) -> (r: usize)
        ensures
            r == self.tabs_view().len(),
    {
        self.tabs.len()
    }

    /// There are no tabs.
    pub fn is_empty(&self) -> (r: bool)
        ensures
            r == (self.tabs_view().len() == 0),
    {
        self.tabs.len() == 0
    }

    /// The tabs, in order.
    pub fn tabs(&self) -> (r: &[T])
        ensures
            r@ == self.tabs_view(),
    {
        self.tabs.as_slice()
    }

    /// The place of the tab in focus.
    pub fn focused_index(&self) -> (r: usize)
        ensures
            r == self.focus_index(),
    {
        self.focused
    }

    /// The tab in focus; none if there are no tabs. The focus must lie on a tab when
    /// there are some.
    pub fn focused_tab(&self) -> (r: Option<&T>)
        requires
            self.tabs_view().len() == 0 || self.focus_index() < self.tabs_view().len(),
        ensures
            self.tabs_view().len() == 0 ==> r is None,
            self.tabs_view().len() > 0 ==> r == Some(&self.tabs_view()[self.focus_index()]),
    {
        if self.tabs.len() == 0 {
            None
        } else {
            Some(&self.tabs[self.focused])
        }
    }

    /// Moves the focus to tab `tab`; an error, and no change, if there is no such tab.
    pub fn focus(&mut self, tab: usize) -> (r: Result<(), ()>)
        ensures
            final(self).tabs_view() == old(self).tabs_view(),
            tab < old(self).tabs_view().len() ==> r is Ok && final(self).focus_index() == tab,
            tab >= old(self).tabs_view().len() ==> r is Err && final(self).focus_index() == old(self).focus_index(),
    {
        if tab < self.tabs.len() {
            self.focused = tab;
            Ok(())
        } else {
            Err(())
        }
    }

    /// Adds a tab at the end; the focus stays.
    pub fn push(&mut self, tab: T)
        ensures
            final(self).tabs_view() == old(self).tabs_view().push(tab),
            final(self).focus_index() == old(self).focus_index(),
    {
        self.tabs.push(tab);
    }

    /// Removes the last tab and returns it; when the focus was on it, the focus moves to
    /// the tab before. Removing the only tab while it is in focus is not possible.
    pub fn pop(&mut self) -> (r: Option<T>)
        requires
            !(old(self).tabs_view().len() == 1 && old(self).focus_index() == 0),
        ensures
            old(self).tabs_view().len() == 0 ==> r is None && final(self).tabs_view() == old(self).tabs_view() && final(self).focus_index() == old(self).focus_index(),
            old(self).tabs_view().len() > 0 ==> r == Some(old(self).tabs_view().last())
                && final(self).tabs_view() == old(self).tabs_view().drop_last() && final(self).focus_index() == if old(self).focus_index() == old(self).tabs_view().len() - 1 {
                old(self).focus_index() - 1
            } else {
                old(self).focus_index()
            },
    {
        let popped = self.tabs.pop();
        if popped.is_some() && self.focused == self.tabs.len() {
            self.focused = self.focused - 1;
        }
        proof {
            if old(self).tabs@.len() > 0 {
                assert(self.tabs@ =~= old(self).tabs@.drop_last());
            }
        }
        popped
    }

    /// Puts a tab at place `index` (at most the number of tabs); a focus at or after that
    /// place moves one on, so it stays with its tab.
    pub fn insert(&mut self, index: usize, tab: T)
        requires
            index <= old(self).tabs_view().len(),
            old(self).focus_index() >= index ==> old(self).focus_index() < usize::MAX,
        ensures
            final(self).tabs_view() == old(self).tabs_view().insert(index as int, tab),
            final(self).focus_index() == if old(self).focus_index() >= index {
                old(self).focus_index() + 1
            } else {
                old(self).focus_index()
            },
            old(self).focus_index() < old(self).tabs_view().len() ==> final(self).tabs_view()[final(self).focus_index()] == old(self).tabs_view()[old(self).focus_index()],
    {
        if self.focused >= index {
            self.focused = self.focused + 1;
        }
        self.tabs.insert(index, tab);
    }

    /// Removes the tab at place `index` and returns it; a focus after that place moves
    /// one back, so it stays with its tab.
    pub fn remove(&mut self, index: usize) -> (r: T)
        requires
            index < old(self).tabs_view().len(),
        ensures
            r == old(self).tabs_view()[index as int],
            final(self).tabs_view() == old(self).tabs_view().remove(index as int),
            final(self).focus_index() == if old(self).focus_index() > index {
                old(self).focus_index() - 1
            } else {
                old(self).focus_index()
            },
            old(self).focus_index() < old(self).tabs_view().len() && old(self).focus_index()
                != index ==> final(self).tabs_view()[final(self).focus_index()] == old(self).tabs_view()[old(self).focus_index()],
    {
        let removed = self.tabs.remove(index);
        if self.focused > index {
            self.focused = self.focused - 1;
        }
        removed
    }

    /// Keeps the tabs whose entry in `keep` is true, in order; the focus moves back by
    /// the number of tabs dropped before it, so it stays with its tab when that is kept.
    pub fn retain(&mut self, keep: &[bool])
        requires
            keep@.len() == old(self).tabs_view().len(),
        ensures
            final(self).tabs_view() == kept(old(self).tabs_view(), keep@),
            final(self).focus_index() == old(self).focus_index() - dropped_before(
                keep@,
                old(self).focus_index(),
            ),
    {
        let ghost old_tabs = self.tabs@;
        let mut tabs: Vec<T> = Vec::new();
        std::mem::swap(&mut tabs, &mut self.tabs);
        let mut kept_tabs: Vec<T> = Vec::new();
        let mut shift: usize = 0;
        let n = tabs.len();
        let mut i: usize = 0;
        let mut rest = tabs;
        let ghost mut taken: Seq<T> = Seq::empty();
        while rest.len() > 0
            invariant
                n == old_tabs.len() == keep@.len(),
                i + rest@.len() == n,
                old_tabs == taken + rest@,
                taken.len() == i,
                kept_tabs@ == kept(taken, keep@),
                shift == dropped_before(keep@, if i < self.focused { i as int } else { self.focused as int }),
                shift <= i,
                self.focused == old(self).focused,
            decreases rest@.len(),
        {
            let tab = rest.remove(0);
            proof {
                assert(old_tabs[i as int] == tab);
                let t2 = taken.push(tab);
                assert(t2.drop_last() =~= taken);
                assert(old_tabs =~= t2 + rest@);
                taken = t2;
            }
            if i < self.focused && !keep[i] {
                shift = shift + 1;
            }
            if keep[i] {
                kept_tabs.push(tab);
            }
            proof {
                assert(kept_tabs@ == kept(taken, keep@));
            }
            i = i + 1;
        }
        proof {
            assert(taken =~= old_tabs);
            lemma_dropped_before_bound(keep@, if n < self.focused { n as int } else { self.focused as int });
            if n < self.focused {
                assert(dropped_before(keep@, self.focused as int) == dropped_before(keep@, n as int));
            }
        }
        self.tabs = kept_tabs;
        self.focused = self.focused - shift;
    }

    /// Moves the tab at `from_index` towards `to_index` by turning the tabs between them
    /// one step (towards the end: those in `from..to` turn left; towards the start: those
    /// in `to..from` turn right); the focus goes to `to_index` if it was on `from_index`,
    /// and otherwise moves with the turned tabs. An error, and no change, if either place
    /// is past the last tab.
    pub fn reorder(&mut self, from_index: usize, to_index: usize) -> (r: Result<(), ()>)
        ensures
            (from_index < old(self).tabs_view().len() && to_index < old(self).tabs_view().len())
                ==> r is Ok,
            !(from_index < old(self).tabs_view().len() && to_index < old(self).tabs_view().len())
                ==> r is Err && final(self).tabs_view() == old(self).tabs_view() && final(self).focus_index()
                == old(self).focus_index(),
            r is Ok && from_index == to_index ==> final(self).tabs_view() == old(self).tabs_view()
                && final(self).focus_index() == old(self).focus_index(),
            r is Ok && from_index < to_index ==> final(self).tabs_view() == old(self).tabs_view().remove(
                from_index as int,
            ).insert(to_index - 1, old(self).tabs_view()[from_index as int]) && final(self).focus_index()
                == if old(self).focus_index() == from_index {
                to_index as int
            } else if from_index <= old(self).focus_index() < to_index {
                old(self).focus_index() - 1
            } else {
                old(self).focus_index()
            },
            r is Ok && from_index > to_index ==> final(self).tabs_view() == old(self).tabs_view().remove(
                from_index - 1,
            ).insert(to_index as int, old(self).tabs_view()[from_index - 1]) && final(self).focus_index()
                == if old(self).focus_index() == from_index {
                to_index as int
            } else if to_index <= old(self).focus_index() < from_index {
                old(self).focus_index() + 1
            } else {
                old(self).focus_index()
            },
    {
        if from_index < self.tabs.len() && to_index < self.tabs.len() {
            if from_index < to_index {
                let moved = self.tabs.remove(from_index);
                self.tabs.insert(to_index - 1, moved);
                if self.focused == from_index {
                    self.focused = to_index;
                } else if from_index <= self.focused && self.focused < to_index {
                    self.focused = self.focused - 1;
                }
            } else if from_index > to_index {
                let moved = self.tabs.remove(from_index - 1);
                self.tabs.insert(to_index, moved);
                if self.focused == from_index {
                    self.focused = to_index;
                } else if to_index <= self.focused && self.focused < from_index {
                    self.focused = self.focused + 1;
                }
            }
            Ok(())
        } else {
            Err(())
        }
    }
}

} // verus!
