//! The cursor in a list, the part of the list that is shown, and the items that are
//! marked.
use std::collections::HashSet;
use vstd::prelude::*;

verus! {

pub struct SelectionState {
    /// Where the cursor is.
    pub index: usize,
    /// The first item that is shown.
    pub offset: usize,
    pub selected_indices: HashSet<usize>,
}

pub struct SelectionView {
    pub index: int,
    pub offset: int,
    pub selected: Set<usize>,
}

impl View for SelectionState {
    type V = SelectionView;

    open spec fn view(&self) -> SelectionView {
        SelectionView {
            index: self.index as int,
            offset: self.offset as int,
            selected: self.selected_indices@,
        }
    }
}

impl SelectionView {
    /// The offset moved so that the cursor is shown; a page of size 0 has no lower edge.
    pub open spec fn in_sight(self, page_size: int) -> SelectionView {
        if self.index < self.offset {
            SelectionView { offset: self.index, ..self }
        } else if page_size > 0 && self.index >= self.offset + page_size {
            SelectionView { offset: self.index - (page_size - 1), ..self }
        } else {
            self
        }
    }

    /// The cursor `n` further down, but not behind the last of `max` items.
    pub open spec fn moved_down(self, n: int, max: int, page_size: int) -> SelectionView {
        if max == 0 {
            self
        } else {
            SelectionView {
                index: if self.index + n < max - 1 {
                    self.index + n
                } else {
                    max - 1
                },
                ..self
            }.in_sight(page_size)
        }
    }

    /// The cursor `n` further up.
    pub open spec fn moved_up(self, n: int) -> SelectionView {
        SelectionView {
            index: if self.index > n {
                self.index - n
            } else {
                0
            },
            ..self
        }.in_sight(0)
    }

    pub open spec fn at_top(self) -> SelectionView {
        SelectionView { index: 0, offset: 0, ..self }
    }

    pub open spec fn at_bottom(self, max: int, page_size: int) -> SelectionView {
        if max == 0 {
            self
        } else if max - 1 >= self.offset + page_size {
            SelectionView {
                index: max - 1,
                offset: if max > page_size {
                    max - page_size
                } else {
                    0
                },
                ..self
            }
        } else {
            SelectionView { index: max - 1, ..self }
        }
    }

    /// The mark on the item at the cursor set or taken off.
    pub open spec fn toggled(self) -> SelectionView {
        SelectionView {
            selected: if self.selected.contains(self.index as usize) {
                self.selected.remove(self.index as usize)
            } else {
                self.selected.insert(self.index as usize)
            },
            ..self
        }
    }

    pub open spec fn all_selected(self, max: int) -> SelectionView {
        SelectionView { selected: Set::new(|i: usize| i < max), ..self }
    }

    pub open spec fn none_selected(self) -> SelectionView {
        SelectionView { selected: Set::empty(), ..self }
    }

    /// The cursor brought back to the last of `max` items where it is behind it.
    pub open spec fn within(self, max: int) -> SelectionView {
        if self.index >= max {
            SelectionView {
                index: if max > 0 {
                    max - 1
                } else {
                    0
                },
                ..self
            }
        } else {
            self
        }
    }
}

impl SelectionState {
    pub fn new() -> (r: SelectionState)
        ensures
            r@ == (SelectionView { index: 0, offset: 0, selected: Set::empty() }),
    {
        SelectionState { index: 0, offset: 0, selected_indices: HashSet::new() }
    }

    /// One item down.
    pub fn next(&mut self, max: usize, page_size: usize)
        ensures
            final(self)@ == old(self)@.moved_down(1, max as int, page_size as int),
    {
        if max == 0 {
            return;
        }
        self.index = if self.index < max - 1 {
            self.index + 1
        } else {
            max - 1
        };
        self.adjust_offset(page_size);
    }

    /// One item up.
    pub fn previous(&mut self)
        ensures
            final(self)@ == old(self)@.moved_up(1),
    {
        self.index = if self.index > 1 {
            self.index - 1
        } else {
            0
        };
        self.adjust_offset(0);
    }

    pub fn top(&mut self)
        ensures
            final(self)@ == old(self)@.at_top(),
    {
        self.index = 0;
        self.offset = 0;
    }

    pub fn bottom(&mut self, max: usize, page_size: usize)
        ensures
            final(self)@ == old(self)@.at_bottom(max as int, page_size as int),
    {
        if max == 0 {
            return;
        }
        self.index = max - 1;
        if self.index >= self.offset && self.index - self.offset >= page_size {
            self.offset = if max > page_size {
                max - page_size
            } else {
                0
            };
        }
    }

    /// One page down.
    pub fn page_down(&mut self, max: usize, page_size: usize)
        ensures
            final(self)@ == old(self)@.moved_down(page_size as int, max as int, page_size as int),
    {
        if max == 0 {
            return;
        }
        self.index = if self.index < max - 1 && page_size < max - 1 - self.index {
            self.index + page_size
        } else {
            max - 1
        };
        self.adjust_offset(page_size);
    }

    /// Ten items up.
    pub fn page_up(&mut self)
        ensures
            final(self)@ == old(self)@.moved_up(10),
    {
        self.index = if self.index > 10 {
            self.index - 10
        } else {
            0
        };
        self.adjust_offset(0);
    }

    /// Moves the part that is shown so that the cursor is in it.
    pub fn adjust_offset(&mut self, page_size: usize)
        ensures
            final(self)@ == old(self)@.in_sight(page_size as int),
    {
        if self.index < self.offset {
            self.offset = self.index;
        } else if page_size > 0 && self.index - self.offset >= page_size {
            self.offset = self.index - (page_size - 1);
        }
    }

    /// Whether an item is marked.
    pub fn is_selected(&self, i: usize) -> (r: bool)
        ensures
            r == self@.selected.contains(i),
    {
        broadcast use vstd::std_specs::hash::group_hash_axioms;

        self.selected_indices.contains(&i)
    }

    /// The number of marked items.
    pub fn selected_count(&self) -> (r: usize)
        ensures
            r == self@.selected.len(),
    {
        broadcast use vstd::std_specs::hash::group_hash_axioms;

        self.selected_indices.len()
    }

    /// Sets or takes off the mark at the cursor.
    pub fn toggle_selection(&mut self)
        ensures
            final(self)@ == old(self)@.toggled(),
    {
        broadcast use vstd::std_specs::hash::group_hash_axioms;

        if self.selected_indices.contains(&self.index) {
            self.selected_indices.remove(&self.index);
        } else {
            self.selected_indices.insert(self.index);
        }
    }

    /// Marks all of `max` items.
    pub fn select_all(&mut self, max: usize)
        ensures
            final(self)@ == old(self)@.all_selected(max as int),
    {
        broadcast use vstd::std_specs::hash::group_hash_axioms;

        let mut marks: HashSet<usize> = HashSet::new();
        let mut i: usize = 0;
        assert(marks@ =~= Set::new(|k: usize| k < 0));
        while i < max
            invariant
                i <= max,
                marks@ == Set::new(|k: usize| k < i),
            decreases max - i,
        {
            marks.insert(i);
            assert(marks@ =~= Set::new(|k: usize| k < i + 1));
            i += 1;
        }
        self.selected_indices = marks;
        assert(self.selected_indices@ =~= Set::new(|k: usize| k < max as int));
    }

    /// Takes off all marks.
    pub fn deselect_all(&mut self)
        ensures
            final(self)@ == old(self)@.none_selected(),
    {
        self.selected_indices = HashSet::new();
    }

    /// Brings the cursor back into a list of `max` items.
    pub fn clamp_to(&mut self, max: usize)
        ensures
            final(self)@ == old(self)@.within(max as int),
    {
        if self.index >= max {
            self.index = if max > 0 {
                max - 1
            } else {
                0
            };
        }
    }
}

/// Moving down in a list keeps the cursor on an item, and on the page that is shown where
/// it was on it.
pub proof fn moving_down_stays_in_the_list(s: SelectionView, n: int, max: int, page_size: int)
    requires
        0 <= s.index,
        0 <= s.offset,
        0 <= n,
        0 < max,
        0 < page_size,
    ensures
        0 <= s.moved_down(n, max, page_size).index < max,
        s.moved_down(n, max, page_size).offset <= s.moved_down(n, max, page_size).index,
        s.moved_down(n, max, page_size).index < s.moved_down(n, max, page_size).offset + page_size,
{
}

/// Moving up keeps the cursor in the list, and never below the top of what is shown.
pub proof fn moving_up_stays_in_the_list(s: SelectionView, n: int, max: int)
    requires
        0 <= s.index < max,
        0 <= s.offset,
        0 <= n,
    ensures
        0 <= s.moved_up(n).index < max,
        s.moved_up(n).offset <= s.moved_up(n).index,
{
}

/// Marking an item twice leaves the marks as they were.
pub proof fn toggling_twice_changes_nothing(s: SelectionView)
    ensures
        s.toggled().toggled() == s,
{
    assert(s.toggled().toggled().selected =~= s.selected);
}

/// Law: as long as the list goes on, moving moves by what was asked, and moving down and up
/// again by the same leads back. At an edge the cursor stays on the first or the last item.
pub proof fn moving_moves_by_what_was_asked(s: SelectionView, n: int, max: int, page_size: int)
    requires
        0 <= s.index < max,
        0 <= n,
    ensures
        s.index + n < max ==> s.moved_down(n, max, page_size).index == s.index + n,
        s.index + n >= max ==> s.moved_down(n, max, page_size).index == max - 1,
        s.index - n >= 0 ==> s.moved_up(n).index == s.index - n,
        s.index - n < 0 ==> s.moved_up(n).index == 0,
        s.index + n < max ==> s.moved_down(n, max, page_size).moved_up(n).index == s.index,
        s.at_top().index == 0 && s.at_top().offset == 0,
        s.at_bottom(max, page_size).index == max - 1,
        s.moved_down(n, max, page_size).selected == s.selected,
        s.moved_up(n).selected == s.selected,
        s.at_top().selected == s.selected,
        s.at_bottom(max, page_size).selected == s.selected,
{
}

/// Law: to mark an item changes the mark of the item at the cursor and of no other. To mark all
/// marks each item of the list, and to mark none takes every mark off.
pub proof fn marks_are_where_they_were_set(s: SelectionView, max: int, i: usize)
    requires
        0 <= s.index <= usize::MAX,
    ensures
        i == s.index ==> (s.toggled().selected.contains(i) <==> !s.selected.contains(i)),
        i != s.index ==> (s.toggled().selected.contains(i) <==> s.selected.contains(i)),
        s.toggled().index == s.index,
        s.all_selected(max).selected.contains(i) <==> i < max,
        !s.none_selected().selected.contains(i),
        s.all_selected(max).index == s.index,
        s.none_selected().index == s.index,
{
}

/// Law: the cursor stays where it is as long as there is an item there, and goes to the last
/// one otherwise.
pub proof fn cursor_is_brought_back(s: SelectionView, max: int)
    requires
        0 <= s.index,
        0 <= max,
    ensures
        s.index < max ==> s.within(max) == s,
        s.index >= max && max > 0 ==> s.within(max).index == max - 1,
        max == 0 ==> s.within(max).index == 0,
        s.within(max).selected == s.selected,
{
}

} // verus!
