//! The mathematical model of the list: what is stored, which storage indices
//! are visible, where the cursor stands, and each change of the list as a
//! function from list to list.

use vstd::prelude::*;
use crate::actions::ActionState;
use crate::app::{next_group, GroupSelection};
use crate::list::{Deletable, Toggle};

verus! {

/// Whether the numbers of `s` rise strictly from left to right.
pub open spec fn increasing(s: Seq<int>) -> bool {
    forall|i: int, j: int| 0 <= i < j < s.len() ==> s[i] < s[j]
}

/// Where `x` stands in `s`, if it does.
pub open spec fn position(s: Seq<int>, x: int) -> Option<int> {
    if exists|k: int| 0 <= k < s.len() && s[k] == x {
        Some(choose|k: int| 0 <= k < s.len() && s[k] == x)
    } else {
        None
    }
}

/// In a strictly rising sequence a number stands at one place only.
pub proof fn lemma_position(s: Seq<int>, x: int, k: int)
    requires
        increasing(s),
        0 <= k < s.len(),
        s[k] == x,
    ensures
        position(s, x) == Some(k),
{
    let c = choose|c: int| 0 <= c < s.len() && s[c] == x;
    if c < k {
        assert(s[c] < s[k]);
    } else if k < c {
        assert(s[k] < s[c]);
    }
}

/// The numbers `0, 1, .., n - 1`.
pub open spec fn upto(n: nat) -> Seq<int> {
    Seq::new(n, |i: int| i)
}

/// The cursor after a step forward over `n` visible items: one further,
/// wrapping to the first; the first where none was set; none where nothing is
/// visible.
pub open spec fn cursor_after_next(cursor: Option<int>, n: int) -> Option<int> {
    if n <= 0 {
        None
    } else {
        match cursor {
            Some(c) => if c + 1 < n {
                Some(c + 1)
            } else {
                Some(0)
            },
            None => Some(0),
        }
    }
}

/// The cursor after a step back over `n` visible items: one back, wrapping to
/// the last; none where nothing is visible. Where none was set, the step
/// goes to the first visible item under a filter and to the last item
/// without one.
pub open spec fn cursor_after_previous(cursor: Option<int>, n: int, filtered: bool) -> Option<int> {
    if n <= 0 {
        None
    } else {
        match cursor {
            Some(c) => if c >= 1 {
                Some(c - 1)
            } else {
                Some(n - 1)
            },
            None => if filtered {
                Some(0)
            } else {
                Some(n - 1)
            },
        }
    }
}

/// Where storage index `x` ends up when the item at `gone` leaves the
/// storage: nowhere if it is that item, one lower if it stood behind it.
pub open spec fn index_after_removal(x: int, gone: int) -> Option<int> {
    if x == gone {
        None
    } else if x > gone {
        Some(x - 1)
    } else {
        Some(x)
    }
}

/// The storage indices `f` after the item at `gone` has left the storage.
pub open spec fn indices_after_removal(f: Seq<int>, gone: int) -> Seq<int>
    decreases f.len(),
{
    if f.len() == 0 {
        f
    } else {
        let front = indices_after_removal(f.drop_last(), gone);
        match index_after_removal(f.last(), gone) {
            Some(x) => front.push(x),
            None => front,
        }
    }
}

/// The mathematical model of a list.
pub struct ListView<T> {
    /// The stored items, in order of arrival.
    pub items: Seq<T>,
    /// The cursor: a position among the visible items.
    pub cursor: Option<int>,
    /// The storage indices that passed the filter, where one is applied.
    pub filter: Option<Seq<int>>,
    /// How far the scan has come.
    pub scanning: Option<ActionState>,
    /// The group selection in force, if any.
    pub group: Option<GroupSelection>,
}

impl<T> ListView<T> {
    /// The list that holds nothing.
    pub open spec fn empty() -> Self {
        ListView { items: Seq::empty(), cursor: None, filter: None, scanning: None, group: None }
    }

    /// The storage indices of the visible items, in order.
    pub open spec fn visible(self) -> Seq<int> {
        match self.filter {
            Some(f) => f,
            None => upto(self.items.len()),
        }
    }

    /// The validity of a list: the filter names stored items in rising order,
    /// and the cursor, where set, stands on a visible item.
    pub open spec fn wf(self) -> bool {
        &&& self.filter matches Some(f) ==> increasing(f) && forall|i: int|
            0 <= i < f.len() ==> 0 <= #[trigger] f[i] < self.items.len()
        &&& self.cursor matches Some(c) ==> 0 <= c < self.visible().len()
    }

    /// The storage index of the item under the cursor.
    pub open spec fn selected_index(self) -> Option<int> {
        match self.cursor {
            Some(c) => Some(self.visible()[c]),
            None => None,
        }
    }

    /// The item under the cursor.
    pub open spec fn selected(self) -> Option<T> {
        match self.selected_index() {
            Some(s) => Some(self.items[s]),
            None => None,
        }
    }

    /// The visible items, in order.
    pub open spec fn visible_items(self) -> Seq<T> {
        Seq::new(self.visible().len(), |i: int| self.items[self.visible()[i]])
    }

    /// The list after a step forward.
    pub open spec fn next(self) -> Self {
        ListView { cursor: cursor_after_next(self.cursor, self.visible().len() as int), ..self }
    }

    /// The list after a step back.
    pub open spec fn previous(self) -> Self {
        ListView {
            cursor: cursor_after_previous(
                self.cursor,
                self.visible().len() as int,
                self.filter is Some,
            ),
            ..self
        }
    }

    /// The list without a cursor.
    pub open spec fn unselected(self) -> Self {
        ListView { cursor: None, ..self }
    }

    /// The list after `item` has arrived. Under a filter the new item stays
    /// hidden until the filter is applied again.
    pub open spec fn pushed(self, item: T) -> Self {
        ListView { items: self.items.push(item), ..self }
    }

    /// The list with its scan state set.
    pub open spec fn with_scanning(self, state: Option<ActionState>) -> Self {
        ListView { scanning: state, ..self }
    }

    /// The list with its group selection set.
    pub open spec fn with_group(self, group: Option<GroupSelection>) -> Self {
        ListView { group, ..self }
    }

    /// The list with the stored item at `at` replaced; unchanged where
    /// nothing is stored at `at`.
    pub open spec fn with_item(self, at: int, item: T) -> Self {
        if 0 <= at < self.items.len() {
            ListView { items: self.items.update(at, item), ..self }
        } else {
            self
        }
    }

    /// The list under the filter that lets the storage indices `kept` pass.
    /// The cursor stays on its item if that item passes, and is cleared if
    /// not.
    pub open spec fn filtered(self, kept: Seq<int>) -> Self {
        ListView {
            filter: Some(kept),
            cursor: match self.selected_index() {
                Some(s) => position(kept, s),
                None => None,
            },
            ..self
        }
    }

    /// The list without a filter. The cursor stays on its item.
    pub open spec fn unfiltered(self) -> Self {
        ListView { filter: None, cursor: self.selected_index(), ..self }
    }

    /// The list after the stored item at `gone` has left. The cursor stays on
    /// its item, and is cleared if that item is the one that left.
    pub open spec fn removed(self, gone: int) -> Self {
        let filter = match self.filter {
            Some(f) => Some(indices_after_removal(f, gone)),
            None => None,
        };
        let items = self.items.remove(gone);
        let visible = match filter {
            Some(f) => f,
            None => upto(items.len()),
        };
        ListView {
            items,
            filter,
            cursor: match self.selected_index() {
                Some(s) => match index_after_removal(s, gone) {
                    Some(x) => position(visible, x),
                    None => None,
                },
                None => None,
            },
            ..self
        }
    }
}

impl<T: Toggle> ListView<T> {
    /// Whether some visible item carries its own flag.
    pub open spec fn any_visible_on(self) -> bool {
        exists|i: int| 0 <= i < self.visible().len() && #[trigger] self.items[self.visible()[i]].on()
    }

    /// The list after the group selection has been cycled.
    pub open spec fn group_cycled(self) -> Self {
        ListView { group: next_group(self.group, self.any_visible_on()), ..self }
    }

    /// Whether the item at storage index `i` counts as selected: by the group
    /// selection where one is in force, by its own flag otherwise.
    pub open spec fn effective_on(self, i: int) -> bool {
        match self.group {
            Some(GroupSelection::AllOn) => true,
            Some(GroupSelection::AllOff) => false,
            None => self.items[i].on(),
        }
    }
}

/// Storage indices that rose strictly and named stored items still do so
/// after one item has left the storage.
pub proof fn lemma_indices_after_removal(f: Seq<int>, gone: int, n: int)
    requires
        increasing(f),
        forall|i: int| 0 <= i < f.len() ==> 0 <= #[trigger] f[i] < n,
        0 <= gone < n,
    ensures
        increasing(indices_after_removal(f, gone)),
        forall|i: int|
            0 <= i < indices_after_removal(f, gone).len() ==> 0 <= #[trigger] indices_after_removal(
                f,
                gone,
            )[i] < n - 1,
        indices_after_removal(f, gone).len() > 0 ==> indices_after_removal(f, gone).last() <= f.last()
            && (f.last() >= gone ==> indices_after_removal(f, gone).last() < f.last()),
        indices_after_removal(f, gone).len() <= f.len(),
    decreases f.len(),
{
    if f.len() > 0 {
        let front = f.drop_last();
        assert forall|i: int, j: int| 0 <= i < j < front.len() implies front[i] < front[j] by {
            assert(f[i] < f[j]);
        }
        assert forall|i: int| 0 <= i < front.len() implies 0 <= #[trigger] front[i] < n by {
            assert(front[i] == f[i]);
        }
        lemma_indices_after_removal(front, gone, n);
        let r = indices_after_removal(f, gone);
        let rf = indices_after_removal(front, gone);
        if front.len() > 0 {
            assert(front.last() == f[f.len() - 2]);
            assert(f[f.len() - 2] < f[f.len() - 1]);
        }
        assert(f.last() == f[f.len() - 1]);
        assert forall|i: int, j: int| 0 <= i < j < r.len() implies r[i] < r[j] by {
            if j < rf.len() {
                assert(rf[i] < rf[j]);
            } else {
                assert(rf.len() > 0);
                assert(rf[i] <= rf[rf.len() - 1]) by {
                    if i < rf.len() - 1 {
                        assert(rf[i] < rf[rf.len() - 1]);
                    }
                }
            }
        }
    }
}

impl<T: Toggle + Deletable> ListView<T> {
    /// Whether the stored item at `i`, were it visible, is to be removed on
    /// the next commit: it is idle, and it counts as selected.
    pub open spec fn due(self, i: int) -> bool {
        match self.group {
            Some(GroupSelection::AllOn) => self.items[i].idle(),
            Some(GroupSelection::AllOff) => false,
            None => self.items[i].deletable(),
        }
    }

    /// Those of the storage indices `among` whose items are due.
    pub open spec fn due_among(self, among: Seq<int>) -> Seq<int>
        decreases among.len(),
    {
        if among.len() == 0 {
            among
        } else if self.due(among.last()) {
            self.due_among(among.drop_last()).push(among.last())
        } else {
            self.due_among(among.drop_last())
        }
    }

    /// The storage indices of the items to remove on the next commit: the
    /// visible items that are due, in order.
    pub open spec fn to_delete(self) -> Seq<int> {
        self.due_among(self.visible())
    }

    /// What `due_among` picks comes from `among` and is due, and every due
    /// index of `among` is picked.
    pub proof fn lemma_due_among(self, among: Seq<int>)
        ensures
            self.due_among(among).len() <= among.len(),
            forall|x: int| #[trigger]
                self.due_among(among).contains(x) ==> among.contains(x) && self.due(x),
            forall|x: int| #[trigger]
                among.contains(x) && self.due(x) ==> self.due_among(among).contains(x),
        decreases among.len(),
    {
        if among.len() > 0 {
            let front = among.drop_last();
            self.lemma_due_among(front);
            let d = self.due_among(among);
            let df = self.due_among(front);
            assert forall|x: int| d.contains(x) implies among.contains(x) && self.due(x) by {
                let i = choose|i: int| 0 <= i < d.len() && d[i] == x;
                if i < df.len() {
                    assert(df[i] == x);
                    assert(df.contains(x));
                    assert(front.contains(x));
                    let j = choose|j: int| 0 <= j < front.len() && front[j] == x;
                    assert(among[j] == x);
                } else {
                    assert(among[among.len() - 1] == x);
                }
            }
            assert forall|x: int| among.contains(x) && self.due(x) implies d.contains(x) by {
                let i = choose|i: int| 0 <= i < among.len() && among[i] == x;
                if i < front.len() {
                    assert(front[i] == x);
                    assert(front.contains(x));
                    assert(df.contains(x));
                    let j = choose|j: int| 0 <= j < df.len() && df[j] == x;
                    assert(d[j] == x);
                } else {
                    assert(d[d.len() - 1] == x);
                }
            }
        }
    }
}

} // verus!
