//! The list of discovered items: what is stored, what is visible under the
//! filter, where the cursor stands and which group selection is in force.

use vstd::prelude::*;
use crate::actions::ActionState;
use crate::app::{cycle_group, next_group, GroupSelection};
use crate::list_model::{
    increasing, indices_after_removal, lemma_indices_after_removal, lemma_position, upto, ListView,
};

verus! {

/// Something with an on/off flag.
pub trait Toggle: Sized {
    /// Whether the flag is on.
    spec fn on(&self) -> bool;

    /// The value after its flag has been toggled.
    spec fn toggled(self) -> Self;

    /// The value after its flag has been set to `is_on`.
    spec fn switched(self, is_on: bool) -> Self;

    /// Toggles the selection state.
    fn toggle(&mut self)
        ensures
            *final(self) == old(self).toggled(),
    ;

    /// Sets the selection state explicitly.
    fn set_is_on(&mut self, is_on: bool)
        ensures
            *final(self) == old(self).switched(is_on),
    ;

    /// Checks whether the item is on.
    fn is_on(&self) -> (b: bool)
        ensures
            b == self.on(),
    ;
}

/// Something that can be handed to the deletion pipeline.
pub trait Deletable {
    /// Whether no removal of the item has been started.
    spec fn idle(&self) -> bool;

    /// Whether the item is flagged on and idle.
    spec fn deletable(&self) -> bool;

    /// Whether the item is flagged on and idle.
    fn can_delete(&self) -> (b: bool)
        ensures
            b == self.deletable(),
    ;

    /// Whether no removal of the item has been started.
    fn is_idle(&self) -> (b: bool)
        ensures
            b == self.idle(),
    ;
}

/// Whether `kept` names, in rising order, exactly the stored items that
/// `filter` lets pass.
pub open spec fn passes<T, F: Fn(&T) -> bool>(items: Seq<T>, filter: F, kept: Seq<int>) -> bool {
    &&& increasing(kept)
    &&& forall|i: int| 0 <= i < kept.len() ==> 0 <= #[trigger] kept[i] < items.len()
    &&& forall|j: int|
        0 <= j < items.len() ==> call_ensures(filter, (&#[trigger] items[j],), kept.contains(j))
}

/// A container with a cursor that stands on at most one of its items.
pub trait SingleSelection {
    type Item;

    /// Whether the container is valid.
    spec fn selectable(&self) -> bool;

    /// The item under the cursor.
    spec fn selection(&self) -> Option<Self::Item>;

    /// The item under the cursor.
    fn selected(&self) -> (item: Option<&Self::Item>)
        requires
            self.selectable(),
        ensures
            match item {
                Some(i) => self.selection() == Some(*i),
                None => self.selection() is None,
            },
    ;
}

/// A container whose items can be selected as a group.
pub trait GroupSelectable {
    /// Whether the container is valid.
    spec fn cyclable(&self) -> bool;

    /// The group selection in force.
    spec fn group(&self) -> Option<GroupSelection>;

    /// Whether some visible item carries its own flag.
    spec fn any_on(&self) -> bool;

    /// Cycles the group selection.
    fn toggle_group_selection(&mut self)
        requires
            old(self).cyclable(),
        ensures
            final(self).cyclable(),
            final(self).group() == next_group(old(self).group(), old(self).any_on()),
    ;
}

/// A container that shows the items that pass a filter.
pub trait Filterable<'a, T> {
    /// The model of the container.
    spec fn listing(&self) -> ListView<T>;

    /// Shows the items that `filter` accepts and hides the others.
    fn apply_filter<F>(&mut self, filter: F) where F: Fn(&T) -> bool
        requires
            old(self).listing().wf(),
            accepts_all(old(self).listing().items, filter),
        ensures
            final(self).listing().wf(),
            final(self).listing().filter matches Some(kept) && passes(
                old(self).listing().items,
                filter,
                kept,
            ) && final(self).listing() == old(self).listing().filtered(kept),
    ;

    /// Shows every item again.
    fn clear_filter(&mut self)
        requires
            old(self).listing().wf(),
        ensures
            final(self).listing().wf(),
            final(self).listing() == old(self).listing().unfiltered(),
    ;

    /// The visible items, in order.
    fn visible_items<'b>(&'b self) -> (shown: Vec<&'b T>)
        requires
            self.listing().wf(),
        ensures
            shown@.len() == self.listing().visible().len(),
            forall|i: int|
                0 <= i < shown@.len() ==> *#[trigger] shown@[i] == self.listing().visible_items()[i],
    ;
}

/// Whether `predicate` accepts the item at `k` and rejects every item before
/// it.
pub open spec fn first_match<T, P: Fn(&T) -> bool>(items: Seq<T>, predicate: P, k: int) -> bool {
    &&& 0 <= k < items.len()
    &&& call_ensures(predicate, (&items[k],), true)
    &&& forall|j: int| 0 <= j < k ==> call_ensures(predicate, (&#[trigger] items[j],), false)
}

/// Whether `predicate` rejects every item.
pub open spec fn no_match<T, P: Fn(&T) -> bool>(items: Seq<T>, predicate: P) -> bool {
    forall|j: int| 0 <= j < items.len() ==> call_ensures(predicate, (&#[trigger] items[j],), false)
}

/// Whether `predicate` may be called on every item.
pub open spec fn accepts_all<T, P: Fn(&T) -> bool>(items: Seq<T>, predicate: P) -> bool {
    forall|j: int| 0 <= j < items.len() ==> call_requires(predicate, (&#[trigger] items[j],))
}

/// A list of items with a cursor, an optional filter, a scan state and a
/// group selection.
#[derive(Debug)]
pub struct StatefulList<T: Toggle> {
    items: Vec<T>,
    cursor: Option<usize>,
    scanning: Option<ActionState>,
    filtered_indices: Option<Vec<usize>>,
    group_selection: Option<GroupSelection>,
}

/// Machine indices as mathematical integers.
pub open spec fn as_ints(v: Seq<usize>) -> Seq<int> {
    Seq::new(v.len(), |i: int| v[i] as int)
}

impl<T: Toggle> View for StatefulList<T> {
    type V = ListView<T>;

    closed spec fn view(&self) -> ListView<T> {
        ListView {
            items: self.items@,
            cursor: match self.cursor {
                Some(c) => Some(c as int),
                None => None,
            },
            filter: match self.filtered_indices {
                Some(f) => Some(as_ints(f@)),
                None => None,
            },
            scanning: self.scanning,
            group: self.group_selection,
        }
    }
}

impl<T: Toggle> Default for StatefulList<T> {
    fn default() -> (list: Self)
        ensures
            list@ == ListView::<T>::empty(),
            list.wf(),
    {
        Self {
            items: Vec::new(),
            cursor: None,
            scanning: None,
            filtered_indices: None,
            group_selection: None,
        }
    }
}

impl<T: Toggle> StatefulList<T> {
    /// The validity of the list; every function of the list keeps it.
    pub open spec fn wf(&self) -> bool {
        self@.wf()
    }

    /// The number of stored items.
    pub fn len(&self) -> (n: usize)
        ensures
            n == self@.items.len(),
    {
        self.items.len()
    }

    /// The stored item at `at`.
    pub fn get(&self, at: usize) -> (item: &T)
        requires
            at < self@.items.len(),
        ensures
            *item == self@.items[at as int],
    {
        &self.items[at]
    }

    /// The cursor: a position among the visible items.
    pub fn cursor(&self) -> (c: Option<usize>)
        ensures
            match c {
                Some(c) => self@.cursor == Some(c as int),
                None => self@.cursor is None,
            },
    {
        self.cursor
    }

    /// The group selection in force.
    pub fn group_selection(&self) -> (g: Option<GroupSelection>)
        ensures
            g == self@.group,
    {
        self.group_selection
    }

    /// Puts a group selection in force, or none.
    pub fn set_group_selection(&mut self, group: Option<GroupSelection>)
        ensures
            final(self)@ == old(self)@.with_group(group),
            old(self).wf() ==> final(self).wf(),
    {
        self.group_selection = group;
    }

    /// The number of visible items.
    pub fn visible_len(&self) -> (n: usize)
        ensures
            n == self@.visible().len(),
    {
        match &self.filtered_indices {
            Some(f) => f.len(),
            None => self.items.len(),
        }
    }

    /// The storage index of the visible item at position `at`.
    pub fn storage_index(&self, at: usize) -> (s: usize)
        requires
            self.wf(),
            at < self@.visible().len(),
        ensures
            s == self@.visible()[at as int],
            s < self@.items.len(),
    {
        match &self.filtered_indices {
            Some(f) => {
                assert(as_ints(f@)[at as int] == f@[at as int]);
                f[at]
            },
            None => at,
        }
    }

    /// The storage index of the item under the cursor.
    pub fn selected_index(&self) -> (s: Option<usize>)
        requires
            self.wf(),
        ensures
            match s {
                Some(s) => self@.selected_index() == Some(s as int) && s < self@.items.len(),
                None => self@.selected_index() is None,
            },
    {
        match self.cursor {
            Some(c) => Some(self.storage_index(c)),
            None => None,
        }
    }

    /// Whether anything is visible.
    pub fn has_visible_items(&self) -> (b: bool)
        ensures
            b == (self@.visible().len() > 0),
    {
        self.visible_len() > 0
    }

    /// Whether the scan is under way.
    pub fn is_scanning(&self) -> (b: bool)
        ensures
            b == (self@.scanning == Some(ActionState::Pending)),
    {
        match &self.scanning {
            Some(ActionState::Pending) => true,
            _ => false,
        }
    }

    /// Whether the scan has ended.
    pub fn done_scanning(&self) -> (b: bool)
        ensures
            b == (self@.scanning == Some(ActionState::Done)),
    {
        match &self.scanning {
            Some(ActionState::Done) => true,
            _ => false,
        }
    }

    /// Records how far the scan has come.
    pub fn set_scanning(&mut self, state: Option<ActionState>)
        ensures
            final(self)@ == old(self)@.with_scanning(state),
            old(self).wf() ==> final(self).wf(),
    {
        self.scanning = state;
    }

    /// Stores one more item, behind the others.
    pub fn push(&mut self, item: T)
        ensures
            final(self)@ == old(self)@.pushed(item),
            old(self).wf() ==> final(self).wf(),
    {
        self.items.push(item);
    }

    /// Moves the cursor one visible item forward, wrapping at the end.
    pub fn next(&mut self)
        requires
            old(self).wf(),
        ensures
            final(self)@ == old(self)@.next(),
            final(self).wf(),
    {
        let n = self.visible_len();
        let next_index = if n == 0 {
            None
        } else {
            match self.cursor {
                Some(c) => if c + 1 < n {
                    Some(c + 1)
                } else {
                    Some(0)
                },
                None => Some(0),
            }
        };
        self.cursor = next_index;
    }

    /// Moves the cursor one visible item back, wrapping at the start.
    pub fn previous(&mut self)
        requires
            old(self).wf(),
        ensures
            final(self)@ == old(self)@.previous(),
            final(self).wf(),
    {
        let n = self.visible_len();
        let next_index = if n == 0 {
            None
        } else {
            match self.cursor {
                Some(c) => if c >= 1 {
                    Some(c - 1)
                } else {
                    Some(n - 1)
                },
                None => if self.filtered_indices.is_some() {
                    Some(0)
                } else {
                    Some(n - 1)
                },
            }
        };
        self.cursor = next_index;
    }

    /// Clears the cursor.
    pub fn unselect(&mut self)
        ensures
            final(self)@ == old(self)@.unselected(),
            old(self).wf() ==> final(self).wf(),
    {
        self.cursor = None;
    }

    /// Hands the item under the cursor to `mutator` and returns what it
    /// returns; without such an item, changes nothing and returns `false`.
    pub fn mutate_selected<F>(&mut self, mutator: F) -> (r: bool) where F: FnOnce(&mut T) -> bool
        requires
            old(self).wf(),
            forall|m: &mut T| old(self)@.selected() == Some(*m) ==> call_requires(mutator, (m,)),
        ensures
            final(self).wf(),
            match old(self)@.selected_index() {
                Some(s) => {
                    &&& final(self)@ == old(self)@.with_item(s, final(self)@.items[s])
                    &&& exists|m: &mut T|
                        {
                            &&& *m == old(self)@.items[s]
                            &&& *final(m) == final(self)@.items[s]
                            &&& call_ensures(mutator, (m,), r)
                        }
                },
                None => !r && final(self)@ == old(self)@,
            },
    {
        match self.selected_index() {
            Some(s) => {
                let r = mutator(&mut self.items[s]);
                assert(self@.items =~= old(self)@.items.update(s as int, self@.items[s as int]));
                r
            },
            None => false,
        }
    }

    /// The first stored item that `predicate` accepts.
    pub fn position_where<P>(&self, predicate: &P) -> (found: Option<usize>) where P: Fn(&T) -> bool
        requires
            accepts_all(self@.items, *predicate),
        ensures
            match found {
                Some(k) => first_match(self@.items, *predicate, k as int),
                None => no_match(self@.items, *predicate),
            },
    {
        let mut k: usize = 0;
        while k < self.items.len()
            invariant
                k <= self.items.len(),
                accepts_all(self@.items, *predicate),
                forall|j: int| 0 <= j < k ==> call_ensures(*predicate, (&#[trigger] self@.items[j],), false),
            decreases self.items.len() - k,
        {
            if predicate(&self.items[k]) {
                return Some(k);
            }
            k += 1;
        }
        None
    }

    /// Hands the first item that `predicate` accepts to `mutator`. Returns
    /// whether there was such an item.
    pub fn mutate_where<F, P>(&mut self, predicate: P, mutator: F) -> (r: bool) where
        F: FnOnce(&mut T),
        P: Fn(&T) -> bool,

        requires
            accepts_all(old(self)@.items, predicate),
            forall|m: &mut T| old(self)@.items.contains(*m) ==> call_requires(mutator, (m,)),
        ensures
            old(self).wf() ==> final(self).wf(),
            r ==> exists|k: int, m: &mut T|
                {
                    &&& first_match(old(self)@.items, predicate, k)
                    &&& final(self)@ == old(self)@.with_item(k, final(self)@.items[k])
                    &&& *m == old(self)@.items[k]
                    &&& *final(m) == final(self)@.items[k]
                    &&& call_ensures(mutator, (m,), ())
                },
            !r ==> no_match(old(self)@.items, predicate) && final(self)@ == old(self)@,
    {
        match self.position_where(&predicate) {
            Some(k) => {
                assert(self@.items.contains(self@.items[k as int]));
                mutator(&mut self.items[k]);
                assert(self@.items =~= old(self)@.items.update(k as int, self@.items[k as int]));
                true
            },
            None => false,
        }
    }
}

impl<T: Toggle> SingleSelection for StatefulList<T> {
    type Item = T;

    open spec fn selectable(&self) -> bool {
        self.wf()
    }

    open spec fn selection(&self) -> Option<T> {
        self@.selected()
    }

    /// The item under the cursor.
    fn selected(&self) -> (item: Option<&T>) {
        match self.selected_index() {
            Some(s) => Some(&self.items[s]),
            None => None,
        }
    }
}

impl<'a, T: Toggle> Filterable<'a, T> for StatefulList<T> {
    open spec fn listing(&self) -> ListView<T> {
        self@
    }

    fn apply_filter<F>(&mut self, filter: F) where F: Fn(&T) -> bool {
        let sel = self.selected_index();
        let mut kept: Vec<usize> = Vec::new();
        let mut cursor: Option<usize> = None;
        let mut i: usize = 0;
        while i < self.items.len()
            invariant
                i <= self.items.len(),
                *self == *old(self),
                accepts_all(self@.items, filter),
                increasing(as_ints(kept@)),
                forall|k: int| 0 <= k < kept@.len() ==> #[trigger] kept@[k] < i,
                forall|j: int|
                    0 <= j < i ==> call_ensures(
                        filter,
                        (&#[trigger] self@.items[j],),
                        as_ints(kept@).contains(j),
                    ),
                match sel {
                    Some(s) => match cursor {
                        Some(c) => c < kept@.len() && kept@[c as int] == s,
                        None => !as_ints(kept@).contains(s as int),
                    },
                    None => cursor is None,
                },
            decreases self.items.len() - i,
        {
            let ghost before = as_ints(kept@);
            let pass = filter(&self.items[i]);
            if pass {
                match sel {
                    Some(s) => {
                        if s == i {
                            cursor = Some(kept.len());
                        }
                    },
                    None => {},
                }
                kept.push(i);
                proof {
                    let after = as_ints(kept@);
                    assert(after == before.push(i as int));
                    assert(after[after.len() - 1] == i);
                    assert forall|j: int| 0 <= j < i implies before.contains(j) == after.contains(
                        j,
                    ) by {
                        if before.contains(j) {
                            let k = choose|k: int| 0 <= k < before.len() && before[k] == j;
                            assert(after[k] == j);
                        }
                        if after.contains(j) {
                            let k = choose|k: int| 0 <= k < after.len() && after[k] == j;
                            assert(before[k] == j);
                        }
                    }
                    assert(after.contains(i as int));
                    if let Some(s) = sel {
                        if cursor is None {
                            if after.contains(s as int) {
                                let k = choose|k: int| 0 <= k < after.len() && after[k] == s;
                                assert(before[k] == s);
                            }
                        }
                    }
                }
            } else {
                proof {
                    if before.contains(i as int) {
                        let k = choose|k: int| 0 <= k < before.len() && before[k] == i;
                        assert(kept@[k] < i);
                    }
                }
            }
            i += 1;
        }
        proof {
            let k = as_ints(kept@);
            if let Some(s) = sel {
                if let Some(c) = cursor {
                    lemma_position(k, s as int, c as int);
                }
            }
            assert forall|x: int| 0 <= x < k.len() implies 0 <= #[trigger] k[x] < self@.items.len() by {
                assert(kept@[x] < i);
            }
        }
        self.filtered_indices = Some(kept);
        self.cursor = cursor;
    }

    fn clear_filter(&mut self) {
        let sel = self.selected_index();
        self.filtered_indices = None;
        self.cursor = sel;
    }

    fn visible_items<'b>(&'b self) -> (shown: Vec<&'b T>) {
        let n = self.visible_len();
        let mut shown: Vec<&'b T> = Vec::new();
        let mut k: usize = 0;
        while k < n
            invariant
                self.wf(),
                n == self@.visible().len(),
                k <= n,
                shown@.len() == k,
                forall|i: int| 0 <= i < k ==> *#[trigger] shown@[i] == self@.visible_items()[i],
            decreases n - k,
        {
            let s = self.storage_index(k);
            shown.push(&self.items[s]);
            k += 1;
        }
        shown
    }
}

impl<T: Toggle> GroupSelectable for StatefulList<T> {
    open spec fn cyclable(&self) -> bool {
        self.wf()
    }

    open spec fn group(&self) -> Option<GroupSelection> {
        self@.group
    }

    open spec fn any_on(&self) -> bool {
        self@.any_visible_on()
    }

    /// Cycles the group selection: from per-item to all on, from all on to
    /// all off, and from all off to all on once no visible item carries its
    /// own flag.
    fn toggle_group_selection(&mut self)
        ensures
            final(self)@ == old(self)@.group_cycled(),
    {
        let any_on = self.any_visible_on();
        self.group_selection = cycle_group(self.group_selection, any_on);
    }
}

impl<T: Toggle> StatefulList<T> {
    /// Whether some visible item carries its own flag.
    pub fn any_visible_on(&self) -> (b: bool)
        requires
            self.wf(),
        ensures
            b == self@.any_visible_on(),
    {
        let n = self.visible_len();
        let mut k: usize = 0;
        while k < n
            invariant
                self.wf(),
                n == self@.visible().len(),
                k <= n,
                forall|i: int| 0 <= i < k ==> !#[trigger] self@.items[self@.visible()[i]].on(),
            decreases n - k,
        {
            let s = self.storage_index(k);
            if self.items[s].is_on() {
                return true;
            }
            k += 1;
        }
        false
    }

    /// Whether the stored item at `at` counts as selected: by the group
    /// selection where one is in force, by its own flag otherwise.
    pub fn is_effectively_on(&self, at: usize) -> (b: bool)
        requires
            at < self@.items.len(),
        ensures
            b == self@.effective_on(at as int),
    {
        match self.group_selection {
            Some(GroupSelection::AllOn) => true,
            Some(GroupSelection::AllOff) => false,
            None => self.items[at].is_on(),
        }
    }

    /// Takes the first stored item that `predicate` accepts out of the list
    /// and returns it. The cursor stays on its item, and is cleared if that
    /// item is the one that left.
    pub fn remove_where<P>(&mut self, predicate: P) -> (taken: Option<T>) where P: Fn(&T) -> bool
        requires
            old(self).wf(),
            accepts_all(old(self)@.items, predicate),
        ensures
            final(self).wf(),
            match taken {
                Some(item) => exists|k: int|
                    {
                        &&& first_match(old(self)@.items, predicate, k)
                        &&& item == old(self)@.items[k]
                        &&& final(self)@ == old(self)@.removed(k)
                    },
                None => no_match(old(self)@.items, predicate) && final(self)@ == old(self)@,
            },
    {
        let found = self.position_where(&predicate);
        match found {
            Some(k) => {
                let item = self.remove_at(k);
                Some(item)
            },
            None => None,
        }
    }

    /// Takes the stored item at `at` out of the list and returns it. The
    /// cursor stays on its item, and is cleared if that item is the one that
    /// left.
    pub fn remove_at(&mut self, at: usize) -> (item: T)
        requires
            old(self).wf(),
            at < old(self)@.items.len(),
        ensures
            final(self).wf(),
            item == old(self)@.items[at as int],
            final(self)@ == old(self)@.removed(at as int),
    {
        let sel = self.selected_index();
        let target: Option<usize> = match sel {
            Some(s) => if s == at {
                None
            } else if s > at {
                Some(s - 1)
            } else {
                Some(s)
            },
            None => None,
        };
        let ghost n = self.items@.len() as int;
        let item = self.items.remove(at);
        let mut cursor: Option<usize> = None;
        match self.filtered_indices.take() {
            Some(f) => {
                let ghost fi = as_ints(f@);
                let mut g: Vec<usize> = Vec::new();
                let mut i: usize = 0;
                while i < f.len()
                    invariant
                        i <= f.len(),
                        fi == as_ints(f@),
                        forall|x: int| 0 <= x < fi.len() ==> 0 <= #[trigger] fi[x] < n,
                        0 <= at < n,
                        as_ints(g@) == indices_after_removal(fi.take(i as int), at as int),
                        match target {
                            Some(t) => match cursor {
                                Some(c) => c < g@.len() && g@[c as int] == t,
                                None => !as_ints(g@).contains(t as int),
                            },
                            None => cursor is None,
                        },
                    decreases f.len() - i,
                {
                    let ghost before = as_ints(g@);
                    let x = f[i];
                    proof {
                        assert(fi[i as int] == x);
                        let upto_next = fi.take(i + 1);
                        assert(upto_next.drop_last() == fi.take(i as int));
                        assert(upto_next.last() == x);
                    }
                    if x != at {
                        let y: usize = if x > at {
                            x - 1
                        } else {
                            x
                        };
                        match target {
                            Some(t) => {
                                if t == y {
                                    cursor = Some(g.len());
                                }
                            },
                            None => {},
                        }
                        g.push(y);
                        proof {
                            let after = as_ints(g@);
                            assert(after == before.push(y as int));
                            if let Some(t) = target {
                                if cursor is None {
                                    if after.contains(t as int) {
                                        let k = choose|k: int| 0 <= k < after.len() && after[k] == t;
                                        assert(before[k] == t);
                                    }
                                }
                            }
                        }
                    }
                    i += 1;
                }
                proof {
                    assert(fi.take(f.len() as int) == fi);
                    lemma_indices_after_removal(fi, at as int, n);
                    if let Some(t) = target {
                        if let Some(c) = cursor {
                            lemma_position(as_ints(g@), t as int, c as int);
                        }
                    }
                }
                self.filtered_indices = Some(g);
            },
            None => {
                cursor = target;
                proof {
                    if let Some(t) = target {
                        lemma_position(upto((n - 1) as nat), t as int, t as int);
                    }
                }
            },
        }
        self.cursor = cursor;
        item
    }
}

impl<T: Toggle + Deletable> StatefulList<T> {
    /// The storage indices of the items to remove on the next commit.
    pub fn indices_to_delete(&self) -> (due: Vec<usize>)
        requires
            self.wf(),
        ensures
            as_ints(due@) == self@.to_delete(),
            forall|i: int| 0 <= i < due@.len() ==> #[trigger] due@[i] < self@.items.len(),
    {
        let n = self.visible_len();
        let mut due: Vec<usize> = Vec::new();
        let mut k: usize = 0;
        while k < n
            invariant
                self.wf(),
                n == self@.visible().len(),
                k <= n,
                as_ints(due@) == self@.due_among(self@.visible().take(k as int)),
                forall|i: int| 0 <= i < due@.len() ==> #[trigger] due@[i] < self@.items.len(),
            decreases n - k,
        {
            let s = self.storage_index(k);
            proof {
                let upto_next = self@.visible().take(k + 1);
                assert(upto_next.drop_last() == self@.visible().take(k as int));
                assert(upto_next.last() == s);
            }
            let pick = match self.group_selection {
                Some(GroupSelection::AllOn) => self.items[s].is_idle(),
                Some(GroupSelection::AllOff) => false,
                None => self.items[s].can_delete(),
            };
            if pick {
                let ghost before = as_ints(due@);
                due.push(s);
                assert(as_ints(due@) == before.push(s as int));
            }
            k += 1;
        }
        assert(self@.visible().take(n as int) == self@.visible());
        due
    }

    /// The items to remove on the next commit: under "all on" every visible
    /// item, under "all off" none, otherwise the visible items that carry
    /// their own flag; in each case only the idle ones.
    pub fn items_to_delete<'b>(&'b self) -> (due: Vec<&'b T>)
        requires
            self.wf(),
        ensures
            due@.len() == self@.to_delete().len(),
            forall|i: int|
                0 <= i < due@.len() ==> *#[trigger] due@[i] == self@.items[self@.to_delete()[i]],
    {
        let indices = self.indices_to_delete();
        let mut due: Vec<&'b T> = Vec::new();
        let mut k: usize = 0;
        while k < indices.len()
            invariant
                k <= indices.len(),
                as_ints(indices@) == self@.to_delete(),
                forall|i: int| 0 <= i < indices@.len() ==> #[trigger] indices@[i] < self@.items.len(),
                due@.len() == k,
                forall|i: int|
                    0 <= i < k ==> *#[trigger] due@[i] == self@.items[self@.to_delete()[i]],
            decreases indices.len() - k,
        {
            assert(as_ints(indices@)[k as int] == indices@[k as int]);
            due.push(&self.items[indices[k]]);
            k += 1;
        }
        due
    }
}

} // verus!
