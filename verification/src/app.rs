//! The application state and the transitions that events cause.

use vstd::prelude::*;
use crate::actions::{bucket, ActionState, Actions};
use crate::counters::{ItemCounter, Log};
use crate::dir_entry_item::DirEntryItem;
use crate::event::{DirDelete, DirSearch};
use crate::list::{
    first_match, no_match, passes, Filterable, GroupSelectable, SingleSelection, StatefulList,
    Toggle,
};
use crate::model::{
    first_with_path, is_first_with_path, lemma_first_with_path, lemma_first_with_path_same_paths,
    lemma_matching, lemma_rising_same_members, matching, paths, AppView,
};
use crate::text::{contains, has_substring};

verus! {

/// A selection that overrides the flags of the single items.
#[derive(Debug, Clone, Copy, PartialEq, Eq, Structural)]
pub enum GroupSelection {
    /// Every item counts as selected.
    AllOn,
    /// No item counts as selected.
    AllOff,
}

/// The group selection that follows `group` when the user cycles it.
/// `any_on` says whether some visible item carries its own flag.
pub open spec fn next_group(group: Option<GroupSelection>, any_on: bool) -> Option<GroupSelection> {
    match group {
        None => Some(GroupSelection::AllOn),
        Some(GroupSelection::AllOn) => Some(GroupSelection::AllOff),
        Some(GroupSelection::AllOff) => if any_on {
            Some(GroupSelection::AllOff)
        } else {
            Some(GroupSelection::AllOn)
        },
    }
}

/// Computes the group selection that follows `group`.
pub fn cycle_group(group: Option<GroupSelection>, any_on: bool) -> (next: Option<GroupSelection>)
    ensures
        next == next_group(group, any_on),
{
    match group {
        None => Some(GroupSelection::AllOn),
        Some(GroupSelection::AllOn) => Some(GroupSelection::AllOff),
        Some(GroupSelection::AllOff) => if any_on {
            Some(GroupSelection::AllOff)
        } else {
            Some(GroupSelection::AllOn)
        },
    }
}

/// Cycling the group selection is defined in every state and never falls back
/// to the per-item state: from per-item it goes to all selected, from all
/// selected to none selected, and from none selected to all selected once no
/// item carries its own flag, staying at none selected until then. Apart from
/// that stay, a second cycle always changes the state again.
pub proof fn lemma_group_cycle(group: Option<GroupSelection>, any_on: bool)
    ensures
        next_group(group, any_on) is Some,
        group is None ==> next_group(group, any_on) == Some(GroupSelection::AllOn),
        group == Some(GroupSelection::AllOn) ==> next_group(group, any_on) == Some(
            GroupSelection::AllOff,
        ),
        group == Some(GroupSelection::AllOff) && any_on ==> next_group(group, any_on) == Some(
            GroupSelection::AllOff,
        ),
        group == Some(GroupSelection::AllOff) && !any_on ==> next_group(group, any_on) == Some(
            GroupSelection::AllOn,
        ),
        next_group(next_group(group, any_on), any_on) != next_group(group, any_on) || (any_on
            && next_group(group, any_on) == Some(GroupSelection::AllOff)),
{
}

/// Whether `predicate` accepts exactly the entries with the path `path`.
pub open spec fn tests_path<P: Fn(&DirEntryItem) -> bool>(predicate: P, path: Seq<char>) -> bool {
    forall|item: DirEntryItem, b: bool| #[trigger]
        call_ensures(predicate, (&item,), b) ==> b == (item.path@ == path)
}

/// The first entry that a test of the path accepts is the first entry with
/// that path.
pub proof fn lemma_first_match_by_path<P: Fn(&DirEntryItem) -> bool>(
    items: Seq<DirEntryItem>,
    predicate: P,
    path: Seq<char>,
    k: int,
)
    requires
        tests_path(predicate, path),
        first_match(items, predicate, k),
    ensures
        first_with_path(items, path) == Some(k),
{
    assert forall|j: int| 0 <= j < k implies (#[trigger] items[j]).path@ != path by {
        assert(call_ensures(predicate, (&items[j],), false));
    }
    assert(is_first_with_path(items, path, k));
    lemma_first_with_path(items, path);
}

/// Where a test of the path accepts no entry, no entry has that path.
pub proof fn lemma_no_match_by_path<P: Fn(&DirEntryItem) -> bool>(
    items: Seq<DirEntryItem>,
    predicate: P,
    path: Seq<char>,
)
    requires
        tests_path(predicate, path),
        no_match(items, predicate),
    ensures
        first_with_path(items, path) is None,
{
    assert forall|j: int| 0 <= j < items.len() implies (#[trigger] items[j]).path@ != path by {
        assert(call_ensures(predicate, (&items[j],), false));
    }
    lemma_first_with_path(items, path);
}

/// The application: the list of discovered directories, the filter input, the
/// tallies and the ledger of removals.
#[derive(Debug)]
pub struct App {
    running: bool,
    list: StatefulList<DirEntryItem>,
    is_in_search_mode: bool,
    filter_input: Option<String>,
    deleting_size: Log,
    selected: ItemCounter,
    search_counter: u64,
    search_results: u64,
    actions: Actions<DirEntryItem>,
}

impl View for App {
    type V = AppView;

    closed spec fn view(&self) -> AppView {
        AppView {
            running: self.running,
            list: self.list@,
            search_mode: self.is_in_search_mode,
            filter: match self.filter_input {
                Some(text) => Some(text@),
                None => None,
            },
            deleting: self.deleting_size,
            selected: self.selected,
            search_counter: self.search_counter,
            search_results: self.search_results,
            queued: bucket(self.actions.queued),
            current: bucket(self.actions.current),
            history: bucket(self.actions.history),
            failed: bucket(self.actions.failed),
        }
    }
}

impl Default for App {
    fn default() -> (app: Self)
        ensures
            app@ == AppView::initial(),
            app.wf(),
    {
        Self {
            running: true,
            list: StatefulList::default(),
            is_in_search_mode: false,
            filter_input: None,
            deleting_size: Log::default(),
            selected: ItemCounter::default(),
            search_counter: 0,
            search_results: 0,
            actions: Actions::default(),
        }
    }
}

impl App {
    /// The validity of the application state; every function keeps it.
    pub open spec fn wf(&self) -> bool {
        self@.wf()
    }

    /// Is the application running?
    pub fn running(&self) -> (b: bool)
        ensures
            b == self@.running,
    {
        self.running
    }

    /// The list of discovered directories.
    pub fn list(&self) -> (list: &StatefulList<DirEntryItem>)
        ensures
            list@ == self@.list,
    {
        &self.list
    }

    /// Whether key presses go to the filter text.
    pub fn is_in_search_mode(&self) -> (b: bool)
        ensures
            b == self@.search_mode,
    {
        self.is_in_search_mode
    }

    /// The filter text, if there is one.
    pub fn filter_input(&self) -> (text: Option<&String>)
        ensures
            match text {
                Some(t) => self@.filter == Some(t@),
                None => self@.filter is None,
            },
    {
        self.filter_input.as_ref()
    }

    /// The tallies of removals in flight, completed and failed.
    pub fn deleting_size(&self) -> (log: &Log)
        ensures
            *log == self@.deleting,
    {
        &self.deleting_size
    }

    /// The tally of the entries that carry their own flag.
    pub fn selected(&self) -> (tally: &ItemCounter)
        ensures
            *tally == self@.selected,
    {
        &self.selected
    }

    /// The entries that the scanner has visited.
    pub fn search_counter(&self) -> (n: u64)
        ensures
            n == self@.search_counter,
    {
        self.search_counter
    }

    /// The directories that the finished scan has found.
    pub fn search_results(&self) -> (n: u64)
        ensures
            n == self@.search_results,
    {
        self.search_results
    }

    /// The ledger of removals.
    pub fn actions(&self) -> (ledger: &Actions<DirEntryItem>)
        ensures
            ledger.queued_items() == self@.queued,
            ledger.current_items() == self@.current,
            ledger.history_items() == self@.history,
            ledger.failed_items() == self@.failed,
    {
        &self.actions
    }

    /// Applies the filter text to the list as it stands.
    fn refilter(&mut self)
        requires
            old(self).list.wf(),
        ensures
            final(self)@ == old(self)@.refiltered(),
            final(self).wf(),
    {
        match &self.filter_input {
            Some(text) => {
                let filter = |item: &DirEntryItem| -> (b: bool)
                    ensures
                        b == has_substring(item.path@, text@),
                    { contains(item.path.as_str(), text.as_str()) };
                self.list.apply_filter(filter);
                proof {
                    let items = old(self).list@.items;
                    let kept = self.list@.filter->0;
                    let m = matching(paths(items), text@);
                    assert(passes(items, filter, kept));
                    lemma_matching(paths(items), text@);
                    assert forall|x: int| kept.contains(x) <==> m.contains(x) by {
                        if kept.contains(x) {
                            let i = choose|i: int| 0 <= i < kept.len() && kept[i] == x;
                            assert(0 <= kept[i] < items.len());
                            assert(call_ensures(filter, (&items[x],), kept.contains(x)));
                            assert(paths(items)[x] == items[x].path@);
                        }
                        if m.contains(x) {
                            let i = choose|i: int| 0 <= i < m.len() && m[i] == x;
                            assert(0 <= m[i] < items.len());
                            assert(call_ensures(filter, (&items[x],), kept.contains(x)));
                            assert(paths(items)[x] == items[x].path@);
                        }
                    }
                    lemma_rising_same_members(kept, m);
                }
            },
            None => {
                self.list.clear_filter();
            },
        }
    }

    /// Handles the tick event of the terminal.
    pub fn tick(&self) {
    }

    /// Set running to false to quit the application.
    pub fn quit(&mut self)
        ensures
            final(self)@ == old(self)@.stopped(),
            old(self).wf() ==> final(self).wf(),
    {
        self.running = false;
    }

    /// Stores a new entry.
    pub fn push(&mut self, item: DirEntryItem)
        requires
            old(self).wf(),
        ensures
            final(self)@ == old(self)@.with_entry(item),
            final(self).wf(),
    {
        self.list.push(item);
        self.refilter();
    }

    /// Sends the key presses that follow to the filter text.
    pub fn start_search_entry(&mut self)
        ensures
            final(self)@ == old(self)@.with_search_mode(true),
            old(self).wf() ==> final(self).wf(),
    {
        self.is_in_search_mode = true;
    }

    /// Stops sending key presses to the filter text; the text stays in force.
    pub fn end_search_entry(&mut self)
        ensures
            final(self)@ == old(self)@.with_search_mode(false),
            old(self).wf() ==> final(self).wf(),
    {
        self.is_in_search_mode = false;
    }

    /// Moves the cursor one visible entry forward.
    pub fn next(&mut self)
        requires
            old(self).wf(),
        ensures
            final(self)@ == old(self)@.advanced(),
            final(self).wf(),
    {
        self.list.next();
    }

    /// Moves the cursor one visible entry back.
    pub fn previous(&mut self)
        requires
            old(self).wf(),
        ensures
            final(self)@ == old(self)@.retreated(),
            final(self).wf(),
    {
        self.list.previous();
    }

    /// Cycles the group selection.
    pub fn toggle_group_selection(&mut self)
        requires
            old(self).wf(),
        ensures
            final(self)@ == old(self)@.group_cycled(),
            final(self).wf(),
    {
        self.list.toggle_group_selection();
    }
}

impl App {
    /// Toggles the entry under the cursor.
    pub fn toggle_selected_item(&mut self)
        requires
            old(self).wf(),
        ensures
            final(self)@ == old(self)@.toggled(),
            final(self).wf(),
    {
        let seen: Option<(bool, u64)> = match self.list.selected() {
            Some(item) => Some((item.is_on, item.size)),
            None => None,
        };
        let flip = |item: &mut DirEntryItem| -> (changed: bool)
            ensures
                *final(item) == old(item).toggled(),
                changed == old(item).is_idle_spec(),
            {
                if item.can_toggle() {
                    item.toggle();
                    true
                } else {
                    false
                }
            };
        let changed = self.list.mutate_selected(flip);
        proof {
            assert(paths(self.list@.items) =~= paths(old(self).list@.items));
        }
        if changed {
            self.list.set_group_selection(None);
            match seen {
                Some((was_on, size)) => {
                    if was_on {
                        self.selected.remove(size);
                    } else {
                        self.selected.add(size);
                    }
                },
                None => {},
            }
        }
        proof {
            assert(self.list@.items =~= old(self)@.toggled().list.items);
        }
    }

    /// Sets the flag of the entry under the cursor and steps forward.
    fn switch_and_next(&mut self, on: bool)
        requires
            old(self).wf(),
        ensures
            final(self)@ == old(self)@.switched_and_advanced(on),
            final(self).wf(),
    {
        let seen: Option<(bool, bool, u64)> = match self.list.selected() {
            Some(item) => Some((item.is_on, item.can_toggle(), item.size)),
            None => None,
        };
        let switch = |item: &mut DirEntryItem| -> (changed: bool)
            ensures
                *final(item) == old(item).switched(on),
                changed,
            {
                item.set_is_on(on);
                true
            };
        self.list.mutate_selected(switch);
        proof {
            assert(paths(self.list@.items) =~= paths(old(self).list@.items));
        }
        match seen {
            Some((was_on, idle, size)) => {
                if idle && was_on != on {
                    if on {
                        self.selected.add(size);
                    } else {
                        self.selected.remove(size);
                    }
                }
            },
            None => {},
        }
        self.list.set_group_selection(None);
        self.list.next();
        proof {
            assert(self.list@.items =~= old(self)@.switched_and_advanced(on).list.items);
        }
    }

    /// Flags the entry under the cursor and steps forward.
    pub fn set_on_and_next(&mut self)
        requires
            old(self).wf(),
        ensures
            final(self)@ == old(self)@.switched_and_advanced(true),
            final(self).wf(),
    {
        self.switch_and_next(true);
    }

    /// Takes the flag off the entry under the cursor and steps forward.
    pub fn set_off_and_next(&mut self)
        requires
            old(self).wf(),
        ensures
            final(self)@ == old(self)@.switched_and_advanced(false),
            final(self).wf(),
    {
        self.switch_and_next(false);
    }

    /// Applies a report of the scanner.
    pub fn handle_search(&mut self, d: DirSearch)
        requires
            old(self).wf(),
        ensures
            final(self)@ == old(self)@.after_search(d),
            final(self).wf(),
    {
        match d {
            DirSearch::Started => self.list.set_scanning(Some(ActionState::Pending)),
            DirSearch::Finished(counter, found) => {
                self.list.set_scanning(Some(ActionState::Done));
                self.search_counter = counter;
                self.search_results = found;
            },
            DirSearch::Found(path, size) => self.push(DirEntryItem::from_entry(path, size)),
            DirSearch::Progress(counter) => self.search_counter = counter,
        }
    }

    /// Adds a character to the filter text and applies the filter.
    pub fn append_filter_input(&mut self, c: char)
        requires
            old(self).wf(),
        ensures
            final(self)@ == old(self)@.filter_appended(c),
            final(self).wf(),
    {
        let mut text = match self.filter_input.take() {
            Some(t) => t,
            None => String::new(),
        };
        text.push(c);
        proof {
            assert(Seq::<char>::empty().push(c) =~= seq![c]);
        }
        self.filter_input = Some(text);
        self.refilter();
    }

    /// Takes the last character off the filter text and applies what is
    /// left. A text that becomes empty is dropped, and with it the filter
    /// and the search mode.
    pub fn delete_filter_input(&mut self)
        requires
            old(self).wf(),
        ensures
            final(self)@ == old(self)@.filter_popped(),
            final(self).wf(),
    {
        match self.filter_input.take() {
            Some(mut text) => {
                text.pop();
                if text.as_str().is_empty() {
                    self.filter_input = None;
                    self.is_in_search_mode = false;
                } else {
                    self.filter_input = Some(text);
                }
                self.refilter();
            },
            None => {},
        }
    }
}

impl App {
    /// Applies a report of a deletion worker. The entry is found by its path;
    /// the tallies go by the size recorded with the entry. A report for a path
    /// that no entry has changes nothing.
    pub fn handle_delete(&mut self, d: DirDelete)
        requires
            old(self).wf(),
        ensures
            final(self)@ == old(self)@.after_delete(d),
            final(self).wf(),
    {
        match d {
            DirDelete::Deleting(path, _) => {
                self.mark_first(&path, ActionState::Pending);
                proof {
                    lemma_first_with_path_same_paths(self.list@.items, old(self).list@.items, path@);
                    lemma_first_with_path(old(self).list@.items, path@);
                }
                match self.snapshot_first(&path) {
                    Some(item) => {
                        self.deleting_size.add(item.size);
                        self.actions.add_to_current(item);
                    },
                    None => {},
                }
            },
            DirDelete::Deleted(path, _) => {
                let is_target = |item: &DirEntryItem| -> (b: bool)
                    ensures
                        b == (item.path@ == path@),
                    { item.path == path };
                let taken = self.list.remove_where(is_target);
                proof {
                    let items = old(self).list@.items;
                    assert(tests_path(is_target, path@));
                    if taken is Some {
                        let k = choose|k: int|
                            {
                                &&& first_match(items, is_target, k)
                                &&& taken->0 == items[k]
                                &&& self.list@ == old(self).list@.removed(k)
                            };
                        lemma_first_match_by_path(items, is_target, path@, k);
                    } else {
                        lemma_no_match_by_path(items, is_target, path@);
                    }
                }
                match taken {
                    Some(mut item) => {
                        item.delete_state = Some(ActionState::Done);
                        self.deleting_size.finished(item.size);
                        if item.is_on {
                            self.selected.remove(item.size);
                        }
                        self.actions.add_to_history(item);
                        self.refilter();
                    },
                    None => {},
                }
            },
            DirDelete::Failed(path, _, error_message) => {
                self.mark_first(&path, ActionState::Failed(error_message.clone()));
                proof {
                    lemma_first_with_path_same_paths(self.list@.items, old(self).list@.items, path@);
                    lemma_first_with_path(old(self).list@.items, path@);
                }
                match self.snapshot_first(&path) {
                    Some(item) => {
                        self.deleting_size.failed(item.size);
                        self.actions.add_to_failed(item, error_message);
                    },
                    None => {},
                }
            },
        }
    }

    /// Tags the first entry with `path`, if there is one.
    fn mark_first(&mut self, path: &String, state: ActionState)
        requires
            old(self).wf(),
        ensures
            final(self).wf(),
            paths(final(self)@.list.items) == paths(old(self)@.list.items),
            final(self)@ == (AppView {
                list: match first_with_path(old(self)@.list.items, path@) {
                    Some(k) => old(self)@.list.with_item(
                        k,
                        old(self)@.list.items[k].with_state(Some(state)),
                    ),
                    None => old(self)@.list,
                },
                ..old(self)@
            }),
    {
        let is_target = |item: &DirEntryItem| -> (b: bool)
            ensures
                b == (item.path@ == path@),
            { item.path == *path };
        let mark = |item: &mut DirEntryItem|
            ensures
                *final(item) == old(item).with_state(Some(state)),
            { item.delete_state = Some(state); };
        let hit = self.list.mutate_where(is_target, mark);
        proof {
            let items = old(self).list@.items;
            assert(tests_path(is_target, path@));
            if hit {
                let (k, m) = choose|k: int, m: &mut DirEntryItem|
                    {
                        &&& first_match(items, is_target, k)
                        &&& self.list@ == old(self).list@.with_item(k, self.list@.items[k])
                        &&& *m == items[k]
                        &&& *final(m) == self.list@.items[k]
                        &&& call_ensures(mark, (m,), ())
                    };
                lemma_first_match_by_path(items, is_target, path@, k);
            } else {
                lemma_no_match_by_path(items, is_target, path@);
            }
            assert(paths(self.list@.items) =~= paths(items));
        }
    }

    /// A copy of the first entry with `path`, if there is one.
    fn snapshot_first(&self, path: &String) -> (copy: Option<DirEntryItem>)
        ensures
            match first_with_path(self@.list.items, path@) {
                Some(k) => copy == Some(self@.list.items[k]),
                None => copy is None,
            },
    {
        let is_target = |item: &DirEntryItem| -> (b: bool)
            ensures
                b == (item.path@ == path@),
            { item.path == *path };
        let found = self.list.position_where(&is_target);
        proof {
            assert(tests_path(is_target, path@));
            match found {
                Some(k) => lemma_first_match_by_path(self.list@.items, is_target, path@, k as int),
                None => lemma_no_match_by_path(self.list@.items, is_target, path@),
            }
        }
        match found {
            Some(k) => Some(self.list.get(k).clone()),
            None => None,
        }
    }

    /// Commits the selection: returns the entries to hand to the deletion
    /// pipeline and puts them into the queue of the ledger.
    pub fn commit_delete(&mut self) -> (batch: Vec<DirEntryItem>)
        requires
            old(self).wf(),
        ensures
            batch@ == old(self)@.batch(),
            final(self)@ == old(self)@.committed(),
            final(self).wf(),
    {
        let due = self.list.indices_to_delete();
        let mut batch: Vec<DirEntryItem> = Vec::new();
        let mut k: usize = 0;
        while k < due.len()
            invariant
                k <= due.len(),
                crate::list::as_ints(due@) == old(self)@.list.to_delete(),
                forall|i: int| 0 <= i < due@.len() ==> #[trigger] due@[i] < self.list@.items.len(),
                batch@ == old(self)@.batch().take(k as int),
                self@ == (AppView { queued: old(self)@.queued + batch@, ..old(self)@ }),
            decreases due.len() - k,
        {
            assert(crate::list::as_ints(due@)[k as int] == due@[k as int]);
            let item = self.list.get(due[k]).clone();
            let copy = item.clone();
            let ghost before = batch@;
            self.actions.add_to_queue(copy);
            batch.push(item);
            proof {
                assert(batch@ =~= old(self)@.batch().take(k + 1));
                assert(old(self)@.queued + batch@ =~= (old(self)@.queued + before).push(item));
            }
            k += 1;
        }
        proof {
            assert(old(self)@.batch().take(due.len() as int) =~= old(self)@.batch());
        }
        batch
    }
}

} // verus!
