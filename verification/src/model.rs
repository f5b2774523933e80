//! The mathematical model of the application: its state as plain values, and
//! each transition as a function from state to state.

use vstd::prelude::*;
use crate::actions::{without, ActionState};
use crate::counters::{ItemCounter, Log};
use crate::dir_entry_item::DirEntryItem;
use crate::event::{DirDelete, DirSearch, Event, KeyCode, KeyEvent};
use crate::list::Toggle;
use crate::list_model::{increasing, ListView};
use crate::text::has_substring;

verus! {

/// The paths of the entries, in order.
pub open spec fn paths(items: Seq<DirEntryItem>) -> Seq<Seq<char>> {
    Seq::new(items.len(), |i: int| items[i].path@)
}

/// The indices of the paths in which `text` stands, in rising order.
pub open spec fn matching(paths: Seq<Seq<char>>, text: Seq<char>) -> Seq<int>
    decreases paths.len(),
{
    if paths.len() == 0 {
        Seq::empty()
    } else if has_substring(paths.last(), text) {
        matching(paths.drop_last(), text).push(paths.len() - 1)
    } else {
        matching(paths.drop_last(), text)
    }
}

/// `matching` names exactly the paths in which the text stands, in strictly
/// rising order.
pub proof fn lemma_matching(paths: Seq<Seq<char>>, text: Seq<char>)
    ensures
        increasing(matching(paths, text)),
        matching(paths, text).len() <= paths.len(),
        forall|i: int|
            0 <= i < matching(paths, text).len() ==> 0 <= #[trigger] matching(paths, text)[i]
                < paths.len(),
        forall|j: int|
            0 <= j < paths.len() ==> (#[trigger] matching(paths, text).contains(j)
                <==> has_substring(paths[j], text)),
    decreases paths.len(),
{
    if paths.len() > 0 {
        let front = paths.drop_last();
        lemma_matching(front, text);
        let m = matching(paths, text);
        let mf = matching(front, text);
        let n = paths.len() as int;
        assert forall|j: int| 0 <= j < n implies (#[trigger] m.contains(j) <==> has_substring(
            paths[j],
            text,
        )) by {
            if j < n - 1 {
                assert(front[j] == paths[j]);
                if mf.contains(j) {
                    let k = choose|k: int| 0 <= k < mf.len() && mf[k] == j;
                    assert(m[k] == j);
                }
                if m.contains(j) {
                    let k = choose|k: int| 0 <= k < m.len() && m[k] == j;
                    assert(mf[k] == j);
                }
            } else {
                if has_substring(paths.last(), text) {
                    assert(m[m.len() - 1] == j);
                }
                if m.contains(j) {
                    let k = choose|k: int| 0 <= k < m.len() && m[k] == j;
                    if k < mf.len() {
                        assert(mf[k] < n - 1);
                    }
                }
            }
        }
    }
}

/// Two strictly rising sequences with the same members are the same sequence.
pub proof fn lemma_rising_same_members(a: Seq<int>, b: Seq<int>)
    requires
        increasing(a),
        increasing(b),
        forall|x: int| a.contains(x) <==> b.contains(x),
    ensures
        a == b,
    decreases a.len(),
{
    if a.len() == 0 {
        if b.len() > 0 {
            assert(b.contains(b[0]));
        }
        assert(a =~= b);
    } else {
        assert(a.contains(a.last()));
        assert(b.contains(a.last()));
        assert(b.len() > 0);
        assert(b.contains(b.last()));
        assert(a.contains(b.last()));
        let ia = choose|i: int| 0 <= i < a.len() && a[i] == b.last();
        let ib = choose|i: int| 0 <= i < b.len() && b[i] == a.last();
        if ia < a.len() - 1 {
            assert(a[ia] < a[a.len() - 1]);
        }
        if ib < b.len() - 1 {
            assert(b[ib] < b[b.len() - 1]);
        }
        assert(a.last() == b.last());
        let fa = a.drop_last();
        let fb = b.drop_last();
        assert forall|x: int| fa.contains(x) <==> fb.contains(x) by {
            if fa.contains(x) {
                let i = choose|i: int| 0 <= i < fa.len() && fa[i] == x;
                assert(a[i] == x);
                assert(a[i] < a[a.len() - 1]);
                assert(a.contains(x));
                let j = choose|j: int| 0 <= j < b.len() && b[j] == x;
                assert(j < b.len() - 1);
                assert(fb[j] == x);
            }
            if fb.contains(x) {
                let i = choose|i: int| 0 <= i < fb.len() && fb[i] == x;
                assert(b[i] == x);
                assert(b[i] < b[b.len() - 1]);
                assert(b.contains(x));
                let j = choose|j: int| 0 <= j < a.len() && a[j] == x;
                assert(j < a.len() - 1);
                assert(fa[j] == x);
            }
        }
        assert(increasing(fa)) by {
            assert forall|i: int, j: int| 0 <= i < j < fa.len() implies fa[i] < fa[j] by {
                assert(a[i] < a[j]);
            }
        }
        assert(increasing(fb)) by {
            assert forall|i: int, j: int| 0 <= i < j < fb.len() implies fb[i] < fb[j] by {
                assert(b[i] < b[j]);
            }
        }
        lemma_rising_same_members(fa, fb);
        assert(a =~= fa.push(a.last()));
        assert(b =~= fb.push(b.last()));
    }
}

/// Whether the entry at `k` is the first one with the path `path`.
pub open spec fn is_first_with_path(items: Seq<DirEntryItem>, path: Seq<char>, k: int) -> bool {
    &&& 0 <= k < items.len()
    &&& items[k].path@ == path
    &&& forall|j: int| 0 <= j < k ==> (#[trigger] items[j]).path@ != path
}

/// The index of the first entry with the path `path`, if there is one.
pub open spec fn first_with_path(items: Seq<DirEntryItem>, path: Seq<char>) -> Option<int>
    decreases items.len(),
{
    if items.len() == 0 {
        None
    } else {
        match first_with_path(items.drop_last(), path) {
            Some(k) => Some(k),
            None => if items.last().path@ == path {
                Some(items.len() - 1)
            } else {
                None
            },
        }
    }
}

/// `first_with_path` gives the first entry with the path, and none exactly
/// where no entry has the path.
pub proof fn lemma_first_with_path(items: Seq<DirEntryItem>, path: Seq<char>)
    ensures
        match first_with_path(items, path) {
            Some(k) => is_first_with_path(items, path, k),
            None => forall|j: int| 0 <= j < items.len() ==> (#[trigger] items[j]).path@ != path,
        },
        forall|k: int| is_first_with_path(items, path, k) ==> first_with_path(items, path) == Some(k),
    decreases items.len(),
{
    if items.len() > 0 {
        let front = items.drop_last();
        lemma_first_with_path(front, path);
        match first_with_path(front, path) {
            Some(k) => {
                assert(front[k] == items[k]);
                assert forall|j: int| 0 <= j < k implies (#[trigger] items[j]).path@ != path by {
                    assert(front[j] == items[j]);
                }
            },
            None => {
                assert forall|j: int| 0 <= j < items.len() - 1 implies (#[trigger] items[j]).path@
                    != path by {
                    assert(front[j] == items[j]);
                }
            },
        }
    }
    assert forall|k: int| is_first_with_path(items, path, k) implies first_with_path(items, path)
        == Some(k) by {
        match first_with_path(items, path) {
            Some(c) => {
                if c < k {
                    assert(items[c].path@ != path);
                } else if k < c {
                    assert(items[k].path@ != path);
                }
            },
            None => {
                assert(items[k].path@ != path);
            },
        }
    }
}

/// Which entry is the first with a path depends on the paths alone.
pub proof fn lemma_first_with_path_same_paths(
    a: Seq<DirEntryItem>,
    b: Seq<DirEntryItem>,
    path: Seq<char>,
)
    requires
        paths(a) == paths(b),
    ensures
        first_with_path(a, path) == first_with_path(b, path),
{
    lemma_first_with_path(a, path);
    lemma_first_with_path(b, path);
    assert(a.len() == paths(a).len());
    assert(b.len() == paths(b).len());
    assert forall|j: int| 0 <= j < a.len() implies (#[trigger] a[j]).path@ == b[j].path@ by {
        assert(paths(a)[j] == a[j].path@);
        assert(paths(b)[j] == b[j].path@);
    }
    match first_with_path(a, path) {
        Some(k) => {
            assert forall|j: int| 0 <= j < k implies (#[trigger] b[j]).path@ != path by {
                assert(a[j].path@ != path);
            }
            assert(is_first_with_path(b, path, k));
        },
        None => {
            match first_with_path(b, path) {
                Some(c) => {
                    assert(a[c].path@ == path);
                },
                None => {},
            }
        },
    }
}

/// The tally of selected entries after the flag of an entry of `size` bytes
/// went from `before` to `after`.
pub open spec fn tally_after_flag(
    tally: ItemCounter,
    before: bool,
    after: bool,
    size: u64,
) -> ItemCounter {
    if before == after {
        tally
    } else if after {
        tally.added(size)
    } else {
        tally.taken(size)
    }
}

/// How many of the entries carry their own flag.
pub open spec fn flagged_count(items: Seq<DirEntryItem>) -> nat
    decreases items.len(),
{
    if items.len() == 0 {
        0
    } else {
        flagged_count(items.drop_last()) + if items.last().is_on {
            1nat
        } else {
            0nat
        }
    }
}

/// How many bytes the entries that carry their own flag occupy together.
pub open spec fn flagged_volume(items: Seq<DirEntryItem>) -> nat
    decreases items.len(),
{
    if items.len() == 0 {
        0
    } else {
        flagged_volume(items.drop_last()) + if items.last().is_on {
            items.last().size as nat
        } else {
            0nat
        }
    }
}

/// The entries picked by the storage indices `picks`, in that order.
pub open spec fn picked(items: Seq<DirEntryItem>, picks: Seq<int>) -> Seq<DirEntryItem> {
    Seq::new(picks.len(), |i: int| items[picks[i]])
}

/// The state of the application as plain values.
pub struct AppView {
    /// Whether the application goes on.
    pub running: bool,
    /// The list of entries, with cursor, filter and group selection.
    pub list: ListView<DirEntryItem>,
    /// Whether key presses go to the filter text.
    pub search_mode: bool,
    /// The filter text, if there is one.
    pub filter: Option<Seq<char>>,
    /// The tallies of removals in flight, completed and failed.
    pub deleting: Log,
    /// The tally of the entries that carry their own flag.
    pub selected: ItemCounter,
    /// The entries that the scanner has visited.
    pub search_counter: u64,
    /// The directories that the finished scan has found.
    pub search_results: u64,
    /// The ledger: entries handed to the deletion pipeline and not yet started.
    pub queued: Seq<DirEntryItem>,
    /// The ledger: entries being removed.
    pub current: Seq<DirEntryItem>,
    /// The ledger: entries that were removed.
    pub history: Seq<DirEntryItem>,
    /// The ledger: entries that could not be removed, each with the reason.
    pub failed: Seq<(DirEntryItem, String)>,
}

impl AppView {
    /// The state in which the application starts.
    pub open spec fn initial() -> AppView {
        AppView {
            running: true,
            list: ListView::empty(),
            search_mode: false,
            filter: None,
            deleting: Log::empty(),
            selected: ItemCounter::zero(),
            search_counter: 0,
            search_results: 0,
            queued: Seq::empty(),
            current: Seq::empty(),
            history: Seq::empty(),
            failed: Seq::empty(),
        }
    }

    /// The entries, in order of discovery.
    pub open spec fn entries(self) -> Seq<DirEntryItem> {
        self.list.items
    }

    /// The validity of a state: the list is valid, and the visible entries
    /// are those whose path holds the filter text.
    pub open spec fn wf(self) -> bool {
        &&& self.list.wf()
        &&& match self.filter {
            Some(text) => self.list.filter == Some(matching(paths(self.list.items), text)),
            None => self.list.filter is None,
        }
    }

    /// Whether the tally of selected entries is exactly the number and the
    /// volume of the entries that carry their own flag.
    pub open spec fn tally_is_exact(self) -> bool {
        &&& self.selected.count == flagged_count(self.list.items)
        &&& self.selected.total_size == flagged_volume(self.list.items)
    }

    /// The state with the filter text applied to the list as it stands.
    pub open spec fn refiltered(self) -> AppView {
        match self.filter {
            Some(text) => AppView {
                list: self.list.filtered(matching(paths(self.list.items), text)),
                ..self
            },
            None => AppView { list: self.list.unfiltered(), ..self },
        }
    }

    /// The state after the application was told to stop.
    pub open spec fn stopped(self) -> AppView {
        AppView { running: false, ..self }
    }

    /// The state after a new entry has arrived.
    pub open spec fn with_entry(self, item: DirEntryItem) -> AppView {
        AppView { list: self.list.pushed(item), ..self }.refiltered()
    }

    /// The state after the entry under the cursor was toggled. An idle entry
    /// has its flag flipped, the tally of selected entries follows, and the
    /// group selection gives way to the per-item flags. Without an idle entry
    /// under the cursor nothing changes.
    pub open spec fn toggled(self) -> AppView {
        match self.list.selected_index() {
            Some(s) => {
                let item = self.list.items[s];
                if item.is_idle_spec() {
                    AppView {
                        list: self.list.with_item(s, item.toggled()).with_group(None),
                        selected: tally_after_flag(self.selected, item.is_on, !item.is_on, item.size),
                        ..self
                    }
                } else {
                    self
                }
            },
            None => self,
        }
    }

    /// The state after the entry under the cursor had its flag set to `on`
    /// and the cursor stepped forward. The flag of an entry that is not idle
    /// stays; the group selection gives way to the per-item flags in any
    /// case.
    pub open spec fn switched_and_advanced(self, on: bool) -> AppView {
        match self.list.selected_index() {
            Some(s) => {
                let item = self.list.items[s];
                AppView {
                    list: self.list.with_item(s, item.switched(on)).with_group(None).next(),
                    selected: tally_after_flag(
                        self.selected,
                        item.is_on,
                        item.switched(on).is_on,
                        item.size,
                    ),
                    ..self
                }
            },
            None => AppView { list: self.list.with_group(None).next(), ..self },
        }
    }

    /// The state after the cursor stepped forward.
    pub open spec fn advanced(self) -> AppView {
        AppView { list: self.list.next(), ..self }
    }

    /// The state after the cursor stepped back.
    pub open spec fn retreated(self) -> AppView {
        AppView { list: self.list.previous(), ..self }
    }

    /// The state after the group selection was cycled.
    pub open spec fn group_cycled(self) -> AppView {
        AppView { list: self.list.group_cycled(), ..self }
    }

    /// The state with key presses going to the filter text, or not.
    pub open spec fn with_search_mode(self, on: bool) -> AppView {
        AppView { search_mode: on, ..self }
    }

    /// The state after a character was added to the filter text.
    pub open spec fn filter_appended(self, c: char) -> AppView {
        let text = match self.filter {
            Some(t) => t.push(c),
            None => seq![c],
        };
        AppView { filter: Some(text), ..self }.refiltered()
    }

    /// The state after the last character was taken off the filter text. A
    /// text that becomes empty is dropped, and with it the filter and the
    /// search mode.
    pub open spec fn filter_popped(self) -> AppView {
        match self.filter {
            Some(t) => if t.len() <= 1 {
                AppView { filter: None, search_mode: false, ..self }.refiltered()
            } else {
                AppView { filter: Some(t.drop_last()), ..self }.refiltered()
            },
            None => self,
        }
    }

    /// The state after a report of the scanner.
    pub open spec fn after_search(self, report: DirSearch) -> AppView {
        match report {
            DirSearch::Started => AppView {
                list: self.list.with_scanning(Some(ActionState::Pending)),
                ..self
            },
            DirSearch::Finished(visited, found) => AppView {
                list: self.list.with_scanning(Some(ActionState::Done)),
                search_counter: visited,
                search_results: found,
                ..self
            },
            DirSearch::Found(path, size) => self.with_entry(DirEntryItem::discovered(path, size)),
            DirSearch::Progress(visited) => AppView { search_counter: visited, ..self },
        }
    }

    /// The state after the removal of the first entry with `path` has begun:
    /// the entry is pending, its size joins the tally of removals in flight,
    /// and in the ledger it moves from the queue to the entries being removed.
    /// Without such an entry nothing changes.
    pub open spec fn after_deleting(self, path: Seq<char>) -> AppView {
        match first_with_path(self.list.items, path) {
            Some(k) => {
                let item = self.list.items[k].with_state(Some(ActionState::Pending));
                AppView {
                    list: self.list.with_item(k, item),
                    deleting: self.deleting.started(item.size),
                    queued: without(self.queued, item),
                    current: self.current.push(item),
                    ..self
                }
            },
            None => self,
        }
    }

    /// The state after the first entry with `path` was removed: the entry
    /// leaves the list, its size moves from the tally of removals in flight
    /// to the completed ones and leaves the tally of selected entries if it
    /// was flagged, and in the ledger it moves to the history. Without such
    /// an entry nothing changes.
    pub open spec fn after_deleted(self, path: Seq<char>) -> AppView {
        match first_with_path(self.list.items, path) {
            Some(k) => {
                let item = self.list.items[k].with_state(Some(ActionState::Done));
                AppView {
                    list: self.list.removed(k),
                    deleting: self.deleting.completed(item.size),
                    selected: tally_after_flag(self.selected, item.is_on, false, item.size),
                    current: without(self.current, item),
                    history: self.history.push(item),
                    ..self
                }.refiltered()
            },
            None => self,
        }
    }

    /// The state after the removal of the first entry with `path` has failed:
    /// the entry stays, tagged with the reason, its size moves from the tally
    /// of removals in flight to the failed ones, and in the ledger it moves to
    /// the failures. Without such an entry nothing changes.
    pub open spec fn after_failed(self, path: Seq<char>, reason: String) -> AppView {
        match first_with_path(self.list.items, path) {
            Some(k) => {
                let item = self.list.items[k].with_state(Some(ActionState::Failed(reason)));
                AppView {
                    list: self.list.with_item(k, item),
                    deleting: self.deleting.aborted(item.size),
                    current: without(self.current, item),
                    failed: self.failed.push((item, reason)),
                    ..self
                }
            },
            None => self,
        }
    }

    /// The state after a report of a deletion worker.
    pub open spec fn after_delete(self, report: DirDelete) -> AppView {
        match report {
            DirDelete::Deleting(path, _) => self.after_deleting(path@),
            DirDelete::Deleted(path, _) => self.after_deleted(path@),
            DirDelete::Failed(path, _, reason) => self.after_failed(path@, reason),
        }
    }

    /// The entries to hand to the deletion pipeline on a commit.
    pub open spec fn batch(self) -> Seq<DirEntryItem> {
        picked(self.list.items, self.list.to_delete())
    }

    /// The state after a commit: the batch stands in the queue of the ledger.
    pub open spec fn committed(self) -> AppView {
        AppView { queued: self.queued + self.batch(), ..self }
    }

    /// The state after a key press.
    pub open spec fn after_key(self, key: KeyEvent) -> AppView {
        if self.search_mode {
            match key.code {
                KeyCode::Esc => self.with_search_mode(false),
                KeyCode::Enter => self.with_search_mode(false),
                KeyCode::Char(c) => if c == '/' {
                    self.with_search_mode(false)
                } else {
                    self.filter_appended(c)
                },
                KeyCode::Backspace => self.filter_popped(),
                _ => self,
            }
        } else {
            match key.code {
                KeyCode::Esc => self.stopped(),
                KeyCode::Char(c) => if c == 'q' {
                    self.stopped()
                } else if c == 'c' || c == 'C' {
                    if key.control {
                        self.stopped()
                    } else {
                        self
                    }
                } else if c == ' ' {
                    self.toggled()
                } else if c == 'a' || c == 'A' {
                    self.group_cycled()
                } else if c == '/' {
                    self.with_search_mode(true)
                } else {
                    self
                },
                KeyCode::Right => self.switched_and_advanced(true),
                KeyCode::Left => self.switched_and_advanced(false),
                KeyCode::Down => self.advanced(),
                KeyCode::Up => self.retreated(),
                KeyCode::Tab => self.group_cycled(),
                KeyCode::Enter => self.committed(),
                _ => self,
            }
        }
    }

    /// The entries to hand to the deletion pipeline after a key press: the
    /// batch on Enter outside the search mode, nothing otherwise.
    pub open spec fn batch_for_key(self, key: KeyEvent) -> Seq<DirEntryItem> {
        if !self.search_mode && key.code == KeyCode::Enter {
            self.batch()
        } else {
            Seq::empty()
        }
    }

    /// The state after an event.
    pub open spec fn after(self, event: Event) -> AppView {
        match event {
            Event::Tick => self,
            Event::Key(key) => self.after_key(key),
            Event::Mouse => self,
            Event::Resize(_, _) => self,
            Event::Search(report) => self.after_search(report),
            Event::Delete(report) => self.after_delete(report),
        }
    }

    /// The entries to hand to the deletion pipeline after an event.
    pub open spec fn batch_for(self, event: Event) -> Seq<DirEntryItem> {
        match event {
            Event::Key(key) => self.batch_for_key(key),
            _ => Seq::empty(),
        }
    }
}

} // verus!
