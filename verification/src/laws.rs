//! What holds of the model in every state: laws of the cursor, the filter,
//! the selection and the count of live entries.

use vstd::prelude::*;
use crate::dir_entry_item::{lemma_toggle_twice, DirEntryItem};
use crate::event::{DirDelete, DirSearch, Event, KeyCode, KeyEvent};
use crate::list::Toggle;
use crate::list_model::{increasing, lemma_indices_after_removal, lemma_position, ListView};
use crate::actions::{without, ActionState};
use crate::app::GroupSelection;
use crate::model::{
    first_with_path, flagged_count, flagged_volume, lemma_first_with_path,
    lemma_first_with_path_same_paths, lemma_matching, matching, paths, tally_after_flag, AppView,
};
use crate::text::has_substring;

verus! {

/// Stepping forward and then back brings the cursor back to where it was,
/// whenever it was set or nothing is visible. Over one visible item or none a
/// second step forward changes nothing.
pub proof fn lemma_next_then_previous<T>(list: ListView<T>)
    requires
        list.wf(),
        list.cursor is Some || list.visible().len() == 0,
    ensures
        list.next().previous() == list,
        list.visible().len() <= 1 ==> list.next().next() == list.next(),
{
}

/// Stepping back and then forward brings the cursor back to where it was,
/// whenever it was set or nothing is visible.
pub proof fn lemma_previous_then_next<T>(list: ListView<T>)
    requires
        list.wf(),
        list.cursor is Some || list.visible().len() == 0,
    ensures
        list.previous().next() == list,
{
}

/// A step of the cursor keeps the list valid and touches nothing but the
/// cursor, which stands on a visible item afterwards whenever one exists.
pub proof fn lemma_steps_keep_validity<T>(list: ListView<T>)
    requires
        list.wf(),
    ensures
        list.next().wf(),
        list.previous().wf(),
        list.visible().len() > 0 ==> list.next().cursor is Some && list.previous().cursor is Some,
        list.visible().len() == 0 ==> list.next().cursor is None && list.previous().cursor is None,
{
}

/// A filter that hides the item under the cursor clears the cursor, and
/// dropping the filter afterwards does not bring it back. A filter that lets
/// the item pass leaves the cursor on that item.
pub proof fn lemma_filter_and_cursor<T>(list: ListView<T>, kept: Seq<int>)
    requires
        list.wf(),
        increasing(kept),
        forall|i: int| 0 <= i < kept.len() ==> 0 <= #[trigger] kept[i] < list.items.len(),
    ensures
        list.filtered(kept).wf(),
        list.filtered(kept).unfiltered().wf(),
        match list.selected_index() {
            Some(s) => if kept.contains(s) {
                list.filtered(kept).selected_index() == Some(s)
                    && list.filtered(kept).unfiltered().cursor == Some(s)
            } else {
                list.filtered(kept).cursor is None && list.filtered(kept).unfiltered().cursor
                    is None
            },
            None => list.filtered(kept).cursor is None && list.filtered(kept).unfiltered().cursor
                is None,
        },
{
    match list.selected_index() {
        Some(s) => {
            if kept.contains(s) {
                let k = choose|k: int| 0 <= k < kept.len() && kept[k] == s;
                lemma_position(kept, s, k);
            }
        },
        None => {},
    }
}

/// Dropping the filter keeps the list valid and leaves the cursor on its
/// item: it never points at an index that is not there.
pub proof fn lemma_unfiltered_keeps_cursor<T>(list: ListView<T>)
    requires
        list.wf(),
    ensures
        list.unfiltered().wf(),
        list.unfiltered().selected_index() == list.selected_index(),
        list.unfiltered().items == list.items,
{
}

/// After an item has left, the list is valid, one item shorter, and the
/// cursor stands on the item it stood on before, unless that item is the one
/// that left.
pub proof fn lemma_removed_keeps_validity<T>(list: ListView<T>, gone: int)
    requires
        list.wf(),
        0 <= gone < list.items.len(),
    ensures
        list.removed(gone).wf(),
        list.removed(gone).items.len() == list.items.len() - 1,
        list.selected_index() == Some(gone) ==> list.removed(gone).cursor is None,
        list.removed(gone).cursor is Some ==> list.selected_index() is Some && list.removed(
            gone,
        ).selected() == list.selected(),
{
    let n = list.items.len() as int;
    let after = list.removed(gone);
    match list.filter {
        Some(f) => {
            lemma_indices_after_removal(f, gone, n);
        },
        None => {},
    }
    match list.selected_index() {
        Some(s) => {
            if s != gone {
                let x = if s > gone {
                    s - 1
                } else {
                    s
                };
                if after.cursor is Some {
                    let c = after.cursor->0;
                    assert(after.visible()[c] == x);
                    assert(after.items[x] == list.items[s]);
                }
            }
        },
        None => {},
    }
}

/// Toggling the entry under the cursor twice brings every entry back to its
/// flag; an entry that is not idle is not changed by a toggle at all.
pub proof fn lemma_toggle_selected_twice(state: AppView)
    requires
        state.wf(),
    ensures
        state.toggled().toggled().list.items == state.list.items,
        state.toggled().list.cursor == state.list.cursor,
        state.list.selected() matches Some(item) && !item.is_idle_spec() ==> state.toggled() == state,
        state.list.selected() is None ==> state.toggled() == state,
{
    match state.list.selected_index() {
        Some(s) => {
            let item = state.list.items[s];
            lemma_toggle_twice(item);
            assert(state.toggled().toggled().list.items =~= state.list.items);
        },
        None => {},
    }
}

/// Cycling the group selection never ends in the per-item state and changes
/// nothing but the group selection.
pub proof fn lemma_group_cycled(state: AppView)
    ensures
        state.group_cycled().list.group is Some,
        state.group_cycled().list.items == state.list.items,
        state.group_cycled().list.cursor == state.list.cursor,
{
}

/// The state after a sequence of events, applied in order.
pub open spec fn replay(state: AppView, events: Seq<Event>) -> AppView
    decreases events.len(),
{
    if events.len() == 0 {
        state
    } else {
        replay(state, events.drop_last()).after(events.last())
    }
}

/// Whether the event reports a directory found.
pub open spec fn is_found(event: Event) -> bool {
    event matches Event::Search(DirSearch::Found(_, _))
}

/// Whether the event reports the removal of a directory that `state` lists.
pub open spec fn removes_entry(state: AppView, event: Event) -> bool {
    event matches Event::Delete(DirDelete::Deleted(path, _)) && first_with_path(
        state.list.items,
        path@,
    ) is Some
}

/// How many of the events report a directory found.
pub open spec fn found_count(events: Seq<Event>) -> nat
    decreases events.len(),
{
    if events.len() == 0 {
        0
    } else {
        found_count(events.drop_last()) + if is_found(events.last()) {
            1nat
        } else {
            0nat
        }
    }
}

/// How many of the events, applied in order from `state`, report the removal
/// of a directory that is listed when the report arrives.
pub open spec fn removed_count(state: AppView, events: Seq<Event>) -> nat
    decreases events.len(),
{
    if events.len() == 0 {
        0
    } else {
        removed_count(state, events.drop_last()) + if removes_entry(
            replay(state, events.drop_last()),
            events.last(),
        ) {
            1nat
        } else {
            0nat
        }
    }
}

/// A key press leaves the number of live entries as it is.
pub proof fn lemma_key_keeps_entry_count(state: AppView, key: KeyEvent)
    ensures
        state.after_key(key).entries().len() == state.entries().len(),
{
    assert(state.refiltered().entries() == state.entries());
    assert(state.toggled().entries().len() == state.entries().len());
    assert(state.switched_and_advanced(true).entries().len() == state.entries().len());
    assert(state.switched_and_advanced(false).entries().len() == state.entries().len());
    assert(state.filter_popped().entries() == state.entries()) by {
        match state.filter {
            Some(t) => {
                let shorter = AppView { filter: Some(t.drop_last()), ..state };
                let dropped = AppView { filter: None, search_mode: false, ..state };
                assert(shorter.refiltered().entries() == state.entries());
                assert(dropped.refiltered().entries() == state.entries());
            },
            None => {},
        }
    }
    match key.code {
        KeyCode::Char(c) => {
            assert(state.filter_appended(c).entries() == state.entries());
        },
        _ => {},
    }
}

/// One event changes the number of live entries by exactly this: a directory
/// found adds one, the removal of a listed directory takes one away, and
/// nothing else changes it.
pub proof fn lemma_entry_count_step(state: AppView, event: Event)
    ensures
        state.after(event).entries().len() == state.entries().len() + (if is_found(event) {
            1int
        } else {
            0int
        }) - (if removes_entry(state, event) {
            1int
        } else {
            0int
        }),
{
    match event {
        Event::Key(key) => {
            lemma_key_keeps_entry_count(state, key);
        },
        Event::Search(report) => {
            match report {
                DirSearch::Found(path, size) => {
                    let item = DirEntryItem::discovered(path, size);
                    let grown = AppView { list: state.list.pushed(item), ..state };
                    assert(grown.refiltered().entries() == grown.entries());
                    assert(grown.entries().len() == state.entries().len() + 1);
                },
                _ => {},
            }
        },
        Event::Delete(report) => {
            match report {
                DirDelete::Deleting(path, _) => {
                    lemma_first_with_path(state.list.items, path@);
                },
                DirDelete::Deleted(path, _) => {
                    lemma_first_with_path(state.list.items, path@);
                    match first_with_path(state.list.items, path@) {
                        Some(k) => {
                            let shrunk = AppView { list: state.list.removed(k), ..state };
                            assert(shrunk.entries().len() == state.entries().len() - 1);
                            assert(state.after_deleted(path@).entries() == shrunk.entries());
                        },
                        None => {},
                    }
                },
                DirDelete::Failed(path, _, _) => {
                    lemma_first_with_path(state.list.items, path@);
                },
            }
        },
        _ => {},
    }
}

/// After any sequence of events the number of live entries is the number at
/// the start, plus the directories found, minus the listed directories
/// removed.
pub proof fn lemma_entry_count(state: AppView, events: Seq<Event>)
    ensures
        replay(state, events).entries().len() == state.entries().len() + found_count(events)
            - removed_count(state, events),
    decreases events.len(),
{
    if events.len() > 0 {
        lemma_entry_count(state, events.drop_last());
        lemma_entry_count_step(replay(state, events.drop_last()), events.last());
    }
}

/// From the start of the application the number of live entries is the
/// number of directories found minus the number of listed directories
/// removed.
pub proof fn lemma_entry_count_from_start(events: Seq<Event>)
    ensures
        replay(AppView::initial(), events).entries().len() == found_count(events) - removed_count(
            AppView::initial(),
            events,
        ),
{
    lemma_entry_count(AppView::initial(), events);
}

/// Applying the filter text to a state whose list is valid gives a valid
/// state with the same entries.
pub proof fn lemma_refiltered_is_valid(state: AppView)
    requires
        state.list.wf(),
    ensures
        state.refiltered().wf(),
        state.refiltered().entries() == state.entries(),
{
    match state.filter {
        Some(text) => {
            let kept = matching(paths(state.list.items), text);
            lemma_matching(paths(state.list.items), text);
            lemma_filter_and_cursor(state.list, kept);
        },
        None => {
            lemma_unfiltered_keeps_cursor(state.list);
        },
    }
}

/// Replacing an entry by one with the same path leaves a valid state valid.
pub proof fn lemma_same_path_keeps_validity(state: AppView, at: int, item: DirEntryItem)
    requires
        state.wf(),
        0 <= at < state.list.items.len() ==> item.path@ == state.list.items[at].path@,
    ensures
        (AppView { list: state.list.with_item(at, item), ..state }).wf(),
        paths(state.list.with_item(at, item).items) == paths(state.list.items),
{
    assert(paths(state.list.with_item(at, item).items) =~= paths(state.list.items));
}

/// A key press takes a valid state to a valid state.
pub proof fn lemma_key_keeps_validity(state: AppView, key: KeyEvent)
    requires
        state.wf(),
    ensures
        state.after_key(key).wf(),
{
    lemma_steps_keep_validity(state.list);
    match state.list.selected_index() {
        Some(s) => {
            let item = state.list.items[s];
            lemma_same_path_keeps_validity(state, s, item.toggled());
            lemma_same_path_keeps_validity(state, s, item.switched(true));
            lemma_same_path_keeps_validity(state, s, item.switched(false));
            lemma_steps_keep_validity(state.list.with_item(s, item.switched(true)).with_group(None));
            lemma_steps_keep_validity(
                state.list.with_item(s, item.switched(false)).with_group(None),
            );
        },
        None => {
            lemma_steps_keep_validity(state.list.with_group(None));
        },
    }
    match state.filter {
        Some(t) => {
            lemma_refiltered_is_valid(AppView { filter: Some(t.drop_last()), ..state });
            lemma_refiltered_is_valid(AppView { filter: None, search_mode: false, ..state });
        },
        None => {},
    }
    match key.code {
        KeyCode::Char(c) => {
            let text = match state.filter {
                Some(t) => t.push(c),
                None => seq![c],
            };
            lemma_refiltered_is_valid(AppView { filter: Some(text), ..state });
        },
        _ => {},
    }
}

/// An event takes a valid state to a valid state: the cursor stands on a
/// visible entry or is unset, and the visible entries are those whose path
/// holds the filter text.
pub proof fn lemma_event_keeps_validity(state: AppView, event: Event)
    requires
        state.wf(),
    ensures
        state.after(event).wf(),
{
    match event {
        Event::Key(key) => {
            lemma_key_keeps_validity(state, key);
        },
        Event::Search(report) => {
            match report {
                DirSearch::Found(path, size) => {
                    let item = DirEntryItem::discovered(path, size);
                    lemma_refiltered_is_valid(AppView { list: state.list.pushed(item), ..state });
                },
                _ => {},
            }
        },
        Event::Delete(report) => {
            match report {
                DirDelete::Deleting(path, _) => {
                    lemma_first_with_path(state.list.items, path@);
                    match first_with_path(state.list.items, path@) {
                        Some(k) => {
                            lemma_same_path_keeps_validity(
                                state,
                                k,
                                state.list.items[k].with_state(Some(ActionState::Pending)),
                            );
                        },
                        None => {},
                    }
                },
                DirDelete::Deleted(path, _) => {
                    lemma_first_with_path(state.list.items, path@);
                    match first_with_path(state.list.items, path@) {
                        Some(k) => {
                            lemma_removed_keeps_validity(state.list, k);
                            let item = state.list.items[k].with_state(Some(ActionState::Done));
                            lemma_refiltered_is_valid(
                                AppView {
                                    list: state.list.removed(k),
                                    deleting: state.deleting.completed(item.size),
                                    selected: tally_after_flag(
                                        state.selected,
                                        item.is_on,
                                        false,
                                        item.size,
                                    ),
                                    current: without(state.current, item),
                                    history: state.history.push(item),
                                    ..state
                                },
                            );
                        },
                        None => {},
                    }
                },
                DirDelete::Failed(path, _, reason) => {
                    lemma_first_with_path(state.list.items, path@);
                    match first_with_path(state.list.items, path@) {
                        Some(k) => {
                            lemma_same_path_keeps_validity(
                                state,
                                k,
                                state.list.items[k].with_state(Some(ActionState::Failed(reason))),
                            );
                        },
                        None => {},
                    }
                },
            }
        },
        _ => {},
    }
}

/// Every state that a sequence of events reaches from a valid state is valid.
pub proof fn lemma_replay_keeps_validity(state: AppView, events: Seq<Event>)
    requires
        state.wf(),
    ensures
        replay(state, events).wf(),
    decreases events.len(),
{
    if events.len() > 0 {
        lemma_replay_keeps_validity(state, events.drop_last());
        lemma_event_keeps_validity(replay(state, events.drop_last()), events.last());
    }
}

/// Extending the filter text so that the path of the entry under the cursor
/// no longer holds it clears the cursor, and taking the text away again does
/// not bring the cursor back.
pub proof fn lemma_filter_text_and_cursor(state: AppView, c: char)
    requires
        state.wf(),
        state.list.selected() matches Some(item) && !has_substring(
            item.path@,
            state.filter_appended(c).filter->0,
        ),
    ensures
        state.filter_appended(c).list.cursor is None,
        (AppView { filter: None, ..state.filter_appended(c) }).refiltered().list.cursor is None,
{
    let text = state.filter_appended(c).filter->0;
    let kept = matching(paths(state.list.items), text);
    lemma_matching(paths(state.list.items), text);
    lemma_filter_and_cursor(state.list, kept);
    let s = state.list.selected_index()->0;
    assert(paths(state.list.items)[s] == state.list.items[s].path@);
}

/// Every entry of a batch is visible and idle: an entry whose removal is in
/// flight or has failed is never handed to the deletion pipeline again,
/// whatever its flag and whatever the group selection. Under "all off" the
/// batch is empty.
pub proof fn lemma_batch_is_idle(state: AppView)
    requires
        state.wf(),
    ensures
        forall|i: int|
            0 <= i < state.batch().len() ==> (#[trigger] state.batch()[i]).is_idle_spec(),
        forall|i: int|
            0 <= i < state.list.to_delete().len() ==> state.list.visible().contains(
                #[trigger] state.list.to_delete()[i],
            ),
        state.list.group == Some(GroupSelection::AllOff) ==> state.batch().len() == 0,
        state.list.group is None ==> forall|i: int|
            0 <= i < state.batch().len() ==> (#[trigger] state.batch()[i]).is_on,
{
    let due = state.list.to_delete();
    state.list.lemma_due_among(state.list.visible());
    assert forall|i: int| 0 <= i < due.len() implies state.list.visible().contains(
        #[trigger] due[i],
    ) && state.list.due(due[i]) by {
        assert(due.contains(due[i]));
    }
    if state.list.group == Some(GroupSelection::AllOff) {
        if due.len() > 0 {
            assert(state.list.due(due[0]));
        }
    }
}

/// A removal that begins and then completes takes the entry off the list,
/// brings the tally of removals in flight back to where it was and adds the
/// entry's size to the tally of completed removals, as long as the tally in
/// flight did not overflow.
pub proof fn lemma_deleting_then_deleted(state: AppView, path: Seq<char>)
    requires
        state.wf(),
        first_with_path(state.list.items, path) is Some,
        state.deleting.current.count < usize::MAX,
        state.deleting.current.total_size + state.list.items[first_with_path(
            state.list.items,
            path,
        )->0].size <= u64::MAX,
    ensures
        ({
            let k = first_with_path(state.list.items, path)->0;
            let size = state.list.items[k].size;
            let end = state.after_deleting(path).after_deleted(path);
            &&& end.deleting.current == state.deleting.current
            &&& end.deleting.history == state.deleting.history.added(size)
            &&& end.deleting.failed == state.deleting.failed
            &&& end.entries() == state.entries().remove(k)
        }),
{
    let k = first_with_path(state.list.items, path)->0;
    lemma_first_with_path(state.list.items, path);
    let item = state.list.items[k].with_state(Some(ActionState::Pending));
    let mid = state.after_deleting(path);
    lemma_same_path_keeps_validity(state, k, item);
    lemma_first_with_path_same_paths(mid.list.items, state.list.items, path);
    lemma_first_with_path(mid.list.items, path);
    let done = mid.list.items[k].with_state(Some(ActionState::Done));
    let shrunk = AppView {
        list: mid.list.removed(k),
        deleting: mid.deleting.completed(done.size),
        selected: tally_after_flag(mid.selected, done.is_on, false, done.size),
        current: without(mid.current, done),
        history: mid.history.push(done),
        ..mid
    };
    assert(shrunk.refiltered().entries() == shrunk.entries());
    assert(mid.list.items.remove(k) =~= state.list.items.remove(k));
}

/// A removal that begins and then fails leaves the entry on the list, tagged
/// as failed with the reason, brings the tally of removals in flight back to
/// where it was and adds the entry's size to the tally of failed removals, as
/// long as the tally in flight did not overflow. The entry is in no batch
/// afterwards.
pub proof fn lemma_deleting_then_failed(state: AppView, path: Seq<char>, reason: String)
    requires
        state.wf(),
        first_with_path(state.list.items, path) is Some,
        state.deleting.current.count < usize::MAX,
        state.deleting.current.total_size + state.list.items[first_with_path(
            state.list.items,
            path,
        )->0].size <= u64::MAX,
    ensures
        ({
            let k = first_with_path(state.list.items, path)->0;
            let size = state.list.items[k].size;
            let end = state.after_deleting(path).after_failed(path, reason);
            &&& end.deleting.current == state.deleting.current
            &&& end.deleting.failed == state.deleting.failed.added(size)
            &&& end.deleting.history == state.deleting.history
            &&& end.entries() == state.entries().update(
                k,
                state.entries()[k].with_state(Some(ActionState::Failed(reason))),
            )
            &&& !end.list.to_delete().contains(k)
        }),
{
    let k = first_with_path(state.list.items, path)->0;
    lemma_first_with_path(state.list.items, path);
    let item = state.list.items[k].with_state(Some(ActionState::Pending));
    let mid = state.after_deleting(path);
    lemma_same_path_keeps_validity(state, k, item);
    lemma_first_with_path_same_paths(mid.list.items, state.list.items, path);
    lemma_first_with_path(mid.list.items, path);
    let end = mid.after_failed(path, reason);
    assert(end.entries() =~= state.entries().update(
        k,
        state.entries()[k].with_state(Some(ActionState::Failed(reason))),
    ));
    end.list.lemma_due_among(end.list.visible());
}


/// The share of one entry in the count of flagged entries.
pub open spec fn count_share(item: DirEntryItem) -> nat {
    if item.is_on {
        1
    } else {
        0
    }
}

/// The share of one entry in the volume of flagged entries.
pub open spec fn volume_share(item: DirEntryItem) -> nat {
    if item.is_on {
        item.size as nat
    } else {
        0
    }
}

/// Replacing one entry changes the count and the volume of flagged entries by
/// the difference of the two entries' shares.
pub proof fn lemma_flagged_after_update(items: Seq<DirEntryItem>, at: int, item: DirEntryItem)
    requires
        0 <= at < items.len(),
    ensures
        flagged_count(items.update(at, item)) + count_share(items[at]) == flagged_count(items)
            + count_share(item),
        flagged_volume(items.update(at, item)) + volume_share(items[at]) == flagged_volume(items)
            + volume_share(item),
    decreases items.len(),
{
    let after = items.update(at, item);
    if at == items.len() - 1 {
        assert(after.drop_last() =~= items.drop_last());
    } else {
        lemma_flagged_after_update(items.drop_last(), at, item);
        assert(after.drop_last() =~= items.drop_last().update(at, item));
    }
}

/// Taking one entry away takes its shares off the count and the volume of
/// flagged entries.
pub proof fn lemma_flagged_after_removal(items: Seq<DirEntryItem>, at: int)
    requires
        0 <= at < items.len(),
    ensures
        flagged_count(items.remove(at)) + count_share(items[at]) == flagged_count(items),
        flagged_volume(items.remove(at)) + volume_share(items[at]) == flagged_volume(items),
    decreases items.len(),
{
    let after = items.remove(at);
    if at == items.len() - 1 {
        assert(after =~= items.drop_last());
    } else {
        lemma_flagged_after_removal(items.drop_last(), at);
        assert(after.drop_last() =~= items.drop_last().remove(at));
        assert(after.last() == items.last());
    }
}

/// A key press keeps the tally of selected entries exact, as long as the
/// number and the volume of the flagged entries still fit the tally.
pub proof fn lemma_key_keeps_tally_exact(state: AppView, key: KeyEvent)
    requires
        state.wf(),
        state.tally_is_exact(),
        flagged_count(state.after_key(key).entries()) <= usize::MAX,
        flagged_volume(state.after_key(key).entries()) <= u64::MAX,
    ensures
        state.after_key(key).tally_is_exact(),
{
    lemma_key_keeps_entry_count(state, key);
    assert(state.refiltered().selected == state.selected);
    assert(state.refiltered().entries() == state.entries());
    match state.filter {
        Some(t) => {
            let shorter = AppView { filter: Some(t.drop_last()), ..state };
            let dropped = AppView { filter: None, search_mode: false, ..state };
            assert(shorter.refiltered().entries() == state.entries());
            assert(dropped.refiltered().entries() == state.entries());
        },
        None => {},
    }
    match key.code {
        KeyCode::Char(c) => {
            assert(state.filter_appended(c).entries() == state.entries());
        },
        _ => {},
    }
    match state.list.selected_index() {
        Some(s) => {
            let item = state.list.items[s];
            lemma_flagged_after_update(state.list.items, s, item.toggled());
            lemma_flagged_after_update(state.list.items, s, item.switched(true));
            lemma_flagged_after_update(state.list.items, s, item.switched(false));
        },
        None => {},
    }
}

/// An event keeps the tally of selected entries exact, as long as the number
/// and the volume of the flagged entries still fit the tally: the tally
/// counts the entries that carry their own flag and adds up their sizes.
pub proof fn lemma_event_keeps_tally_exact(state: AppView, event: Event)
    requires
        state.wf(),
        state.tally_is_exact(),
        flagged_count(state.after(event).entries()) <= usize::MAX,
        flagged_volume(state.after(event).entries()) <= u64::MAX,
    ensures
        state.after(event).tally_is_exact(),
{
    match event {
        Event::Key(key) => {
            lemma_key_keeps_tally_exact(state, key);
        },
        Event::Search(report) => {
            match report {
                DirSearch::Found(path, size) => {
                    let item = DirEntryItem::discovered(path, size);
                    let grown = AppView { list: state.list.pushed(item), ..state };
                    assert(grown.refiltered().entries() == grown.entries());
                    assert(grown.entries().drop_last() =~= state.entries());
                },
                _ => {},
            }
        },
        Event::Delete(report) => {
            match report {
                DirDelete::Deleting(path, _) => {
                    lemma_first_with_path(state.list.items, path@);
                    match first_with_path(state.list.items, path@) {
                        Some(k) => {
                            lemma_flagged_after_update(
                                state.list.items,
                                k,
                                state.list.items[k].with_state(Some(ActionState::Pending)),
                            );
                        },
                        None => {},
                    }
                },
                DirDelete::Deleted(path, _) => {
                    lemma_first_with_path(state.list.items, path@);
                    match first_with_path(state.list.items, path@) {
                        Some(k) => {
                            lemma_flagged_after_removal(state.list.items, k);
                            let shrunk = AppView { list: state.list.removed(k), ..state };
                            assert(state.after_deleted(path@).entries() == shrunk.entries());
                        },
                        None => {},
                    }
                },
                DirDelete::Failed(path, _, reason) => {
                    lemma_first_with_path(state.list.items, path@);
                    match first_with_path(state.list.items, path@) {
                        Some(k) => {
                            lemma_flagged_after_update(
                                state.list.items,
                                k,
                                state.list.items[k].with_state(Some(ActionState::Failed(reason))),
                            );
                        },
                        None => {},
                    }
                },
            }
        },
        _ => {},
    }
}


/// Whether the number and the volume of the flagged entries fit the tally
/// after each of the events, applied in order from `state`.
pub open spec fn tally_fits(state: AppView, events: Seq<Event>) -> bool
    decreases events.len(),
{
    if events.len() == 0 {
        true
    } else {
        &&& tally_fits(state, events.drop_last())
        &&& flagged_count(replay(state, events).entries()) <= usize::MAX
        &&& flagged_volume(replay(state, events).entries()) <= u64::MAX
    }
}

/// From the start of the application, and for as long as the flagged entries
/// fit the tally, the tally of selected entries is the number and the volume
/// of the entries that carry their own flag.
pub proof fn lemma_tally_is_exact_from_start(events: Seq<Event>)
    requires
        tally_fits(AppView::initial(), events),
    ensures
        replay(AppView::initial(), events).tally_is_exact(),
    decreases events.len(),
{
    if events.len() > 0 {
        let front = events.drop_last();
        lemma_tally_is_exact_from_start(front);
        lemma_replay_keeps_validity(AppView::initial(), front);
        lemma_event_keeps_tally_exact(replay(AppView::initial(), front), events.last());
    }
}

} // verus!
