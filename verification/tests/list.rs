use delete_node_modules::actions::ActionState;
use delete_node_modules::app::GroupSelection;
use delete_node_modules::dir_entry_item::DirEntryItem;
use delete_node_modules::list::{
    Deletable, Filterable, GroupSelectable, SingleSelection, StatefulList, Toggle,
};

fn entry(path: &str, size: u64) -> DirEntryItem {
    DirEntryItem::from_entry(path.to_string(), size)
}

fn list_of(paths: &[&str]) -> StatefulList<DirEntryItem> {
    let mut list = StatefulList::default();
    for (i, p) in paths.iter().enumerate() {
        list.push(entry(p, (i as u64 + 1) * 10));
    }
    list
}

fn visible_paths(list: &StatefulList<DirEntryItem>) -> Vec<String> {
    list.visible_items().iter().map(|item| item.path.clone()).collect()
}

#[test]
fn empty_list_has_nothing_visible_and_no_cursor() {
    let list: StatefulList<DirEntryItem> = StatefulList::default();
    assert_eq!(list.len(), 0);
    assert!(!list.has_visible_items());
    assert_eq!(list.cursor(), None);
    assert!(list.selected().is_none());
    assert_eq!(list.group_selection(), None);
    assert!(!list.is_scanning());
    assert!(!list.done_scanning());
}

#[test]
fn push_stores_items_in_order() {
    let list = list_of(&["a", "b", "c"]);
    assert_eq!(list.len(), 3);
    assert!(list.has_visible_items());
    assert_eq!(visible_paths(&list), vec!["a", "b", "c"]);
    assert_eq!(list.get(1).path, "b");
    assert_eq!(list.get(1).size, 20);
}

#[test]
fn scanning_state_is_reported() {
    let mut list = list_of(&[]);
    list.set_scanning(Some(ActionState::Pending));
    assert!(list.is_scanning());
    assert!(!list.done_scanning());
    list.set_scanning(Some(ActionState::Done));
    assert!(!list.is_scanning());
    assert!(list.done_scanning());
    list.set_scanning(Some(ActionState::Failed("x".to_string())));
    assert!(!list.is_scanning());
    assert!(!list.done_scanning());
    list.set_scanning(None);
    assert!(!list.is_scanning());
}

#[test]
fn next_on_empty_list_leaves_cursor_unset() {
    let mut list = list_of(&[]);
    list.next();
    assert_eq!(list.cursor(), None);
    list.previous();
    assert_eq!(list.cursor(), None);
}

#[test]
fn next_starts_at_first_item_and_wraps() {
    let mut list = list_of(&["a", "b", "c"]);
    list.next();
    assert_eq!(list.cursor(), Some(0));
    list.next();
    assert_eq!(list.cursor(), Some(1));
    list.next();
    assert_eq!(list.cursor(), Some(2));
    list.next();
    assert_eq!(list.cursor(), Some(0));
}

#[test]
fn previous_starts_at_last_item_and_wraps() {
    let mut list = list_of(&["a", "b", "c"]);
    list.previous();
    assert_eq!(list.cursor(), Some(2));
    list.previous();
    assert_eq!(list.cursor(), Some(1));
    list.previous();
    assert_eq!(list.cursor(), Some(0));
    list.previous();
    assert_eq!(list.cursor(), Some(2));
}

#[test]
fn previous_without_cursor_under_a_filter_goes_to_first_visible() {
    let mut list = list_of(&["a", "xb", "xc"]);
    list.apply_filter(|item: &DirEntryItem| item.path.contains('x'));
    list.previous();
    assert_eq!(list.cursor(), Some(0));
    assert_eq!(list.selected().unwrap().path, "xb");
}

#[test]
fn next_then_previous_returns_to_every_starting_cursor() {
    for start in 0..4 {
        let mut list = list_of(&["a", "b", "c", "d"]);
        for _ in 0..=start {
            list.next();
        }
        assert_eq!(list.cursor(), Some(start));
        list.next();
        list.previous();
        assert_eq!(list.cursor(), Some(start));
        list.previous();
        list.next();
        assert_eq!(list.cursor(), Some(start));
    }
}

#[test]
fn navigation_over_a_single_item_stays_put() {
    let mut list = list_of(&["only"]);
    list.next();
    assert_eq!(list.cursor(), Some(0));
    list.next();
    assert_eq!(list.cursor(), Some(0));
    list.previous();
    assert_eq!(list.cursor(), Some(0));
}

#[test]
fn unselect_clears_the_cursor() {
    let mut list = list_of(&["a", "b"]);
    list.next();
    list.unselect();
    assert_eq!(list.cursor(), None);
    assert!(list.selected().is_none());
}

#[test]
fn selected_resolves_the_cursor_through_the_filter() {
    let mut list = list_of(&["a", "xb", "c", "xd"]);
    list.apply_filter(|item: &DirEntryItem| item.path.starts_with('x'));
    assert_eq!(visible_paths(&list), vec!["xb", "xd"]);
    assert_eq!(list.visible_len(), 2);
    list.next();
    assert_eq!(list.selected().unwrap().path, "xb");
    assert_eq!(list.selected_index(), Some(1));
    list.next();
    assert_eq!(list.selected().unwrap().path, "xd");
    assert_eq!(list.selected_index(), Some(3));
    assert_eq!(list.storage_index(1), 3);
    list.next();
    assert_eq!(list.selected().unwrap().path, "xb");
}

#[test]
fn filter_that_hides_the_selected_item_clears_the_cursor() {
    let mut list = list_of(&["a", "xb", "c"]);
    list.next();
    assert_eq!(list.selected().unwrap().path, "a");
    list.apply_filter(|item: &DirEntryItem| item.path.starts_with('x'));
    assert_eq!(list.cursor(), None);
    list.clear_filter();
    assert_eq!(list.cursor(), None);
    assert_eq!(visible_paths(&list), vec!["a", "xb", "c"]);
}

#[test]
fn filter_that_keeps_the_selected_item_keeps_the_cursor_on_it() {
    let mut list = list_of(&["a", "xb", "c", "xd"]);
    list.next();
    list.next();
    list.next();
    list.next();
    assert_eq!(list.selected().unwrap().path, "xd");
    list.apply_filter(|item: &DirEntryItem| item.path.starts_with('x'));
    assert_eq!(list.cursor(), Some(1));
    assert_eq!(list.selected().unwrap().path, "xd");
    list.clear_filter();
    assert_eq!(list.cursor(), Some(3));
    assert_eq!(list.selected().unwrap().path, "xd");
}

#[test]
fn filter_that_accepts_nothing_hides_everything() {
    let mut list = list_of(&["a", "b"]);
    list.next();
    list.apply_filter(|_item: &DirEntryItem| false);
    assert!(!list.has_visible_items());
    assert_eq!(list.cursor(), None);
    list.next();
    assert_eq!(list.cursor(), None);
    assert_eq!(list.len(), 2);
}

#[test]
fn item_pushed_under_a_filter_stays_hidden_until_filter_is_applied_again() {
    let mut list = list_of(&["xa"]);
    list.apply_filter(|item: &DirEntryItem| item.path.starts_with('x'));
    list.push(entry("xb", 1));
    assert_eq!(visible_paths(&list), vec!["xa"]);
    list.apply_filter(|item: &DirEntryItem| item.path.starts_with('x'));
    assert_eq!(visible_paths(&list), vec!["xa", "xb"]);
}

#[test]
fn mutate_selected_without_cursor_returns_false() {
    let mut list = list_of(&["a"]);
    let changed = list.mutate_selected(|item: &mut DirEntryItem| {
        item.toggle();
        true
    });
    assert!(!changed);
    assert!(!list.get(0).is_on());
}

#[test]
fn mutate_selected_changes_the_item_under_the_cursor() {
    let mut list = list_of(&["a", "b"]);
    list.next();
    list.next();
    let result = list.mutate_selected(|item: &mut DirEntryItem| {
        item.toggle();
        false
    });
    assert!(!result);
    assert!(!list.get(0).is_on());
    assert!(list.get(1).is_on());
}

#[test]
fn mutate_where_changes_the_first_match_only() {
    let mut list = list_of(&["a", "dup", "dup"]);
    let hit = list.mutate_where(
        |item: &DirEntryItem| item.path == "dup",
        |item: &mut DirEntryItem| item.delete_state = Some(ActionState::Pending),
    );
    assert!(hit);
    assert!(list.get(0).delete_state.is_none());
    assert!(list.get(1).is_deleting());
    assert!(list.get(2).delete_state.is_none());
}

#[test]
fn mutate_where_without_match_changes_nothing() {
    let mut list = list_of(&["a", "b"]);
    let hit = list.mutate_where(
        |item: &DirEntryItem| item.path == "zzz",
        |item: &mut DirEntryItem| item.delete_state = Some(ActionState::Pending),
    );
    assert!(!hit);
    assert!(list.get(0).delete_state.is_none());
    assert!(list.get(1).delete_state.is_none());
}

#[test]
fn position_where_gives_the_first_match() {
    let list = list_of(&["a", "dup", "dup"]);
    assert_eq!(list.position_where(&|item: &DirEntryItem| item.path == "dup"), Some(1));
    assert_eq!(list.position_where(&|item: &DirEntryItem| item.path == "none"), None);
}

#[test]
fn remove_where_takes_the_item_out_and_keeps_cursor_on_its_item() {
    let mut list = list_of(&["a", "b", "c", "d"]);
    list.next();
    list.next();
    list.next();
    assert_eq!(list.selected().unwrap().path, "c");
    let taken = list.remove_where(|item: &DirEntryItem| item.path == "a");
    assert_eq!(taken.unwrap().path, "a");
    assert_eq!(list.len(), 3);
    assert_eq!(list.cursor(), Some(1));
    assert_eq!(list.selected().unwrap().path, "c");
    let taken = list.remove_where(|item: &DirEntryItem| item.path == "d");
    assert_eq!(taken.unwrap().path, "d");
    assert_eq!(list.cursor(), Some(1));
    assert_eq!(list.selected().unwrap().path, "c");
}

#[test]
fn remove_where_of_the_selected_item_clears_the_cursor() {
    let mut list = list_of(&["a", "b", "c"]);
    list.next();
    list.next();
    let taken = list.remove_where(|item: &DirEntryItem| item.path == "b");
    assert_eq!(taken.unwrap().path, "b");
    assert_eq!(list.cursor(), None);
    assert_eq!(visible_paths(&list), vec!["a", "c"]);
}

#[test]
fn remove_where_without_match_returns_none() {
    let mut list = list_of(&["a", "b"]);
    list.next();
    assert!(list.remove_where(|item: &DirEntryItem| item.path == "zzz").is_none());
    assert_eq!(list.len(), 2);
    assert_eq!(list.cursor(), Some(0));
}

#[test]
fn remove_under_a_filter_renumbers_the_visible_items() {
    let mut list = list_of(&["xa", "b", "xc", "xd"]);
    list.apply_filter(|item: &DirEntryItem| item.path.starts_with('x'));
    list.next();
    list.next();
    list.next();
    assert_eq!(list.selected().unwrap().path, "xd");
    let taken = list.remove_at(1);
    assert_eq!(taken.path, "b");
    assert_eq!(visible_paths(&list), vec!["xa", "xc", "xd"]);
    assert_eq!(list.selected().unwrap().path, "xd");
    let taken = list.remove_at(0);
    assert_eq!(taken.path, "xa");
    assert_eq!(visible_paths(&list), vec!["xc", "xd"]);
    assert_eq!(list.cursor(), Some(1));
    assert_eq!(list.selected().unwrap().path, "xd");
    let taken = list.remove_at(1);
    assert_eq!(taken.path, "xd");
    assert_eq!(visible_paths(&list), vec!["xc"]);
    assert_eq!(list.cursor(), None);
}

#[test]
fn group_selection_cycles_through_its_states() {
    let mut list = list_of(&["a", "b"]);
    assert_eq!(list.group_selection(), None);
    list.toggle_group_selection();
    assert_eq!(list.group_selection(), Some(GroupSelection::AllOn));
    list.toggle_group_selection();
    assert_eq!(list.group_selection(), Some(GroupSelection::AllOff));
    list.toggle_group_selection();
    assert_eq!(list.group_selection(), Some(GroupSelection::AllOn));
}

#[test]
fn group_selection_stays_all_off_while_an_item_is_on() {
    let mut list = list_of(&["a", "b"]);
    list.next();
    list.mutate_selected(|item: &mut DirEntryItem| {
        item.set_is_on(true);
        true
    });
    assert!(list.any_visible_on());
    list.set_group_selection(Some(GroupSelection::AllOff));
    list.toggle_group_selection();
    assert_eq!(list.group_selection(), Some(GroupSelection::AllOff));
    list.mutate_selected(|item: &mut DirEntryItem| {
        item.set_is_on(false);
        true
    });
    assert!(!list.any_visible_on());
    list.toggle_group_selection();
    assert_eq!(list.group_selection(), Some(GroupSelection::AllOn));
}

#[test]
fn group_selection_ignores_flags_of_hidden_items() {
    let mut list = list_of(&["a", "xb"]);
    list.next();
    list.mutate_selected(|item: &mut DirEntryItem| {
        item.set_is_on(true);
        true
    });
    list.apply_filter(|item: &DirEntryItem| item.path.starts_with('x'));
    assert!(!list.any_visible_on());
    list.set_group_selection(Some(GroupSelection::AllOff));
    list.toggle_group_selection();
    assert_eq!(list.group_selection(), Some(GroupSelection::AllOn));
}

#[test]
fn effective_flag_follows_the_group_selection() {
    let mut list = list_of(&["a", "b"]);
    list.next();
    list.mutate_selected(|item: &mut DirEntryItem| {
        item.set_is_on(true);
        true
    });
    assert!(list.is_effectively_on(0));
    assert!(!list.is_effectively_on(1));
    list.set_group_selection(Some(GroupSelection::AllOn));
    assert!(list.is_effectively_on(0));
    assert!(list.is_effectively_on(1));
    list.set_group_selection(Some(GroupSelection::AllOff));
    assert!(!list.is_effectively_on(0));
    assert!(!list.is_effectively_on(1));
}

#[test]
fn items_to_delete_per_item_are_the_flagged_idle_visible_ones() {
    let mut list = list_of(&["a", "b", "c", "d"]);
    for _ in 0..3 {
        list.next();
        list.mutate_selected(|item: &mut DirEntryItem| {
            item.set_is_on(true);
            true
        });
    }
    list.mutate_where(
        |item: &DirEntryItem| item.path == "b",
        |item: &mut DirEntryItem| item.delete_state = Some(ActionState::Pending),
    );
    let due: Vec<String> = list.items_to_delete().iter().map(|i| i.path.clone()).collect();
    assert_eq!(due, vec!["a", "c"]);
    assert_eq!(list.indices_to_delete(), vec![0, 2]);
}

#[test]
fn items_to_delete_under_all_on_are_the_idle_visible_ones() {
    let mut list = list_of(&["xa", "b", "xc", "xd"]);
    list.mutate_where(
        |item: &DirEntryItem| item.path == "xc",
        |item: &mut DirEntryItem| item.delete_state = Some(ActionState::Failed("no".to_string())),
    );
    list.apply_filter(|item: &DirEntryItem| item.path.starts_with('x'));
    list.set_group_selection(Some(GroupSelection::AllOn));
    let due: Vec<String> = list.items_to_delete().iter().map(|i| i.path.clone()).collect();
    assert_eq!(due, vec!["xa", "xd"]);
}

#[test]
fn items_to_delete_under_all_off_are_none() {
    let mut list = list_of(&["a", "b"]);
    list.next();
    list.mutate_selected(|item: &mut DirEntryItem| {
        item.set_is_on(true);
        true
    });
    list.set_group_selection(Some(GroupSelection::AllOff));
    assert!(list.items_to_delete().is_empty());
}

#[test]
fn entry_can_delete_only_when_flagged_and_idle() {
    let mut item = entry("a", 1);
    assert!(!item.can_delete());
    assert!(item.is_idle());
    item.set_is_on(true);
    assert!(item.can_delete());
    item.delete_state = Some(ActionState::Pending);
    assert!(!item.can_delete());
    assert!(!item.is_idle());
}
