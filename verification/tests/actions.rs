use delete_node_modules::actions::{ActionState, Actions};
use delete_node_modules::dir_entry_item::DirEntryItem;

#[test]
fn loaded_is_true_only_when_done() {
    assert!(ActionState::Done.loaded());
    assert!(!ActionState::Pending.loaded());
    assert!(!ActionState::Failed("no".to_string()).loaded());
}

#[test]
fn action_state_clone_keeps_the_reason() {
    let state = ActionState::Failed("permission denied".to_string());
    assert!(matches!(state.clone(), ActionState::Failed(reason) if reason == "permission denied"));
    assert!(matches!(ActionState::Pending.clone(), ActionState::Pending));
    assert!(matches!(ActionState::Done.clone(), ActionState::Done));
}

#[test]
fn ledger_starts_with_unused_buckets() {
    let ledger: Actions<u64> = Actions::default();
    assert_eq!(ledger.queued, None);
    assert_eq!(ledger.current, None);
    assert_eq!(ledger.history, None);
    assert_eq!(ledger.failed, None);
}

#[test]
fn add_to_queue_appends_in_order() {
    let mut ledger: Actions<u64> = Actions::default();
    ledger.add_to_queue(3);
    ledger.add_to_queue(1);
    ledger.add_to_queue(3);
    assert_eq!(ledger.queued, Some(vec![3, 1, 3]));
    assert_eq!(ledger.current, None);
}

#[test]
fn add_to_current_takes_every_equal_item_out_of_the_queue() {
    let mut ledger: Actions<u64> = Actions::default();
    ledger.add_to_queue(3);
    ledger.add_to_queue(1);
    ledger.add_to_queue(3);
    ledger.add_to_current(3);
    assert_eq!(ledger.queued, Some(vec![1]));
    assert_eq!(ledger.current, Some(vec![3]));
    assert_eq!(ledger.history, None);
    assert_eq!(ledger.failed, None);
}

#[test]
fn add_to_current_without_queue_leaves_queue_unused() {
    let mut ledger: Actions<u64> = Actions::default();
    ledger.add_to_current(7);
    assert_eq!(ledger.queued, None);
    assert_eq!(ledger.current, Some(vec![7]));
}

#[test]
fn add_to_history_moves_item_out_of_current() {
    let mut ledger: Actions<u64> = Actions::default();
    ledger.add_to_current(7);
    ledger.add_to_current(8);
    ledger.add_to_history(7);
    assert_eq!(ledger.current, Some(vec![8]));
    assert_eq!(ledger.history, Some(vec![7]));
}

#[test]
fn add_to_failed_moves_item_out_of_current_and_keeps_reason() {
    let mut ledger: Actions<u64> = Actions::default();
    ledger.add_to_current(7);
    ledger.add_to_current(8);
    ledger.add_to_failed(8, "permission denied".to_string());
    assert_eq!(ledger.current, Some(vec![7]));
    assert_eq!(ledger.failed, Some(vec![(8, "permission denied".to_string())]));
    assert_eq!(ledger.history, None);
}

#[test]
fn move_item_to_vec_moves_between_any_two_buckets() {
    let mut from = Some(vec![1u64, 2, 1, 3]);
    let mut to = None;
    Actions::move_item_to_vec(1, &mut from, &mut to);
    assert_eq!(from, Some(vec![2, 3]));
    assert_eq!(to, Some(vec![1]));
}

#[test]
fn ledger_finds_entries_by_path() {
    let mut ledger: Actions<DirEntryItem> = Actions::default();
    ledger.add_to_queue(DirEntryItem::from_entry("/a/node_modules".to_string(), 100));
    ledger.add_to_queue(DirEntryItem::from_entry("/b/node_modules".to_string(), 50));
    ledger.add_to_current(DirEntryItem::from_entry("/a/node_modules".to_string(), 1));
    let queued = ledger.queued.as_ref().unwrap();
    assert_eq!(queued.len(), 1);
    assert_eq!(queued[0].path, "/b/node_modules");
    let current = ledger.current.as_ref().unwrap();
    assert_eq!(current.len(), 1);
    assert_eq!(current[0].path, "/a/node_modules");
    assert_eq!(current[0].size, 1);
}
