use delete_node_modules::app::{App, GroupSelection};
use delete_node_modules::event::{DirDelete, DirSearch, Event, KeyCode, KeyEvent};
use delete_node_modules::event_handling::{handle_event, handle_key_events, poll_timeout, tick_due};
use delete_node_modules::list::Filterable;

fn key(code: KeyCode) -> Event {
    Event::Key(KeyEvent { code, control: false })
}

fn ctrl(code: KeyCode) -> Event {
    Event::Key(KeyEvent { code, control: true })
}

fn app_with(entries: &[(&str, u64)]) -> App {
    let mut app = App::default();
    for (path, size) in entries {
        let batch = handle_event(Event::Search(DirSearch::Found(path.to_string(), *size)), &mut app);
        assert!(batch.is_empty());
    }
    app
}

#[test]
fn poll_timeout_is_what_is_left_of_the_interval() {
    assert_eq!(poll_timeout(250, 100), 150);
    assert_eq!(poll_timeout(250, 0), 250);
    assert_eq!(poll_timeout(250, 250), 0);
    assert_eq!(poll_timeout(250, 251), 250);
    assert_eq!(poll_timeout(250, 10_000), 250);
}

#[test]
fn tick_is_due_after_a_whole_interval() {
    assert!(!tick_due(250, 249));
    assert!(tick_due(250, 250));
    assert!(tick_due(250, 251));
}

#[test]
fn tick_mouse_and_resize_change_nothing() {
    let mut app = app_with(&[("/a", 1)]);
    assert!(handle_event(Event::Tick, &mut app).is_empty());
    assert!(handle_event(Event::Mouse, &mut app).is_empty());
    assert!(handle_event(Event::Resize(80, 24), &mut app).is_empty());
    assert!(app.running());
    assert_eq!(app.list().len(), 1);
    assert_eq!(app.list().cursor(), None);
}

#[test]
fn esc_and_q_quit_outside_search_mode() {
    let mut app = App::default();
    handle_event(key(KeyCode::Esc), &mut app);
    assert!(!app.running());
    let mut app = App::default();
    handle_event(key(KeyCode::Char('q')), &mut app);
    assert!(!app.running());
}

#[test]
fn c_quits_only_with_control() {
    let mut app = App::default();
    handle_event(key(KeyCode::Char('c')), &mut app);
    assert!(app.running());
    handle_event(key(KeyCode::Char('C')), &mut app);
    assert!(app.running());
    handle_event(ctrl(KeyCode::Char('c')), &mut app);
    assert!(!app.running());
    let mut app = App::default();
    handle_event(ctrl(KeyCode::Char('C')), &mut app);
    assert!(!app.running());
}

#[test]
fn arrows_move_and_flag() {
    let mut app = app_with(&[("/a", 1), ("/b", 2)]);
    handle_event(key(KeyCode::Down), &mut app);
    assert_eq!(app.list().cursor(), Some(0));
    handle_event(key(KeyCode::Up), &mut app);
    assert_eq!(app.list().cursor(), Some(1));
    handle_event(key(KeyCode::Right), &mut app);
    assert!(app.list().get(1).is_on());
    assert_eq!(app.list().cursor(), Some(0));
    handle_event(key(KeyCode::Up), &mut app);
    handle_event(key(KeyCode::Left), &mut app);
    assert!(!app.list().get(1).is_on());
}

#[test]
fn space_toggles_the_entry_under_the_cursor() {
    let mut app = app_with(&[("/a", 1)]);
    handle_event(key(KeyCode::Down), &mut app);
    handle_event(key(KeyCode::Char(' ')), &mut app);
    assert!(app.list().get(0).is_on());
    handle_event(key(KeyCode::Char(' ')), &mut app);
    assert!(!app.list().get(0).is_on());
}

#[test]
fn tab_and_a_cycle_the_group_selection() {
    let mut app = app_with(&[("/a", 1)]);
    handle_event(key(KeyCode::Tab), &mut app);
    assert_eq!(app.list().group_selection(), Some(GroupSelection::AllOn));
    handle_event(key(KeyCode::Char('a')), &mut app);
    assert_eq!(app.list().group_selection(), Some(GroupSelection::AllOff));
    handle_event(key(KeyCode::Char('A')), &mut app);
    assert_eq!(app.list().group_selection(), Some(GroupSelection::AllOn));
}

#[test]
fn enter_commits_and_returns_the_batch() {
    let mut app = app_with(&[("/a", 1), ("/b", 2)]);
    let batch = handle_event(key(KeyCode::Enter), &mut app);
    assert!(batch.is_empty());
    handle_event(key(KeyCode::Tab), &mut app);
    let batch = handle_event(key(KeyCode::Enter), &mut app);
    assert_eq!(batch.len(), 2);
    assert_eq!(batch[0].path, "/a");
    assert_eq!(batch[1].path, "/b");
    assert_eq!(app.actions().queued.as_ref().unwrap().len(), 2);
}

#[test]
fn slash_enters_search_mode_and_characters_go_to_the_filter() {
    let mut app = app_with(&[("/qa", 1), ("/b", 2)]);
    handle_event(key(KeyCode::Char('/')), &mut app);
    assert!(app.is_in_search_mode());
    handle_event(key(KeyCode::Char('q')), &mut app);
    assert!(app.running());
    assert_eq!(app.filter_input().unwrap(), "q");
    handle_event(key(KeyCode::Char(' ')), &mut app);
    assert_eq!(app.filter_input().unwrap(), "q ");
    handle_event(key(KeyCode::Backspace), &mut app);
    assert_eq!(app.filter_input().unwrap(), "q");
    let shown: Vec<String> = app.list().visible_items().iter().map(|i| i.path.clone()).collect();
    assert_eq!(shown, vec!["/qa"]);
    handle_event(key(KeyCode::Down), &mut app);
    assert_eq!(app.list().cursor(), None);
    handle_event(key(KeyCode::Tab), &mut app);
    assert_eq!(app.list().group_selection(), None);
}

#[test]
fn esc_enter_and_slash_leave_search_mode() {
    for code in [KeyCode::Esc, KeyCode::Enter, KeyCode::Char('/')] {
        let mut app = app_with(&[("/a", 1)]);
        handle_event(key(KeyCode::Tab), &mut app);
        handle_event(key(KeyCode::Char('/')), &mut app);
        handle_event(key(KeyCode::Char('a')), &mut app);
        let batch = handle_event(key(code), &mut app);
        assert!(batch.is_empty());
        assert!(!app.is_in_search_mode());
        assert!(app.running());
        assert_eq!(app.filter_input().unwrap(), "a");
        assert!(app.actions().queued.is_none());
    }
}

#[test]
fn backspace_on_last_character_leaves_search_mode() {
    let mut app = App::default();
    handle_event(key(KeyCode::Char('/')), &mut app);
    handle_event(key(KeyCode::Char('x')), &mut app);
    handle_event(key(KeyCode::Backspace), &mut app);
    assert!(!app.is_in_search_mode());
    assert!(app.filter_input().is_none());
}

#[test]
fn unknown_keys_change_nothing() {
    let mut app = app_with(&[("/a", 1)]);
    assert!(handle_event(key(KeyCode::Other), &mut app).is_empty());
    assert!(handle_event(key(KeyCode::Backspace), &mut app).is_empty());
    assert!(handle_event(key(KeyCode::Char('z')), &mut app).is_empty());
    assert!(app.running());
    assert!(app.filter_input().is_none());
    assert_eq!(app.list().cursor(), None);
    handle_event(key(KeyCode::Char('/')), &mut app);
    assert!(handle_event(key(KeyCode::Other), &mut app).is_empty());
    assert!(handle_event(key(KeyCode::Tab), &mut app).is_empty());
    assert!(app.is_in_search_mode());
    assert!(app.filter_input().is_none());
}

#[test]
fn handle_key_events_is_the_key_branch_of_handle_event() {
    let mut app = app_with(&[("/a", 1)]);
    let batch = handle_key_events(KeyEvent { code: KeyCode::Down, control: false }, &mut app);
    assert!(batch.is_empty());
    assert_eq!(app.list().cursor(), Some(0));
}

#[test]
fn delete_and_search_reports_reach_the_application() {
    let mut app = app_with(&[("/a", 10)]);
    handle_event(Event::Search(DirSearch::Started), &mut app);
    assert!(app.list().is_scanning());
    handle_event(Event::Delete(DirDelete::Deleting("/a".to_string(), 10)), &mut app);
    assert!(app.list().get(0).is_deleting());
    handle_event(Event::Search(DirSearch::Found("/b".to_string(), 5)), &mut app);
    handle_event(Event::Delete(DirDelete::Deleted("/a".to_string(), 10)), &mut app);
    assert_eq!(app.list().len(), 1);
    assert_eq!(app.list().get(0).path, "/b");
    handle_event(Event::Search(DirSearch::Finished(9, 2)), &mut app);
    assert!(app.list().done_scanning());
    assert_eq!(app.search_results(), 2);
}
