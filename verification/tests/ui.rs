use delete_node_modules::actions::ActionState;
use delete_node_modules::dir_entry_item::DirEntryItem;
use delete_node_modules::ui::{format_number, status_char};

#[test]
fn format_number_groups_digits_in_threes() {
    assert_eq!(format_number(0), "0");
    assert_eq!(format_number(7), "7");
    assert_eq!(format_number(999), "999");
    assert_eq!(format_number(1000), "1,000");
    assert_eq!(format_number(1234), "1,234");
    assert_eq!(format_number(12345), "12,345");
    assert_eq!(format_number(100200), "100,200");
    assert_eq!(format_number(1234567), "1,234,567");
    assert_eq!(format_number(1000000), "1,000,000");
    assert_eq!(format_number(u64::MAX), "18,446,744,073,709,551,615");
}

#[test]
fn status_char_shows_removal_before_selection() {
    let mut item = DirEntryItem::from_entry("/a".to_string(), 1);
    assert_eq!(status_char(&item, false), ' ');
    assert_eq!(status_char(&item, true), '\u{2022}');
    item.delete_state = Some(ActionState::Pending);
    assert_eq!(status_char(&item, true), 'x');
    assert_eq!(status_char(&item, false), 'x');
    item.delete_state = Some(ActionState::Failed("no".to_string()));
    assert_eq!(status_char(&item, true), '!');
    item.delete_state = Some(ActionState::Done);
    assert_eq!(status_char(&item, true), '\u{2022}');
    assert_eq!(status_char(&item, false), ' ');
}
