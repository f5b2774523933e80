//! From events to transitions: the dispatch of scanner, deletion and keyboard
//! events, and the decisions of the clock that paces them.

use vstd::prelude::*;
use crate::app::App;
use crate::dir_entry_item::DirEntryItem;
use crate::event::{Event, KeyCode, KeyEvent};

verus! {

/// How long the clock may wait for input, in nanoseconds: what is left of the
/// tick interval, or a whole interval where the tick is overdue.
pub open spec fn timeout_left(tick_rate: u128, elapsed: u128) -> u128 {
    if elapsed <= tick_rate {
        (tick_rate - elapsed) as u128
    } else {
        tick_rate
    }
}

/// How long the clock may wait for input before the next tick, given the tick
/// interval and the time since the last tick, all in nanoseconds.
pub fn poll_timeout(tick_rate: u128, elapsed: u128) -> (timeout: u128)
    ensures
        timeout == timeout_left(tick_rate, elapsed),
{
    if elapsed <= tick_rate {
        tick_rate - elapsed
    } else {
        tick_rate
    }
}

/// Whether a tick is due: a whole tick interval has passed since the last.
pub fn tick_due(tick_rate: u128, elapsed: u128) -> (due: bool)
    ensures
        due == (elapsed >= tick_rate),
{
    elapsed >= tick_rate
}

/// Applies a key press to the application and returns the entries to hand to
/// the deletion pipeline: the committed batch on Enter, nothing otherwise.
///
/// In search mode Esc, Enter and `/` leave the mode, Backspace shortens the
/// filter text and any other character extends it. Outside it, Esc, `q` and
/// Ctrl-C stop the application, Space toggles the entry under the cursor,
/// Right and Left set its flag and step on, Down and Up move the cursor, Tab
/// and `a` cycle the group selection, `/` enters search mode and Enter
/// commits the selection.
pub fn handle_key_events(key_event: KeyEvent, app: &mut App) -> (batch: Vec<DirEntryItem>)
    requires
        old(app).wf(),
    ensures
        final(app)@ == old(app)@.after_key(key_event),
        batch@ == old(app)@.batch_for_key(key_event),
        final(app).wf(),
{
    if app.is_in_search_mode() {
        match key_event.code {
            KeyCode::Esc => app.end_search_entry(),
            KeyCode::Enter => app.end_search_entry(),
            KeyCode::Char(c) => {
                if c == '/' {
                    app.end_search_entry();
                } else {
                    app.append_filter_input(c);
                }
            },
            KeyCode::Backspace => app.delete_filter_input(),
            _ => {},
        }
        Vec::new()
    } else {
        match key_event.code {
            KeyCode::Esc => {
                app.quit();
                Vec::new()
            },
            KeyCode::Char(c) => {
                if c == 'q' {
                    app.quit();
                } else if c == 'c' || c == 'C' {
                    if key_event.control {
                        app.quit();
                    }
                } else if c == ' ' {
                    app.toggle_selected_item();
                } else if c == 'a' || c == 'A' {
                    app.toggle_group_selection();
                } else if c == '/' {
                    app.start_search_entry();
                }
                Vec::new()
            },
            KeyCode::Right => {
                app.set_on_and_next();
                Vec::new()
            },
            KeyCode::Left => {
                app.set_off_and_next();
                Vec::new()
            },
            KeyCode::Down => {
                app.next();
                Vec::new()
            },
            KeyCode::Up => {
                app.previous();
                Vec::new()
            },
            KeyCode::Tab => {
                app.toggle_group_selection();
                Vec::new()
            },
            KeyCode::Enter => app.commit_delete(),
            _ => Vec::new(),
        }
    }
}

/// Applies an event to the application and returns the entries to hand to
/// the deletion pipeline.
pub fn handle_event(event: Event, app: &mut App) -> (batch: Vec<DirEntryItem>)
    requires
        old(app).wf(),
    ensures
        final(app)@ == old(app)@.after(event),
        batch@ == old(app)@.batch_for(event),
        final(app).wf(),
{
    match event {
        Event::Tick => {
            app.tick();
            Vec::new()
        },
        Event::Key(key_event) => handle_key_events(key_event, app),
        Event::Mouse => Vec::new(),
        Event::Resize(_, _) => Vec::new(),
        Event::Search(e) => {
            app.handle_search(e);
            Vec::new()
        },
        Event::Delete(e) => {
            app.handle_delete(e);
            Vec::new()
        },
    }
}

} // verus!
