//! What the renderer shows of the state: the mark in front of an entry and
//! numbers with their digits in groups of three.

use vstd::prelude::*;
use crate::actions::ActionState;
use crate::dir_entry_item::DirEntryItem;

verus! {

/// The mark of an entry whose removal is in flight.
pub const MARK_DELETING: char = 'x';

/// The mark of an entry whose removal has failed.
pub const MARK_FAILED: char = '!';

/// The mark of an entry that counts as selected.
pub const MARK_ON: char = '\u{2022}';

/// The mark of any other entry.
pub const MARK_OFF: char = ' ';

/// The mark of an entry: by its removal where one was started, by whether it
/// counts as selected otherwise.
pub open spec fn mark_of(item: DirEntryItem, effective_on: bool) -> char {
    match item.delete_state {
        Some(ActionState::Pending) => MARK_DELETING,
        Some(ActionState::Failed(_)) => MARK_FAILED,
        _ => if effective_on {
            MARK_ON
        } else {
            MARK_OFF
        },
    }
}

/// The mark to show in front of an entry. `effective_on` says whether the
/// entry counts as selected under the group selection in force.
pub fn status_char(item: &DirEntryItem, effective_on: bool) -> (mark: char)
    ensures
        mark == mark_of(*item, effective_on),
{
    if item.is_deleting() {
        MARK_DELETING
    } else if item.has_failed() {
        MARK_FAILED
    } else if effective_on {
        MARK_ON
    } else {
        MARK_OFF
    }
}

/// The character of a decimal digit.
pub open spec fn digit_char(d: nat) -> char {
    if d == 0 {
        '0'
    } else if d == 1 {
        '1'
    } else if d == 2 {
        '2'
    } else if d == 3 {
        '3'
    } else if d == 4 {
        '4'
    } else if d == 5 {
        '5'
    } else if d == 6 {
        '6'
    } else if d == 7 {
        '7'
    } else if d == 8 {
        '8'
    } else {
        '9'
    }
}

/// A number in decimal digits, without leading zeros.
pub open spec fn decimal_text(n: nat) -> Seq<char>
    decreases n,
{
    if n < 10 {
        seq![digit_char(n)]
    } else {
        decimal_text(n / 10).push(digit_char(n % 10))
    }
}

/// A number in decimal digits, with a comma before every group of three
/// digits counted from the right.
pub open spec fn grouped(n: nat) -> Seq<char>
    decreases n,
{
    if n < 1000 {
        decimal_text(n)
    } else {
        grouped(n / 1000) + seq![
            ',',
            digit_char(n / 100 % 10),
            digit_char(n / 10 % 10),
            digit_char(n % 10),
        ]
    }
}

fn digit(d: u64) -> (c: char)
    requires
        d < 10,
    ensures
        c == digit_char(d as nat),
{
    if d == 0 {
        '0'
    } else if d == 1 {
        '1'
    } else if d == 2 {
        '2'
    } else if d == 3 {
        '3'
    } else if d == 4 {
        '4'
    } else if d == 5 {
        '5'
    } else if d == 6 {
        '6'
    } else if d == 7 {
        '7'
    } else if d == 8 {
        '8'
    } else {
        '9'
    }
}

fn push_decimal(text: &mut String, n: u64)
    ensures
        final(text)@ == old(text)@ + decimal_text(n as nat),
    decreases n,
{
    if n >= 10 {
        push_decimal(text, n / 10);
    }
    text.push(digit(n % 10));
    proof {
        if n >= 10 {
            assert(text@ =~= old(text)@ + decimal_text(n as nat));
        } else {
            assert(text@ =~= old(text)@ + decimal_text(n as nat));
        }
    }
}

fn push_grouped(text: &mut String, n: u64)
    ensures
        final(text)@ == old(text)@ + grouped(n as nat),
    decreases n,
{
    if n < 1000 {
        push_decimal(text, n);
    } else {
        push_grouped(text, n / 1000);
        text.push(',');
        text.push(digit(n / 100 % 10));
        text.push(digit(n / 10 % 10));
        text.push(digit(n % 10));
        proof {
            assert(text@ =~= old(text)@ + grouped(n as nat));
        }
    }
}

/// Writes a number in decimal digits, with a comma before every group of
/// three digits counted from the right.
pub fn format_number(n: u64) -> (text: String)
    ensures
        text@ == grouped(n as nat),
{
    let mut text = String::new();
    push_grouped(&mut text, n);
    assert(text@ =~= grouped(n as nat));
    text
}

} // verus!
