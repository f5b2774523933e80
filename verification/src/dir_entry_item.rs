//! One discovered directory: where it is, how large it is, whether it is
//! selected and how far its removal has come.

use vstd::prelude::*;
use vstd::std_specs::cmp::PartialEqSpecImpl;
use crate::actions::ActionState;
use crate::list::{Deletable, Toggle};

verus! {

/// A discovered directory. Its path is its identity: two entries with the
/// same path are the same directory.
#[derive(Debug)]
pub struct DirEntryItem {
    /// The path of the directory.
    pub path: String,
    /// The bytes that the directory and everything below it occupy.
    pub size: u64,
    /// How far the removal has come; `None` while none was started.
    pub delete_state: Option<ActionState>,
    /// Whether the entry carries its own selection flag.
    pub is_on: bool,
}

impl DirEntryItem {
    /// The entry as it is discovered: not selected, no removal started.
    pub open spec fn discovered(path: String, size: u64) -> DirEntryItem {
        DirEntryItem { path, size, delete_state: None, is_on: false }
    }

    /// Whether no removal of the entry has been started.
    pub open spec fn is_idle_spec(&self) -> bool {
        self.delete_state is None
    }

    /// The entry with its removal state set.
    pub open spec fn with_state(self, state: Option<ActionState>) -> DirEntryItem {
        DirEntryItem { delete_state: state, ..self }
    }

    /// The entry for a directory just discovered at `path`, `size` bytes large.
    pub fn from_entry(path: String, size: u64) -> (item: DirEntryItem)
        ensures
            item == Self::discovered(path, size),
    {
        DirEntryItem { path, size, is_on: false, delete_state: None }
    }

    /// Whether the selection flag may change: only while no removal of the
    /// entry has been started.
    pub fn can_toggle(&self) -> (b: bool)
        ensures
            b == self.is_idle_spec(),
    {
        self.delete_state.is_none()
    }

    /// Whether the removal of the entry is in flight.
    pub fn is_deleting(&self) -> (b: bool)
        ensures
            b == (self.delete_state == Some(ActionState::Pending)),
    {
        match &self.delete_state {
            Some(ActionState::Pending) => true,
            _ => false,
        }
    }

    /// Whether the removal of the entry was attempted without success.
    pub fn has_failed(&self) -> (b: bool)
        ensures
            b == (self.delete_state matches Some(ActionState::Failed(_))),
    {
        match &self.delete_state {
            Some(ActionState::Failed(_)) => true,
            _ => false,
        }
    }

    /// Whether the entry carries its own selection flag.
    pub fn is_on(&self) -> (b: bool)
        ensures
            b == self.is_on,
    {
        self.is_on
    }
}

impl Clone for DirEntryItem {
    fn clone(&self) -> (item: Self)
        ensures
            item == *self,
    {
        DirEntryItem {
            path: self.path.clone(),
            size: self.size,
            delete_state: match &self.delete_state {
                Some(state) => Some(state.clone()),
                None => None,
            },
            is_on: self.is_on,
        }
    }
}

impl Toggle for DirEntryItem {
    open spec fn on(&self) -> bool {
        self.is_on
    }

    open spec fn toggled(self) -> Self {
        if self.is_idle_spec() {
            DirEntryItem { is_on: !self.is_on, ..self }
        } else {
            self
        }
    }

    open spec fn switched(self, is_on: bool) -> Self {
        if self.is_idle_spec() {
            DirEntryItem { is_on, ..self }
        } else {
            self
        }
    }

    /// Flips the flag of an idle entry; any other entry stays as it is.
    fn toggle(&mut self) {
        if self.can_toggle() {
            self.is_on = !self.is_on;
        }
    }

    /// Sets the flag of an idle entry; any other entry stays as it is.
    fn set_is_on(&mut self, is_on: bool) {
        if self.can_toggle() {
            self.is_on = is_on;
        }
    }

    fn is_on(&self) -> (b: bool) {
        self.is_on
    }
}

impl Deletable for DirEntryItem {
    open spec fn idle(&self) -> bool {
        self.is_idle_spec()
    }

    open spec fn deletable(&self) -> bool {
        self.is_on && self.is_idle_spec()
    }

    fn can_delete(&self) -> (b: bool) {
        self.is_on && self.delete_state.is_none()
    }

    fn is_idle(&self) -> (b: bool) {
        self.delete_state.is_none()
    }
}

impl PartialEq for DirEntryItem {
    /// Two entries are equal when their paths are.
    fn eq(&self, other: &Self) -> (r: bool) {
        self.path == other.path
    }
}

impl PartialEqSpecImpl for DirEntryItem {
    open spec fn obeys_eq_spec() -> bool {
        true
    }

    open spec fn eq_spec(&self, other: &Self) -> bool {
        self.path@ == other.path@
    }
}

/// Toggling an entry twice gives back the entry: an idle entry has its flag
/// flipped twice, any other entry is never changed.
pub proof fn lemma_toggle_twice(item: DirEntryItem)
    ensures
        item.toggled().toggled() == item,
        !item.is_idle_spec() ==> item.toggled() == item,
        item.is_idle_spec() ==> item.toggled().is_on == !item.is_on,
{
}

} // verus!
