//! The state of one action and the ledger of removals in flight.

use vstd::prelude::*;
use vstd::std_specs::cmp::PartialEqSpec;

verus! {

/// How far an action has come.
#[derive(Debug)]
pub enum ActionState {
    /// Started and not finished.
    Pending,
    /// Finished successfully.
    Done,
    /// Attempted without success; the text says why.
    Failed(String),
}

impl ActionState {
    /// Whether the action has finished successfully.
    pub fn loaded(&self) -> (b: bool)
        ensures
            b == (self is Done),
    {
        match self {
            ActionState::Done => true,
            _ => false,
        }
    }
}

impl Clone for ActionState {
    fn clone(&self) -> (s: Self)
        ensures
            s == *self,
    {
        match self {
            ActionState::Pending => ActionState::Pending,
            ActionState::Done => ActionState::Done,
            ActionState::Failed(reason) => ActionState::Failed(reason.clone()),
        }
    }
}

/// What a bucket of the ledger holds, in order of arrival. A bucket that was
/// never used holds nothing.
pub open spec fn bucket<T>(b: Option<Vec<T>>) -> Seq<T> {
    match b {
        Some(v) => v@,
        None => Seq::empty(),
    }
}

/// The items of `s` that do not equal `item`, in their order.
pub open spec fn without<T: PartialEq>(s: Seq<T>, item: T) -> Seq<T>
    decreases s.len(),
{
    if s.len() == 0 {
        s
    } else if s.last().eq_spec(&item) {
        without(s.drop_last(), item)
    } else {
        without(s.drop_last(), item).push(s.last())
    }
}

/// Whether some item of `s` equals `item`.
pub open spec fn holds<T: PartialEq>(s: Seq<T>, item: T) -> bool {
    exists|i: int| 0 <= i < s.len() && #[trigger] s[i].eq_spec(&item)
}

/// Nothing that equals `item` is left in `without(s, item)`, everything left
/// comes from `s`, and a sequence that never held `item` is unchanged.
pub proof fn lemma_without<T: PartialEq>(s: Seq<T>, item: T)
    ensures
        !holds(without(s, item), item),
        without(s, item).len() <= s.len(),
        forall|x: T| without(s, item).contains(x) ==> s.contains(x) && !x.eq_spec(&item),
        forall|x: T| s.contains(x) && !x.eq_spec(&item) ==> without(s, item).contains(x),
        !holds(s, item) ==> without(s, item) == s,
    decreases s.len(),
{
    if s.len() > 0 {
        let front = s.drop_last();
        lemma_without(front, item);
        let w = without(s, item);
        let wf = without(front, item);
        assert forall|x: T| w.contains(x) implies s.contains(x) && !x.eq_spec(&item) by {
            let i = choose|i: int| 0 <= i < w.len() && w[i] == x;
            if i < wf.len() {
                assert(wf[i] == x);
                assert(wf.contains(x));
                assert(front.contains(x));
                let j = choose|j: int| 0 <= j < front.len() && front[j] == x;
                assert(s[j] == x);
            } else {
                assert(s[s.len() - 1] == x);
            }
        }
        assert forall|x: T| s.contains(x) && !x.eq_spec(&item) implies w.contains(x) by {
            let i = choose|i: int| 0 <= i < s.len() && s[i] == x;
            if i < front.len() {
                assert(front[i] == x);
                assert(front.contains(x));
                assert(wf.contains(x));
                let j = choose|j: int| 0 <= j < wf.len() && wf[j] == x;
                assert(w[j] == x);
            } else {
                assert(w[w.len() - 1] == x);
            }
        }
        if holds(w, item) {
            let i = choose|i: int| 0 <= i < w.len() && #[trigger] w[i].eq_spec(&item);
            assert(w.contains(w[i]));
        }
        if !holds(s, item) {
            assert(!s[s.len() - 1].eq_spec(&item));
            if holds(front, item) {
                let i = choose|i: int| 0 <= i < front.len() && #[trigger] front[i].eq_spec(&item);
                assert(s[i].eq_spec(&item));
            }
            assert(w == s);
        }
    }
}

/// The ledger of removals: what was asked for, what is being removed, what has
/// been removed and what could not be. An item is found again by `==`.
#[derive(Debug)]
pub struct Actions<T: PartialEq> {
    pub history: Option<Vec<T>>,
    pub queued: Option<Vec<T>>,
    pub current: Option<Vec<T>>,
    pub failed: Option<Vec<(T, String)>>,
}

/// Takes every item that equals `item` out of `from`, keeping the others in
/// their order.
fn discard<T: PartialEq>(from: &mut Option<Vec<T>>, item: &T)
    ensures
        T::obeys_eq_spec() ==> bucket(*final(from)) == without(bucket(*old(from)), *item),
        *final(from) is Some <==> *old(from) is Some,
{
    if let Some(items) = from.take() {
        let ghost before = items@;
        let mut kept: Vec<T> = Vec::new();
        for x in it: items
            invariant
                it.seq() == before,
                T::obeys_eq_spec() ==> kept@ == without(before.take(it.index()), *item),
        {
            proof {
                let next = before.take(it.index() + 1);
                assert(next.drop_last() == before.take(it.index()));
                assert(next.last() == x);
            }
            if x != *item {
                kept.push(x);
            }
        }
        assert(before.take(before.len() as int) == before);
        *from = Some(kept);
    }
}

impl<T: PartialEq> Actions<T> {
    /// The items asked for and not yet started.
    pub open spec fn queued_items(&self) -> Seq<T> {
        bucket(self.queued)
    }

    /// The items being removed.
    pub open spec fn current_items(&self) -> Seq<T> {
        bucket(self.current)
    }

    /// The items that have been removed.
    pub open spec fn history_items(&self) -> Seq<T> {
        bucket(self.history)
    }

    /// The items that could not be removed, each with the reason.
    pub open spec fn failed_items(&self) -> Seq<(T, String)> {
        bucket(self.failed)
    }

    /// Puts an item at the end of the queue.
    pub fn add_to_queue(&mut self, item: T)
        ensures
            final(self).queued is Some,
            final(self).queued_items() == old(self).queued_items().push(item),
            final(self).current == old(self).current,
            final(self).history == old(self).history,
            final(self).failed == old(self).failed,
    {
        let mut items = match self.queued.take() {
            Some(v) => v,
            None => Vec::new(),
        };
        items.push(item);
        self.queued = Some(items);
    }

    /// Moves `item` from one bucket to the end of another: every item of
    /// `from` that equals it leaves, and `item` itself arrives in `to`.
    pub fn move_item_to_vec(item: T, from: &mut Option<Vec<T>>, to: &mut Option<Vec<T>>)
        ensures
            T::obeys_eq_spec() ==> bucket(*final(from)) == without(bucket(*old(from)), item),
            T::obeys_eq_spec() ==> !holds(bucket(*final(from)), item),
            *final(from) is Some <==> *old(from) is Some,
            *final(to) is Some,
            bucket(*final(to)) == bucket(*old(to)).push(item),
    {
        proof {
            lemma_without(bucket(*from), item);
        }
        discard(from, &item);
        let mut items = match to.take() {
            Some(v) => v,
            None => Vec::new(),
        };
        items.push(item);
        *to = Some(items);
    }

    /// A queued item starts: it leaves the queue and joins the items being
    /// removed.
    pub fn add_to_current(&mut self, item: T)
        ensures
            T::obeys_eq_spec() ==> final(self).queued_items() == without(
                old(self).queued_items(),
                item,
            ),
            T::obeys_eq_spec() ==> !holds(final(self).queued_items(), item),
            final(self).queued is Some <==> old(self).queued is Some,
            final(self).current is Some,
            final(self).current_items() == old(self).current_items().push(item),
            final(self).history == old(self).history,
            final(self).failed == old(self).failed,
    {
        Self::move_item_to_vec(item, &mut self.queued, &mut self.current);
    }

    /// An item being removed is gone: it leaves the current bucket and joins
    /// the history.
    pub fn add_to_history(&mut self, item: T)
        ensures
            T::obeys_eq_spec() ==> final(self).current_items() == without(
                old(self).current_items(),
                item,
            ),
            T::obeys_eq_spec() ==> !holds(final(self).current_items(), item),
            final(self).current is Some <==> old(self).current is Some,
            final(self).history is Some,
            final(self).history_items() == old(self).history_items().push(item),
            final(self).queued == old(self).queued,
            final(self).failed == old(self).failed,
    {
        Self::move_item_to_vec(item, &mut self.current, &mut self.history);
    }

    /// An item being removed could not be: it leaves the current bucket and
    /// joins the failures, with the reason.
    pub fn add_to_failed(&mut self, item: T, error_message: String)
        ensures
            T::obeys_eq_spec() ==> final(self).current_items() == without(
                old(self).current_items(),
                item,
            ),
            T::obeys_eq_spec() ==> !holds(final(self).current_items(), item),
            final(self).current is Some <==> old(self).current is Some,
            final(self).failed is Some,
            final(self).failed_items() == old(self).failed_items().push((item, error_message)),
            final(self).queued == old(self).queued,
            final(self).history == old(self).history,
    {
        proof {
            lemma_without(bucket(self.current), item);
        }
        discard(&mut self.current, &item);
        let mut items = match self.failed.take() {
            Some(v) => v,
            None => Vec::new(),
        };
        items.push((item, error_message));
        self.failed = Some(items);
    }
}

impl<T: PartialEq> Default for Actions<T> {
    fn default() -> (a: Self)
        ensures
            a.queued is None,
            a.history is None,
            a.current is None,
            a.failed is None,
    {
        Self { queued: None, history: None, current: None, failed: None }
    }
}

} // verus!
