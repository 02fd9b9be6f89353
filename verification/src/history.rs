//! The bounded history of recent readings that the dashboard keeps in
//! memory and serves: newest at the back, oldest dropped first.

use std::collections::VecDeque;
use vstd::prelude::*;

verus! {

/// What recording `item` does to the contents `s` of a history that keeps
/// the `window` most recent items: `item` goes to the back, and only the
/// last `window` items are kept (none at all when `window` is zero).
pub open spec fn spec_record<T>(s: Seq<T>, window: nat, item: T) -> Seq<T> {
    if window == 0 {
        Seq::empty()
    } else if s.len() < window {
        s.push(item)
    } else {
        s.push(item).skip(s.len() + 1 - window)
    }
}

/// The most recent item of `s`, if there is one.
pub open spec fn spec_latest<T>(s: Seq<T>) -> Option<T> {
    if s.len() > 0 {
        Some(s.last())
    } else {
        None
    }
}

/// The contents of a history with window `window` after recording
/// `items`, in order, into an empty one.
pub open spec fn spec_replay<T>(window: nat, items: Seq<T>) -> Seq<T>
    decreases items.len(),
{
    if items.len() == 0 {
        Seq::empty()
    } else {
        spec_record(spec_replay(window, items.drop_last()), window, items.last())
    }
}

/// Recording an item into a history with a nonzero window makes it the
/// newest: the latest item afterwards is the one just recorded.
pub proof fn lemma_record_then_latest<T>(s: Seq<T>, window: nat, item: T)
    requires
        window > 0,
    ensures
        spec_latest(spec_record(s, window, item)) == Some(item),
{
    let t = s.push(item);
    if s.len() >= window {
        let r = t.skip(s.len() + 1 - window);
        assert(r.last() == t.last());
    }
}

/// A history never holds more than `window` items: recording into one
/// that holds at most `window` keeps it so, and it then holds one more
/// item, up to `window`.
pub proof fn lemma_record_stays_bounded<T>(s: Seq<T>, window: nat, item: T)
    requires
        s.len() <= window,
    ensures
        spec_record(s, window, item).len() == if s.len() < window { s.len() + 1 } else { window },
{
}

/// The history holds exactly the `window` most recent items recorded (all
/// of them while fewer were recorded, none when `window` is zero), oldest
/// first.
pub proof fn lemma_replay_keeps_most_recent<T>(window: nat, items: Seq<T>)
    ensures
        spec_replay(window, items) == items.skip(
            items.len() - if items.len() < window { items.len() as int } else { window as int },
        ),
    decreases items.len(),
{
    if items.len() > 0 {
        let p = items.drop_last();
        lemma_replay_keeps_most_recent(window, p);
        let r = spec_replay(window, p);
        if window == 0 {
            assert(items.skip(items.len() as int) =~= Seq::<T>::empty());
        } else if p.len() < window {
            assert(r =~= p);
            assert(items.skip(0) =~= items);
            assert(p.push(items.last()) =~= items);
        } else {
            let k = p.len() - window;
            assert(r =~= p.skip(k));
            assert(r.push(items.last()).skip(1) =~= items.skip(items.len() - window));
        }
    } else {
        assert(items.skip(0) =~= items);
    }
}

/// A history of the `window` most recent items recorded.
pub struct HistoryWindow<T> {
    window: usize,
    records: VecDeque<T>,
}

impl<T> HistoryWindow<T> {
    #[verifier::type_invariant]
    spec fn bounded(self) -> bool {
        self.records@.len() <= self.window
    }

    /// The items held, oldest first.
    pub closed spec fn contents(self) -> Seq<T> {
        self.records@
    }

    /// The number of items the history keeps.
    pub closed spec fn window_size(self) -> nat {
        self.window as nat
    }

    /// An empty history that keeps the `window` most recent items.
    pub fn new(window: usize) -> (h: Self)
        ensures
            h.contents() == Seq::<T>::empty(),
            h.window_size() == window,
    {
        HistoryWindow { window, records: VecDeque::new() }
    }

    /// The number of items the history keeps.
    pub fn window(&self) -> (w: usize)
        ensures
            w == self.window_size(),
    {
        self.window
    }

    /// The number of items held.
    pub fn len(&self) -> (n: usize)
        ensures
            n == self.contents().len(),
            n <= self.window_size(),
    {
        proof {
            use_type_invariant(self);
        }
        self.records.len()
    }

    /// Records `item` as the newest item, dropping the oldest one when
    /// the history is full; a history with a zero window keeps nothing.
    pub fn record(&mut self, item: T)
        ensures
            final(self).window_size() == old(self).window_size(),
            final(self).contents() == spec_record(
                old(self).contents(),
                old(self).window_size(),
                item,
            ),
            final(self).contents().len() <= final(self).window_size(),
    {
        proof {
            use_type_invariant(&*self);
        }
        if self.window == 0 {
            return;
        }
        let ghost s = self.records@;
        let mut records = VecDeque::new();
        std::mem::swap(&mut records, &mut self.records);
        if records.len() == self.window {
            let _ = records.pop_front();
        }
        records.push_back(item);
        assert(records@ =~= spec_record(s, self.window as nat, item));
        self.records = records;
    }

    /// The newest item, if any.
    pub fn latest(&self) -> (r: Option<&T>)
        ensures
            r == match spec_latest(self.contents()) {
                Some(x) => Some(&x),
                None => None::<&T>,
            },
    {
        let n = self.records.len();
        if n == 0 {
            None
        } else {
            Some(&self.records[n - 1])
        }
    }

    /// The item at position `i`, counted from the oldest.
    pub fn get(&self, i: usize) -> (r: &T)
        requires
            i < self.contents().len(),
        ensures
            *r == self.contents()[i as int],
    {
        &self.records[i]
    }
}

impl<T: Clone> HistoryWindow<T> {
    /// A copy of every item held, oldest first.
    pub fn snapshot(&self) -> (v: Vec<T>)
        ensures
            v@.len() == self.contents().len(),
            forall|i: int| 0 <= i < v@.len() ==> cloned(self.contents()[i], #[trigger] v@[i]),
    {
        let n = self.records.len();
        let mut v: Vec<T> = Vec::new();
        let mut i: usize = 0;
        while i < n
            invariant
                n == self.contents().len(),
                i <= n,
                v@.len() == i,
                forall|k: int| 0 <= k < i ==> cloned(self.contents()[k], #[trigger] v@[k]),
            decreases n - i,
        {
            let item = self.records[i].clone();
            v.push(item);
            i = i + 1;
        }
        v
    }
}

} // verus!
