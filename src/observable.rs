//! An observable vector: the authoritative collection, whose every change is
//! broadcast as a diff to each subscriber through a bounded history. A
//! subscriber that falls more than the capacity behind loses its backlog and
//! catches up with one `Reset` of the current values.
use vstd::prelude::*;
use crate::diff::{
    apply, apply_all, applicable, applicable_all, apply_diff, clone_diff, clone_is_exact,
    clone_item, clone_items, Change, VectorDiff,
};
use crate::laws::lemma_apply_all_concat;
use crate::limit::{changes_of, lemma_apply_one};

verus! {

/// The largest capacity that a vector's history can be given.
pub const MAX_CAPACITY: usize = usize::MAX / 2;

/// A subscriber of an `ObservableVector`.
#[derive(Debug, Clone, Copy, PartialEq, Eq)]
pub struct VectorSubscriber {
    id: usize,
}

impl VectorSubscriber {
    /// The position of this subscriber among those of its vector.
    pub closed spec fn index(&self) -> nat {
        self.id as nat
    }
}

/// A collection that broadcasts each of its changes to its subscribers.
pub struct ObservableVector<T> {
    values: Vec<T>,
    capacity: usize,
    history: Vec<VectorDiff<T>>,
    behind: Vec<usize>,
    seen: Ghost<Seq<Seq<T>>>,
}

impl<T> ObservableVector<T> {
    /// The current values.
    pub closed spec fn values(&self) -> Seq<T> {
        self.values@
    }

    /// How many undelivered diffs a subscriber may have before it lags.
    pub closed spec fn capacity(&self) -> nat {
        self.capacity as nat
    }

    /// The number of subscribers.
    pub closed spec fn subscriber_count(&self) -> nat {
        self.behind@.len()
    }

    /// Whether subscriber `k` has fallen behind by more than the capacity.
    pub closed spec fn lagged(&self, k: int) -> bool {
        self.behind@[k] > self.capacity
    }

    /// The diffs broadcast to subscriber `k` and not yet delivered, oldest
    /// first (meaningful while it does not lag).
    pub closed spec fn undelivered(&self, k: int) -> Seq<Change<T>> {
        changes_of(self.history@).skip(self.history@.len() - self.behind@[k])
    }

    /// The collection as subscriber `k` holds it after every diff delivered
    /// to it.
    pub closed spec fn seen_by(&self, k: int) -> Seq<T> {
        self.seen@[k]
    }

    /// Subscriber `k` is consistent: unless it lags, applying what it has not
    /// been delivered to what it holds gives the current values.
    pub closed spec fn subscriber_wf(&self, k: int) -> bool {
        if self.behind@[k] > self.capacity {
            self.behind@[k] == self.capacity + 1
        } else {
            &&& self.behind@[k] <= self.history@.len()
            &&& applicable_all(self.seen@[k], self.undelivered(k))
            &&& apply_all(self.seen@[k], self.undelivered(k)) == self.values@
        }
    }

    pub closed spec fn wf(&self) -> bool {
        &&& 1 <= self.capacity <= MAX_CAPACITY
        &&& self.history@.len() <= self.capacity
        &&& self.seen@.len() == self.behind@.len()
        &&& forall|k: int| 0 <= k < self.behind@.len() ==> #[trigger] self.subscriber_wf(k)
    }

    /// `post` is this vector after the change `c` was applied and broadcast:
    /// each subscriber gets `c` after its undelivered diffs, unless it lags
    /// already or has as many undelivered as the capacity, and then it lags.
    pub open spec fn broadcast_to(&self, post: Self, c: Change<T>) -> bool {
        &&& post.wf()
        &&& post.values() == apply(self.values(), c)
        &&& post.capacity() == self.capacity()
        &&& post.subscriber_count() == self.subscriber_count()
        &&& forall|k: int| 0 <= k < self.subscriber_count() ==> {
            &&& post.seen_by(k) == self.seen_by(k)
            &&& if self.lagged(k) || self.undelivered(k).len() == self.capacity() {
                post.lagged(k)
            } else {
                !post.lagged(k) && post.undelivered(k) == self.undelivered(k).push(c)
            }
        }
    }

    /// An empty vector whose subscribers may each fall `capacity` diffs
    /// behind before they lag.
    pub fn with_capacity(capacity: usize) -> (r: ObservableVector<T>)
        requires
            1 <= capacity <= MAX_CAPACITY,
        ensures
            r.wf(),
            r.values() == Seq::<T>::empty(),
            r.capacity() == capacity,
            r.subscriber_count() == 0,
    {
        ObservableVector {
            values: Vec::new(),
            capacity,
            history: Vec::new(),
            behind: Vec::new(),
            seen: Ghost(Seq::empty()),
        }
    }

    /// A new subscriber; it holds the current values and has nothing
    /// undelivered.
    pub fn subscribe(&mut self) -> (r: VectorSubscriber)
        requires
            old(self).wf(),
        ensures
            final(self).wf(),
            final(self).values() == old(self).values(),
            final(self).capacity() == old(self).capacity(),
            final(self).subscriber_count() == old(self).subscriber_count() + 1,
            r.index() == old(self).subscriber_count(),
            !final(self).lagged(r.index() as int),
            final(self).undelivered(r.index() as int).len() == 0,
            final(self).seen_by(r.index() as int) == final(self).values(),
            forall|k: int| 0 <= k < old(self).subscriber_count() ==> {
                &&& final(self).lagged(k) == old(self).lagged(k)
                &&& final(self).undelivered(k) == old(self).undelivered(k)
                &&& final(self).seen_by(k) == old(self).seen_by(k)
            },
    {
        let id = self.behind.len();
        self.behind.push(0);
        proof {
            self.seen = Ghost(self.seen@.push(self.values@));
            assert(self.undelivered(id as int) =~= Seq::<Change<T>>::empty());
            assert forall|k: int| 0 <= k < self.behind@.len() implies #[trigger] self.subscriber_wf(k) by {
                if k < id {
                    assert(old(self).subscriber_wf(k));
                    assert(self.undelivered(k) == old(self).undelivered(k));
                }
            }
        }
        VectorSubscriber { id }
    }

    /// Applies `diff` to the values and broadcasts it: each subscriber gets
    /// it after its undelivered diffs, unless it has as many undelivered as
    /// the capacity allows, in which case it lags.
    fn broadcast(&mut self, diff: VectorDiff<T>)
        where
            T: Clone,
        requires
            old(self).wf(),
            clone_is_exact::<T>(),
            applicable(old(self).values(), diff@),
        ensures
            old(self).broadcast_to(*final(self), diff@),
    {
        let ghost d = diff@;
        let ghost old_hist = changes_of(self.history@);
        apply_diff(&diff, &mut self.values);
        self.history.push(diff);
        if self.history.len() > self.capacity {
            self.history.remove(0);
        }
        let ghost new_hist = changes_of(self.history@);
        proof {
            assert forall|b: int| 0 <= b < self.capacity && b <= old_hist.len() implies
                #[trigger] new_hist.skip(new_hist.len() - (b + 1)) == old_hist.skip(old_hist.len() - b).push(d) by {
                assert(new_hist.skip(new_hist.len() - (b + 1)) =~= old_hist.skip(old_hist.len() - b).push(d));
            }
        }
        let ghost old_behind = self.behind@;
        let ghost values_now = self.values@;
        let ghost history_now = self.history@;
        let mut k: usize = 0;
        while k < self.behind.len()
            invariant
                self.values@ == values_now,
                self.history@ == history_now,
                self.seen == old(self).seen,
                self.capacity == old(self).capacity,
                self.behind@.len() == old_behind.len(),
                1 <= self.capacity <= MAX_CAPACITY,
                k <= self.behind@.len(),
                forall|j: int| k <= j < old_behind.len() ==> self.behind@[j] == old_behind[j],
                forall|j: int| 0 <= j < k ==> self.behind@[j] == if old_behind[j] >= self.capacity {
                    self.capacity + 1
                } else {
                    old_behind[j] + 1
                },
            decreases self.behind@.len() - k,
        {
            let b = self.behind[k];
            let nb = if b >= self.capacity {
                self.capacity + 1
            } else {
                b + 1
            };
            self.behind.set(k, nb);
            k = k + 1;
        }
        proof {
            assert forall|j: int| 0 <= j < self.behind@.len() implies #[trigger] self.subscriber_wf(j) by {
                assert(old(self).subscriber_wf(j));
                let b = old_behind[j] as int;
                if b < self.capacity {
                    let seen = self.seen@[j];
                    assert(old_behind == old(self).behind@);
                    assert(old(self).behind@[j] <= old(self).history@.len());
                    assert(old_hist.len() == old(self).history@.len());
                    assert(new_hist.len() == self.history@.len());
                    assert(b <= old_hist.len());
                    assert(new_hist.skip(new_hist.len() - (b + 1)) == old_hist.skip(old_hist.len() - b).push(d));
                    assert(self.undelivered(j) == old(self).undelivered(j).push(d));
                    assert(old(self).undelivered(j).push(d) =~= old(self).undelivered(j) + seq![d]);
                    lemma_apply_all_concat(seen, old(self).undelivered(j), seq![d]);
                    lemma_apply_one(old(self).values@, d);
                }
            }
            assert forall|j: int| 0 <= j < old(self).subscriber_count() implies
                self.seen_by(j) == old(self).seen_by(j) && (if old(self).lagged(j) || old(self).undelivered(j).len() == old(self).capacity() {
                    self.lagged(j)
                } else {
                    !self.lagged(j) && self.undelivered(j) == old(self).undelivered(j).push(d)
                }) by {
                assert(old(self).subscriber_wf(j));
                let b = old_behind[j] as int;
                if b < self.capacity {
                    assert(old_hist.len() == old(self).history@.len());
                    assert(new_hist.len() == self.history@.len());
                    assert(b <= old_hist.len());
                    assert(new_hist.skip(new_hist.len() - (b + 1)) == old_hist.skip(old_hist.len() - b).push(d));
                }
            }
        }
    }

    /// The next diff for subscriber `sub`: a `Reset` to the current values
    /// where it lags, else its oldest undelivered diff, else nothing (it has
    /// caught up).
    pub fn next(&mut self, sub: &VectorSubscriber) -> (r: Option<VectorDiff<T>>)
        where
            T: Clone,
        requires
            old(self).wf(),
            clone_is_exact::<T>(),
            sub.index() < old(self).subscriber_count(),
        ensures
            final(self).wf(),
            final(self).values() == old(self).values(),
            final(self).capacity() == old(self).capacity(),
            final(self).subscriber_count() == old(self).subscriber_count(),
            !final(self).lagged(sub.index() as int),
            old(self).lagged(sub.index() as int) ==> (r matches Some(d) && d@ == Change::Reset(old(self).values()))
                && final(self).undelivered(sub.index() as int).len() == 0,
            !old(self).lagged(sub.index() as int) && old(self).undelivered(sub.index() as int).len() > 0 ==>
                (r matches Some(d) && d@ == old(self).undelivered(sub.index() as int)[0])
                && final(self).undelivered(sub.index() as int) == old(self).undelivered(sub.index() as int).drop_first(),
            !old(self).lagged(sub.index() as int) && old(self).undelivered(sub.index() as int).len() == 0 ==>
                r is None && *final(self) == *old(self),
            r matches Some(d) ==> (applicable(old(self).seen_by(sub.index() as int), d@)
                && final(self).seen_by(sub.index() as int) == apply(old(self).seen_by(sub.index() as int), d@)),
            r is None ==> final(self).seen_by(sub.index() as int) == final(self).values(),
            forall|j: int| 0 <= j < old(self).subscriber_count() && j != sub.index() ==> {
                &&& final(self).lagged(j) == old(self).lagged(j)
                &&& final(self).undelivered(j) == old(self).undelivered(j)
                &&& final(self).seen_by(j) == old(self).seen_by(j)
            },
    {
        let k = sub.id;
        let b = self.behind[k];
        proof {
            assert(self.subscriber_wf(k as int));
        }
        if b > self.capacity {
            let values = clone_items(&self.values);
            self.behind.set(k, 0);
            proof {
                self.seen = Ghost(self.seen@.update(k as int, self.values@));
                assert(self.undelivered(k as int) =~= Seq::<Change<T>>::empty());
                assert forall|j: int| 0 <= j < self.behind@.len() implies #[trigger] self.subscriber_wf(j) by {
                    if j != k {
                        assert(old(self).subscriber_wf(j));
                    }
                }
            }
            Some(VectorDiff::Reset { values })
        } else if b > 0 {
            let d = clone_diff(&self.history[self.history.len() - b]);
            self.behind.set(k, b - 1);
            proof {
                let pend = old(self).undelivered(k as int);
                assert(pend[0] == d@);
                assert(self.undelivered(k as int) =~= pend.drop_first());
                self.seen = Ghost(self.seen@.update(k as int, apply(old(self).seen@[k as int], d@)));
                assert forall|j: int| 0 <= j < self.behind@.len() implies #[trigger] self.subscriber_wf(j) by {
                    if j != k {
                        assert(old(self).subscriber_wf(j));
                    }
                }
            }
            Some(d)
        } else {
            proof {
                assert(old(self).undelivered(k as int) =~= Seq::<Change<T>>::empty());
            }
            None
        }
    }
}

impl<T: Clone> ObservableVector<T> {
    /// An empty vector with the default capacity of 16.
    pub fn new() -> (r: ObservableVector<T>)
        ensures
            r.wf(),
            r.values() == Seq::<T>::empty(),
            r.capacity() == 16,
            r.subscriber_count() == 0,
    {
        Self::with_capacity(16)
    }

    /// A vector holding `values`, with the default capacity of 16.
    pub fn from_values(values: Vec<T>) -> (r: ObservableVector<T>)
        ensures
            r.wf(),
            r.values() == values@,
            r.capacity() == 16,
            r.subscriber_count() == 0,
    {
        ObservableVector {
            values,
            capacity: 16,
            history: Vec::new(),
            behind: Vec::new(),
            seen: Ghost(Seq::empty()),
        }
    }

    /// The number of values.
    pub fn len(&self) -> (r: usize)
        ensures
            r == self.values().len(),
    {
        self.values.len()
    }

    /// Whether there are no values.
    pub fn is_empty(&self) -> (r: bool)
        ensures
            r == (self.values().len() == 0),
    {
        self.values.len() == 0
    }

    /// A copy of the value at `index`, where there is one.
    pub fn get(&self, index: usize) -> (r: Option<T>)
        requires
            clone_is_exact::<T>(),
        ensures
            index < self.values().len() ==> r == Some(self.values()[index as int]),
            index >= self.values().len() ==> r is None,
    {
        if index < self.values.len() {
            Some(clone_item(&self.values[index]))
        } else {
            None
        }
    }

    /// A copy of the current values.
    pub fn values_vec(&self) -> (r: Vec<T>)
        requires
            clone_is_exact::<T>(),
        ensures
            r@ == self.values(),
    {
        clone_items(&self.values)
    }

    /// The current values; the subscribers get nothing more.
    pub fn into_inner(self) -> (r: Vec<T>)
        ensures
            r@ == self.values(),
    {
        self.values
    }

    /// Adds `values` at the end.
    pub fn append(&mut self, values: Vec<T>)
        requires
            old(self).wf(),
            clone_is_exact::<T>(),
        ensures
            old(self).broadcast_to(*final(self), Change::Append(values@)),
    {
        self.broadcast(VectorDiff::Append { values });
    }

    /// Removes every value.
    pub fn clear(&mut self)
        requires
            old(self).wf(),
            clone_is_exact::<T>(),
        ensures
            old(self).broadcast_to(*final(self), Change::Clear),
    {
        self.broadcast(VectorDiff::Clear);
    }

    /// Adds `value` at the front.
    pub fn push_front(&mut self, value: T)
        requires
            old(self).wf(),
            clone_is_exact::<T>(),
        ensures
            old(self).broadcast_to(*final(self), Change::PushFront(value)),
    {
        self.broadcast(VectorDiff::PushFront { value });
    }

    /// Adds `value` at the back.
    pub fn push_back(&mut self, value: T)
        requires
            old(self).wf(),
            clone_is_exact::<T>(),
        ensures
            old(self).broadcast_to(*final(self), Change::PushBack(value)),
    {
        self.broadcast(VectorDiff::PushBack { value });
    }

    /// Removes and returns the first value; an empty vector stays as it is
    /// and broadcasts nothing.
    pub fn pop_front(&mut self) -> (r: Option<T>)
        requires
            old(self).wf(),
            clone_is_exact::<T>(),
        ensures
            old(self).values().len() == 0 ==> r is None && *final(self) == *old(self),
            old(self).values().len() > 0 ==> r == Some(old(self).values()[0])
                && old(self).broadcast_to(*final(self), Change::PopFront),
    {
        if self.values.len() == 0 {
            None
        } else {
            let first = clone_item(&self.values[0]);
            self.broadcast(VectorDiff::PopFront);
            Some(first)
        }
    }

    /// Removes and returns the last value; an empty vector stays as it is
    /// and broadcasts nothing.
    pub fn pop_back(&mut self) -> (r: Option<T>)
        requires
            old(self).wf(),
            clone_is_exact::<T>(),
        ensures
            old(self).values().len() == 0 ==> r is None && *final(self) == *old(self),
            old(self).values().len() > 0 ==> r == Some(old(self).values().last())
                && old(self).broadcast_to(*final(self), Change::PopBack),
    {
        if self.values.len() == 0 {
            None
        } else {
            let last = clone_item(&self.values[self.values.len() - 1]);
            self.broadcast(VectorDiff::PopBack);
            Some(last)
        }
    }

    /// Inserts `value` at `index`, shifting the later values.
    pub fn insert(&mut self, index: usize, value: T)
        requires
            old(self).wf(),
            clone_is_exact::<T>(),
            index <= old(self).values().len(),
        ensures
            old(self).broadcast_to(*final(self), Change::Insert(index as int, value)),
    {
        self.broadcast(VectorDiff::Insert { index, value });
    }

    /// Replaces the value at `index` with `value` and returns the old one.
    pub fn set(&mut self, index: usize, value: T) -> (r: T)
        requires
            old(self).wf(),
            clone_is_exact::<T>(),
            index < old(self).values().len(),
        ensures
            r == old(self).values()[index as int],
            old(self).broadcast_to(*final(self), Change::SetItem(index as int, value)),
    {
        let prev = clone_item(&self.values[index]);
        self.broadcast(VectorDiff::SetItem { index, value });
        prev
    }

    /// Removes and returns the value at `index`, shifting the later values.
    pub fn remove(&mut self, index: usize) -> (r: T)
        requires
            old(self).wf(),
            clone_is_exact::<T>(),
            index < old(self).values().len(),
        ensures
            r == old(self).values()[index as int],
            old(self).broadcast_to(*final(self), Change::Remove(index as int)),
    {
        let prev = clone_item(&self.values[index]);
        self.broadcast(VectorDiff::Remove { index });
        prev
    }

    /// Keeps the first `len` values; broadcasts only where that drops any.
    pub fn truncate(&mut self, len: usize)
        requires
            old(self).wf(),
            clone_is_exact::<T>(),
        ensures
            len >= old(self).values().len() ==> *final(self) == *old(self),
            len < old(self).values().len() ==> old(self).broadcast_to(*final(self), Change::Truncate(len as int)),
    {
        if len < self.values.len() {
            self.broadcast(VectorDiff::Truncate { length: len });
        }
    }

    /// Replaces every value with `values`.
    pub fn reset(&mut self, values: Vec<T>)
        requires
            old(self).wf(),
            clone_is_exact::<T>(),
        ensures
            old(self).broadcast_to(*final(self), Change::Reset(values@)),
    {
        self.broadcast(VectorDiff::Reset { values });
    }
}

/// A position in an `ObservableVector`, to read, overwrite or remove the
/// value there.
#[derive(Debug, PartialEq, Eq)]
pub struct ObservableVectorEntry {
    index: usize,
}

impl ObservableVectorEntry {
    /// The position of the entry.
    pub closed spec fn index(&self) -> nat {
        self.index as nat
    }

    /// The position of the entry.
    pub fn position(&self) -> (r: usize)
        ensures
            r == self.index(),
    {
        self.index
    }

    /// A copy of the value at the entry.
    pub fn get<T: Clone>(this: &ObservableVectorEntry, ob: &ObservableVector<T>) -> (r: T)
        requires
            clone_is_exact::<T>(),
            this.index() < ob.values().len(),
        ensures
            r == ob.values()[this.index() as int],
    {
        clone_item(&ob.values[this.index])
    }

    /// Overwrites the value at the entry and returns the old one; broadcasts
    /// `SetItem` at the entry's position.
    pub fn set<T: Clone>(this: &mut ObservableVectorEntry, ob: &mut ObservableVector<T>, value: T) -> (r: T)
        requires
            old(ob).wf(),
            clone_is_exact::<T>(),
            old(this).index() < old(ob).values().len(),
        ensures
            *final(this) == *old(this),
            r == old(ob).values()[old(this).index() as int],
            old(ob).broadcast_to(*final(ob), Change::SetItem(old(this).index() as int, value)),
    {
        ob.set(this.index, value)
    }

    /// Removes and returns the value at the entry; broadcasts `Remove` at
    /// the entry's position.
    pub fn remove<T: Clone>(this: ObservableVectorEntry, ob: &mut ObservableVector<T>) -> (r: T)
        requires
            old(ob).wf(),
            clone_is_exact::<T>(),
            this.index() < old(ob).values().len(),
        ensures
            r == old(ob).values()[this.index() as int],
            old(ob).broadcast_to(*final(ob), Change::Remove(this.index() as int)),
    {
        ob.remove(this.index)
    }
}

/// A forward enumeration of an `ObservableVector` that may remove the values
/// it visits: the n-th value visited stands at position n minus the number
/// of values removed so far.
pub struct ObservableVectorEntries {
    position: usize,
    visited: Ghost<nat>,
    removed: Ghost<nat>,
}

impl ObservableVectorEntries {
    /// How many values were visited.
    pub closed spec fn visited(&self) -> nat {
        self.visited@
    }

    /// How many of the visited values were removed.
    pub closed spec fn removed(&self) -> nat {
        self.removed@
    }

    pub closed spec fn wf(&self) -> bool {
        self.removed@ <= self.visited@ && self.position == self.visited@ - self.removed@
    }

    /// The entry of the next value, if any is left.
    pub fn next<T>(&mut self, ob: &ObservableVector<T>) -> (r: Option<ObservableVectorEntry>)
        requires
            old(self).wf(),
        ensures
            final(self).wf(),
            final(self).removed() == old(self).removed(),
            old(self).visited() - old(self).removed() < ob.values().len() ==> final(self).visited()
                == old(self).visited() + 1 && (r matches Some(e) && e.index() == old(self).visited()
                - old(self).removed()),
            old(self).visited() - old(self).removed() >= ob.values().len() ==> r is None
                && *final(self) == *old(self),
    {
        let index = self.position;
        if index < ob.values.len() {
            self.position = index + 1;
            self.visited = Ghost(self.visited@ + 1);
            Some(ObservableVectorEntry { index })
        } else {
            None
        }
    }

    /// Removes the value at `entry`, the one visited last, and returns it;
    /// later values are then visited at positions one lower.
    pub fn remove<T: Clone>(&mut self, entry: ObservableVectorEntry, ob: &mut ObservableVector<T>) -> (r: T)
        requires
            old(self).wf(),
            old(ob).wf(),
            clone_is_exact::<T>(),
            old(self).visited() > 0,
            entry.index() == old(self).visited() - 1 - old(self).removed(),
            entry.index() < old(ob).values().len(),
        ensures
            final(self).wf(),
            final(self).visited() == old(self).visited(),
            final(self).removed() == old(self).removed() + 1,
            r == old(ob).values()[entry.index() as int],
            old(ob).broadcast_to(*final(ob), Change::Remove(entry.index() as int)),
    {
        let r = ObservableVectorEntry::remove(entry, ob);
        self.position = self.position - 1;
        self.removed = Ghost(self.removed@ + 1);
        r
    }
}

impl<T: Clone> ObservableVector<T> {
    /// The entry at `index`, which must hold a value.
    pub fn entry(&self, index: usize) -> (r: ObservableVectorEntry)
        requires
            index < self.values().len(),
        ensures
            r.index() == index,
    {
        let _at: &T = &self.values[index];
        ObservableVectorEntry { index }
    }

    /// A forward enumeration from the first value.
    pub fn entries(&self) -> (r: ObservableVectorEntries)
        ensures
            r.wf(),
            r.visited() == 0,
            r.removed() == 0,
    {
        ObservableVectorEntries { position: 0, visited: Ghost(0), removed: Ghost(0) }
    }
}

} // verus!
