//! The window-limiting rules: how each diff of the full collection, and each
//! new limit, becomes the diffs of the collection truncated to the limit.
use vstd::prelude::*;
use crate::diff::{
    apply, apply_all, applicable, applicable_all, clone_is_exact, clone_item,
    truncated, Change, VectorDiff,
};

verus! {

/// The views of a sequence of diffs.
pub open spec fn changes_of<T>(ds: Seq<VectorDiff<T>>) -> Seq<Change<T>> {
    ds.map_values(|d: VectorDiff<T>| d@)
}

/// The item that enters the window from behind once an item inside it has
/// been removed: `m[limit - 1]` of the updated mirror, where it exists.
pub open spec fn backfill<T>(limit: int, m: Seq<T>) -> Seq<Change<T>> {
    if 0 <= limit - 1 < m.len() {
        seq![Change::PushBack(m[limit - 1])]
    } else {
        Seq::empty()
    }
}

/// The diffs that the limited view receives for the change `c` of the full
/// collection, whose length was `prev_len` before it; `m` is the mirror after
/// the change.
pub open spec fn limit_output<T>(c: Change<T>, limit: int, prev_len: int, m: Seq<T>) -> Seq<
    Change<T>,
> {
    let full = prev_len >= limit;
    if limit == 0 {
        Seq::empty()
    } else {
        match c {
            Change::Append(vs) => if full {
                Seq::empty()
            } else {
                seq![Change::Append(truncated(vs, limit - prev_len))]
            },
            Change::Clear => seq![Change::Clear],
            Change::PushFront(v) => if full {
                seq![Change::PopBack, Change::PushFront(v)]
            } else {
                seq![Change::PushFront(v)]
            },
            Change::PushBack(v) => if full {
                Seq::empty()
            } else {
                seq![Change::PushBack(v)]
            },
            Change::PopFront => seq![Change::PopFront] + backfill(limit, m),
            Change::PopBack => if prev_len > limit {
                Seq::empty()
            } else {
                seq![Change::PopBack]
            },
            Change::Insert(i, v) => if i >= limit {
                Seq::empty()
            } else if full {
                seq![Change::PopBack, Change::Insert(i, v)]
            } else {
                seq![Change::Insert(i, v)]
            },
            Change::SetItem(i, v) => if i >= limit {
                Seq::empty()
            } else {
                seq![Change::SetItem(i, v)]
            },
            Change::Remove(i) => if i >= limit {
                Seq::empty()
            } else {
                seq![Change::Remove(i)] + backfill(limit, m)
            },
            Change::Truncate(n) => if n >= limit {
                Seq::empty()
            } else {
                seq![Change::Truncate(n)]
            },
            Change::Reset(vs) => seq![Change::Reset(truncated(vs, limit))],
        }
    }
}

/// The diff, if any, that the limited view receives when the limit moves from
/// `old_limit` to `new_limit` over the mirror `m`.
pub open spec fn limit_change_output<T>(m: Seq<T>, old_limit: int, new_limit: int) -> Option<
    Change<T>,
> {
    if m.len() == 0 || old_limit == new_limit {
        None
    } else if old_limit < new_limit {
        if old_limit < m.len() {
            Some(Change::Append(truncated(m.skip(old_limit), new_limit - old_limit)))
        } else {
            None
        }
    } else if m.len() > new_limit {
        Some(Change::Truncate(new_limit))
    } else {
        None
    }
}

/// The sequence of at most one change held by `o`.
pub open spec fn option_seq<T>(o: Option<Change<T>>) -> Seq<Change<T>> {
    match o {
        Some(c) => seq![c],
        None => Seq::empty(),
    }
}

/// Applying a sequence of one change is applying the change.
pub proof fn lemma_apply_one<T>(s: Seq<T>, a: Change<T>)
    ensures
        applicable_all(s, seq![a]) == applicable(s, a),
        apply_all(s, seq![a]) == apply(s, a),
{
    reveal_with_fuel(applicable_all, 2);
    reveal_with_fuel(apply_all, 2);
    assert(seq![a].drop_first() =~= Seq::<Change<T>>::empty());
}

proof fn lemma_apply_two<T>(s: Seq<T>, a: Change<T>, b: Change<T>)
    ensures
        applicable_all(s, seq![a, b]) == (applicable(s, a) && applicable(apply(s, a), b)),
        apply_all(s, seq![a, b]) == apply(apply(s, a), b),
{
    lemma_apply_one(apply(s, a), b);
    reveal_with_fuel(applicable_all, 2);
    reveal_with_fuel(apply_all, 2);
    assert(seq![a, b].drop_first() =~= seq![b]);
}

proof fn lemma_apply_none<T>(s: Seq<T>)
    ensures
        applicable_all(s, Seq::<Change<T>>::empty()),
        apply_all(s, Seq::<Change<T>>::empty()) == s,
{
}

/// Replaying the limited diffs of one change on the view that was the mirror
/// truncated to the limit gives the updated mirror truncated to the limit.
pub proof fn lemma_limit_output_replays<T>(s: Seq<T>, c: Change<T>, limit: nat)
    requires
        applicable(s, c),
    ensures
        applicable_all(truncated(s, limit as int), limit_output(c, limit as int, s.len() as int, apply(s, c))),
        apply_all(truncated(s, limit as int), limit_output(c, limit as int, s.len() as int, apply(s, c)))
            == truncated(apply(s, c), limit as int),
        limit_output(c, limit as int, s.len() as int, apply(s, c)).len() <= 2,
{
    let l = limit as int;
    let v = truncated(s, l);
    let m = apply(s, c);
    let out = limit_output(c, l, s.len() as int, m);
    if l == 0 {
        lemma_apply_none(v);
        assert(truncated(m, l) =~= Seq::<T>::empty());
        assert(v =~= Seq::<T>::empty());
    } else {
    match c {
        Change::Append(vs) => {
            if s.len() >= l {
                lemma_apply_none(v);
                assert(truncated(m, l) =~= v);
            } else {
                lemma_apply_one(v, out[0]);
                assert(out =~= seq![out[0]]);
                assert(truncated(m, l) =~= apply(v, out[0]));
            }
        },
        Change::Clear => {
            lemma_apply_one(v, out[0]);
            assert(out =~= seq![out[0]]);
            assert(truncated(m, l) =~= apply(v, out[0]));
        },
        Change::PushFront(x) => {
            if s.len() >= l {
                lemma_apply_two(v, Change::PopBack, Change::PushFront(x));
                assert(truncated(m, l) =~= apply(apply(v, Change::PopBack), Change::PushFront(x)));
            } else {
                lemma_apply_one(v, out[0]);
                assert(out =~= seq![out[0]]);
                assert(truncated(m, l) =~= apply(v, out[0]));
            }
        },
        Change::PushBack(x) => {
            if s.len() >= l {
                lemma_apply_none(v);
                assert(truncated(m, l) =~= v);
            } else {
                lemma_apply_one(v, out[0]);
                assert(out =~= seq![out[0]]);
                assert(truncated(m, l) =~= apply(v, out[0]));
            }
        },
        Change::PopFront => {
            if l - 1 < m.len() {
                let b = Change::PushBack(m[l - 1]);
                assert(out =~= seq![Change::PopFront, b]);
                lemma_apply_two(v, Change::PopFront, b);
                assert(truncated(m, l) =~= apply(apply(v, Change::PopFront), b));
            } else {
                assert(out =~= seq![Change::<T>::PopFront]);
                lemma_apply_one(v, Change::PopFront);
                assert(truncated(m, l) =~= apply(v, Change::PopFront));
            }
        },
        Change::PopBack => {
            if s.len() > l {
                lemma_apply_none(v);
                assert(truncated(m, l) =~= v);
            } else {
                lemma_apply_one(v, out[0]);
                assert(out =~= seq![out[0]]);
                assert(truncated(m, l) =~= apply(v, out[0]));
            }
        },
        Change::Insert(i, x) => {
            if i >= l {
                lemma_apply_none(v);
                assert(truncated(m, l) =~= v);
            } else if s.len() >= l {
                lemma_apply_two(v, Change::PopBack, Change::Insert(i, x));
                assert(truncated(m, l) =~= apply(apply(v, Change::PopBack), Change::Insert(i, x)));
            } else {
                lemma_apply_one(v, out[0]);
                assert(out =~= seq![out[0]]);
                assert(truncated(m, l) =~= apply(v, out[0]));
            }
        },
        Change::SetItem(i, x) => {
            if i >= l {
                lemma_apply_none(v);
                assert(truncated(m, l) =~= v);
            } else {
                lemma_apply_one(v, out[0]);
                assert(out =~= seq![out[0]]);
                assert(truncated(m, l) =~= apply(v, out[0]));
            }
        },
        Change::Remove(i) => {
            if i >= l {
                lemma_apply_none(v);
                assert(truncated(m, l) =~= v);
            } else if l - 1 < m.len() {
                let b = Change::PushBack(m[l - 1]);
                assert(out =~= seq![Change::Remove(i), b]);
                lemma_apply_two(v, Change::Remove(i), b);
                assert(truncated(m, l) =~= apply(apply(v, Change::Remove(i)), b));
            } else {
                assert(out =~= seq![Change::<T>::Remove(i)]);
                lemma_apply_one(v, Change::Remove(i));
                assert(truncated(m, l) =~= apply(v, Change::Remove(i)));
            }
        },
        Change::Truncate(n) => {
            if n >= l {
                lemma_apply_none(v);
                assert(truncated(m, l) =~= v);
            } else {
                lemma_apply_one(v, out[0]);
                assert(out =~= seq![out[0]]);
                assert(truncated(m, l) =~= apply(v, out[0]));
            }
        },
        Change::Reset(vs) => {
            lemma_apply_one(v, out[0]);
            assert(out =~= seq![out[0]]);
            assert(truncated(m, l) =~= apply(v, out[0]));
        },
    }
    }
}

/// A single change of the full collection never makes more than two diffs of
/// the limited view.
pub proof fn lemma_at_most_two_per_diff<T>(c: Change<T>, limit: int, prev_len: int, m: Seq<T>)
    ensures
        limit_output(c, limit, prev_len, m).len() <= 2,
{
}

/// Replaying the diff of a limit change on the mirror truncated to the old
/// limit gives the mirror truncated to the new one.
pub proof fn lemma_limit_change_replays<T>(m: Seq<T>, old_limit: nat, new_limit: nat)
    ensures
        applicable_all(truncated(m, old_limit as int), option_seq(limit_change_output(m, old_limit as int, new_limit as int))),
        apply_all(truncated(m, old_limit as int), option_seq(limit_change_output(m, old_limit as int, new_limit as int)))
            == truncated(m, new_limit as int),
{
    let (o, n) = (old_limit as int, new_limit as int);
    let v = truncated(m, o);
    match limit_change_output(m, o, n) {
        Some(c) => {
            lemma_apply_one(v, c);
            assert(truncated(m, n) =~= apply(v, c));
        },
        None => {
            lemma_apply_none(v);
            assert(truncated(m, n) =~= v);
        },
    }
}

/// Appends to `res` the backfill diff of `backfill(limit, m)`.
fn push_backfill<T: Clone>(res: &mut Vec<VectorDiff<T>>, limit: usize, m: &Vec<T>)
    requires
        clone_is_exact::<T>(),
        limit > 0,
    ensures
        changes_of(final(res)@) == changes_of(old(res)@) + backfill(limit as int, m@),
{
    if limit - 1 < m.len() {
        res.push(VectorDiff::PushBack { value: clone_item(&m[limit - 1]) });
    }
    assert(changes_of(res@) =~= changes_of(old(res)@) + backfill(limit as int, m@));
}

/// The diffs, at most two, that the view limited to `limit` receives for
/// `diff`; `prev_len` is the mirror's length before `diff` and
/// `buffered_vector` the mirror after it.
pub fn handle_diff<T: Clone>(
    diff: VectorDiff<T>,
    limit: usize,
    prev_len: usize,
    buffered_vector: &Vec<T>,
) -> (res: Vec<VectorDiff<T>>)
    requires
        clone_is_exact::<T>(),
    ensures
        changes_of(res@) == limit_output(diff@, limit as int, prev_len as int, buffered_vector@),
        res.len() <= 2,
{
    let ghost c = diff@;
    let mut res: Vec<VectorDiff<T>> = Vec::new();
    if limit == 0 {
        assert(changes_of(res@) =~= Seq::<Change<T>>::empty());
        return res;
    }
    let is_full = prev_len >= limit;
    match diff {
        VectorDiff::Append { mut values } => {
            if !is_full {
                let ghost vs = values@;
                values.truncate(limit - prev_len);
                assert(values@ =~= truncated(vs, limit - prev_len));
                res.push(VectorDiff::Append { values });
            }
        },
        VectorDiff::Clear => {
            res.push(VectorDiff::Clear);
        },
        VectorDiff::PushFront { value } => {
            if is_full {
                res.push(VectorDiff::PopBack);
            }
            res.push(VectorDiff::PushFront { value });
        },
        VectorDiff::PushBack { value } => {
            if !is_full {
                res.push(VectorDiff::PushBack { value });
            }
        },
        VectorDiff::PopFront => {
            res.push(VectorDiff::PopFront);
            push_backfill(&mut res, limit, buffered_vector);
        },
        VectorDiff::PopBack => {
            if prev_len <= limit {
                res.push(VectorDiff::PopBack);
            }
        },
        VectorDiff::Insert { index, value } => {
            if index < limit {
                if is_full {
                    res.push(VectorDiff::PopBack);
                }
                res.push(VectorDiff::Insert { index, value });
            }
        },
        VectorDiff::SetItem { index, value } => {
            if index < limit {
                res.push(VectorDiff::SetItem { index, value });
            }
        },
        VectorDiff::Remove { index } => {
            if index < limit {
                res.push(VectorDiff::Remove { index });
                push_backfill(&mut res, limit, buffered_vector);
            }
        },
        VectorDiff::Truncate { length } => {
            if length < limit {
                res.push(VectorDiff::Truncate { length });
            }
        },
        VectorDiff::Reset { mut values } => {
            let ghost vs = values@;
            values.truncate(limit);
            assert(values@ =~= truncated(vs, limit as int));
            res.push(VectorDiff::Reset { values });
        },
    }
    assert(changes_of(res@) =~= limit_output(c, limit as int, prev_len as int, buffered_vector@));
    res
}

/// The diff, if any, that the view receives when the limit over the mirror
/// `buffered_vector` moves from `old_limit` to `new_limit`: the newly visible
/// items when it grows, a truncation when it shrinks below the length.
pub fn limit_change<T: Clone>(buffered_vector: &Vec<T>, old_limit: usize, new_limit: usize) -> (r:
    Option<VectorDiff<T>>)
    requires
        clone_is_exact::<T>(),
    ensures
        r matches Some(d) ==> limit_change_output(buffered_vector@, old_limit as int, new_limit as int) == Some(d@),
        r is None ==> limit_change_output(buffered_vector@, old_limit as int, new_limit as int) is None,
{
    let len = buffered_vector.len();
    if len == 0 || old_limit == new_limit {
        None
    } else if old_limit < new_limit {
        if old_limit < len {
            let end = if new_limit < len { new_limit } else { len };
            let mut missing: Vec<T> = Vec::new();
            let mut i: usize = old_limit;
            while i < end
                invariant
                    clone_is_exact::<T>(),
                    old_limit <= i <= end <= len,
                    len == buffered_vector@.len(),
                    missing@ =~= buffered_vector@.subrange(old_limit as int, i as int),
                decreases end - i,
            {
                missing.push(clone_item(&buffered_vector[i]));
                i = i + 1;
            }
            assert(missing@ =~= truncated(buffered_vector@.skip(old_limit as int), new_limit - old_limit));
            Some(VectorDiff::Append { values: missing })
        } else {
            None
        }
    } else if len > new_limit {
        Some(VectorDiff::Truncate { length: new_limit })
    } else {
        None
    }
}

} // verus!
