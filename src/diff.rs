//! The diff algebra: atomic changes of an ordered sequence and how each one
//! transforms a mirror of that sequence.
use vstd::prelude::*;
use vstd::pervasive::strictly_cloned;

verus! {

/// One atomic change of an ordered collection.
#[derive(Debug, Clone, PartialEq, Eq)]
pub enum VectorDiff<T> {
    Append { values: Vec<T> },
    Clear,
    PushFront { value: T },
    PushBack { value: T },
    PopFront,
    PopBack,
    Insert { index: usize, value: T },
    SetItem { index: usize, value: T },
    Remove { index: usize },
    Truncate { length: usize },
    Reset { values: Vec<T> },
}

/// The diff as a mathematical value: sequences in place of vectors.
pub enum Change<T> {
    Append(Seq<T>),
    Clear,
    PushFront(T),
    PushBack(T),
    PopFront,
    PopBack,
    Insert(int, T),
    SetItem(int, T),
    Remove(int),
    Truncate(int),
    Reset(Seq<T>),
}

impl<T> View for VectorDiff<T> {
    type V = Change<T>;

    open spec fn view(&self) -> Change<T> {
        match self {
            VectorDiff::Append { values } => Change::Append(values@),
            VectorDiff::Clear => Change::Clear,
            VectorDiff::PushFront { value } => Change::PushFront(*value),
            VectorDiff::PushBack { value } => Change::PushBack(*value),
            VectorDiff::PopFront => Change::PopFront,
            VectorDiff::PopBack => Change::PopBack,
            VectorDiff::Insert { index, value } => Change::Insert(*index as int, *value),
            VectorDiff::SetItem { index, value } => Change::SetItem(*index as int, *value),
            VectorDiff::Remove { index } => Change::Remove(*index as int),
            VectorDiff::Truncate { length } => Change::Truncate(*length as int),
            VectorDiff::Reset { values } => Change::Reset(values@),
        }
    }
}

/// Whether the change can be applied to `s`: popped sequences are not empty
/// and indices address existing positions (or, for an insertion, the end).
pub open spec fn applicable<T>(s: Seq<T>, c: Change<T>) -> bool {
    match c {
        Change::PopFront => s.len() > 0,
        Change::PopBack => s.len() > 0,
        Change::Insert(i, _) => 0 <= i <= s.len(),
        Change::SetItem(i, _) => 0 <= i < s.len(),
        Change::Remove(i) => 0 <= i < s.len(),
        Change::Truncate(n) => 0 <= n,
        _ => true,
    }
}

/// The first `n` items of `s`, or all of them where `s` is shorter.
pub open spec fn truncated<T>(s: Seq<T>, n: int) -> Seq<T> {
    if n < s.len() {
        s.take(n)
    } else {
        s
    }
}

/// What applying the change does to the sequence `s`.
pub open spec fn apply<T>(s: Seq<T>, c: Change<T>) -> Seq<T> {
    match c {
        Change::Append(vs) => s + vs,
        Change::Clear => Seq::empty(),
        Change::PushFront(v) => seq![v] + s,
        Change::PushBack(v) => s.push(v),
        Change::PopFront => s.drop_first(),
        Change::PopBack => s.drop_last(),
        Change::Insert(i, v) => s.insert(i, v),
        Change::SetItem(i, v) => s.update(i, v),
        Change::Remove(i) => s.remove(i),
        Change::Truncate(n) => truncated(s, n),
        Change::Reset(vs) => vs,
    }
}

/// Whether every change of `cs`, in order, can be applied starting from `s`.
pub open spec fn applicable_all<T>(s: Seq<T>, cs: Seq<Change<T>>) -> bool
    decreases cs.len(),
{
    if cs.len() == 0 {
        true
    } else {
        applicable(s, cs[0]) && applicable_all(apply(s, cs[0]), cs.drop_first())
    }
}

/// The sequence obtained by applying the changes of `cs` to `s`, in order.
pub open spec fn apply_all<T>(s: Seq<T>, cs: Seq<Change<T>>) -> Seq<T>
    decreases cs.len(),
{
    if cs.len() == 0 {
        s
    } else {
        apply_all(apply(s, cs[0]), cs.drop_first())
    }
}

/// Whether cloning a `T` gives a value equal to the original, as it does for
/// integers and strings.
pub open spec fn clone_is_exact<T: Clone>() -> bool {
    forall|a: T, b: T| #[trigger] strictly_cloned(a, b) ==> a == b
}

/// A copy of `v`, equal to it where cloning is exact.
pub fn clone_item<T: Clone>(v: &T) -> (r: T)
    requires
        clone_is_exact::<T>(),
    ensures
        r == *v,
{
    let r = v.clone();
    assert(strictly_cloned(*v, r));
    r
}

/// A copy of the vector `v`, item for item.
pub fn clone_items<T: Clone>(v: &Vec<T>) -> (r: Vec<T>)
    requires
        clone_is_exact::<T>(),
    ensures
        r@ == v@,
{
    let r = v.clone();
    assert forall|i: int| 0 <= i < v@.len() implies r@[i] == v@[i] by {
        assert(cloned(v@[i], r@[i]));
    }
    assert(r@ =~= v@);
    r
}

/// A copy of the diff `d`, with the same view.
pub fn clone_diff<T: Clone>(d: &VectorDiff<T>) -> (r: VectorDiff<T>)
    requires
        clone_is_exact::<T>(),
    ensures
        r@ == d@,
{
    match d {
        VectorDiff::Append { values } => VectorDiff::Append { values: clone_items(values) },
        VectorDiff::Clear => VectorDiff::Clear,
        VectorDiff::PushFront { value } => VectorDiff::PushFront { value: clone_item(value) },
        VectorDiff::PushBack { value } => VectorDiff::PushBack { value: clone_item(value) },
        VectorDiff::PopFront => VectorDiff::PopFront,
        VectorDiff::PopBack => VectorDiff::PopBack,
        VectorDiff::Insert { index, value } => VectorDiff::Insert {
            index: *index,
            value: clone_item(value),
        },
        VectorDiff::SetItem { index, value } => VectorDiff::SetItem {
            index: *index,
            value: clone_item(value),
        },
        VectorDiff::Remove { index } => VectorDiff::Remove { index: *index },
        VectorDiff::Truncate { length } => VectorDiff::Truncate { length: *length },
        VectorDiff::Reset { values } => VectorDiff::Reset { values: clone_items(values) },
    }
}

/// Whether `diff` can be applied to `v`.
pub fn applies_to<T>(diff: &VectorDiff<T>, v: &Vec<T>) -> (r: bool)
    ensures
        r == applicable(v@, diff@),
{
    match diff {
        VectorDiff::PopFront => v.len() > 0,
        VectorDiff::PopBack => v.len() > 0,
        VectorDiff::Insert { index, .. } => *index <= v.len(),
        VectorDiff::SetItem { index, .. } => *index < v.len(),
        VectorDiff::Remove { index } => *index < v.len(),
        _ => true,
    }
}

/// Applies the diff to the mirror `v`, which must be able to take it.
pub fn apply_diff<T: Clone>(diff: &VectorDiff<T>, v: &mut Vec<T>)
    requires
        clone_is_exact::<T>(),
        applicable(old(v)@, diff@),
    ensures
        final(v)@ == apply(old(v)@, diff@),
{
    match diff {
        VectorDiff::Append { values } => {
            let mut extra = clone_items(values);
            v.append(&mut extra);
        },
        VectorDiff::Clear => v.clear(),
        VectorDiff::PushFront { value } => v.insert(0, clone_item(value)),
        VectorDiff::PushBack { value } => v.push(clone_item(value)),
        VectorDiff::PopFront => {
            v.remove(0);
        },
        VectorDiff::PopBack => {
            v.pop();
        },
        VectorDiff::Insert { index, value } => v.insert(*index, clone_item(value)),
        VectorDiff::SetItem { index, value } => v.set(*index, clone_item(value)),
        VectorDiff::Remove { index } => {
            v.remove(*index);
        },
        VectorDiff::Truncate { length } => v.truncate(*length),
        VectorDiff::Reset { values } => {
            *v = clone_items(values);
        },
    }
    assert(v@ =~= apply(old(v)@, diff@));
}

} // verus!
