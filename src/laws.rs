//! Laws of the limiting combinator over whole runs of inputs.
use vstd::prelude::*;
use crate::diff::{apply, apply_all, applicable, applicable_all, truncated, Change};
use crate::limit::{
    lemma_limit_change_replays, lemma_limit_output_replays, limit_change_output, limit_output,
    option_seq,
};

verus! {

/// One input of the combinator: a new limit, or a change of the full
/// collection.
pub enum Input<T> {
    NewLimit(nat),
    Diff(Change<T>),
}

/// Whether every change among `ins` can be applied to the mirror as it stands
/// when the change arrives, starting from `m`.
pub open spec fn valid_inputs<T>(m: Seq<T>, ins: Seq<Input<T>>) -> bool
    decreases ins.len(),
{
    if ins.len() == 0 {
        true
    } else {
        match ins[0] {
            Input::NewLimit(_) => valid_inputs(m, ins.drop_first()),
            Input::Diff(c) => applicable(m, c) && valid_inputs(apply(m, c), ins.drop_first()),
        }
    }
}

/// The mirror after the inputs `ins`, starting from `m`.
pub open spec fn mirror_after<T>(m: Seq<T>, ins: Seq<Input<T>>) -> Seq<T>
    decreases ins.len(),
{
    if ins.len() == 0 {
        m
    } else {
        match ins[0] {
            Input::NewLimit(_) => mirror_after(m, ins.drop_first()),
            Input::Diff(c) => mirror_after(apply(m, c), ins.drop_first()),
        }
    }
}

/// The limit after the inputs `ins`, starting from `l`.
pub open spec fn limit_after<T>(l: nat, ins: Seq<Input<T>>) -> nat
    decreases ins.len(),
{
    if ins.len() == 0 {
        l
    } else {
        match ins[0] {
            Input::NewLimit(n) => limit_after(n, ins.drop_first()),
            Input::Diff(_) => limit_after(l, ins.drop_first()),
        }
    }
}

/// Every diff that the combinator hands out for the inputs `ins`, in order,
/// starting from the mirror `m` and the limit `l`.
pub open spec fn limited_diffs<T>(m: Seq<T>, l: nat, ins: Seq<Input<T>>) -> Seq<Change<T>>
    decreases ins.len(),
{
    if ins.len() == 0 {
        Seq::empty()
    } else {
        match ins[0] {
            Input::NewLimit(n) => option_seq(limit_change_output(m, l as int, n as int))
                + limited_diffs(m, n, ins.drop_first()),
            Input::Diff(c) => limit_output(c, l as int, m.len() as int, apply(m, c))
                + limited_diffs(apply(m, c), l, ins.drop_first()),
        }
    }
}

/// Applying `a` then `b` is applying their concatenation.
pub proof fn lemma_apply_all_concat<T>(s: Seq<T>, a: Seq<Change<T>>, b: Seq<Change<T>>)
    ensures
        applicable_all(s, a + b) == (applicable_all(s, a) && applicable_all(apply_all(s, a), b)),
        apply_all(s, a + b) == apply_all(apply_all(s, a), b),
    decreases a.len(),
{
    if a.len() == 0 {
        assert(a + b =~= b);
    } else {
        lemma_apply_all_concat(apply(s, a[0]), a.drop_first(), b);
        assert((a + b).drop_first() =~= a.drop_first() + b);
        assert((a + b)[0] == a[0]);
    }
}

/// Whatever the changes and the limits, and in whatever order they come,
/// replaying the diffs that the combinator hands out on the initial values
/// truncated to the initial limit gives the final mirror truncated to the
/// final limit.
pub proof fn lemma_replay_matches_truncated_mirror<T>(m: Seq<T>, l: nat, ins: Seq<Input<T>>)
    requires
        valid_inputs(m, ins),
    ensures
        applicable_all(truncated(m, l as int), limited_diffs(m, l, ins)),
        apply_all(truncated(m, l as int), limited_diffs(m, l, ins)) == truncated(
            mirror_after(m, ins),
            limit_after(l, ins) as int,
        ),
    decreases ins.len(),
{
    if ins.len() > 0 {
        let rest = ins.drop_first();
        match ins[0] {
            Input::NewLimit(n) => {
                let first = option_seq(limit_change_output(m, l as int, n as int));
                lemma_limit_change_replays(m, l, n);
                lemma_replay_matches_truncated_mirror(m, n, rest);
                lemma_apply_all_concat(truncated(m, l as int), first, limited_diffs(m, n, rest));
            },
            Input::Diff(c) => {
                let first = limit_output(c, l as int, m.len() as int, apply(m, c));
                lemma_limit_output_replays(m, c, l);
                lemma_replay_matches_truncated_mirror(apply(m, c), l, rest);
                lemma_apply_all_concat(
                    truncated(m, l as int),
                    first,
                    limited_diffs(apply(m, c), l, rest),
                );
            },
        }
    }
}

/// Whether `ins` holds changes only, no new limit.
pub open spec fn diffs_only<T>(ins: Seq<Input<T>>) -> bool {
    forall|i: int| 0 <= i < ins.len() ==> ins[i] is Diff
}

/// With a limit of zero the combinator hands out nothing, however many
/// changes come.
pub proof fn lemma_zero_limit_is_silent<T>(m: Seq<T>, ins: Seq<Input<T>>)
    requires
        diffs_only(ins),
    ensures
        limited_diffs(m, 0, ins) == Seq::<Change<T>>::empty(),
    decreases ins.len(),
{
    if ins.len() > 0 {
        let rest = ins.drop_first();
        assert(ins[0] is Diff);
        assert forall|i: int| 0 <= i < rest.len() implies rest[i] is Diff by {
            assert(rest[i] == ins[i + 1]);
        }
        if let Input::Diff(c) = ins[0] {
            lemma_zero_limit_is_silent(apply(m, c), rest);
            assert(limited_diffs(m, 0, ins) =~= Seq::<Change<T>>::empty());
        }
    }
}

/// A growing limit hands out exactly the items that become visible, as one
/// `Append`, or nothing where none does; a shrinking limit hands out exactly
/// one `Truncate` where the mirror is longer than the new limit; an empty
/// mirror or an unchanged limit hands out nothing.
pub proof fn lemma_limit_change_shape<T>(m: Seq<T>, old_limit: nat, new_limit: nat)
    ensures
        m.len() == 0 || old_limit == new_limit ==> limit_change_output(m, old_limit as int, new_limit as int) is None,
        m.len() > 0 && old_limit < new_limit ==> limit_change_output(m, old_limit as int, new_limit as int) == if old_limit < m.len() {
            Some(Change::Append(m.subrange(old_limit as int, if new_limit < m.len() { new_limit as int } else { m.len() as int })))
        } else {
            None
        },
        m.len() > 0 && old_limit > new_limit ==> limit_change_output(m, old_limit as int, new_limit as int) == if m.len() > new_limit {
            Some(Change::<T>::Truncate(new_limit as int))
        } else {
            None
        },
{
    if m.len() > 0 && old_limit < new_limit && old_limit < m.len() {
        let end = if new_limit < m.len() { new_limit as int } else { m.len() as int };
        assert(truncated(m.skip(old_limit as int), new_limit - old_limit) =~= m.subrange(old_limit as int, end));
    }
}

} // verus!
