//! The limiting combinator as a state machine: the driver polls the two
//! upstream streams as told and hands back what they produced; the machine
//! keeps the mirror, the limit and the buffered output.
use vstd::prelude::*;
use crate::diff::{
    apply, apply_all, applicable, applicable_all, apply_diff, applies_to, clone_is_exact, clone_items,
    truncated, Change, VectorDiff,
};
use crate::laws::{limited_diffs, mirror_after, valid_inputs, Input};
use crate::limit::{
    changes_of, handle_diff, lemma_limit_change_replays, lemma_limit_output_replays,
    limit_change, limit_change_output, limit_output, option_seq,
};

verus! {

/// What the driver observed since the last step.
#[derive(Debug, PartialEq, Eq)]
pub enum PollEvent<T> {
    /// A new poll of the combinator starts.
    Resume,
    /// The limit stream produced a new limit.
    NextLimit(usize),
    /// The limit stream has nothing ready (it is pending or has ended).
    LimitsIdle,
    /// The diff stream produced a diff.
    NextDiff(VectorDiff<T>),
    /// The diff stream has ended.
    InnerEnded,
}

/// What the driver does next.
#[derive(Debug, PartialEq, Eq)]
pub enum PollAction<T> {
    /// Hand this diff to the consumer; the poll is over.
    Emit(VectorDiff<T>),
    /// Poll the limit stream and report with `NextLimit` or `LimitsIdle`.
    PollLimit,
    /// Poll the diff stream and report with `NextDiff` or `InnerEnded`
    /// (on pending, the poll is over and the next one starts with `Resume`).
    PollInner,
    /// The combinator's stream has ended.
    Finish,
}

/// The state of a limiting combinator: a mirror of the full collection, the
/// current limit and at most one diff that is computed but not handed out.
pub struct LimitProj<T> {
    buffered_vector: Vec<T>,
    limit: usize,
    ready_values: Option<VectorDiff<T>>,
    shown: Ghost<Seq<T>>,
}

impl<T> LimitProj<T> {
    /// The full collection as rebuilt from the diffs seen so far.
    pub closed spec fn mirror(&self) -> Seq<T> {
        self.buffered_vector@
    }

    /// The current limit.
    pub closed spec fn limit(&self) -> nat {
        self.limit as nat
    }

    /// The diffs computed but not yet handed out, in order.
    pub closed spec fn pending(&self) -> Seq<Change<T>> {
        match self.ready_values {
            Some(d) => seq![d@],
            None => Seq::empty(),
        }
    }

    /// The limited collection as a consumer holds it after every diff handed
    /// out so far.
    pub closed spec fn shown(&self) -> Seq<T> {
        self.shown@
    }

    /// Once the pending diffs are handed out, the consumer holds exactly the
    /// mirror truncated to the limit.
    pub closed spec fn wf(&self) -> bool {
        &&& applicable_all(self.shown@, self.pending())
        &&& apply_all(self.shown@, self.pending()) == truncated(
            self.buffered_vector@,
            self.limit as int,
        )
    }

    /// A fresh state over `initial_values` and `limit`, with the consumer
    /// holding the initial values truncated to the limit.
    pub fn start(initial_values: Vec<T>, limit: usize) -> (r: LimitProj<T>)
        ensures
            r.wf(),
            r.mirror() == initial_values@,
            r.limit() == limit,
            r.pending().len() == 0,
            r.shown() == truncated(initial_values@, limit as int),
    {
        let r = LimitProj {
            buffered_vector: initial_values,
            limit,
            ready_values: None,
            shown: Ghost(truncated(initial_values@, limit as int)),
        };
        assert(r.pending() =~= Seq::<Change<T>>::empty());
        r
    }

    /// Whether `diff` can be applied to the mirror.
    pub fn can_apply(&self, diff: &VectorDiff<T>) -> (r: bool)
        ensures
            r == applicable(self.mirror(), diff@),
    {
        applies_to(diff, &self.buffered_vector)
    }

    /// A copy of the mirror.
    pub fn mirror_items(&self) -> (r: Vec<T>)
        where
            T: Clone,
        requires
            clone_is_exact::<T>(),
        ensures
            r@ == self.mirror(),
    {
        clone_items(&self.buffered_vector)
    }

    /// Sets the limit to `new_limit` and returns the diff, if any, that the
    /// consumer needs for it.
    pub fn update_limit(&mut self, new_limit: usize) -> (r: Option<VectorDiff<T>>)
        where
            T: Clone,
        requires
            old(self).wf(),
            old(self).pending().len() == 0,
            clone_is_exact::<T>(),
        ensures
            final(self).wf(),
            final(self).mirror() == old(self).mirror(),
            final(self).limit() == new_limit,
            final(self).pending().len() == 0,
            match r {
                Some(d) => limit_change_output(old(self).mirror(), old(self).limit() as int, new_limit as int) == Some(d@)
                    && applicable(old(self).shown(), d@)
                    && final(self).shown() == apply(old(self).shown(), d@),
                None => limit_change_output(old(self).mirror(), old(self).limit() as int, new_limit as int) is None
                    && final(self).shown() == old(self).shown(),
            },
    {
        let old_limit = self.limit;
        let r = limit_change(&self.buffered_vector, old_limit, new_limit);
        proof {
            lemma_limit_change_replays(self.buffered_vector@, old_limit as nat, new_limit as nat);
            let o = limit_change_output(self.buffered_vector@, old_limit as int, new_limit as int);
            assert(option_seq(o).len() <= 1);
            if let Some(c) = o {
                assert(option_seq(o).drop_first() =~= Seq::<Change<T>>::empty());
                self.shown = Ghost(apply(self.shown@, c));
            }
        }
        self.limit = new_limit;
        r
    }

    /// Applies `diff` to the mirror and returns the diffs, at most two, that
    /// the consumer needs for it. The consumer holds the result of all of
    /// them afterwards.
    pub fn push_diff(&mut self, diff: VectorDiff<T>) -> (r: Vec<VectorDiff<T>>)
        where
            T: Clone,
        requires
            old(self).wf(),
            old(self).pending().len() == 0,
            clone_is_exact::<T>(),
            applicable(old(self).mirror(), diff@),
        ensures
            final(self).mirror() == apply(old(self).mirror(), diff@),
            final(self).limit() == old(self).limit(),
            final(self).pending().len() == 0,
            final(self).shown() == old(self).shown(),
            changes_of(r@) == limit_output(diff@, old(self).limit() as int, old(self).mirror().len() as int, final(self).mirror()),
            r.len() <= 2,
            applicable_all(old(self).shown(), changes_of(r@)),
            apply_all(old(self).shown(), changes_of(r@)) == truncated(final(self).mirror(), final(self).limit() as int),
    {
        let prev_len = self.buffered_vector.len();
        proof {
            lemma_limit_output_replays(self.buffered_vector@, diff@, self.limit as nat);
        }
        apply_diff(&diff, &mut self.buffered_vector);
        handle_diff(diff, self.limit, prev_len, &self.buffered_vector)
    }

    /// Applies the diffs of one transaction to the mirror, in order, and
    /// returns the diffs that the consumer needs for all of them, as one
    /// transaction.
    pub fn push_diffs(&mut self, diffs: Vec<VectorDiff<T>>) -> (r: Vec<VectorDiff<T>>)
        where
            T: Clone,
        requires
            old(self).wf(),
            old(self).pending().len() == 0,
            clone_is_exact::<T>(),
            valid_inputs(old(self).mirror(), diff_inputs(changes_of(diffs@))),
        ensures
            final(self).wf(),
            final(self).mirror() == mirror_after(old(self).mirror(), diff_inputs(changes_of(diffs@))),
            final(self).limit() == old(self).limit(),
            final(self).pending().len() == 0,
            changes_of(r@) == limited_diffs(old(self).mirror(), old(self).limit(), diff_inputs(changes_of(diffs@))),
            applicable_all(old(self).shown(), changes_of(r@)),
            final(self).shown() == apply_all(old(self).shown(), changes_of(r@)),
    {
        let ghost ins = diff_inputs(changes_of(diffs@));
        let ghost m0 = self.buffered_vector@;
        let ghost shown0 = self.shown@;
        let n = diffs.len();
        let mut rest = diffs;
        let mut out: Vec<VectorDiff<T>> = Vec::new();
        let mut i: usize = 0;
        assert(ins.skip(0) =~= ins);
        assert(changes_of(out@) + limited_diffs(m0, self.limit as nat, ins) =~= limited_diffs(m0, self.limit as nat, ins));
        while rest.len() > 0
            invariant
                self.pending().len() == 0,
                clone_is_exact::<T>(),
                self.limit == old(self).limit,
                ins.len() == n,
                i <= ins.len(),
                rest@.len() == ins.len() - i,
                diff_inputs(changes_of(rest@)) == ins.skip(i as int),
                valid_inputs(self.buffered_vector@, ins.skip(i as int)),
                changes_of(out@) + limited_diffs(self.buffered_vector@, self.limit as nat, ins.skip(i as int))
                    == limited_diffs(m0, self.limit as nat, ins),
                mirror_after(self.buffered_vector@, ins.skip(i as int)) == mirror_after(m0, ins),
                applicable_all(shown0, changes_of(out@)),
                apply_all(shown0, changes_of(out@)) == truncated(self.buffered_vector@, self.limit as int),
            decreases rest@.len(),
        {
            let ghost before = self.buffered_vector@;
            let ghost out0 = changes_of(out@);
            let ghost tail = ins.skip(i as int);
            let d = rest.remove(0);
            proof {
                assert(tail[0] == Input::Diff(d@));
                assert(tail.drop_first() =~= ins.skip(i + 1));
                assert(diff_inputs(changes_of(rest@)) =~= ins.skip(i + 1));
                self.shown = Ghost(truncated(before, self.limit as int));
            }
            let mut step = self.push_diff(d);
            proof {
                let c = changes_of(step@);
                crate::laws::lemma_apply_all_concat(shown0, out0, c);
                assert(changes_of(out@) + changes_of(step@) =~= out0 + c);
            }
            let ghost step0 = step@;
            let ghost out_before = out@;
            out.append(&mut step);
            proof {
                assert(changes_of(out@) =~= out0 + changes_of(step0)) by {
                    assert(out@ =~= out_before + step0);
                };
                assert(changes_of(out@) + limited_diffs(self.buffered_vector@, self.limit as nat, ins.skip(i + 1))
                    =~= out0 + limited_diffs(before, self.limit as nat, tail));
            }
            i = i + 1;
        }
        proof {
            assert(ins.skip(i as int) =~= Seq::<Input<T>>::empty());
            assert(changes_of(out@) =~= limited_diffs(m0, self.limit as nat, ins));
            self.shown = Ghost(apply_all(shown0, changes_of(out@)));
            assert(self.pending() =~= Seq::<Change<T>>::empty());
        }
        out
    }

    /// One step of a poll: takes what the driver observed and says what it
    /// does next. Diffs buffered from an earlier step go out first, then the
    /// diffs of every ready limit, then those of the diff stream.
    pub fn poll_next(&mut self, event: PollEvent<T>) -> (r: PollAction<T>)
        where
            T: Clone,
        requires
            old(self).wf(),
            clone_is_exact::<T>(),
            event is NextLimit || event is NextDiff ==> old(self).pending().len() == 0,
            event matches PollEvent::NextDiff(d) ==> applicable(old(self).mirror(), d@),
        ensures
            final(self).wf(),
            match r {
                PollAction::Emit(d) => applicable(old(self).shown(), d@) && final(self).shown() == apply(old(self).shown(), d@),
                _ => final(self).shown() == old(self).shown(),
            },
            match event {
                PollEvent::Resume => if old(self).pending().len() > 0 {
                    (r matches PollAction::Emit(d) && d@ == old(self).pending()[0])
                        && final(self).mirror() == old(self).mirror()
                        && final(self).limit() == old(self).limit()
                        && final(self).pending().len() == 0
                } else {
                    r is PollLimit && *final(self) == *old(self)
                },
                PollEvent::NextLimit(l) => final(self).mirror() == old(self).mirror()
                    && final(self).limit() == l
                    && final(self).pending().len() == 0
                    && match limit_change_output(old(self).mirror(), old(self).limit() as int, l as int) {
                        Some(c) => r matches PollAction::Emit(d) && d@ == c,
                        None => r is PollLimit,
                    },
                PollEvent::LimitsIdle => r is PollInner && *final(self) == *old(self),
                PollEvent::NextDiff(d) => {
                    let out = limit_output(d@, old(self).limit() as int, old(self).mirror().len() as int, final(self).mirror());
                    &&& final(self).mirror() == apply(old(self).mirror(), d@)
                    &&& final(self).limit() == old(self).limit()
                    &&& if out.len() == 0 {
                        r is PollLimit && final(self).pending().len() == 0
                    } else {
                        (r matches PollAction::Emit(e) && e@ == out[0])
                            && final(self).pending() == out.drop_first()
                    }
                },
                PollEvent::InnerEnded => r is Finish && *final(self) == *old(self),
            },
    {
        match event {
            PollEvent::Resume => {
                match self.ready_values.take() {
                    Some(d) => {
                        proof {
                            let ps = old(self).pending();
                            assert(ps =~= seq![d@]);
                            assert(ps.drop_first() =~= Seq::<Change<T>>::empty());
                            self.shown = Ghost(apply(self.shown@, d@));
                            assert(self.pending() =~= Seq::<Change<T>>::empty());
                            assert(apply_all(self.shown@, self.pending()) == self.shown@);
                        }
                        PollAction::Emit(d)
                    },
                    None => PollAction::PollLimit,
                }
            },
            PollEvent::NextLimit(l) => {
                match self.update_limit(l) {
                    Some(d) => PollAction::Emit(d),
                    None => PollAction::PollLimit,
                }
            },
            PollEvent::LimitsIdle => PollAction::PollInner,
            PollEvent::NextDiff(d) => {
                let mut out = self.push_diff(d);
                let ghost outs = changes_of(out@);
                if out.len() == 0 {
                    PollAction::PollLimit
                } else {
                    let second = if out.len() == 2 {
                        out.pop()
                    } else {
                        None
                    };
                    let first = out.pop();
                    match first {
                        Some(e) => {
                            self.ready_values = second;
                            proof {
                                assert(e@ == outs[0]);
                                let s0 = self.shown@;
                                assert(applicable_all(s0, outs));
                                self.shown = Ghost(apply(s0, e@));
                                assert(self.pending() =~= outs.drop_first());
                                assert(applicable_all(self.shown@, self.pending()));
                            }
                            PollAction::Emit(e)
                        },
                        None => PollAction::PollLimit,
                    }
                }
            },
            PollEvent::InnerEnded => PollAction::Finish,
        }
    }
}

/// The changes of `cs` as inputs of the combinator.
pub open spec fn diff_inputs<T>(cs: Seq<Change<T>>) -> Seq<Input<T>> {
    cs.map_values(|c: Change<T>| Input::Diff(c))
}

/// A limit stream that has ended before producing anything: the limit stays
/// where it started.
#[derive(Debug, Clone, Copy, PartialEq, Eq)]
pub struct EmptyLimitStream;

impl EmptyLimitStream {
    /// The next limit, of which there is none.
    pub fn poll_next(&mut self) -> (r: Option<usize>)
        ensures
            r is None,
    {
        None
    }
}

/// A diff stream presented through a window: `inner_stream` yields the diffs
/// of the full collection, `limit_stream` the successive limits, and `state`
/// turns both into the diffs of the collection truncated to the limit.
pub struct Limit<T, S, L> {
    pub inner_stream: S,
    pub limit_stream: L,
    pub state: LimitProj<T>,
}

impl<T: Clone, S> Limit<T, S, EmptyLimitStream> {
    /// A combinator with the fixed limit `limit`; returns the initial values
    /// truncated to it as well.
    pub fn new(initial_values: Vec<T>, inner_stream: S, limit: usize) -> (r: (
        Vec<T>,
        Limit<T, S, EmptyLimitStream>,
    ))
        requires
            clone_is_exact::<T>(),
        ensures
            r.0@ == truncated(initial_values@, limit as int),
            r.1.state.wf(),
            r.1.state.mirror() == initial_values@,
            r.1.state.limit() == limit,
            r.1.state.pending().len() == 0,
            r.1.state.shown() == r.0@,
    {
        Self::dynamic_with_initial_limit(initial_values, inner_stream, limit, EmptyLimitStream)
    }
}

impl<T: Clone, S, L> Limit<T, S, L> {
    /// A combinator whose limits come from `limit_stream`, starting at 0: it
    /// hands out nothing before the first limit arrives.
    pub fn dynamic(initial_values: Vec<T>, inner_stream: S, limit_stream: L) -> (r: Limit<T, S, L>)
        ensures
            r.state.wf(),
            r.state.mirror() == initial_values@,
            r.state.limit() == 0,
            r.state.pending().len() == 0,
            r.state.shown() == Seq::<T>::empty(),
    {
        let state = LimitProj::start(initial_values, 0);
        assert(truncated(initial_values@, 0) =~= Seq::<T>::empty());
        Limit { inner_stream, limit_stream, state }
    }

    /// A combinator that starts at `initial_limit` and takes its next limits
    /// from `limit_stream`; returns the initial values truncated to
    /// `initial_limit` as well.
    pub fn dynamic_with_initial_limit(
        initial_values: Vec<T>,
        inner_stream: S,
        initial_limit: usize,
        limit_stream: L,
    ) -> (r: (Vec<T>, Limit<T, S, L>))
        requires
            clone_is_exact::<T>(),
        ensures
            r.0@ == truncated(initial_values@, initial_limit as int),
            r.1.state.wf(),
            r.1.state.mirror() == initial_values@,
            r.1.state.limit() == initial_limit,
            r.1.state.pending().len() == 0,
            r.1.state.shown() == r.0@,
    {
        let mut shown = clone_items(&initial_values);
        if initial_limit < shown.len() {
            shown.truncate(initial_limit);
        }
        assert(shown@ =~= truncated(initial_values@, initial_limit as int));
        let state = LimitProj::start(initial_values, initial_limit);
        (shown, Limit { inner_stream, limit_stream, state })
    }

    /// A copy of the full collection as mirrored so far, and the combinator.
    pub fn into_parts(self) -> (r: (Vec<T>, Limit<T, S, L>))
        requires
            clone_is_exact::<T>(),
        ensures
            r.0@ == self.state.mirror(),
            r.1 == self,
    {
        let items = self.state.mirror_items();
        (items, self)
    }
}

} // verus!
