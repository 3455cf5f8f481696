use eyeball_im_util::diff::{apply_diff, VectorDiff};
use eyeball_im_util::limit::{handle_diff, limit_change};
use eyeball_im_util::stream::{EmptyLimitStream, Limit, LimitProj, PollAction, PollEvent};

/// Runs one poll of the combinator with the given limits and diff ready.
fn poll_once(
    state: &mut LimitProj<i32>,
    limits: &mut Vec<usize>,
    diffs: &mut Vec<VectorDiff<i32>>,
) -> Option<VectorDiff<i32>> {
    let mut action = state.poll_next(PollEvent::Resume);
    loop {
        match action {
            PollAction::Emit(d) => return Some(d),
            PollAction::Finish => return None,
            PollAction::PollLimit => {
                let event = if limits.is_empty() {
                    PollEvent::LimitsIdle
                } else {
                    PollEvent::NextLimit(limits.remove(0))
                };
                action = state.poll_next(event);
            }
            PollAction::PollInner => {
                let event = if diffs.is_empty() {
                    PollEvent::InnerEnded
                } else {
                    PollEvent::NextDiff(diffs.remove(0))
                };
                action = state.poll_next(event);
            }
        }
    }
}

fn drain(
    state: &mut LimitProj<i32>,
    limits: &mut Vec<usize>,
    diffs: &mut Vec<VectorDiff<i32>>,
) -> Vec<VectorDiff<i32>> {
    let mut out = Vec::new();
    while let Some(d) = poll_once(state, limits, diffs) {
        out.push(d);
    }
    out
}

#[test]
fn pop_front_backfills_from_hidden_items() {
    let (view, mut lim) = Limit::new(vec![10, 11, 12], (), 2);
    assert_eq!(view, vec![10, 11]);
    let out = drain(&mut lim.state, &mut vec![], &mut vec![VectorDiff::PopFront]);
    assert_eq!(out, vec![VectorDiff::PopFront, VectorDiff::PushBack { value: 12 }]);
}

#[test]
fn zero_limit_emits_nothing() {
    let mut lim = Limit::dynamic(vec![1, 2, 3], (), EmptyLimitStream);
    let mut diffs = vec![
        VectorDiff::PushBack { value: 4 },
        VectorDiff::PushFront { value: 0 },
        VectorDiff::Insert { index: 0, value: 7 },
        VectorDiff::Remove { index: 1 },
        VectorDiff::Reset { values: vec![5, 6] },
        VectorDiff::Clear,
    ];
    let out = drain(&mut lim.state, &mut vec![], &mut diffs);
    assert!(out.is_empty());
}

#[test]
fn limit_increase_appends_new_slice() {
    let mut lim = Limit::dynamic(vec![1, 2, 3, 4, 5], (), EmptyLimitStream);
    let out = drain(&mut lim.state, &mut vec![2, 4, 10], &mut vec![]);
    assert_eq!(
        out,
        vec![
            VectorDiff::Append { values: vec![1, 2] },
            VectorDiff::Append { values: vec![3, 4] },
            VectorDiff::Append { values: vec![5] },
        ]
    );
}

#[test]
fn limit_decrease_truncates_once() {
    let (view, mut lim) = Limit::dynamic_with_initial_limit(vec![1, 2, 3, 4], (), 4, ());
    assert_eq!(view, vec![1, 2, 3, 4]);
    let out = drain(&mut lim.state, &mut vec![1, 1, 8, 9], &mut vec![]);
    assert_eq!(
        out,
        vec![VectorDiff::Truncate { length: 1 }, VectorDiff::Append { values: vec![2, 3, 4] }]
    );
}

#[test]
fn limit_change_on_empty_mirror_is_silent() {
    let mut lim = Limit::dynamic(Vec::<i32>::new(), (), ());
    let out = drain(&mut lim.state, &mut vec![3, 1, 0, 5], &mut vec![]);
    assert!(out.is_empty());
    assert_eq!(limit_change(&Vec::<i32>::new(), 0, 3), None);
    assert_eq!(limit_change(&vec![1, 2], 3, 3), None);
    assert_eq!(limit_change(&vec![1, 2], 5, 2), None);
    assert_eq!(limit_change(&vec![1, 2], 2, 5), None);
    assert_eq!(limit_change(&vec![1, 2, 3], 1, 2), Some(VectorDiff::Append { values: vec![2] }));
}

#[test]
fn limit_changes_take_priority_over_diffs() {
    let mut lim = Limit::dynamic(vec![1, 2, 3], (), ());
    let mut limits = vec![2];
    let mut diffs = vec![VectorDiff::PushFront { value: 0 }];
    assert_eq!(
        poll_once(&mut lim.state, &mut limits, &mut diffs),
        Some(VectorDiff::Append { values: vec![1, 2] })
    );
    assert_eq!(diffs.len(), 1);
    assert_eq!(
        drain(&mut lim.state, &mut limits, &mut diffs),
        vec![VectorDiff::PopBack, VectorDiff::PushFront { value: 0 }]
    );
}

#[test]
fn fixed_limit_stream_never_yields() {
    let mut s = EmptyLimitStream;
    assert_eq!(s.poll_next(), None);
}

#[test]
fn into_parts_hands_out_the_full_mirror() {
    let (_, mut lim) = Limit::new(vec![1, 2, 3], (), 1);
    let _ = drain(&mut lim.state, &mut vec![], &mut vec![VectorDiff::PushBack { value: 4 }]);
    let (items, _) = lim.into_parts();
    assert_eq!(items, vec![1, 2, 3, 4]);
}

#[test]
fn replay_matches_truncated_mirror() {
    let initial = vec![1, 2, 3, 4, 5];
    let (mut view, mut lim) = Limit::dynamic_with_initial_limit(initial.clone(), (), 3, ());
    let mut mirror = initial;
    let steps: Vec<(Option<usize>, Option<VectorDiff<i32>>)> = vec![
        (None, Some(VectorDiff::PushFront { value: 0 })),
        (None, Some(VectorDiff::Remove { index: 1 })),
        (Some(4), Some(VectorDiff::Insert { index: 2, value: 9 })),
        (None, Some(VectorDiff::PopBack)),
        (Some(1), Some(VectorDiff::SetItem { index: 0, value: 8 })),
        (Some(6), Some(VectorDiff::Append { values: vec![6, 7, 8] })),
        (None, Some(VectorDiff::Truncate { length: 4 })),
        (Some(2), Some(VectorDiff::PopFront)),
        (None, Some(VectorDiff::Reset { values: vec![3, 2, 1] })),
        (None, Some(VectorDiff::Clear)),
    ];
    let mut limit = 3;
    for (new_limit, diff) in steps {
        let mut limits: Vec<usize> = new_limit.into_iter().collect();
        if let Some(l) = new_limit {
            limit = l;
        }
        let mut diffs: Vec<VectorDiff<i32>> = diff.clone().into_iter().collect();
        if let Some(d) = diff {
            apply_diff(&d, &mut mirror);
        }
        for d in drain(&mut lim.state, &mut limits, &mut diffs) {
            apply_diff(&d, &mut view);
        }
        let expected: Vec<i32> = mirror.iter().take(limit).cloned().collect();
        assert_eq!(view, expected);
    }
}

#[test]
fn handle_diff_rules() {
    let m = vec![1, 2, 3];
    // Not full: the window has room.
    assert_eq!(
        handle_diff(VectorDiff::Append { values: vec![7, 8, 9] }, 5, 3, &m),
        vec![VectorDiff::Append { values: vec![7, 8] }]
    );
    assert_eq!(handle_diff(VectorDiff::Append { values: vec![7] }, 2, 3, &m), vec![]);
    assert_eq!(handle_diff(VectorDiff::Clear, 2, 3, &m), vec![VectorDiff::Clear]);
    assert_eq!(
        handle_diff(VectorDiff::PushFront { value: 0 }, 2, 3, &m),
        vec![VectorDiff::PopBack, VectorDiff::PushFront { value: 0 }]
    );
    assert_eq!(
        handle_diff(VectorDiff::PushFront { value: 0 }, 5, 3, &m),
        vec![VectorDiff::PushFront { value: 0 }]
    );
    assert_eq!(handle_diff(VectorDiff::PushBack { value: 0 }, 2, 3, &m), vec![]);
    assert_eq!(
        handle_diff(VectorDiff::PushBack { value: 0 }, 4, 3, &m),
        vec![VectorDiff::PushBack { value: 0 }]
    );
    assert_eq!(handle_diff(VectorDiff::PopBack, 2, 3, &m), vec![]);
    assert_eq!(handle_diff(VectorDiff::PopBack, 3, 3, &m), vec![VectorDiff::PopBack]);
    assert_eq!(handle_diff(VectorDiff::Insert { index: 2, value: 0 }, 2, 3, &m), vec![]);
    assert_eq!(
        handle_diff(VectorDiff::Insert { index: 1, value: 0 }, 2, 3, &m),
        vec![VectorDiff::PopBack, VectorDiff::Insert { index: 1, value: 0 }]
    );
    assert_eq!(handle_diff(VectorDiff::SetItem { index: 2, value: 0 }, 2, 3, &m), vec![]);
    assert_eq!(
        handle_diff(VectorDiff::SetItem { index: 1, value: 0 }, 2, 3, &m),
        vec![VectorDiff::SetItem { index: 1, value: 0 }]
    );
    assert_eq!(handle_diff(VectorDiff::Remove { index: 2 }, 2, 4, &m), vec![]);
    assert_eq!(
        handle_diff(VectorDiff::Remove { index: 0 }, 2, 4, &m),
        vec![VectorDiff::Remove { index: 0 }, VectorDiff::PushBack { value: 2 }]
    );
    assert_eq!(handle_diff(VectorDiff::Truncate { length: 2 }, 2, 3, &m), vec![]);
    assert_eq!(
        handle_diff(VectorDiff::Truncate { length: 1 }, 2, 3, &m),
        vec![VectorDiff::Truncate { length: 1 }]
    );
    assert_eq!(
        handle_diff(VectorDiff::Reset { values: vec![4, 5, 6] }, 2, 3, &m),
        vec![VectorDiff::Reset { values: vec![4, 5] }]
    );
    assert_eq!(handle_diff(VectorDiff::Clear, 0, 3, &m), vec![]);
}

#[test]
fn batch_emits_one_transaction() {
    let (view, mut lim) = Limit::new(vec![10, 11, 12], (), 2);
    assert_eq!(view, vec![10, 11]);
    let out = lim.state.push_diffs(vec![
        VectorDiff::PopFront,
        VectorDiff::PushBack { value: 13 },
        VectorDiff::SetItem { index: 0, value: 1 },
        VectorDiff::SetItem { index: 2, value: 2 },
    ]);
    assert_eq!(
        out,
        vec![
            VectorDiff::PopFront,
            VectorDiff::PushBack { value: 12 },
            VectorDiff::SetItem { index: 0, value: 1 },
        ]
    );
    assert_eq!(lim.state.mirror_items(), vec![1, 12, 2]);
    assert_eq!(lim.state.push_diffs(vec![]), vec![]);
}

#[test]
fn applicability_of_diffs() {
    let (_, lim) = Limit::new(vec![1, 2], (), 5);
    assert!(lim.state.can_apply(&VectorDiff::Insert { index: 2, value: 0 }));
    assert!(!lim.state.can_apply(&VectorDiff::Insert { index: 3, value: 0 }));
    assert!(!lim.state.can_apply(&VectorDiff::SetItem { index: 2, value: 0 }));
    assert!(!lim.state.can_apply(&VectorDiff::Remove { index: 2 }));
    assert!(lim.state.can_apply(&VectorDiff::PopBack));
    let (_, empty) = Limit::new(Vec::<i32>::new(), (), 5);
    assert!(!empty.state.can_apply(&VectorDiff::PopFront));
    assert!(!empty.state.can_apply(&VectorDiff::PopBack));
    assert!(empty.state.can_apply(&VectorDiff::Truncate { length: 3 }));
}

#[test]
fn apply_diff_follows_each_variant() {
    let mut v = vec![1, 2, 3];
    apply_diff(&VectorDiff::PushFront { value: 0 }, &mut v);
    apply_diff(&VectorDiff::Insert { index: 2, value: 9 }, &mut v);
    assert_eq!(v, vec![0, 1, 9, 2, 3]);
    apply_diff(&VectorDiff::Remove { index: 1 }, &mut v);
    apply_diff(&VectorDiff::PopBack, &mut v);
    apply_diff(&VectorDiff::PopFront, &mut v);
    assert_eq!(v, vec![9, 2]);
    apply_diff(&VectorDiff::Append { values: vec![4, 5] }, &mut v);
    apply_diff(&VectorDiff::Truncate { length: 3 }, &mut v);
    apply_diff(&VectorDiff::SetItem { index: 0, value: 7 }, &mut v);
    assert_eq!(v, vec![7, 2, 4]);
    apply_diff(&VectorDiff::Reset { values: vec![8] }, &mut v);
    assert_eq!(v, vec![8]);
    apply_diff(&VectorDiff::Clear, &mut v);
    assert!(v.is_empty());
}
