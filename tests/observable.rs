use eyeball_im_util::diff::VectorDiff;
use eyeball_im_util::observable::{ObservableVector, ObservableVectorEntry};

#[test]
fn lag() {
    let mut ob = ObservableVector::with_capacity(1);
    let rx1 = ob.subscribe();
    let rx2 = ob.subscribe();

    ob.push_back("hello".to_owned());
    assert_eq!(ob.next(&rx1), Some(VectorDiff::PushBack { value: "hello".to_owned() }));

    ob.push_back("world".to_owned());
    assert_eq!(ob.next(&rx1), Some(VectorDiff::PushBack { value: "world".to_owned() }));
    assert_eq!(
        ob.next(&rx2),
        Some(VectorDiff::Reset { values: vec!["hello".to_owned(), "world".to_owned()] })
    );
}

#[test]
fn lag2() {
    let mut ob: ObservableVector<i32> = ObservableVector::with_capacity(2);
    let sub = ob.subscribe();

    ob.push_back(0);
    ob.append(vec![1, 2]);
    ob.push_back(3);

    // The reset carries the latest state; nothing follows until the next change.
    assert_eq!(ob.next(&sub), Some(VectorDiff::Reset { values: vec![0, 1, 2, 3] }));
    assert_eq!(ob.next(&sub), None);
}

#[test]
fn for_each() {
    let mut ob: ObservableVector<i32> = ObservableVector::from_values(vec![0, 10, 1, 2, 4, 33, 5]);
    let sub = ob.subscribe();
    let mut saw_five = false;

    let mut entries = ob.entries();
    while let Some(mut item) = entries.next(&ob) {
        let value = ObservableVectorEntry::get(&item, &ob);
        if value % 2 == 0 {
            let new_value = value / 2;
            ObservableVectorEntry::set(&mut item, &mut ob, new_value);
            if new_value == 0 {
                entries.remove(item, &mut ob);
            }
        } else if value > 10 {
            entries.remove(item, &mut ob);
        } else if value == 5 {
            saw_five = true;
        }
    }

    assert!(saw_five);
    assert_eq!(ob.next(&sub), Some(VectorDiff::SetItem { index: 0, value: 0 }));
    assert_eq!(ob.next(&sub), Some(VectorDiff::Remove { index: 0 }));
    assert_eq!(ob.next(&sub), Some(VectorDiff::SetItem { index: 0, value: 5 }));
    assert_eq!(ob.next(&sub), Some(VectorDiff::SetItem { index: 2, value: 1 }));
    assert_eq!(ob.next(&sub), Some(VectorDiff::SetItem { index: 3, value: 2 }));
    assert_eq!(ob.next(&sub), Some(VectorDiff::Remove { index: 4 }));
    assert_eq!(ob.next(&sub), None);
}

#[test]
fn for_each_async() {
    let mut ob: ObservableVector<u16> = ObservableVector::from_values(vec![2, 1]);
    let mut entries = ob.entries();
    while let Some(mut entry) = entries.next(&ob) {
        let new_item = ObservableVectorEntry::get(&entry, &ob) + 1;
        ObservableVectorEntry::set(&mut entry, &mut ob, new_item);
    }

    assert_eq!(ob.into_inner(), vec![3, 2]);
}

#[test]
fn entry() {
    let mut ob: ObservableVector<u8> = ObservableVector::from_values(vec![1, 2]);
    ObservableVectorEntry::set(&mut ob.entry(1), &mut ob, 3);
    ObservableVectorEntry::remove(ob.entry(0), &mut ob);

    assert_eq!(ob.into_inner(), vec![3]);
}

#[test]
#[should_panic]
fn entry_out_of_range() {
    let ob: ObservableVector<String> = ObservableVector::new();
    ob.entry(0);
}

#[test]
fn late_subscriber_starts_from_current_values() {
    let mut ob: ObservableVector<i32> = ObservableVector::new();
    ob.push_back(1);
    ob.push_front(0);
    let sub = ob.subscribe();
    assert_eq!(ob.values_vec(), vec![0, 1]);
    assert_eq!(ob.next(&sub), None);
    ob.insert(1, 5);
    assert_eq!(ob.next(&sub), Some(VectorDiff::Insert { index: 1, value: 5 }));
    assert_eq!(ob.next(&sub), None);
}

#[test]
fn mutations_broadcast_in_order() {
    let mut ob: ObservableVector<i32> = ObservableVector::with_capacity(16);
    let sub = ob.subscribe();
    ob.append(vec![1, 2, 3, 4]);
    assert_eq!(ob.pop_front(), Some(1));
    assert_eq!(ob.pop_back(), Some(4));
    assert_eq!(ob.set(0, 9), 2);
    assert_eq!(ob.remove(1), 3);
    ob.truncate(5);
    ob.truncate(0);
    ob.reset(vec![7]);
    ob.clear();
    assert_eq!(ob.pop_back(), None);
    assert_eq!(ob.pop_front(), None);
    assert!(ob.is_empty());
    let expected = vec![
        VectorDiff::Append { values: vec![1, 2, 3, 4] },
        VectorDiff::PopFront,
        VectorDiff::PopBack,
        VectorDiff::SetItem { index: 0, value: 9 },
        VectorDiff::Remove { index: 1 },
        VectorDiff::Truncate { length: 0 },
        VectorDiff::Reset { values: vec![7] },
        VectorDiff::Clear,
    ];
    for d in expected {
        assert_eq!(ob.next(&sub), Some(d));
    }
    assert_eq!(ob.next(&sub), None);
}

#[test]
fn lag_resets_to_state_at_poll_time() {
    let mut ob: ObservableVector<i32> = ObservableVector::with_capacity(1);
    let slow = ob.subscribe();
    let fast = ob.subscribe();
    ob.push_back(1);
    assert_eq!(ob.next(&fast), Some(VectorDiff::PushBack { value: 1 }));
    ob.push_back(2);
    ob.push_back(3);
    assert_eq!(ob.len(), 3);
    assert_eq!(ob.get(2), Some(3));
    assert_eq!(ob.get(3), None);
    assert_eq!(ob.next(&slow), Some(VectorDiff::Reset { values: vec![1, 2, 3] }));
    assert_eq!(ob.next(&slow), None);
    assert_eq!(ob.next(&fast), Some(VectorDiff::Reset { values: vec![1, 2, 3] }));
    ob.push_back(4);
    assert_eq!(ob.next(&slow), Some(VectorDiff::PushBack { value: 4 }));
}
