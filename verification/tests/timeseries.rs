use timeseries::TimeseriesError;
use timeseries::TimeseriesImpl;

#[test]
fn test_timeseries() {
    let mut ts = TimeseriesImpl::new_with_capacity(4);

    assert_eq!(ts.as_vec(), vec![]);
    assert_eq!(ts.len(), 0);

    ts.push(1).unwrap();
    ts.push(2).unwrap();
    assert_eq!(ts.as_vec(), vec![2, 1]);
    assert_eq!(ts.len(), 2);

    ts.push(3).unwrap();
    ts.push(4).unwrap();

    assert_eq!(ts.as_vec(), vec![4, 3, 2, 1]);
    assert_eq!(ts.len(), 4);

    ts.push(5).unwrap();
    ts.push(6).unwrap();
    ts.push(7).unwrap();

    assert_eq!(ts.as_vec(), vec![7, 6, 5, 4]);
    assert_eq!(ts.len(), 4);

    ts.update(&8).unwrap();
    assert_eq!(ts.as_vec(), vec![8, 6, 5, 4]);

    ts.update_with(|_val| 9).unwrap();
    assert_eq!(ts.as_vec(), vec![9, 6, 5, 4]);

    let x = 10;
    ts.update_with(move |_val| x).unwrap();
    assert_eq!(ts.as_vec(), vec![10, 6, 5, 4]);

    ts.push(11).unwrap();
    ts.push(12).unwrap();
    assert_eq!(ts.first(), Some(&12));

    ts.clear();
    assert_eq!(ts.as_vec(), vec![]);
    assert_eq!(ts.len(), 0);

    ts.push(1).unwrap();
    ts.push(2).unwrap();
    assert_eq!(ts.as_vec(), vec![2, 1]);
    assert_eq!(ts.len(), 2);

    assert_eq!(ts.as_ref_vec(), vec![&2, &1]);
}

#[test]
fn capacity_bound_many_pushes() {
    let mut ts = TimeseriesImpl::new_with_capacity(3);
    for v in 1..=20 {
        ts.push(v).unwrap();
    }
    assert_eq!(ts.len(), 3);
    assert_eq!(ts.as_vec(), vec![20, 19, 18]);
}

#[test]
fn under_capacity_growth() {
    let mut ts = TimeseriesImpl::new_with_capacity(5);
    ts.push(10).unwrap();
    ts.push(20).unwrap();
    ts.push(30).unwrap();
    assert_eq!(ts.len(), 3);
    assert_eq!(ts.as_vec(), vec![30, 20, 10]);
}

#[test]
fn eviction_discards_only_the_oldest() {
    let mut ts = TimeseriesImpl::new_with_capacity(4);
    for v in [1, 2, 3, 4, 5] {
        ts.push(v).unwrap();
    }
    assert_eq!(ts.len(), 4);
    assert_eq!(ts.as_vec(), vec![5, 4, 3, 2]);
}

#[test]
fn update_changes_only_the_head() {
    let mut ts = TimeseriesImpl::new_with_capacity(3);
    ts.push(1).unwrap();
    ts.push(2).unwrap();
    ts.push(3).unwrap();
    ts.update(&99).unwrap();
    assert_eq!(ts.as_vec(), vec![99, 2, 1]);
    assert_eq!(ts.get(1), Some(&2));
    assert_eq!(ts.get(2), Some(&1));
    assert_eq!(ts.len(), 3);
}

#[test]
fn update_with_applies_exactly_once() {
    let mut ts = TimeseriesImpl::new_with_capacity(2);
    ts.push(5).unwrap();
    ts.update_with(|v| v + 1).unwrap();
    assert_eq!(ts.first(), Some(&6));
    assert_eq!(ts.get(0), Some(&6));
    assert_eq!(ts.len(), 1);
}

#[test]
fn empty_buffer_errors() {
    let mut ts: TimeseriesImpl<i32> = TimeseriesImpl::new_with_capacity(4);
    assert_eq!(ts.update(&1), Err(TimeseriesError::Empty));
    assert_eq!(ts.update_with(|v| v), Err(TimeseriesError::Empty));
    assert_eq!(ts.first(), None);
    assert_eq!(ts.get(0), None);

    ts.push(7).unwrap();
    ts.clear();
    assert_eq!(ts.update(&1), Err(TimeseriesError::Empty));
    assert_eq!(ts.update_with(|v| v), Err(TimeseriesError::Empty));
    assert_eq!(ts.first(), None);
    assert_eq!(ts.get(0), None);
}

#[test]
fn error_message_is_descriptive() {
    let e = TimeseriesError::Empty;
    assert_eq!(e.message(), "Can't update because no entries in time series");
}

#[test]
fn clear_resets_fully() {
    let mut cleared = TimeseriesImpl::new_with_capacity(3);
    for v in [9, 8, 7, 6] {
        cleared.push(v).unwrap();
    }
    cleared.clear();
    assert_eq!(cleared.len(), 0);
    assert_eq!(cleared.as_vec(), vec![]);
    assert_eq!(cleared.as_ref_vec(), Vec::<&i32>::new());

    let mut fresh = TimeseriesImpl::new_with_capacity(3);
    for v in [1, 2, 3, 4] {
        cleared.push(v).unwrap();
        fresh.push(v).unwrap();
    }
    assert_eq!(cleared.as_vec(), fresh.as_vec());
    assert_eq!(cleared.len(), fresh.len());
}

#[test]
fn get_out_of_range_is_none() {
    let mut ts = TimeseriesImpl::new_with_capacity(4);
    ts.push(1).unwrap();
    ts.push(2).unwrap();
    assert_eq!(ts.get(0), Some(&2));
    assert_eq!(ts.get(1), Some(&1));
    assert_eq!(ts.get(2), None);
    assert_eq!(ts.get(100), None);
}

#[test]
fn capacity_one_keeps_only_the_newest() {
    let mut ts = TimeseriesImpl::new_with_capacity(1);
    for v in 1..=10 {
        ts.push(v).unwrap();
        assert_eq!(ts.len(), 1);
        assert_eq!(ts.first(), Some(&v));
    }
    assert_eq!(ts.as_vec(), vec![10]);
}

#[test]
fn wraparound_reads_stay_consistent() {
    let mut ts = TimeseriesImpl::new_with_capacity(3);
    for v in 0..9 {
        ts.push(v).unwrap();
        let n = ts.len();
        for k in 0..n {
            assert_eq!(ts.get(k), Some(&(v - k as i32)));
        }
    }
}

#[test]
fn update_with_after_wraparound() {
    let mut ts = TimeseriesImpl::new_with_capacity(2);
    for v in [1, 2, 3] {
        ts.push(v).unwrap();
    }
    ts.update_with(|v| v * 10).unwrap();
    assert_eq!(ts.as_vec(), vec![30, 2]);
    ts.push(4).unwrap();
    ts.push(5).unwrap();
    assert_eq!(ts.as_vec(), vec![5, 4]);
}

#[test]
fn concrete_scenario_capacity_four() {
    let mut ts = TimeseriesImpl::new_with_capacity(4);
    ts.push(1).unwrap();
    ts.push(2).unwrap();
    assert_eq!(ts.as_vec(), vec![2, 1]);
    assert_eq!(ts.len(), 2);
    ts.push(3).unwrap();
    ts.push(4).unwrap();
    assert_eq!(ts.as_vec(), vec![4, 3, 2, 1]);
    assert_eq!(ts.len(), 4);
    ts.push(5).unwrap();
    ts.push(6).unwrap();
    ts.push(7).unwrap();
    assert_eq!(ts.as_vec(), vec![7, 6, 5, 4]);
    assert_eq!(ts.len(), 4);
    ts.update(&8).unwrap();
    assert_eq!(ts.as_vec(), vec![8, 6, 5, 4]);
    ts.update_with(|_v| 9).unwrap();
    assert_eq!(ts.as_vec(), vec![9, 6, 5, 4]);
    ts.push(11).unwrap();
    ts.push(12).unwrap();
    assert_eq!(ts.first(), Some(&12));
    ts.clear();
    assert_eq!(ts.as_vec(), vec![]);
    assert_eq!(ts.len(), 0);
    ts.push(1).unwrap();
    ts.push(2).unwrap();
    assert_eq!(ts.as_vec(), vec![2, 1]);
}

#[test]
fn zero_capacity_reads_are_empty() {
    let ts: TimeseriesImpl<u8> = TimeseriesImpl::new_with_capacity(0);
    assert_eq!(ts.len(), 0);
    assert_eq!(ts.first(), None);
    assert_eq!(ts.get(0), None);
    assert_eq!(ts.as_vec(), vec![]);
}
