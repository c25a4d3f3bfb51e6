use space_shooter::util::{closest, running_minima, IdVendor, FAR};

#[test]
fn ids_count_up_from_zero() {
    let mut v = IdVendor::default();
    assert_eq!(v.next_id(), 0);
    assert_eq!(v.next_id(), 1);
    assert_eq!(v.next_id(), 2);
}

#[test]
fn running_minima_lists_new_bests() {
    let keys = vec![50u32, 70, 40, 40, 10, 90];
    let all = vec![true; 6];
    assert_eq!(running_minima(&keys, &all), vec![0, 2, 4]);
    assert_eq!(closest(&keys, &all), Some(4));
}

#[test]
fn ineligible_candidates_are_skipped() {
    let keys = vec![50u32, 70, 40, 40, 10, 90];
    let eligible = vec![true, true, false, true, false, true];
    assert_eq!(running_minima(&keys, &eligible), vec![0, 3]);
    assert_eq!(closest(&keys, &eligible), Some(3));
}

#[test]
fn keys_at_or_above_far_never_win() {
    let keys = vec![FAR, u32::MAX, FAR];
    let all = vec![true; 3];
    assert_eq!(running_minima(&keys, &all), Vec::<usize>::new());
    assert_eq!(closest(&keys, &all), None);
    let keys = vec![FAR, FAR - 1];
    assert_eq!(closest(&keys, &vec![true, true]), Some(1));
}

#[test]
fn empty_scan_finds_nothing() {
    assert_eq!(closest(&vec![], &vec![]), None);
    assert_eq!(running_minima(&vec![], &vec![]), Vec::<usize>::new());
}

#[test]
fn keys_follow_distances() {
    // distance keys are the bit patterns of non-negative distances
    let d: Vec<f32> = vec![3.5, 1.25, 1.25, 0.0, 7.0];
    let keys: Vec<u32> = d.iter().map(|x| x.to_bits()).collect();
    assert_eq!(running_minima(&keys, &vec![true; 5]), vec![0, 1, 3]);
    assert_eq!(f32::MAX.to_bits(), FAR);
}
