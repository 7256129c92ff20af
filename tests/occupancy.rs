use meshem::rle::RleVec;

#[test]
fn rle_push_merges_runs() {
    let mut r = RleVec::new();
    r.push(true, 2);
    r.push(true, 3);
    r.push(false, 1);
    assert_eq!(r.data.len(), 2);
    assert_eq!(r.get(0), Some(true));
    assert_eq!(r.get(4), Some(true));
    assert_eq!(r.get(5), Some(false));
    assert_eq!(r.get(6), None);
}

#[test]
fn rle_change_splits_runs() {
    let mut r = RleVec::new();
    r.push(false, 5);
    assert_eq!(r.change(2, true), Ok(()));
    assert_eq!(r.data.len(), 3);
    let got: Vec<Option<bool>> = (0..6).map(|i| r.get(i)).collect();
    assert_eq!(
        got,
        vec![Some(false), Some(false), Some(true), Some(false), Some(false), None]
    );
    assert_eq!(r.change(0, true), Ok(()));
    assert_eq!(r.get(0), Some(true));
    assert_eq!(r.get(1), Some(false));
    assert_eq!(r.change(4, true), Ok(()));
    assert_eq!(r.get(4), Some(true));
    assert_eq!(r.get(3), Some(false));
    assert_eq!(r.change(2, false), Ok(()));
    assert_eq!(r.get(2), Some(false));
    assert_eq!(r.change(5, true), Err("Index out of bounds"));
    let total: usize = r.data.iter().map(|run| run.length).sum();
    assert_eq!(total, 5);
}

#[test]
fn rle_run_counts_and_failures() {
    let mut r = RleVec::new();
    assert_eq!(r.data.len(), 0);
    assert_eq!(r.get(0), None);
    r.push(true, 1);
    r.push(false, 2);
    assert_eq!(r.data.len(), 2);
    r.push(false, 4);
    assert_eq!(r.data.len(), 2);
    assert_eq!(r.change(7, true), Err("Index out of bounds"));
    assert_eq!(r.data.len(), 2);
    assert_eq!(r.data[1].length, 6);
    assert_eq!(r.change(3, true), Ok(()));
    assert_eq!(r.data.len(), 4);
    assert_eq!(r.change(0, true), Ok(()));
    assert_eq!(r.data.len(), 4);
}
