use ir_emitter::xu_control::XuControl;

#[test]
fn test_new_snapshots_initial_value() {
    // at construction the current and initial values are byte-equal
    let c = XuControl::new(3, 6, vec![1, 2, 3], None, None, None, None, true).unwrap();
    assert_eq!(c.cur(), c.init());
    assert_eq!(c.cur(), &vec![1, 2, 3]);
}

#[test]
fn test_reset_from_initial_state_changes_nothing() {
    let mut c = XuControl::new(3, 6, vec![1, 2, 3], None, None, None, None, true).unwrap();
    c.reset();
    assert_eq!(c.cur(), &vec![1, 2, 3]);
    assert_eq!(c.init(), &vec![1, 2, 3]);
}

#[test]
fn test_reset_restores_initial_value() {
    let mut c = XuControl::new(3, 6, vec![1, 2, 3], None, None, None, None, true).unwrap();
    c.cur_mut()[0] = 9;
    assert_eq!(c.cur(), &vec![9, 2, 3]);
    c.reset();
    assert_eq!(c.cur(), &vec![1, 2, 3]);
}

#[test]
fn test_new_rejects_mismatched_lengths() {
    assert!(XuControl::new(1, 1, vec![0, 0], Some(vec![1]), None, None, None, true).is_err());
    assert!(XuControl::new(1, 1, vec![0, 0], None, Some(vec![1]), None, None, true).is_err());
    assert!(XuControl::new(1, 1, vec![0, 0], None, None, Some(vec![1, 2, 3]), None, true).is_err());
    assert!(XuControl::new(1, 1, vec![0, 0], None, None, None, Some(vec![]), true).is_err());
    assert!(
        XuControl::new(1, 1, vec![0, 0], Some(vec![2, 2]), None, None, None, true).is_ok()
    );
}

#[test]
fn test_accessors() {
    let c = XuControl::new(
        7,
        9,
        vec![4, 5],
        Some(vec![9, 9]),
        Some(vec![0, 0]),
        Some(vec![1, 1]),
        Some(vec![2, 2]),
        false,
    )
    .unwrap();
    assert_eq!(c.unit(), 7);
    assert_eq!(c.selector(), 9);
    assert_eq!(c.max(), Some(&vec![9, 9]));
    assert_eq!(c.min_value(), Some(&vec![0, 0]));
    assert_eq!(c.res_value(), Some(&vec![1, 1]));
    assert_eq!(c.def_value(), Some(&vec![2, 2]));
    assert!(!c.writable());
}

#[test]
fn test_essential_clone_drops_metadata() {
    let c = XuControl::new(
        7,
        9,
        vec![4, 5],
        Some(vec![9, 9]),
        Some(vec![0, 0]),
        Some(vec![1, 1]),
        Some(vec![2, 2]),
        true,
    )
    .unwrap();
    let e = c.essential_clone();
    assert_eq!(e.unit(), 7);
    assert_eq!(e.selector(), 9);
    assert_eq!(e.cur(), &vec![4, 5]);
    assert!(e.init().is_empty());
    assert_eq!(e.max(), None);
    assert_eq!(e.min_value(), None);
    assert_eq!(e.res_value(), None);
    assert_eq!(e.def_value(), None);
    assert!(e.writable());
}

#[test]
fn test_new_rejects_empty_value() {
    // a control value holds at least one byte
    assert!(XuControl::new(1, 1, vec![], None, None, None, None, true).is_err());
}

#[test]
fn test_reset_restores_length() {
    // reset overwrites the current value unconditionally, even after the
    // caller resized it
    let mut c = XuControl::new(3, 6, vec![1, 2, 3], None, None, None, None, true).unwrap();
    c.cur_mut().pop();
    assert_eq!(c.cur(), &vec![1, 2]);
    c.reset();
    assert_eq!(c.cur(), &vec![1, 2, 3]);
}
