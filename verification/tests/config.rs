use ir_emitter::config::{BlackControl, Config, Configs, WhiteControl};
use ir_emitter::control::Control;

#[test]
fn test_config_save_then_load_takes_the_record() {
    let mut store = Configs::load_or_new();
    let mut config = Config::new();
    config.white_list.push(WhiteControl { unit: 1, selector: 2, value: vec![3, 4] });
    config.black_list.push(BlackControl { unit: 5, selector: 6 });
    config.save(&b"/dev/video0".to_vec(), &mut store);
    assert_eq!(store.entries().len(), 1);

    let loaded = Config::load(&b"/dev/video0".to_vec(), &mut store);
    assert_eq!(loaded.white_list.len(), 1);
    assert_eq!(loaded.white_list[0].unit, 1);
    assert_eq!(loaded.white_list[0].selector, 2);
    assert_eq!(loaded.white_list[0].value, vec![3, 4]);
    assert_eq!(loaded.black_list, vec![BlackControl { unit: 5, selector: 6 }]);
    // loading takes the record out of the store
    assert!(store.entries().is_empty());
}

#[test]
fn test_config_load_missing_is_empty() {
    let mut store = Configs::load_or_new();
    let loaded = Config::load(&b"/dev/video9".to_vec(), &mut store);
    assert!(loaded.white_list.is_empty());
    assert!(loaded.black_list.is_empty());
}

#[test]
fn test_config_save_replaces_existing_record() {
    let mut store = Configs::load_or_new();
    let mut first = Config::new();
    first.black_list.push(BlackControl { unit: 1, selector: 1 });
    first.save(&b"/dev/video0".to_vec(), &mut store);

    let mut second = Config::new();
    second.black_list.push(BlackControl { unit: 2, selector: 2 });
    second.save(&b"/dev/video0".to_vec(), &mut store);

    assert_eq!(store.entries().len(), 1);
    let loaded = Config::load(&b"/dev/video0".to_vec(), &mut store);
    assert_eq!(loaded.black_list, vec![BlackControl { unit: 2, selector: 2 }]);
}

#[test]
fn test_white_control_capability_set() {
    let mut w = WhiteControl { unit: 7, selector: 8, value: vec![0, 0] };
    assert_eq!(w.unit(), 7);
    assert_eq!(w.selector(), 8);
    assert_eq!(w.value_ref(), &vec![0, 0]);
    let res = vec![2, 2];
    let max = vec![4, 4];
    w.increment_with_res(&res, Some(&max)).unwrap();
    assert_eq!(w.value_ref(), &vec![2, 2]);
    w.increment_with_res(&res, Some(&max)).unwrap();
    assert_eq!(w.value_ref(), &vec![4, 4]);
    assert!(w.increment_with_res(&res, Some(&max)).is_err());
    assert_eq!(w.value(), vec![4, 4]);
}
