use ir_emitter::configuration::{
    BlackControl, ByIdEntry, Configuration, Configurations, SavedControl, V4LPath,
};
use ir_emitter::xu_control::XuControl;
use rand::Rng;

fn make_xu(rng: &mut rand_chacha::ChaCha8Rng) -> XuControl {
    let unit = rng.random_range(1..=255);
    let selector = rng.random_range(1..=255);
    let len = rng.random_range(1..=12);
    let current: Vec<u8> = (0..len).map(|_| rng.random()).collect();
    XuControl::new(unit, selector, current, None, None, None, None, true).unwrap()
}

// Make a RNG with a fixed seed for reproducible tests.
fn make_rng() -> rand_chacha::ChaCha8Rng {
    rand::SeedableRng::seed_from_u64(666)
}

fn video0() -> V4LPath {
    V4LPath::from_bytes(b"/dev/video0".to_vec())
}

#[test]
fn test_v4lpath_new_returns_given_path_if_not_found() {
    let entries: Vec<ByIdEntry> = Vec::new();
    let v4l_path = V4LPath::new(b"/dev/video10".to_vec(), &entries);
    assert_eq!(v4l_path.as_bytes(), &b"/dev/video10".to_vec());
}

#[test]
fn test_v4lpath_new_prefers_by_id_link() {
    let entries = vec![
        ByIdEntry { link: b"/dev/v4l/by-id/other".to_vec(), target: b"/dev/video7".to_vec() },
        ByIdEntry { link: b"/dev/v4l/by-id/usb-cam".to_vec(), target: b"/dev/video2".to_vec() },
    ];
    let v4l_path = V4LPath::new(b"/dev/video2".to_vec(), &entries);
    assert_eq!(v4l_path.as_bytes(), &b"/dev/v4l/by-id/usb-cam".to_vec());
}

#[test]
fn test_whitecontrol_from_xucontrol() {
    let xu = make_xu(&mut make_rng());
    let wc = SavedControl::from_control(&xu);
    assert_eq!(wc.unit, xu.unit());
    assert_eq!(wc.selector, xu.selector());
    assert_eq!(&wc.control, xu.cur());
}

#[test]
fn test_blackcontrol_from_xucontrol() {
    let xu = make_xu(&mut make_rng());
    let bc = BlackControl::from_control(&xu);
    assert_eq!(bc.unit, xu.unit());
    assert_eq!(bc.selector, xu.selector());
}

#[test]
fn test_configuration_add_and_check_blacklist() {
    let store = Configurations::new();
    let xu = make_xu(&mut make_rng());
    let mut config = Configuration::new(video0(), &store);
    assert!(!config.is_blacklisted(&xu));
    config.add_to_blacklist(&xu);
    assert!(config.is_blacklisted(&xu));
}

#[test]
fn test_configuration_add_to_savelist_and_get() {
    let store = Configurations::new();
    let xu = make_xu(&mut make_rng());
    let mut config = Configuration::new(video0(), &store);
    config.add_to_savelist(&xu);
    let list = config.get_savelist();
    assert_eq!(list.len(), 1);
    assert_eq!(list[0].unit(), xu.unit());
    assert_eq!(list[0].selector(), xu.selector());
    assert_eq!(list[0].cur(), xu.cur());
}

#[test]
fn test_configuration_empty_save_and_load() {
    let mut store = Configurations::new();
    let config = Configuration::new(video0(), &store);
    config.save(&mut store);
    assert!(Configuration::load(&video0(), &store).is_err());
}

#[test]
fn test_configuration_empty_blacklist_save_and_load() {
    let mut rng = make_rng();
    let mut store = Configurations::new();

    let mut config = Configuration::new(video0(), &store);
    let xu1 = make_xu(&mut rng);
    config.add_to_savelist(&xu1);
    config.save(&mut store);

    let loaded = Configuration::load(&video0(), &store).unwrap();
    assert_eq!(loaded.device().as_bytes(), config.device().as_bytes());
    assert_eq!(loaded.savelist_entries().len(), 1);
    let saved = &loaded.savelist_entries()[0];
    assert_eq!(saved.unit, xu1.unit());
    assert_eq!(saved.selector, xu1.selector());
    assert_eq!(&saved.control, xu1.cur());
    assert_eq!(loaded.blacklist_entries().len(), 0);
}

#[test]
fn test_configuration_empty_savelist_save_and_load() {
    let mut rng = make_rng();
    let mut store = Configurations::new();

    let mut config = Configuration::new(video0(), &store);
    let xu1 = make_xu(&mut rng);
    config.add_to_blacklist(&xu1);
    config.save(&mut store);

    let loaded = Configuration::load(&video0(), &store).unwrap();
    assert_eq!(loaded.device().as_bytes(), config.device().as_bytes());
    assert_eq!(loaded.blacklist_entries().len(), 1);
    let black = &loaded.blacklist_entries()[0];
    assert_eq!(black.unit, xu1.unit());
    assert_eq!(black.selector, xu1.selector());
    assert_eq!(loaded.savelist_entries().len(), 0);
}

#[test]
fn test_configuration_save_and_load() {
    let mut rng = make_rng();
    let mut store = Configurations::new();

    let mut config = Configuration::new(video0(), &store);
    let xu1 = make_xu(&mut rng);
    let xu2 = make_xu(&mut rng);
    let xu3 = make_xu(&mut rng);
    let xu4 = make_xu(&mut rng);
    config.add_to_savelist(&xu1);
    config.add_to_savelist(&xu2);
    config.add_to_blacklist(&xu3);
    config.add_to_blacklist(&xu4);
    config.save(&mut store);

    let loaded = Configuration::load(&video0(), &store).unwrap();
    assert_eq!(loaded.device().as_bytes(), config.device().as_bytes());
    assert_eq!(loaded.savelist_entries().len(), 2);
    let saved1 = loaded
        .savelist_entries()
        .iter()
        .find(|c| c.unit == xu1.unit())
        .unwrap();
    assert_eq!(saved1.selector, xu1.selector());
    assert_eq!(&saved1.control, xu1.cur());
    let saved2 = loaded
        .savelist_entries()
        .iter()
        .find(|c| c.unit == xu2.unit())
        .unwrap();
    assert_eq!(saved2.selector, xu2.selector());
    assert_eq!(&saved2.control, xu2.cur());
    assert_eq!(loaded.blacklist_entries().len(), 2);
    let black1 = loaded
        .blacklist_entries()
        .iter()
        .find(|c| c.unit == xu3.unit())
        .unwrap();
    assert_eq!(black1.selector, xu3.selector());
    let black2 = loaded
        .blacklist_entries()
        .iter()
        .find(|c| c.unit == xu4.unit())
        .unwrap();
    assert_eq!(black2.selector, xu4.selector());
}

#[test]
fn test_configuration_save_twice_and_load() {
    let mut rng = make_rng();
    let mut store = Configurations::new();

    let mut config = Configuration::new(video0(), &store);
    let xu1 = make_xu(&mut rng);
    let xu2 = make_xu(&mut rng);
    config.add_to_savelist(&xu1);
    config.add_to_blacklist(&xu2);
    config.save(&mut store);
    config.save(&mut store);

    let loaded = Configuration::load(&video0(), &store).unwrap();
    assert_eq!(loaded.device().as_bytes(), config.device().as_bytes());
    assert_eq!(loaded.savelist_entries().len(), 1);
    let saved = &loaded.savelist_entries()[0];
    assert_eq!(saved.unit, xu1.unit());
    assert_eq!(saved.selector, xu1.selector());
    assert_eq!(&saved.control, xu1.cur());
    assert_eq!(loaded.blacklist_entries().len(), 1);
    let black = &loaded.blacklist_entries()[0];
    assert_eq!(black.unit, xu2.unit());
    assert_eq!(black.selector, xu2.selector());
}

#[test]
fn test_configuration_save_duplicated_and_load() {
    let mut rng = make_rng();
    let mut store = Configurations::new();

    let mut config = Configuration::new(video0(), &store);
    let xu1 = make_xu(&mut rng);
    let xu2 = make_xu(&mut rng);
    config.add_to_savelist(&xu1);
    config.add_to_savelist(&xu1);
    config.add_to_blacklist(&xu2);
    config.add_to_blacklist(&xu2);
    config.save(&mut store);

    let loaded = Configuration::load(&video0(), &store).unwrap();
    assert_eq!(loaded.device().as_bytes(), config.device().as_bytes());
    assert_eq!(loaded.savelist_entries().len(), 1);
    let saved = &loaded.savelist_entries()[0];
    assert_eq!(saved.unit, xu1.unit());
    assert_eq!(saved.selector, xu1.selector());
    assert_eq!(&saved.control, xu1.cur());
    assert_eq!(loaded.blacklist_entries().len(), 1);
    let black = &loaded.blacklist_entries()[0];
    assert_eq!(black.unit, xu2.unit());
    assert_eq!(black.selector, xu2.selector());
}

#[test]
fn test_configuration_save_overwrite_save() {
    let mut rng = make_rng();
    let mut store = Configurations::new();

    let mut config = Configuration::new(video0(), &store);
    let xu1 = make_xu(&mut rng);
    let xu2 = make_xu(&mut rng);
    config.add_to_savelist(&xu1);
    config.add_to_blacklist(&xu2);
    config.save(&mut store);

    // a fresh configuration, since an existing one is loaded from the store
    let mut config = Configuration::empty(video0());
    let xu3 = make_xu(&mut rng);
    let xu4 = make_xu(&mut rng);
    config.add_to_savelist(&xu3);
    config.add_to_blacklist(&xu4);
    config.save(&mut store);

    let loaded = Configuration::load(&video0(), &store).unwrap();
    assert_eq!(loaded.device().as_bytes(), config.device().as_bytes());
    assert_eq!(loaded.savelist_entries().len(), 1);
    let saved = &loaded.savelist_entries()[0];
    assert_eq!(saved.unit, xu3.unit());
    assert_eq!(saved.selector, xu3.selector());
    assert_eq!(&saved.control, xu3.cur());
    assert_eq!(loaded.blacklist_entries().len(), 1);
    let black = &loaded.blacklist_entries()[0];
    assert_eq!(black.unit, xu4.unit());
    assert_eq!(black.selector, xu4.selector());
}

#[test]
fn test_configuration_save_clear_save() {
    let mut rng = make_rng();
    let mut store = Configurations::new();

    let mut config = Configuration::new(video0(), &store);
    let xu1 = make_xu(&mut rng);
    let xu2 = make_xu(&mut rng);
    config.add_to_savelist(&xu1);
    config.add_to_blacklist(&xu2);
    config.save(&mut store);

    let config = Configuration::empty(video0());
    config.save(&mut store);

    assert!(Configuration::load(&video0(), &store).is_err());
}
