use ir_emitter::configuration::{ByIdEntry, Configuration, Configurations, V4LPath};
use ir_emitter::xu_control::XuControl;

fn control(unit: u8, selector: u8, cur: Vec<u8>) -> XuControl {
    XuControl::new(unit, selector, cur, None, None, None, None, true).unwrap()
}

fn path(p: &[u8]) -> V4LPath {
    V4LPath::from_bytes(p.to_vec())
}

fn store_with(device: &[u8], saves: &[(u8, u8, Vec<u8>)], blacks: &[(u8, u8)]) -> Configurations {
    let mut store = Configurations::new();
    let mut config = Configuration::empty(path(device));
    for (u, s, v) in saves {
        config.add_to_savelist(&control(*u, *s, v.clone()));
    }
    for (u, s) in blacks {
        config.add_to_blacklist(&control(*u, *s, vec![0]));
    }
    config.save(&mut store);
    store
}

#[test]
fn test_save_text_exact() {
    let store = store_with(
        b"/dev/v4l/by-id/usb-cam",
        &[(3, 6, vec![0, 128, 255])],
        &[(9, 10)],
    );
    let text = store.save();
    assert_eq!(
        String::from_utf8(text).unwrap(),
        "device /dev/v4l/by-id/usb-cam\nsave 3 6 0 128 255\nblack 9 10\n"
    );
}

#[test]
fn test_load_round_trip() {
    // round trip: loading what was saved yields the same store
    let store = store_with(
        b"/dev/v4l/by-id/usb-cam",
        &[(3, 6, vec![1, 2]), (7, 8, vec![9])],
        &[(9, 9), (11, 12)],
    );
    let text = store.save();
    let loaded = Configurations::load(&text).unwrap();
    assert_eq!(store.save(), loaded.save());
    let stored = Configuration::load(&path(b"/dev/v4l/by-id/usb-cam"), &store).unwrap();
    let reloaded = Configuration::load(&path(b"/dev/v4l/by-id/usb-cam"), &loaded).unwrap();
    assert_eq!(stored.savelist_entries().len(), reloaded.savelist_entries().len());
    for (a, b) in stored
        .savelist_entries()
        .iter()
        .zip(reloaded.savelist_entries().iter())
    {
        assert_eq!((a.unit, a.selector, &a.control), (b.unit, b.selector, &b.control));
    }
    assert_eq!(stored.blacklist_entries(), reloaded.blacklist_entries());
}

#[test]
fn test_save_idempotent() {
    // saving the same configuration twice leaves the same text
    let mut store = Configurations::new();
    let mut config = Configuration::empty(path(b"/dev/video0"));
    config.add_to_savelist(&control(1, 2, vec![3]));
    config.save(&mut store);
    let once = store.save();
    config.save(&mut store);
    assert_eq!(store.save(), once);
}

#[test]
fn test_save_overwrites_previous() {
    // the second save for the same device replaces the first entirely
    let mut store = Configurations::new();
    let mut first = Configuration::empty(path(b"/dev/video0"));
    first.add_to_savelist(&control(1, 2, vec![3]));
    first.save(&mut store);

    let mut second = Configuration::empty(path(b"/dev/video0"));
    second.add_to_blacklist(&control(4, 5, vec![0]));
    second.save(&mut store);

    let mut alone = Configurations::new();
    let mut same = Configuration::empty(path(b"/dev/video0"));
    same.add_to_blacklist(&control(4, 5, vec![0]));
    same.save(&mut alone);

    assert_eq!(store.save(), alone.save());
}

#[test]
fn test_save_empty_removes_entry() {
    let mut store = store_with(b"/dev/video0", &[(1, 2, vec![3])], &[]);
    let empty = Configuration::empty(path(b"/dev/video0"));
    empty.save(&mut store);
    assert_eq!(store.save(), Vec::<u8>::new());
}

#[test]
fn test_stable_path_keying() {
    // a device configured through its node is stored under its by-id link
    let entries = vec![ByIdEntry {
        link: b"/dev/v4l/by-id/usb-cam".to_vec(),
        target: b"/dev/video2".to_vec(),
    }];
    let key = V4LPath::new(b"/dev/video2".to_vec(), &entries);

    let mut store = Configurations::new();
    let mut config = Configuration::empty(key);
    config.add_to_savelist(&control(3, 6, vec![1]));
    config.save(&mut store);

    let text = String::from_utf8(store.save()).unwrap();
    assert_eq!(text, "device /dev/v4l/by-id/usb-cam\nsave 3 6 1\n");
    assert!(!text.contains("/dev/video2"));
}

#[test]
fn test_load_accepts_multiple_devices() {
    let text = b"device /dev/video0\nsave 1 2 3\ndevice /dev/video1\nblack 4 5\n".to_vec();
    let loaded = Configurations::load(&text).unwrap();
    assert_eq!(loaded.devices().len(), 2);
    let c0 = Configuration::load(&path(b"/dev/video0"), &loaded).unwrap();
    assert_eq!(c0.savelist_entries().len(), 1);
    assert_eq!(c0.savelist_entries()[0].control, vec![3]);
    let c1 = Configuration::load(&path(b"/dev/video1"), &loaded).unwrap();
    assert_eq!(c1.blacklist_entries().len(), 1);
}

#[test]
fn test_load_rejects_malformed_text() {
    assert!(Configurations::load(&b"garbage\n".to_vec()).is_err());
    assert!(Configurations::load(&b"save 1 2 3\n".to_vec()).is_err());
    assert!(Configurations::load(&b"device /dev/video0\nsave 1 999\n".to_vec()).is_err());
    assert!(Configurations::load(&b"device /dev/video0\nsave 1\n".to_vec()).is_err());
    // a saved control carries at least one value byte
    assert!(Configurations::load(&b"device /dev/video0\nsave 1 2\n".to_vec()).is_err());
    // a doubled separator is refused rather than guessed at
    assert!(Configurations::load(&b"device /dev/video0\nsave 1  2\n".to_vec()).is_err());
}

#[test]
fn test_load_rejects_duplicate_device_key() {
    // the store is a mapping: one entry per device
    let text = b"device /dev/video0\nsave 1 2 3\ndevice /dev/video0\nblack 4 5\n".to_vec();
    assert!(Configurations::load(&text).is_err());
}

#[test]
fn test_load_empty_text_is_empty_store() {
    let loaded = Configurations::load(&Vec::new()).unwrap();
    assert!(loaded.devices().is_empty());
}
