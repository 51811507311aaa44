use ir_emitter::helper::{
    add_or_remove_char_from_bool, add_or_remove_char_from_numeric,
    add_or_remove_char_from_opt_numeric, add_or_remove_char_from_path,
};

fn path_of(s: &str) -> Vec<char> {
    s.chars().collect()
}

#[test]
fn test_add_or_remove_char_from_numeric_add_digit() {
    let mut n: u64 = 12;
    add_or_remove_char_from_numeric(&mut n, Some('3'));
    assert_eq!(n, 123);
}

#[test]
fn test_add_or_remove_char_from_numeric_remove_digit() {
    let mut n: u64 = 123;
    add_or_remove_char_from_numeric(&mut n, None);
    assert_eq!(n, 12);
}

#[test]
fn test_add_or_remove_char_from_numeric_remove_all_digits() {
    let mut n: u64 = 1;
    add_or_remove_char_from_numeric(&mut n, None);
    assert_eq!(n, 0);
    add_or_remove_char_from_numeric(&mut n, None);
    assert_eq!(n, 0);
}

#[test]
fn test_add_or_remove_char_from_numeric_non_digit() {
    let mut n: u64 = 12;
    add_or_remove_char_from_numeric(&mut n, Some('a'));
    assert_eq!(n, 12);
}

#[test]
fn test_add_or_remove_char_from_opt_numeric_add_digit() {
    let mut n: Option<u64> = Some(12);
    add_or_remove_char_from_opt_numeric(&mut n, Some('3'));
    assert_eq!(n, Some(123));
}

#[test]
fn test_add_or_remove_char_from_opt_numeric_remove_digit() {
    let mut n: Option<u64> = Some(123);
    add_or_remove_char_from_opt_numeric(&mut n, None);
    assert_eq!(n, Some(12));
}

#[test]
fn test_add_or_remove_char_from_opt_numeric_remove_all_digits() {
    let mut n: Option<u64> = Some(1);
    add_or_remove_char_from_opt_numeric(&mut n, None);
    assert_eq!(n, None);
    add_or_remove_char_from_opt_numeric(&mut n, None);
    assert_eq!(n, None);
}

#[test]
fn test_add_or_remove_char_from_opt_numeric_none_add_digit() {
    let mut n: Option<u64> = None;
    add_or_remove_char_from_opt_numeric(&mut n, Some('5'));
    assert_eq!(n, Some(5));
}

#[test]
fn test_add_or_remove_char_from_opt_numeric_non_digit() {
    let mut n: Option<u64> = Some(12);
    add_or_remove_char_from_opt_numeric(&mut n, Some('x'));
    assert_eq!(n, Some(12));
}

#[test]
fn test_add_or_remove_char_from_path_add_char() {
    let mut path = path_of("/tmp/test");
    add_or_remove_char_from_path(&mut path, Some('1'), 9);
    assert_eq!(path, path_of("/tmp/test1"));
}

#[test]
fn test_add_or_remove_char_from_path_remove_char() {
    let mut path = path_of("/tmp/test1");
    add_or_remove_char_from_path(&mut path, None, 9);
    assert_eq!(path, path_of("/tmp/test"));
}

#[test]
fn test_add_or_remove_char_from_path_remove_all_chars() {
    let mut path = path_of("a");
    add_or_remove_char_from_path(&mut path, None, 0);
    assert_eq!(path, path_of(""));
}

#[test]
fn test_add_or_remove_char_from_path_protected() {
    let mut path = path_of("a");
    add_or_remove_char_from_path(&mut path, None, 1);
    assert_eq!(path, path_of("a"));
}

#[test]
fn test_add_or_remove_char_from_bool_set_true() {
    let mut b = false;
    add_or_remove_char_from_bool(&mut b, Some('t'));
    assert!(b);
    add_or_remove_char_from_bool(&mut b, Some('T'));
    assert!(b);
}

#[test]
fn test_add_or_remove_char_from_bool_set_false() {
    let mut b = true;
    add_or_remove_char_from_bool(&mut b, Some('f'));
    assert!(!b);
    add_or_remove_char_from_bool(&mut b, Some('F'));
    assert!(!b);
}

#[test]
fn test_add_or_remove_char_from_bool_toggle() {
    let mut b = true;
    add_or_remove_char_from_bool(&mut b, None);
    assert!(!b);
    add_or_remove_char_from_bool(&mut b, None);
    assert!(b);
}

#[test]
fn test_add_or_remove_char_from_bool_other_char() {
    let mut b = true;
    add_or_remove_char_from_bool(&mut b, Some('x'));
    assert!(b);
    let mut b = false;
    add_or_remove_char_from_bool(&mut b, Some('y'));
    assert!(!b);
}
