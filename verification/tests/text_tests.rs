use file_manager::models::{Permission, PostAsset, Principal};
use file_manager::text::{decimal_string, escape_spaces, is_valid_name, split_path};

#[test]
fn spaces_are_escaped() {
    assert_eq!(escape_spaces(&"a b  c".to_string()), "a%20b%20%20c");
    assert_eq!(escape_spaces(&"".to_string()), "");
    assert_eq!(escape_spaces(&"é ü".to_string()), "é%20ü");
}

#[test]
fn paths_fall_into_segments() {
    assert_eq!(split_path(&"/a//b/c/".to_string()), vec!["a", "b", "c"]);
    assert_eq!(split_path(&"".to_string()), Vec::<String>::new());
    assert_eq!(split_path(&"///".to_string()), Vec::<String>::new());
    assert_eq!(split_path(&"x".to_string()), vec!["x"]);
}

#[test]
fn numbers_are_written_in_decimal() {
    assert_eq!(decimal_string(0), "0");
    assert_eq!(decimal_string(7), "7");
    assert_eq!(decimal_string(300), "300");
    assert_eq!(decimal_string(u64::MAX), "18446744073709551615");
}

#[test]
fn names_with_forbidden_characters_are_invalid() {
    assert!(is_valid_name(&"plain name.txt".to_string()));
    assert!(is_valid_name(&"".to_string()));
    assert!(!is_valid_name(&"a/b".to_string()));
    assert!(!is_valid_name(&"what?".to_string()));
}

#[test]
fn identities_compare_by_value() {
    let a = Principal::from_slice(&vec![1, 2, 3]).unwrap();
    let b = Principal::from_slice(&vec![1, 2, 3]).unwrap();
    let c = Principal::from_slice(&vec![1, 2]).unwrap();
    assert!(a.same(&b));
    assert!(!a.same(&c));
    assert_eq!(a.len, 3);
    assert!(Principal::from_slice(&vec![0u8; 30]).is_none());
    assert!(Principal::from_slice(&vec![0u8; 29]).is_some());
}

#[test]
fn defaults() {
    assert!(matches!(Permission::default(), Permission::Private));
    assert!(matches!(PostAsset::default(), PostAsset::Empty));
}
