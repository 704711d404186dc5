use dictexprs::strs;

#[test]
fn char_length_not_bytes() {
    assert_eq!(strs::length("héllo"), 5);
    assert_eq!(strs::length(""), 0);
}

#[test]
fn substring_tests() {
    assert!(strs::contains("abcabd", "abd"));
    assert!(!strs::contains("abcabd", "abe"));
    assert!(strs::contains("abc", ""));
    assert!(strs::starts_with("abc", "ab"));
    assert!(!strs::starts_with("ab", "abc"));
    assert!(strs::ends_with("abc", "bc"));
    assert!(!strs::ends_with("abc", "ab"));
}

#[test]
fn reverse_and_slice() {
    assert_eq!(strs::reverse("abc"), "cba");
    assert_eq!(strs::slice("abcdef", &Some(1), &Some(4), &None), "bcd");
    assert_eq!(strs::slice("abcdef", &None, &None, &Some(-1)), "fedcba");
    assert_eq!(strs::slice("abcdef", &Some(-3), &None, &None), "def");
}

#[test]
fn slice_display() {
    assert_eq!(strs::display_slice(&Some(1), &Some(-3), &None), "1:-3");
    assert_eq!(strs::display_slice(&None, &None, &Some(-1)), "::-1");
    assert_eq!(strs::display_slice(&None, &Some(120), &None), ":120");
    assert_eq!(strs::display_slice(&None, &None, &None), ":");
    assert_eq!(strs::display_slice(&Some(isize::MIN), &None, &None), format!("{}:", isize::MIN));
}
