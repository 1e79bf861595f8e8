use user_directory::text::{deleted, not_found, push_decimal};

fn decimal(n: u32) -> String {
    let mut out = String::new();
    push_decimal(&mut out, n);
    out
}

#[test]
fn push_decimal_writes_base_ten() {
    assert_eq!(decimal(0), "0");
    assert_eq!(decimal(1), "1");
    assert_eq!(decimal(9), "9");
    assert_eq!(decimal(10), "10");
    assert_eq!(decimal(11), "11");
    assert_eq!(decimal(99), "99");
    assert_eq!(decimal(100), "100");
    assert_eq!(decimal(101), "101");
    assert_eq!(decimal(1234567890), "1234567890");
    assert_eq!(decimal(4294967295), "4294967295");
}

#[test]
fn push_decimal_agrees_with_the_standard_formatting() {
    let mut n: u32 = 1;
    for _ in 0..40 {
        assert_eq!(decimal(n), n.to_string());
        assert_eq!(decimal(n - 1), (n - 1).to_string());
        n = n.wrapping_mul(7).wrapping_add(3);
    }
}

#[test]
fn push_decimal_appends() {
    let mut out = "id=".to_string();
    push_decimal(&mut out, 305);
    assert_eq!(out, "id=305");
    push_decimal(&mut out, 0);
    assert_eq!(out, "id=3050");
}

#[test]
fn deleted_names_the_id() {
    assert_eq!(deleted(0), "User with ID 0 successfully deleted.");
    assert_eq!(deleted(42), "User with ID 42 successfully deleted.");
    assert_eq!(deleted(u32::MAX), "User with ID 4294967295 successfully deleted.");
}

#[test]
fn not_found_names_the_id() {
    assert_eq!(not_found(0), "User with ID 0 not found.");
    assert_eq!(not_found(42), "User with ID 42 not found.");
    assert_eq!(not_found(u32::MAX), "User with ID 4294967295 not found.");
}
