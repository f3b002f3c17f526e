use wicrs_server::is_valid_username;

#[test]
fn valid_username_check() {
    assert!(is_valid_username("a"));
    assert!(is_valid_username("Test_test tHAt-tester."));
    assert!(is_valid_username("1234567890"));
    assert!(is_valid_username("l33t 5p34k"));
    assert!(!is_valid_username(""));
    assert!(!is_valid_username("Test! @thing"));
    assert!(!is_valid_username("123456789111315171921232527293133"));
}
