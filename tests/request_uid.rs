use ezproxy::get_request_uid;
use ezproxy::req_timer::request_uid_at;

#[test]
fn uid_of_epoch() {
    assert_eq!(request_uid_at(0), "request-0");
}

#[test]
fn uid_digits() {
    assert_eq!(request_uid_at(7), "request-7");
    assert_eq!(request_uid_at(10), "request-10");
    assert_eq!(request_uid_at(1700000000), "request-1700000000");
    assert_eq!(request_uid_at(u64::MAX), "request-18446744073709551615");
}

#[test]
fn uid_now_is_a_decimal_count() {
    let uid = get_request_uid();
    let digits = uid.strip_prefix("request-").expect("prefix");
    assert!(!digits.is_empty());
    assert!(digits.chars().all(|c| c.is_ascii_digit()));
}
