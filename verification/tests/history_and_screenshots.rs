use earl::browser::steps::{
    back_entry, failure_screenshot_file_name, forward_entry, screenshot_file_name, screenshot_payload,
};

#[test]
fn back_goes_to_the_previous_entry() {
    let ids = vec![10, 11, 12];
    assert_eq!(back_entry(2, &ids), Some(11));
    assert_eq!(back_entry(1, &ids), Some(10));
    assert_eq!(back_entry(0, &ids), None);
    assert_eq!(back_entry(-4, &ids), None);
    assert_eq!(back_entry(9, &ids), None);
}

#[test]
fn forward_goes_to_the_next_entry() {
    let ids = vec![10, 11, 12];
    assert_eq!(forward_entry(0, &ids), Some(11));
    assert_eq!(forward_entry(1, &ids), Some(12));
    assert_eq!(forward_entry(2, &ids), None);
    assert_eq!(forward_entry(-5, &ids), None);
}

#[test]
fn screenshot_payload_encodes_base64() {
    let p = screenshot_payload("/tmp/shot.png".to_string(), b"hello");
    assert_eq!(p.path, "/tmp/shot.png");
    assert_eq!(p.data, "aGVsbG8=");
    let p = screenshot_payload("x".to_string(), b"");
    assert_eq!(p.data, "");
    let p = screenshot_payload("x".to_string(), &[0xff, 0xfe, 0xfd, 0x00]);
    assert_eq!(p.data, "//79AA==");
}

#[test]
fn screenshot_file_names() {
    assert_eq!(screenshot_file_name(1700000000123), "earl-screenshot-1700000000123.png");
    assert_eq!(failure_screenshot_file_name(42), "earl-browser-failure-42.png");
    assert_eq!(screenshot_file_name(-7), "earl-screenshot--7.png");
    assert_eq!(screenshot_file_name(i64::MIN), "earl-screenshot--9223372036854775808.png");
    assert_eq!(screenshot_file_name(0), "earl-screenshot-0.png");
}
