use propstore::basic::{truncate_utf8, write_str_into, Marker, PropTag, EID};

#[test]
fn test_truncate_utf8() {
    // Test case 1: String length is less than max_length
    let s1 = "Hello, World!";
    let max_length1 = 1;
    assert_eq!(truncate_utf8(s1, max_length1), (1, "H".as_bytes()));

    // Test case 2: String length is equal to max_length
    let s2 = "Hello, World!";
    let max_length2 = 3;
    assert_eq!(truncate_utf8(s2, max_length2), (3, "Hel".as_bytes()));

    // Test case 3: String length is greater than max_length
    let s3 = "Hello, World!";
    let max_length3 = 5;
    let expected_result3 = "Hello".as_bytes();
    assert_eq!(truncate_utf8(s3, max_length3), (5, expected_result3));

    // Test case 4: String contains multi-byte characters
    let s4 = "你好，世界！";
    let max_length4 = 6;
    let expected_result4 = "你好".as_bytes();
    assert_eq!(truncate_utf8(s4, max_length4), (6, expected_result4));
}

#[test]
fn test_write_str_into() {
    // Test with a string that fits within the buffer
    let buffer = write_str_into::<5>("Hello");
    assert_eq!(&buffer, b"Hello");

    // Test with a string that needs truncation
    let buffer = write_str_into::<6>("世界你好");
    assert_eq!(&buffer, "世界".as_bytes());

    // Test with a string that needs truncation and includes multi-byte characters
    let buffer = write_str_into::<6>("こんにちは");
    assert_eq!(&buffer, "こん".as_bytes());

    // Test with a string that is longer than the buffer
    let buffer = write_str_into::<10>("This string is longer than the buffer length");
    assert_eq!(&buffer, "This strin".as_bytes());

    // Test with an empty string
    let buffer = write_str_into::<0>("");
    assert_eq!(&buffer[..0], "".as_bytes());
}

#[test]
fn test_marker_new() {
    let marker = Marker::new("Hello, World!");
    assert_eq!(
        marker.as_bytes(),
        "Hello, World!\0\0\0\0\0\0\0\0\0\0\0\0\0\0\0\0\0\0".as_bytes()
    );

    let marker =
        Marker::new("你好世界你好世界你好世界你好世界你好世界你好世界你好世界你好世界你好世界");
    assert_eq!(marker.as_bytes(), "你好世界你好世界你好\0".as_bytes());

    let marker = Marker::new("你好世界");
    // 12 bytes of text and 19 NULs fill the 31 bytes of a marker.
    assert_eq!(marker.as_bytes(), "你好世界\0\0\0\0\0\0\0\0\0\0\0\0\0\0\0\0\0\0\0".as_bytes());
}

#[test]
fn test_marker_eq() {
    let marker1 = Marker::new("Hello, World!");
    let marker2 = Marker::new(
        "Hello, World!\0\0\0\0\0\0\0\0\0\0\0\0\0\0\0\0\0\0\0\0\0\0\0\0\0\0\0\0\0\0\0\0\0\0\0",
    );
    let marker3 = Marker::new("Hello, World!\0\0\0");
    assert_eq!(marker1, marker2);
    assert_eq!(marker1, marker3);
    assert_eq!(marker2, marker3);

    let marker4 = Marker::new("Hello,\0 World!");
    let marker5 =
        Marker::new("Hello,\0 World!\0\0\0\0\0\0\0\0\0\0\0\0\0\0\0\0\0\0\0\0\0\0\0\0你好");
    assert_eq!(marker4, marker5);
}

#[test]
fn test_marker_from() {
    let marker = Marker::from("Hello, World!");
    assert_eq!(marker, Marker::new("Hello, World!"));

    let long_string =
        "This is a very long string that exceeds the maximum length of 31 characters.";
    let marker = Marker::from(long_string);
    assert_eq!(marker.as_ref(), "This is a very long string that");
}

#[test]
fn test_marker_as_ref() {
    let marker = Marker::new("Hello, World!");
    assert_eq!(marker.as_ref(), "Hello, World!");

    let marker = Marker::new(
        "a你好世界你好世界你好世界你好世界你好世界你好世界你好世界你好世界你好世界",
    );
    assert_eq!(marker.as_ref(), "a你好世界你好世界你好"); // len = 31

    let marker = Marker::new(
        "aa你好世界你好世界你好世界你好世界你好世界你好世界你好世界你好世界你好世界",
    );
    assert_eq!(marker.as_ref(), "aa你好世界你好世界你"); // len = 29

    let marker = Marker::new("你好世界");
    assert_eq!(marker.as_ref(), "你好世界");
}

#[test]
fn truncate_utf8_empty_and_past_end() {
    assert_eq!(truncate_utf8("", 4), (0, "".as_bytes()));
    // the cut never reaches the end of the text
    assert_eq!(truncate_utf8("abc", 3), (2, "ab".as_bytes()));
    assert_eq!(truncate_utf8("abc", 100), (2, "ab".as_bytes()));
    assert_eq!(truncate_utf8("你好", 2), (0, "".as_bytes()));
}

#[test]
fn write_str_into_pads_with_zeros() {
    assert_eq!(write_str_into::<4>("ab"), [b'a', b'b', 0, 0]);
    assert_eq!(write_str_into::<2>("é!"), [0xc3, 0xa9]);
    assert_eq!(write_str_into::<1>("é"), [0]);
}

#[test]
fn prop_tag_cuts_at_eight_bytes() {
    let tag = PropTag::new("position_x");
    assert_eq!(tag.as_ref(), "position");
    assert_eq!(tag.as_bytes(), *b"position");
    let short = PropTag::new("hp");
    assert_eq!(short.as_bytes(), [b'h', b'p', 0, 0, 0, 0, 0, 0]);
    assert!(tag.same(&PropTag::new("position")));
    assert!(!tag.same(&short));
}

#[test]
fn eid_round_trip_and_validity() {
    let e = EID::new(0x0102_0304_0506_0708);
    assert_eq!(e.as_u64(), 0x0102_0304_0506_0708);
    assert!(e.is_valid());
    assert!(!EID::empty().is_valid());
    assert_eq!(EID::empty().as_u64(), 0);
    assert!(!EID::new(0).is_valid());
    assert_eq!(EID::new(0), EID::empty());
    assert!(EID::new(1 << 56).is_valid());
}

#[test]
fn conversions_match_constructors() {
    assert_eq!(EID::from(42u64), EID::new(42));
    assert_eq!(EID::from(42u64).as_u64(), 42);
    assert_eq!(PropTag::from("position_x"), PropTag::new("position_x"));
    assert_eq!(PropTag::from("hp").as_ref(), "hp");
}
