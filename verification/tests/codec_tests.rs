use wutag::codec::{decode_tag_name, encode_tag_name};
use wutag::color::{parse_color, Color};
use wutag::error::{error_from_os, Error};
use wutag::store::{
    check_size_consistent, decide_save, find_tag_key, keys_hold_tags, parse_xattrs, tag_names_in,
};

#[test]
fn parses_colors() {
    assert_eq!(
        parse_color("0xffffff").unwrap(),
        Color::TrueColor {
            r: 255,
            g: 255,
            b: 255
        }
    );
    assert_eq!(
        parse_color("#ffffff").unwrap(),
        Color::TrueColor {
            r: 255,
            g: 255,
            b: 255
        }
    );
    assert_eq!(
        parse_color("0ff00f").unwrap(),
        Color::TrueColor {
            r: 15,
            g: 240,
            b: 15
        }
    );
}

#[test]
fn errors_on_invalid_colors() {
    assert!(parse_color("0ff00").is_err());
    assert!(parse_color("0x12345").is_err());
    assert!(parse_color("#53241").is_err());
    assert!(parse_color("1234567").is_err());
    assert!(parse_color("#1234567").is_err());
    assert!(parse_color("0x1234567").is_err());
}

#[test]
fn parses_xattrs_from_raw() {
    let raw: Vec<u8> = vec![
        117, 115, 101, 114, 46, 107, 101, 121, 49, 0, 117, 115, 101, 114, 46, 107, 101, 121, 50, 0,
        117, 115, 101, 114, 46, 107, 101, 121, 51, 0, 115, 101, 99, 117, 114, 105, 116, 121, 46,
        116, 101, 115, 116, 105, 110, 103, 0,
    ];

    let attrs = parse_xattrs(&raw);
    let mut it = attrs.iter();

    assert_eq!(it.next(), Some(&"user.key1".to_string()));
    assert_eq!(it.next(), Some(&"user.key2".to_string()));
    assert_eq!(it.next(), Some(&"user.key3".to_string()));
    assert_eq!(it.next(), Some(&"security.testing".to_string()));
}

#[test]
fn unix_parses_xattrs_from_raw() {
    let raw: Vec<u8> = vec![
        117, 115, 101, 114, 46, 107, 101, 121, 49, 0, 117, 115, 101, 114, 46, 107, 101, 121, 50, 0,
        117, 115, 101, 114, 46, 107, 101, 121, 51, 0, 115, 101, 99, 117, 114, 105, 116, 121, 46,
        116, 101, 115, 116, 105, 110, 103, 0,
    ];

    let attrs = parse_xattrs(&raw);
    let mut it = attrs.iter();

    assert_eq!(it.next(), Some(&"user.key1".to_string()));
    assert_eq!(it.next(), Some(&"user.key2".to_string()));
    assert_eq!(it.next(), Some(&"user.key3".to_string()));
    assert_eq!(it.next(), Some(&"security.testing".to_string()));
}

#[test]
fn xattr_list_trailing_bytes_are_dropped() {
    let raw: Vec<u8> = vec![97, 0, 98, 99];
    let attrs = parse_xattrs(&raw);
    assert_eq!(attrs, vec!["a".to_string()]);
}

#[test]
fn key_codec_round_trips() {
    for name in ["holiday", "2020", "", "a.b c", "zdj\u{119}cie", "\u{65e5}\u{672c}\u{8a9e}"] {
        let key = encode_tag_name(name);
        assert!(key.starts_with("user.wutag."));
        assert_eq!(decode_tag_name(&key), Some(name.to_string()));
    }
}

#[test]
fn key_codec_is_injective_on_samples() {
    let a = encode_tag_name("ab");
    let b = encode_tag_name("ba");
    assert_ne!(a, b);
}

#[test]
fn foreign_keys_are_not_ours() {
    assert_eq!(decode_tag_name("user.other.abc"), None);
    assert_eq!(decode_tag_name("security.selinux"), None);
    assert_eq!(decode_tag_name("user.wutag."), Some(String::new()));
    // a namespace key whose payload is not six-digit groups
    assert_eq!(decode_tag_name("user.wutag.xyz"), None);
    // uppercase digits are not part of the encoding
    assert_eq!(decode_tag_name("user.wutag.00006A"), None);
}

#[test]
fn save_decision_reports_existing_tags() {
    let keys = vec![encode_tag_name("holiday"), "security.foo".to_string()];
    match decide_save(&keys, "holiday") {
        Err(Error::TagExists) => {}
        other => panic!("expected Already-Exists, got {:?}", other),
    }
    let key = decide_save(&keys, "2020").unwrap();
    assert_eq!(key, encode_tag_name("2020"));
}

#[test]
fn remove_decision_finds_the_matching_key() {
    let keys = vec![
        "user.other".to_string(),
        encode_tag_name("holiday"),
        encode_tag_name("2020"),
    ];
    assert_eq!(find_tag_key(&keys, "holiday"), Some(encode_tag_name("holiday")));
    assert_eq!(find_tag_key(&keys, "absent"), None);
}

#[test]
fn listing_skips_foreign_keys() {
    let keys = vec![
        encode_tag_name("holiday"),
        "user.wutag.zz".to_string(),
        "security.foo".to_string(),
        encode_tag_name("2020"),
    ];
    let names = tag_names_in(&keys);
    assert_eq!(names, vec!["holiday".to_string(), "2020".to_string()]);
    assert!(keys_hold_tags(&keys));
    assert!(!keys_hold_tags(&vec!["security.foo".to_string()]));
}

#[test]
fn size_race_is_a_distinct_error() {
    assert!(check_size_consistent(12, 12).is_ok());
    match check_size_consistent(12, 8) {
        Err(Error::AttrsChanged) => {}
        other => panic!("expected Attributes-Changed-Concurrently, got {:?}", other),
    }
}

#[test]
fn os_errors_classify_by_code() {
    assert!(matches!(error_from_os(true, 0, String::new()), Error::TagExists));
    match error_from_os(false, 61, String::new()) {
        Error::TagNotFound(s) => assert_eq!(s, ""),
        other => panic!("expected Not-Found, got {:?}", other),
    }
    assert!(matches!(error_from_os(false, 28, String::new()), Error::TagListFull));
    match error_from_os(false, 5, "io".to_string()) {
        Error::Other(m) => assert_eq!(m, "io"),
        other => panic!("expected a plain message, got {:?}", other),
    }
}

#[test]
fn error_messages_render() {
    assert_eq!(
        Error::TagNotFound("x".to_string()).message(),
        "tag `x` doesn't exist"
    );
    assert_eq!(Error::TagExists.message(), "tag already exists");
}
