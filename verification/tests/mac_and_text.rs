use intercom_sync::mac::normalize_mac;
use intercom_sync::text::{is_blank, push_decimal, str_eq, str_lt, to_ascii_lowercase};

#[test]
fn normalize_mac_colon_separated_upper_case() {
    assert_eq!(normalize_mac("AA:BB:CC:DD:EE:FF"), Some("aabbccddeeff".to_string()));
}

#[test]
fn normalize_mac_trims_surrounding_whitespace() {
    assert_eq!(normalize_mac("  00:1a:2B:3c:4D:5e\n"), Some("001a2b3c4d5e".to_string()));
    assert_eq!(normalize_mac("\u{3000}001A2B3C4D5E\t"), Some("001a2b3c4d5e".to_string()));
}

#[test]
fn normalize_mac_plain_hex_kept() {
    assert_eq!(normalize_mac("0123456789ab"), Some("0123456789ab".to_string()));
}

#[test]
fn normalize_mac_rejects_wrong_length() {
    assert_eq!(normalize_mac("aa:bb:cc:dd:ee"), None);
    assert_eq!(normalize_mac("aa:bb:cc:dd:ee:ff:00"), None);
    assert_eq!(normalize_mac(""), None);
    assert_eq!(normalize_mac("   "), None);
}

#[test]
fn normalize_mac_rejects_non_hex() {
    assert_eq!(normalize_mac("gg:hh:ii:jj:kk:ll"), None);
    assert_eq!(normalize_mac("AA-BB-CC-DD-EE-FF"), None);
    assert_eq!(normalize_mac("aa bb cc dd ee ff"), None);
    assert_eq!(normalize_mac("ééééééééééé1"), None);
}

#[test]
fn normalize_mac_is_idempotent() {
    for raw in ["AA:BB:CC:DD:EE:FF", " 0A:1b:2C:3d:4E:5f ", "::0123456789AB::"] {
        let once = normalize_mac(raw).unwrap();
        assert_eq!(normalize_mac(&once), Some(once.clone()));
    }
}

#[test]
fn decimal_rendering() {
    let mut s = String::new();
    push_decimal(&mut s, 0);
    assert_eq!(s, "0");
    let mut s = String::from("x=");
    push_decimal(&mut s, 1700000000);
    assert_eq!(s, "x=1700000000");
    let mut s = String::new();
    push_decimal(&mut s, u64::MAX);
    assert_eq!(s, u64::MAX.to_string());
}

#[test]
fn string_order_and_equality() {
    assert!(str_lt("abc", "abd"));
    assert!(str_lt("ab", "abc"));
    assert!(!str_lt("abc", "abc"));
    assert!(!str_lt("b", "abc"));
    assert!(str_lt("", "a"));
    assert!(str_eq("intercom", "intercom"));
    assert!(!str_eq("intercom", "intercoms"));
    assert_eq!(to_ascii_lowercase("DiReCt-Ä"), "direct-Ä");
    assert!(is_blank(" \t\n"));
    assert!(is_blank(""));
    assert!(!is_blank(" x "));
}
