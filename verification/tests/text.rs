use open_proxy_ai::text::{dec_fixed_string, hex_fixed_string, hex_min_string, str_eq};

#[test]
fn hex_and_decimal_renderings() {
    assert_eq!(hex_fixed_string(0xbeef, 16), format!("{:016x}", 0xbeefu64));
    assert_eq!(hex_fixed_string(u64::MAX, 16), "ffffffffffffffff");
    assert_eq!(hex_fixed_string(7, 2), "07");
    assert_eq!(hex_min_string(0), "0");
    assert_eq!(hex_min_string(0x1a2b), "1a2b");
    assert_eq!(dec_fixed_string(5, 2), "05");
    assert_eq!(dec_fixed_string(59, 2), "59");
    assert!(str_eq("abc", "abc"));
    assert!(!str_eq("abc", "abd"));
}

