use serde_wasm_bindgen::records::{parse_radix_u32, Color, PrimStr};

#[test]
fn test_color() {
    let string = String::from_utf8(Color(0xA0A0A0).hex_digits()).unwrap();
    assert_eq!(string, "A0A0A0");
}

#[test]
fn color_from_hex() {
    assert_eq!(Color::from_hex("A0A0A0").map(|c| c.0), Some(0xA0A0A0));
    assert_eq!(Color::from_hex("c0deba").map(|c| c.0), Some(0xC0DEBA));
    assert_eq!(Color::from_hex("+ff").map(|c| c.0), Some(255));
    assert_eq!(Color::from_hex("FFFFFFFF").map(|c| c.0), Some(u32::MAX));
    assert!(Color::from_hex("100000000").is_none());
    assert!(Color::from_hex("").is_none());
    assert!(Color::from_hex("+").is_none());
    assert!(Color::from_hex("0xff").is_none());
    assert!(Color::from_hex("g0").is_none());
}

#[test]
fn prim_str_from_decimal() {
    assert_eq!(PrimStr::<u32>::from_decimal("4294967295"), Some(PrimStr(u32::MAX)));
    assert_eq!(PrimStr::<u32>::from_decimal("0"), Some(PrimStr(0)));
    assert_eq!(PrimStr::<u32>::from_decimal("4294967296"), None);
    assert_eq!(PrimStr::<u32>::from_decimal("12a"), None);
    assert_eq!(PrimStr::<u32>::from_decimal("-1"), None);
}

#[test]
fn radix_parse_matches_std() {
    for (text, radix) in [("777", 8u32), ("zz", 36), ("101", 2), ("9", 9), ("Z", 36), ("00012", 10)] {
        assert_eq!(parse_radix_u32(text, radix), u32::from_str_radix(text, radix).ok());
    }
}
