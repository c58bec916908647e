use ayachi_door_access::text::{CompactFormat, FixedString, TextBytes};

fn text_of<T: CompactFormat>(v: T) -> String {
    String::from_utf8(v.into_compact_format().text()).unwrap()
}

#[test]
fn numbers_are_decimal() {
    assert_eq!(text_of(0u8), "0");
    assert_eq!(text_of(255u8), "255");
    assert_eq!(text_of(4660u16), "4660");
    assert_eq!(text_of(4294967295u32), "4294967295");
    assert_eq!(text_of(18446744073709551615u64), "18446744073709551615");
}

#[test]
fn bool_is_one_or_zero() {
    assert_eq!(text_of(true), "1");
    assert_eq!(text_of(false), "0");
}

#[test]
fn missing_value_is_slash() {
    assert_eq!(text_of(None::<u32>), "/");
    assert_eq!(text_of(Some(7u32)), "7");
}

#[test]
fn arrays_are_joined_with_semicolons() {
    assert_eq!(text_of([0u32, 0u32]), "0;0");
    assert_eq!(text_of([240u8, 185, 24]), "240;185;24");
    assert_eq!(text_of([5u32]), "5");
}

#[test]
fn text_bytes_stop_at_nul_and_mask_separators() {
    let mut raw = [0u8; 16];
    raw[..9].copy_from_slice(b"a|b/c;d\x01e");
    raw[10] = b'x';
    assert_eq!(text_of(TextBytes(raw)), "a.b.c.d.e");
    assert_eq!(text_of(TextBytes([0u8; 4])), "");
}

#[test]
fn text_bytes_from_slice_needs_exact_length() {
    assert!(TextBytes::<4>::try_from_slice(b"abc").is_none());
    let t = TextBytes::<3>::try_from_slice(b"abc").unwrap();
    assert_eq!(t.0, *b"abc");
    assert!(t.starts_with(b"ab"));
    assert!(!t.starts_with(b"abcd"));
    assert!(!t.starts_with(b"b"));
}

#[test]
fn fixed_string_holds_what_fits() {
    let s = FixedString::<10>::new().write_format("Activating");
    assert_eq!(s.as_str(), "Activating");
    assert_eq!(s.len(), 10);
    let mut t = FixedString::<5>::new();
    assert!(t.write_str("ab").is_ok());
    assert!(t.write_str("cde").is_ok());
    assert!(t.write_str("f").is_err());
    assert_eq!(t.as_str(), "abcde");
}

#[test]
fn fixed_string_overflow_becomes_truncated() {
    let s = FixedString::<10>::new().write_format("OTA(NotSupported)");
    assert_eq!(s.as_str(), "truncated");
    let tiny = FixedString::<4>::new().write_formats("hello");
    assert_eq!(tiny.as_str(), "");
    let appended = FixedString::<12>::new().write_format("abc").write_format("def");
    assert_eq!(appended.as_str(), "abcdef");
}

#[test]
fn fixed_string_counts_bytes_not_chars() {
    let s = FixedString::<3>::new().write_format("ä");
    assert_eq!(s.as_str(), "ä");
    let t = FixedString::<3>::new().write_format("äb");
    assert_eq!(t.as_str(), "äb");
    let v = FixedString::<3>::new().write_format("äbc");
    assert_eq!(v.as_str(), "");
    let u = FixedString::<9>::new().write_format("ääääää");
    assert_eq!(u.as_str(), "truncated");
}

#[test]
fn compact_into_fixed_string() {
    let s = FixedString::<10>::from_compact(Some(5u32).into_compact_format());
    assert_eq!(s.as_str(), "5");
    let t = FixedString::<10>::from_compact(None::<u32>.into_compact_format());
    assert_eq!(t.as_str(), "/");
}

#[test]
fn signed_numbers_carry_a_minus() {
    assert_eq!(text_of(-5i32), "-5");
    assert_eq!(text_of(0i8), "0");
    assert_eq!(text_of(i8::MIN), "-128");
    assert_eq!(text_of(i64::MAX), "9223372036854775807");
    assert_eq!(text_of(i128::MIN), "-170141183460469231731687303715884105728");
    assert_eq!(text_of(u128::MAX), "340282366920938463463374607431768211455");
}

#[test]
fn byte_slices_are_upper_hex() {
    let mut out = Vec::new();
    let bytes: &[u8] = &[0xAB, 0x01, 0xF0];
    bytes.compact_format(&mut out);
    assert_eq!(String::from_utf8(out).unwrap(), "AB01F0");
    let mut empty = Vec::new();
    let none: &[u8] = &[];
    none.compact_format(&mut empty);
    assert!(empty.is_empty());
}
