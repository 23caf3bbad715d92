use spanfall::store::types::{AttrValue, SpanId, TraceId};

#[test]
fn trace_ids_with_equal_bytes_are_equal_and_hash_equal() {
    let a = TraceId([1u8; 16]);
    let b = TraceId([1u8; 16]);
    assert_eq!(a, b);
}

#[test]
fn trace_ids_with_different_bytes_are_not_equal() {
    let a = TraceId([1u8; 16]);
    let b = TraceId([2u8; 16]);
    assert_ne!(a, b);
}

#[test]
fn hex_round_trips() {
    let id = TraceId([0xab; 16]);
    let hex = id.to_hex();
    assert_eq!(hex.len(), 32);
    assert_eq!(TraceId::from_hex(&hex), Some(id));
}

#[test]
fn from_hex_rejects_wrong_length_and_non_hex_input() {
    assert_eq!(TraceId::from_hex("ab"), None);
    assert_eq!(TraceId::from_hex(&"zz".repeat(16)), None);
}

#[test]
fn to_hex_is_lower_case_two_digits_per_byte() {
    let mut bytes = [0u8; 16];
    for (i, b) in bytes.iter_mut().enumerate() {
        *b = (i as u8) * 17;
    }
    assert_eq!(TraceId(bytes).to_hex(), "00112233445566778899aabbccddeeff");
}

#[test]
fn from_hex_accepts_upper_case_and_exact_bytes() {
    let id = TraceId::from_hex("00112233445566778899AABBCCDDEEFF").unwrap();
    assert_eq!(id.0[15], 0xff);
    assert_eq!(id.0[1], 0x11);
}

#[test]
fn from_hex_rejects_a_plus_signed_chunk() {
    let text = format!("+a{}", "00".repeat(15));
    assert_eq!(TraceId::from_hex(&text), None);
    assert_eq!(TraceId::from_hex(&"+a".repeat(16)), None);
}

#[test]
fn from_hex_then_to_hex_gives_the_lower_case_text() {
    let text = "00112233445566778899AaBbCcDdEeFf";
    assert_eq!(TraceId::from_hex(text).unwrap().to_hex(), text.to_ascii_lowercase());
}

#[test]
fn from_hex_rejects_non_ascii_text_of_32_bytes() {
    // 16 two-byte characters make 32 bytes but no hex digits
    assert_eq!(TraceId::from_hex(&"é".repeat(16)), None);
}

#[test]
fn from_hex_rejects_31_and_33_characters() {
    assert_eq!(TraceId::from_hex(&"a".repeat(31)), None);
    assert_eq!(TraceId::from_hex(&"a".repeat(33)), None);
}

#[test]
fn copied_attribute_values_keep_kind_and_value() {
    let v = AttrValue::Str("GET".to_string());
    assert_eq!(v.copied(), v);
    let d = AttrValue::Double(1.5f64.to_bits());
    assert_eq!(d.copied(), d);
    assert_ne!(AttrValue::Int(1).copied(), AttrValue::Int(2));
}

#[test]
fn span_ids_compare_by_bytes() {
    assert_eq!(SpanId([3; 8]), SpanId([3; 8]));
    assert_ne!(SpanId([3; 8]), SpanId([4; 8]));
}
