use segment::FieldValue;

fn render(v: &FieldValue) -> String {
    v.to_string()
}

#[test]
fn unsigned_integers_have_suffix() {
    assert_eq!(render(&FieldValue::UInt32(0)), "0i");
    assert_eq!(render(&FieldValue::UInt32(42)), "42i");
    assert_eq!(render(&FieldValue::UInt32(u32::MAX)), "4294967295i");
    assert_eq!(render(&FieldValue::UInt64(18446744073709551615)), "18446744073709551615i");
}

#[test]
fn signed_integers_have_suffix() {
    assert_eq!(render(&FieldValue::Int32(-7)), "-7i");
    assert_eq!(render(&FieldValue::Int32(i32::MIN)), "-2147483648i");
    assert_eq!(render(&FieldValue::Int64(-9223372036854775808)), "-9223372036854775808i");
    assert_eq!(render(&FieldValue::Int64(9223372036854775807)), "9223372036854775807i");
    assert_eq!(render(&FieldValue::Int64(0)), "0i");
}

#[test]
fn floats_have_no_suffix() {
    let mut b = dtoa::Buffer::new();
    let lit64 = b.format(42.0f64).to_string();
    let v64 = FieldValue::Float64(lit64);
    assert_eq!(render(&v64), "42.0");
    let mut b32 = dtoa::Buffer::new();
    let lit32 = b32.format(2.5f32).to_string();
    let v32 = FieldValue::Float32(lit32);
    let out = render(&v32);
    assert_eq!(out, "2.5");
    assert!(!out.ends_with('i'));
}

#[test]
fn float_negative_and_exponent_forms() {
    let mut b = dtoa::Buffer::new();
    let small = FieldValue::Float64(b.format(-0.125f64).to_string());
    let out = render(&small);
    assert_eq!(out, "-0.125");
    let mut b2 = dtoa::Buffer::new();
    let big = FieldValue::Float64(b2.format(1e100f64).to_string());
    let out_big = render(&big);
    assert!(!out_big.ends_with('i'));
    assert!(out_big.starts_with('1'));
}

#[test]
fn text_is_quoted_and_escaped() {
    assert_eq!(render(&FieldValue::Str("howdy".to_string())), "\"howdy\"");
    assert_eq!(render(&FieldValue::Str("a\"b\nc".to_string())), "\"a\\\"b\\nc\"");
}

#[test]
fn conversions_keep_the_kind() {
    assert_eq!(render(&FieldValue::from("text".to_string())), "\"text\"");
    assert_eq!(render(&FieldValue::from(7u32)), "7i");
    assert_eq!(render(&FieldValue::from(7u64)), "7i");
}

#[test]
fn build_appends_to_buffer() {
    let mut buff = String::from("value=");
    FieldValue::UInt64(99).build(&mut buff);
    assert_eq!(buff, "value=99i");
}
