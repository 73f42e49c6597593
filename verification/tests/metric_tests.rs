use segment::Field;
use segment::FieldValue;
use segment::Metric;
use segment::Record;
use segment::Tag;

fn float32_value(v: f32) -> FieldValue {
    let mut b = dtoa::Buffer::new();
    FieldValue::Float32(b.format(v).to_string())
}

fn build_record(measurement: &str, tags: Vec<Tag>, fields: Vec<Field>, timestamp_ns: u64) -> String {
    let record = Record::new(measurement.to_string(), tags, fields, timestamp_ns).unwrap();
    let mut s = String::with_capacity(64);
    let _ = record.build(&mut s);
    s
}

#[test]
fn minimal_test() {
    let fields = vec![Field { name: "value".to_string(), value: float32_value(42.0) }];
    let s = build_record("cpu", Vec::new(), fields, 0);
    assert_eq!(s, "cpu value=42.0 0");
}

#[test]
fn multiple_tags() {
    let tags = vec![
        Tag { name: "host".to_string(), value: "localhost".to_string() },
        Tag { name: "cpu".to_string(), value: "CPU0".to_string() },
    ];
    let fields = vec![Field { name: "value".to_string(), value: float32_value(42.0) }];
    let s = build_record("cpu", tags, fields, 0);
    assert_eq!(s, "cpu,cpu=CPU0,host=localhost value=42.0 0");
}

#[test]
fn multiple_fields() {
    // The float field's value is not finite; whether to keep such a field
    // is the caller's decision, and this caller drops it.
    let x = std::f32::NAN;
    let y: u32 = 42;
    let mut fields: Vec<Field> = Vec::new();
    if x.is_finite() {
        fields.push(Field { name: "x".to_string(), value: float32_value(x) });
    }
    fields.push(Field { name: "y".to_string(), value: FieldValue::UInt32(y) });
    let s = build_record("cpu", Vec::new(), fields, 0);
    assert_eq!(s, "cpu y=42i 0");
}

#[test]
fn string_newlines() {
    let fields = vec![Field {
        name: "value".to_string(),
        value: FieldValue::Str("x\ny".to_string()),
    }];
    let s = build_record("cpu", Vec::new(), fields, 0);
    assert_eq!(s, "cpu value=\"x\\ny\" 0");
}

#[test]
fn tag_newlines() {
    let tags = vec![Tag { name: "host".to_string(), value: "x\ny".to_string() }];
    let fields = vec![Field { name: "value".to_string(), value: FieldValue::UInt32(42) }];
    let s = build_record("cpu", tags, fields, 0);
    assert_eq!(s, "cpu,host=x\\ny value=42i 0");
}

#[test]
fn string_fields() {
    let fields = vec![Field {
        name: "value".to_string(),
        value: FieldValue::Str("howdy".to_string()),
    }];
    let s = build_record("cpu", Vec::new(), fields, 0);
    assert_eq!(s, "cpu value=\"howdy\" 0");
}
