use segment::build_line;
use segment::sort_tags;
use segment::Field;
use segment::FieldValue;
use segment::Metric;
use segment::MetricError;
use segment::Record;
use segment::Tag;

fn tag(name: &str, value: &str) -> Tag {
    Tag { name: name.to_string(), value: value.to_string() }
}

fn int_field(name: &str, value: u32) -> Field {
    Field { name: name.to_string(), value: FieldValue::UInt32(value) }
}

#[test]
fn tags_sorted_regardless_of_declaration_order() {
    let tags = vec![tag("host", "b"), tag("cpu", "a")];
    let fields = vec![int_field("value", 1)];
    let record = Record::new("cpu".to_string(), tags, fields, 0).unwrap();
    let mut s = String::new();
    let _ = record.build(&mut s);
    assert_eq!(s, "cpu,cpu=a,host=b value=1i 0");
}

#[test]
fn sort_tags_orders_by_name() {
    let sorted = sort_tags(vec![tag("z", "1"), tag("a", "2"), tag("m", "3")]);
    let names: Vec<&str> = sorted.iter().map(|t| t.name.as_str()).collect();
    assert_eq!(names, vec!["a", "m", "z"]);
}

#[test]
fn zero_fields_rejected_at_construction() {
    let r = Record::new("cpu".to_string(), vec![tag("host", "a")], Vec::new(), 0);
    assert!(matches!(r, Err(MetricError::NoFields)));
}

#[test]
fn zero_fields_rejected_by_serializer() {
    let mut s = String::from("untouched");
    let r = build_line("cpu", &Vec::new(), &Vec::new(), 0, &mut s);
    assert!(matches!(r, Err(MetricError::NoFields)));
    assert_eq!(s, "untouched");
}

#[test]
fn build_line_appends_whole_line() {
    let tags = vec![tag("cpu", "CPU0")];
    let fields = vec![int_field("busy", 5), int_field("idle", 95)];
    let mut s = String::new();
    let r = build_line("stat", &tags, &fields, 1234567890, &mut s);
    assert!(r.is_ok());
    assert_eq!(s, "stat,cpu=CPU0 busy=5i,idle=95i 1234567890");
}

#[test]
fn to_lineproto_returns_the_line() {
    let fields = vec![int_field("value", 3)];
    let record = Record::new("mem".to_string(), Vec::new(), fields, 7).unwrap();
    assert_eq!(record.to_lineproto(), "mem value=3i 7");
}

#[test]
fn record_accessors_report_contents() {
    let tags = vec![tag("b", "2"), tag("a", "1")];
    let fields = vec![int_field("value", 3)];
    let record = Record::new("disk".to_string(), tags, fields, 11).unwrap();
    assert_eq!(record.measurement(), "disk");
    assert_eq!(record.time(), 11);
    let ts = record.tags();
    assert_eq!(ts.len(), 2);
    assert_eq!(ts[0].name, "a");
    assert_eq!(ts[1].name, "b");
    let fs = record.fields();
    assert_eq!(fs.len(), 1);
    assert_eq!(fs[0].name, "value");
}

#[test]
fn timestamp_rendered_in_decimal() {
    let fields = vec![int_field("value", 1)];
    let record = Record::new("t".to_string(), Vec::new(), fields, u64::MAX).unwrap();
    assert_eq!(record.to_lineproto(), "t value=1i 18446744073709551615");
}

#[test]
fn tag_values_escaped_in_line() {
    let tags = vec![tag("path", "/var log,data=x")];
    let fields = vec![int_field("value", 1)];
    let record = Record::new("fs".to_string(), tags, fields, 0).unwrap();
    assert_eq!(record.to_lineproto(), "fs,path=/var\\ log\\,data\\=x value=1i 0");
}

#[test]
fn error_message_text() {
    let e = MetricError::NoFields;
    assert_eq!(e.message(), "no fields defined for metric");
}
