use segment::build_escapedfieldstr;
use segment::build_escapedtagstr;
use segment::escape_fieldstr;
use segment::escape_tagstr;

#[test]
fn tag_escaping_reserved_characters() {
    assert_eq!(escape_tagstr("a,b c=d\ne"), "a\\,b\\ c\\=d\\ne");
}

#[test]
fn tag_escaping_safe_input_unchanged() {
    assert_eq!(escape_tagstr("plain-value_42.ok\"x"), "plain-value_42.ok\"x");
    assert_eq!(escape_tagstr(""), "");
}

#[test]
fn tag_escaping_each_delimiter() {
    assert_eq!(escape_tagstr(","), "\\,");
    assert_eq!(escape_tagstr(" "), "\\ ");
    assert_eq!(escape_tagstr("="), "\\=");
    assert_eq!(escape_tagstr("\n"), "\\n");
}

#[test]
fn field_string_quoting() {
    assert_eq!(escape_fieldstr("he said \"hi\""), "\"he said \\\"hi\\\"\"");
}

#[test]
fn field_string_newline_and_empty() {
    assert_eq!(escape_fieldstr("x\ny"), "\"x\\ny\"");
    assert_eq!(escape_fieldstr(""), "\"\"");
}

#[test]
fn tag_escaping_appends_to_buffer() {
    let mut buff = String::from("head:");
    build_escapedtagstr("a b", &mut buff);
    assert_eq!(buff, "head:a\\ b");
}

#[test]
fn field_escaping_appends_to_buffer() {
    let mut buff = String::from("head:");
    build_escapedfieldstr("a\"b", &mut buff);
    assert_eq!(buff, "head:\"a\\\"b\"");
}

#[test]
fn tag_escaping_multibyte_passthrough() {
    assert_eq!(escape_tagstr("héllo wörld"), "héllo\\ wörld");
}
