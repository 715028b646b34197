use fleetix::pkl::string_literal;

#[test]
fn string_literal_escapes_quotes_backslashes_and_breaks() {
    assert_eq!(string_literal("plain"), "\"plain\"");
    assert_eq!(string_literal("quoted\"name"), "\"quoted\\\"name\"");
    assert_eq!(string_literal("a\\b"), "\"a\\\\b\"");
    assert_eq!(string_literal("l1\nl2\r\t"), "\"l1\\nl2\\r\\t\"");
    assert_eq!(string_literal(""), "\"\"");
}
