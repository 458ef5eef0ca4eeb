use toml_decoder::{loads, strictly_valid_num, unescape, TomlDecoder, Value};

fn decode(doc: &str) -> toml_decoder::Table {
    let mut d = TomlDecoder::new();
    loads(doc, &mut d).expect("document should decode")
}

fn decode_err(doc: &str) -> toml_decoder::TomlDecodeError {
    let mut d = TomlDecoder::new();
    loads(doc, &mut d).expect_err("document should be rejected")
}

fn get<'a>(t: &'a toml_decoder::Table, key: &str) -> &'a Value {
    t.get(&key.to_string()).expect("key should be present")
}

#[test]
fn booleans_decode() {
    let t = decode("a = true\nb = false\n");
    assert_eq!(get(&t, "a"), &Value::Bool(true));
    assert_eq!(get(&t, "b"), &Value::Bool(false));
}

#[test]
fn wrong_case_boolean_rejected() {
    let e = decode_err("a = True\n");
    assert_eq!(e.msg(), "Only all lowercase booleans allowed");
    let e = decode_err("a = FALSE\n");
    assert_eq!(e.msg(), "Only all lowercase booleans allowed");
}

#[test]
fn integers_decode() {
    let t = decode("a = 42\nb = -17\nc = +8\nd = 0\n");
    assert_eq!(get(&t, "a"), &Value::Int(42));
    assert_eq!(get(&t, "b"), &Value::Int(-17));
    assert_eq!(get(&t, "c"), &Value::Int(8));
    assert_eq!(get(&t, "d"), &Value::Int(0));
}

#[test]
fn radix_integers_decode() {
    let t = decode("a = 0x1A\nb = 0o17\nc = 0b101\n");
    assert_eq!(get(&t, "a"), &Value::Int(26));
    assert_eq!(get(&t, "b"), &Value::Int(15));
    assert_eq!(get(&t, "c"), &Value::Int(5));
}

#[test]
fn leading_zero_rejected() {
    // the strictness rules reject a leading zero
    let e = decode_err("a = 0123\n");
    assert_eq!(
        e.msg(),
        "Weirdness with leading zeroes or underscores in your number."
    );
}

#[test]
fn underscored_integer_decodes() {
    let t = decode("a = 1_000\n");
    assert_eq!(get(&t, "a"), &Value::Int(1000));
}

#[test]
fn doubled_underscore_rejected() {
    let e = decode_err("a = 1__000\n");
    assert_eq!(
        e.msg(),
        "Weirdness with leading zeroes or underscores in your number."
    );
}

#[test]
fn float_missing_digits_rejected() {
    let e = decode_err("a = 1.\n");
    assert_eq!(e.msg(), "This float is missing digits after the point");
}

#[test]
fn float_without_leading_digit_rejected() {
    let e = decode_err("a = .5\n");
    assert_eq!(e.msg(), "This float doesn't have a leading digit");
}

#[test]
fn floats_keep_their_text() {
    let t = decode("a = 1.5\nb = -2.25e3\nc = inf\nd = nan\ne = 1_0.5\n");
    assert_eq!(get(&t, "a"), &Value::FloatText("1.5".to_string()));
    assert_eq!(get(&t, "b"), &Value::FloatText("-2.25e3".to_string()));
    assert_eq!(get(&t, "c"), &Value::FloatText("inf".to_string()));
    assert_eq!(get(&t, "d"), &Value::FloatText("nan".to_string()));
    assert_eq!(get(&t, "e"), &Value::FloatText("10.5".to_string()));
    // the text converts to the number it spells
    assert_eq!("1.5".parse::<f64>().unwrap(), 1.5f64);
    assert_eq!("-2.25e3".parse::<f64>().unwrap(), -2250.0f64);
}

#[test]
fn integer_overflow_rejected() {
    let e = decode_err("a = 99999999999999999999\n");
    assert_eq!(e.msg(), "Invalid date or number");
}

#[test]
fn strictly_valid_num_rules() {
    assert!(strictly_valid_num("1000"));
    assert!(strictly_valid_num("1_000"));
    assert!(strictly_valid_num("0"));
    assert!(strictly_valid_num("0.5"));
    assert!(strictly_valid_num("0x1A"));
    assert!(strictly_valid_num("-3"));
    assert!(!strictly_valid_num("0123"));
    assert!(!strictly_valid_num("1__000"));
    assert!(!strictly_valid_num("_1"));
    assert!(!strictly_valid_num("1_"));
    assert!(!strictly_valid_num("1_.0"));
    assert!(!strictly_valid_num("1._0"));
    assert!(!strictly_valid_num(""));
    assert!(!strictly_valid_num("+01"));
}

#[test]
fn basic_string_escapes_decode() {
    let t = decode("a = \"a\\tb\"\n");
    assert_eq!(get(&t, "a"), &Value::Str("a\tb".to_string()));
}

#[test]
fn literal_string_keeps_backslashes() {
    let t = decode("a = 'a\\tb'\n");
    assert_eq!(get(&t, "a"), &Value::Str("a\\tb".to_string()));
}

#[test]
fn unicode_escapes_decode() {
    let t = decode("a = \"\\u0041\\U00000042\"\n");
    assert_eq!(get(&t, "a"), &Value::Str("AB".to_string()));
}

#[test]
fn reserved_escape_rejected() {
    let e = decode_err("a = \"bad\\qescape\"\n");
    assert_eq!(e.msg(), "Reserved escape sequence used");
}

#[test]
fn surrogate_escape_rejected() {
    let e = decode_err("a = \"\\uD800\"\n");
    assert_eq!(
        e.msg(),
        "Invalid escape sequence. Only scalar unicode points are allowed."
    );
}

#[test]
fn unescape_function() {
    assert_eq!(unescape("a\\nb").unwrap(), "a\nb");
    assert_eq!(unescape("a\\\\b").unwrap(), "a\\b");
    assert_eq!(unescape("\\u0041").unwrap(), "A");
    assert!(unescape("\\q").is_err());
}

#[test]
fn load_unicode_escapes_function() {
    assert_eq!(toml_decoder::load_unicode_escapes("x\\u0041y").unwrap(), "xAy");
    // an escaped backslash shields the u from expansion
    assert_eq!(
        toml_decoder::load_unicode_escapes("\\\\u0041").unwrap(),
        "\\\\u0041"
    );
    assert!(toml_decoder::load_unicode_escapes("\\uZZZZ").is_err());
}

#[test]
fn empty_strings_decode() {
    let t = decode("a = \"\"\nb = ''\n");
    assert_eq!(get(&t, "a"), &Value::Str(String::new()));
    assert_eq!(get(&t, "b"), &Value::Str(String::new()));
}

#[test]
fn arrays_decode_in_order() {
    let t = decode("a = [1, 2, 3]\n");
    match get(&t, "a") {
        Value::Array(items) => {
            assert_eq!(items.len(), 3);
            assert_eq!(items[0], Value::Int(1));
            assert_eq!(items[1], Value::Int(2));
            assert_eq!(items[2], Value::Int(3));
        }
        other => panic!("expected an array, got {:?}", other),
    }
}

#[test]
fn nested_arrays_decode() {
    let t = decode("a = [[1, 2], [3]]\n");
    match get(&t, "a") {
        Value::Array(items) => {
            assert_eq!(items.len(), 2);
            match &items[0] {
                Value::Array(inner) => assert_eq!(inner.len(), 2),
                other => panic!("expected an inner array, got {:?}", other),
            }
        }
        other => panic!("expected an array, got {:?}", other),
    }
}

#[test]
fn array_of_strings_with_commas_inside() {
    let t = decode("a = [\"x,y\", \"z\"]\n");
    match get(&t, "a") {
        Value::Array(items) => {
            assert_eq!(items.len(), 2);
            assert_eq!(items[0], Value::Str("x,y".to_string()));
            assert_eq!(items[1], Value::Str("z".to_string()));
        }
        other => panic!("expected an array, got {:?}", other),
    }
}

#[test]
fn trailing_comma_in_array_allowed() {
    let t = decode("a = [1, 2,]\n");
    match get(&t, "a") {
        Value::Array(items) => assert_eq!(items.len(), 2),
        other => panic!("expected an array, got {:?}", other),
    }
}

#[test]
fn multiline_array_decodes() {
    let t = decode("a = [1,\n2,\n3]\n");
    match get(&t, "a") {
        Value::Array(items) => assert_eq!(items.len(), 3),
        other => panic!("expected an array, got {:?}", other),
    }
}

#[test]
fn inline_table_decodes() {
    let t = decode("p = {x = 1, y = \"s\"}\n");
    match get(&t, "p") {
        Value::Table(inner) => {
            assert_eq!(get(inner, "x"), &Value::Int(1));
            assert_eq!(get(inner, "y"), &Value::Str("s".to_string()));
        }
        other => panic!("expected a table, got {:?}", other),
    }
}

#[test]
fn empty_inline_table_decodes() {
    let t = decode("p = {}\n");
    match get(&t, "p") {
        Value::Table(inner) => assert_eq!(inner.len(), 0),
        other => panic!("expected a table, got {:?}", other),
    }
}

#[test]
fn empty_value_rejected() {
    let e = decode_err("a =\n");
    assert_eq!(e.msg(), "Empty value is invalid");
}

#[test]
fn multiline_basic_string_decodes() {
    let t = decode("s = \"\"\"abc\ndef\"\"\"\n");
    assert_eq!(get(&t, "s"), &Value::Str("abc\ndef".to_string()));
}

#[test]
fn multiline_literal_string_decodes() {
    let t = decode("s = '''ab\ncd'''\n");
    assert_eq!(get(&t, "s"), &Value::Str("ab\ncd".to_string()));
}

#[test]
fn time_decodes() {
    let t = decode("t = 07:32:00\nu = 07:32:00.5\n");
    match get(&t, "t") {
        Value::Time(tm) => {
            assert_eq!(tm.hour, 7);
            assert_eq!(tm.minute, 32);
            assert_eq!(tm.second, 0);
            assert_eq!(tm.micros, 0);
        }
        other => panic!("expected a time, got {:?}", other),
    }
    match get(&t, "u") {
        Value::Time(tm) => assert_eq!(tm.micros, 500000),
        other => panic!("expected a time, got {:?}", other),
    }
}

#[test]
fn invalid_time_rejected() {
    let e = decode_err("t = 25:00:00\n");
    assert_eq!(e.msg(), "Invalid time");
}

#[test]
fn date_decodes_alone() {
    let t = decode("d = 1979-05-27\n");
    match get(&t, "d") {
        Value::Date(d) => {
            assert_eq!(d.year, 1979);
            assert_eq!(d.month, 5);
            assert_eq!(d.day, 27);
        }
        other => panic!("expected a date-only value, got {:?}", other),
    }
}

#[test]
fn datetime_with_zero_utc_offset() {
    let t = decode("d = 1979-05-27T07:32:00Z\n");
    match get(&t, "d") {
        Value::Datetime(dt) => {
            assert_eq!(dt.date.year, 1979);
            assert_eq!(dt.time.hour, 7);
            let tz = dt.tz.as_ref().expect("offset should be present");
            assert_eq!(tz.sign, 1);
            assert_eq!(tz.hours, 0);
            assert_eq!(tz.minutes, 0);
            assert_eq!(tz.get_raw_offset(), "+00:00");
        }
        other => panic!("expected a datetime, got {:?}", other),
    }
}

#[test]
fn datetime_with_positive_offset() {
    let t = decode("d = 1979-05-27T07:32:00+02:00\n");
    match get(&t, "d") {
        Value::Datetime(dt) => {
            let tz = dt.tz.as_ref().expect("offset should be present");
            assert_eq!(tz.sign, 1);
            assert_eq!(tz.hours, 2);
            assert_eq!(tz.minutes, 0);
        }
        other => panic!("expected a datetime, got {:?}", other),
    }
}

#[test]
fn datetime_with_fraction_and_offset() {
    let t = decode("d = 1979-05-27T00:32:00.999999-07:00\n");
    match get(&t, "d") {
        Value::Datetime(dt) => {
            assert_eq!(dt.time.micros, 999999);
            let tz = dt.tz.as_ref().expect("offset should be present");
            assert_eq!(tz.sign, -1);
            assert_eq!(tz.hours, 7);
        }
        other => panic!("expected a datetime, got {:?}", other),
    }
}

#[test]
fn invalid_calendar_date_rejected() {
    // 1979-05-99 is no calendar day, so the value is not a date and the
    // number grammar rejects it
    let e = decode_err("d = 1979-05-99\n");
    assert_eq!(e.msg(), "Invalid date or number");
}

#[test]
fn leap_year_dates() {
    let t = decode("a = 2024-02-29\n");
    match get(&t, "a") {
        Value::Date(d) => assert_eq!(d.day, 29),
        other => panic!("expected a date, got {:?}", other),
    }
    let e = decode_err("a = 2023-02-29\n");
    assert_eq!(e.msg(), "Invalid date or number");
}

#[test]
fn integer_bounds_decode() {
    let t = decode("a = 9223372036854775807\nb = -9223372036854775808\n");
    assert_eq!(get(&t, "a"), &Value::Int(i64::MAX));
    assert_eq!(get(&t, "b"), &Value::Int(i64::MIN));
    let e = decode_err("a = 9223372036854775808\n");
    assert_eq!(e.msg(), "Invalid date or number");
}

#[test]
fn crlf_line_endings_decode() {
    let t = decode("a = 1\r\nb = 2\r\n");
    assert_eq!(get(&t, "a"), &Value::Int(1));
    assert_eq!(get(&t, "b"), &Value::Int(2));
}

#[test]
fn comment_inside_array_is_dropped() {
    let t = decode("a = [1, # one\n2]\n");
    match get(&t, "a") {
        Value::Array(items) => {
            assert_eq!(items.len(), 2);
            assert_eq!(items[1], Value::Int(2));
        }
        other => panic!("expected an array, got {:?}", other),
    }
}

#[test]
fn datetime_with_space_separator() {
    let t = decode("d = 1979-05-27 07:32:00\n");
    match get(&t, "d") {
        Value::Datetime(dt) => {
            assert_eq!(dt.time.hour, 7);
            assert!(dt.tz.is_none());
        }
        other => panic!("expected a datetime, got {:?}", other),
    }
}

#[test]
fn quoted_key_with_escape() {
    let t = decode("\"a\\tb\" = 1\n");
    assert_eq!(get(&t, "a\tb"), &Value::Int(1));
}

#[test]
fn tokens_after_closed_string_rejected() {
    let e = decode_err("a = \"x\" \"y\"\n");
    assert_eq!(e.msg(), "Found tokens after a closed string. Invalid TOML.");
}

#[test]
fn lowercase_z_offset_accepted() {
    let t = decode("d = 1979-05-27T07:32:00z\n");
    match get(&t, "d") {
        Value::Datetime(dt) => {
            let tz = dt.tz.as_ref().expect("offset should be present");
            assert_eq!(tz.get_raw_offset(), "+00:00");
        }
        other => panic!("expected a datetime, got {:?}", other),
    }
}
