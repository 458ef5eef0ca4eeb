use toml_decoder::{loads, CommentValue, Table, TomlDecodeError, TomlDecoder, TomlTz, Value};

fn decode(doc: &str) -> Table {
    let mut d = TomlDecoder::new();
    loads(doc, &mut d).expect("document should decode")
}

fn decode_preserving(doc: &str) -> Table {
    let mut d = TomlDecoder::new_preserving();
    loads(doc, &mut d).expect("document should decode")
}

fn decode_err(doc: &str) -> TomlDecodeError {
    let mut d = TomlDecoder::new();
    loads(doc, &mut d).expect_err("document should be rejected")
}

fn get<'a>(t: &'a Table, key: &str) -> &'a Value {
    t.get(&key.to_string()).expect("key should be present")
}

fn subtable<'a>(t: &'a Table, key: &str) -> &'a Table {
    match get(t, key) {
        Value::Table(inner) => inner,
        other => panic!("expected a table under {}, got {:?}", key, other),
    }
}

#[test]
fn header_creates_table() {
    let t = decode("[server]\nport = 80\n");
    let server = subtable(&t, "server");
    assert_eq!(get(server, "port"), &Value::Int(80));
}

#[test]
fn nested_headers_create_nested_tables() {
    let t = decode("[a]\n[a.b]\nc = 1\n");
    let a = subtable(&t, "a");
    let b = subtable(a, "b");
    assert_eq!(get(b, "c"), &Value::Int(1));
}

#[test]
fn dotted_keys_match_nested_headers() {
    // the two spellings produce the identical nested shape
    let t1 = decode("a.b.c = 1\na.b.d = 2\n");
    let t2 = decode("[a]\n[a.b]\nc = 1\nd = 2\n");
    assert_eq!(t1, t2);
    let b1 = subtable(subtable(&t1, "a"), "b");
    assert_eq!(b1.len(), 2);
    assert_eq!(get(b1, "c"), &Value::Int(1));
    assert_eq!(get(b1, "d"), &Value::Int(2));
}

#[test]
fn duplicate_key_rejected() {
    let e = decode_err("a = 1\na = 2\n");
    assert_eq!(e.msg(), "Duplicate keys!");
}

#[test]
fn duplicate_key_in_inline_table_rejected() {
    let e = decode_err("p = {x = 1, x = 2}\n");
    assert_eq!(e.msg(), "Duplicate keys!");
}

#[test]
fn duplicate_header_rejected() {
    let e = decode_err("[a]\nx = 1\n[a]\ny = 2\n");
    assert!(e.msg().starts_with("What? a already exists?"));
}

#[test]
fn implicit_table_confirmed_by_header() {
    let t = decode("[a.b]\nx = 1\n[a]\ny = 2\n");
    let a = subtable(&t, "a");
    assert_eq!(get(a, "y"), &Value::Int(2));
    let b = subtable(a, "b");
    assert_eq!(get(b, "x"), &Value::Int(1));
}

#[test]
fn implicit_table_cannot_become_array() {
    let e = decode_err("[a.b]\nx = 1\n[[a]]\n");
    assert_eq!(e.msg(), "An implicitly defined table can't be an array");
}

#[test]
fn array_of_tables_appends() {
    let t = decode("[[arr]]\nx = 1\n[[arr]]\nx = 2\n");
    match get(&t, "arr") {
        Value::Array(items) => {
            assert_eq!(items.len(), 2);
            match (&items[0], &items[1]) {
                (Value::Table(first), Value::Table(second)) => {
                    assert_eq!(get(first, "x"), &Value::Int(1));
                    assert_eq!(get(second, "x"), &Value::Int(2));
                }
                other => panic!("expected two tables, got {:?}", other),
            }
        }
        other => panic!("expected an array of tables, got {:?}", other),
    }
}

#[test]
fn subtable_of_array_of_tables() {
    let t = decode("[[fruit]]\nname = \"apple\"\n[fruit.physical]\ncolor = \"red\"\n");
    match get(&t, "fruit") {
        Value::Array(items) => {
            assert_eq!(items.len(), 1);
            match &items[0] {
                Value::Table(apple) => {
                    assert_eq!(get(apple, "name"), &Value::Str("apple".to_string()));
                    let physical = subtable(apple, "physical");
                    assert_eq!(get(physical, "color"), &Value::Str("red".to_string()));
                }
                other => panic!("expected a table, got {:?}", other),
            }
        }
        other => panic!("expected an array, got {:?}", other),
    }
}

#[test]
fn quoted_header_group() {
    let t = decode("[\"week end\"]\nx = 1\n");
    let inner = subtable(&t, "week end");
    assert_eq!(get(inner, "x"), &Value::Int(1));
}

#[test]
fn invalid_group_name_rejected() {
    let e = decode_err("[a b]\nx = 1\n");
    assert!(e.msg().starts_with("Invalid group name"));
}

#[test]
fn header_with_trailing_text_rejected() {
    let e = decode_err("[a] junk\nx = 1\n");
    assert_eq!(e.msg(), "Key group not on a line by itself.");
}

#[test]
fn quoted_keys_decode() {
    let t = decode("\"my key\" = 1\n");
    assert_eq!(get(&t, "my key"), &Value::Int(1));
}

#[test]
fn empty_keyname_rejected() {
    let e = decode_err("= 1\n");
    assert_eq!(e.msg(), "Found empty keyname.");
}

#[test]
fn invalid_key_character_rejected() {
    let e = decode_err("a$b = 1\n");
    assert!(e.msg().starts_with("Found invalid character in key name: '$'"));
}

#[test]
fn unbalanced_quotes_located() {
    let e = decode_err("x = \"abc\ny = 1\n");
    assert_eq!(e.msg(), "Unbalanced quotes");
    // the offset points at the newline that ends the open string, and
    // line and column agree with an independent count
    assert_eq!(e.pos(), 8);
    assert_eq!(e.lineno(), 1);
    assert_eq!(e.colno(), 8);
}

#[test]
fn error_location_matches_independent_count() {
    let doc = "ok = 1\nalso = 2\nbad = 0123\n";
    let e = decode_err(doc);
    let pos = e.pos();
    let newlines = doc.chars().take(pos).filter(|c| *c == '\n').count();
    assert_eq!(e.lineno(), newlines + 1);
    let last_nl = doc
        .chars()
        .take(pos)
        .enumerate()
        .filter(|(_, c)| *c == '\n')
        .map(|(i, _)| i)
        .last()
        .unwrap_or(0);
    assert_eq!(e.colno(), pos - last_nl);
    assert_eq!(e.lineno(), 3);
}

#[test]
fn error_message_embeds_location() {
    let e = decode_err("a = 1\na = 2\n");
    let m = e.message();
    assert!(m.starts_with("Duplicate keys!"));
    assert!(m.contains("(line 2 column"));
}

#[test]
fn unterminated_string_at_eof() {
    let e = decode_err("a = \"abc");
    assert_eq!(e.msg(), "Unterminated string found. Reached end of file.");
}

#[test]
fn key_without_value_at_eof() {
    let e = decode_err("abc");
    assert_eq!(e.msg(), "Key name found without value. Reached end of file.");
}

#[test]
fn inline_comment_preserved() {
    let t = decode_preserving("key = \"value\" # note\n");
    match get(&t, "key") {
        Value::Commented(c) => {
            assert_eq!(*c.val, Value::Str("value".to_string()));
            assert_eq!(c.comment, "# note");
            assert!(!c.beginline);
        }
        other => panic!("expected a commented value, got {:?}", other),
    }
}

#[test]
fn before_comment_preserved() {
    let t = decode_preserving("# note\nkey = \"value\"\n");
    match get(&t, "key") {
        Value::Commented(c) => {
            assert_eq!(*c.val, Value::Str("value".to_string()));
            assert_eq!(c.comment, "# note");
            assert!(c.beginline);
        }
        other => panic!("expected a commented value, got {:?}", other),
    }
}

#[test]
fn comments_dropped_without_preserving_mode() {
    let t = decode("key = 1 # note\n");
    assert_eq!(get(&t, "key"), &Value::Int(1));
}

#[test]
fn comment_value_dump_and_access() {
    let inner = Value::Array(vec![Value::Int(1), Value::Int(2)]);
    let mut c = CommentValue::new(inner, "# note".to_string(), false);
    assert_eq!(c.get_item(0), Some(&Value::Int(1)));
    assert_eq!(c.get_item(5), None);
    assert!(c.set_item(1, Value::Int(9)));
    assert_eq!(c.get_item(1), Some(&Value::Int(9)));
    assert_eq!(c.dump("[1, 9]"), "[1, 9] # note");
    let before = CommentValue::new(Value::Int(3), "# above".to_string(), true);
    assert_eq!(before.dump("3"), "# above\n3");
}

#[test]
fn toml_tz_parsing_and_accessors() {
    let tz = TomlTz::new("Z").expect("Z should parse");
    assert_eq!(tz.get_raw_offset(), "+00:00");
    assert_eq!(tz.tzname(), "UTC+00:00");
    assert_eq!(tz.utc_offset_seconds(), 0);
    let tz = TomlTz::new("-07:30").expect("offset should parse");
    assert_eq!(tz.sign, -1);
    assert_eq!(tz.hours, 7);
    assert_eq!(tz.minutes, 30);
    assert_eq!(tz.utc_offset_seconds(), -(7 * 3600 + 30 * 60));
    assert_eq!(tz.get_init_args(), "-07:30");
    let copy = tz.deepcopy();
    assert_eq!(copy, tz);
    assert!(TomlTz::new("+9:00").is_none());
    assert!(TomlTz::new("nonsense").is_none());
}

#[test]
fn decode_error_direct_construction() {
    let e = TomlDecodeError::new("boom".to_string(), "ab\ncd\nef".to_string(), 4);
    assert_eq!(e.lineno(), 2);
    assert_eq!(e.colno(), 2);
    assert_eq!(e.pos(), 4);
    assert_eq!(e.msg(), "boom");
    assert_eq!(e.message(), "boom (line 2 column 2 char 4)");
}

#[test]
fn decoder_helpers() {
    let d = TomlDecoder::new();
    assert_eq!(d.get_empty_table().len(), 0);
    assert_eq!(d.get_empty_inline_table().len(), 0);
    assert!(d.load_array_isstrarray("[\"a\", \"b\"]"));
    assert!(!d.load_array_isstrarray("[1, 2]"));
    assert!(d.bounded_string("\"abc\""));
    assert!(!d.bounded_string("\"abc"));
    assert_eq!(d.load_line_multiline_str("\"\"\"abc"), Some(false));
    assert_eq!(d.load_line_multiline_str("[1, 2"), Some(true));
    assert_eq!(d.load_line_multiline_str("\"done\""), None);
    let split = d.get_split_on_quotes("a \"b c\" d");
    assert_eq!(split, vec!["a".to_string(), "b c".to_string(), "d".to_string()]);
}

#[test]
fn decoder_load_value_and_array() {
    let d = TomlDecoder::new();
    assert!(matches!(d.load_value("true", true), Ok(Value::Bool(true))));
    assert!(d.load_value("True", true).is_err());
    let items = d.load_array("[1, 2]").expect("array should parse");
    assert_eq!(items, vec![Value::Int(1), Value::Int(2)]);
}

#[test]
fn decoder_load_line_inserts() {
    let d = TomlDecoder::new();
    let mut t = Table::new();
    let r = d.load_line("a = 5", &mut t).expect("line should parse");
    assert!(r.is_none());
    assert_eq!(get(&t, "a"), &Value::Int(5));
    // the same key again is a duplicate
    assert!(d.load_line("a = 6", &mut t).is_err());
}

#[test]
fn decoder_load_inline_object() {
    let d = TomlDecoder::new();
    let mut t = Table::new();
    d.load_inline_object("{x = 1, y = 2}", &mut t)
        .expect("inline object should parse");
    assert_eq!(get(&t, "x"), &Value::Int(1));
    assert_eq!(get(&t, "y"), &Value::Int(2));
}

#[test]
fn dotted_key_in_inline_table() {
    let t = decode("p = {a.b = 1}\n");
    let p = subtable(&t, "p");
    let a = subtable(p, "a");
    assert_eq!(get(a, "b"), &Value::Int(1));
}

#[test]
fn table_preserves_insertion_order() {
    let t = decode("b = 1\na = 2\nc = 3\n");
    assert_eq!(t.entries[0].0, "b");
    assert_eq!(t.entries[1].0, "a");
    assert_eq!(t.entries[2].0, "c");
}

#[test]
fn empty_document_decodes_to_empty_table() {
    let t = decode("");
    assert_eq!(t.len(), 0);
}

#[test]
fn backslash_continuation_in_multiline_string() {
    let t = decode("s = \"\"\"ab\\\ncd\"\"\"\n");
    assert_eq!(get(&t, "s"), &Value::Str("abcd".to_string()));
}

#[test]
fn unterminated_multiline_string_at_eof_rejected() {
    // the scanner itself sees the still-open string at the end of the text
    let e = decode_err("s = \"\"\"abc\n");
    assert_eq!(e.msg(), "Unterminated string found. Reached end of file.");
}

#[test]
fn unterminated_multiline_array_at_eof_rejected() {
    let e = decode_err("a = [1,\n");
    assert_eq!(e.msg(), "Unterminated multiline value at end of file.");
}

#[test]
fn empty_inline_object_line_inserts_nothing() {
    let d = TomlDecoder::new();
    let mut t = Table::new();
    t.set("kept".to_string(), Value::Int(1));
    d.load_inline_object("{}", &mut t)
        .expect("an empty inline object is accepted");
    assert_eq!(t.len(), 1);
    assert_eq!(get(&t, "kept"), &Value::Int(1));
}

#[test]
fn failed_inline_object_keeps_prior_content() {
    let d = TomlDecoder::new();
    let mut t = Table::new();
    t.set("kept".to_string(), Value::Int(1));
    assert!(d.load_inline_object("{x = 1, bogus}", &mut t).is_err());
    // the group before the rejected one is inserted; earlier content stays
    assert_eq!(get(&t, "kept"), &Value::Int(1));
    assert_eq!(get(&t, "x"), &Value::Int(1));
}

#[test]
fn inline_comment_without_trailing_newline_preserved() {
    let t = decode_preserving("key = \"value\" # note");
    match get(&t, "key") {
        Value::Commented(c) => {
            assert_eq!(*c.val, Value::Str("value".to_string()));
            assert_eq!(c.comment, "# note");
            assert!(!c.beginline);
        }
        other => panic!("expected a commented value, got {:?}", other),
    }
}

#[test]
fn returned_tables_carry_no_parsing_tags() {
    let t = decode("a.b = 1\n[c]\nd = 2\n");
    assert!(!t.implicit);
    match get(&t, "a") {
        Value::Table(inner) => assert!(!inner.implicit),
        other => panic!("expected a table, got {:?}", other),
    }
    match get(&t, "c") {
        Value::Table(inner) => assert!(!inner.implicit),
        other => panic!("expected a table, got {:?}", other),
    }
}

#[test]
fn comment_mode_does_not_change_decode_success() {
    // a wrapped table under an intermediate dotted segment is descended
    // into, exactly as in plain mode
    let doc = "a = {} # c\na.x = 3\n";
    let plain = decode(doc);
    let pres = decode_preserving(doc);
    match get(&pres, "a") {
        Value::Commented(c) => {
            assert_eq!(c.comment, "# c");
            match (&*c.val, get(&plain, "a")) {
                (Value::Table(inner), Value::Table(p)) => {
                    assert_eq!(inner, p);
                    assert_eq!(get(inner, "x"), &Value::Int(3));
                }
                other => panic!("expected tables, got {:?}", other),
            }
        }
        other => panic!("expected a commented table, got {:?}", other),
    }
}

#[test]
fn duplicate_through_comment_wrapper_still_rejected() {
    // the wrapper is transparent for descent, not for collisions
    let doc = "a = {x = 1} # c\na.x = 2\n";
    let mut plain = TomlDecoder::new();
    let mut pres = TomlDecoder::new_preserving();
    let ep = loads(doc, &mut plain).expect_err("duplicate should fail");
    let ec = loads(doc, &mut pres).expect_err("duplicate should fail");
    assert_eq!(ep.msg(), "Duplicate keys!");
    assert_eq!(ec.msg(), "Duplicate keys!");
    assert_eq!(ep.pos(), ec.pos());
}
