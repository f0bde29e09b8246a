use gostd_settings::{builder, format_line, is_comment_line, parse_line, ParsedLine, Settings};

fn strings(xs: &[&str]) -> Vec<String> {
    xs.iter().map(|s| s.to_string()).collect()
}

#[test]
fn list_round_trip() {
    let mut p = builder().file_type_properties().build();
    p.set_property_slice("LogLevel", strings(&["Debug", "Info", "Warn"]));
    assert_eq!(p.property("LogLevel"), Some("Debug,Info,Warn".to_string()));
    assert_eq!(p.property_slice("LogLevel"), Some(strings(&["Debug", "Info", "Warn"])));
}

#[test]
fn empty_list_reads_as_one_empty_element() {
    let mut p = builder().build();
    p.set_property_slice("k", Vec::new());
    assert_eq!(p.property("k"), Some(String::new()));
    assert_eq!(p.property_slice("k"), Some(strings(&[""])));
}

#[test]
fn list_keeps_empty_and_untrimmed_elements() {
    let mut p = builder().build();
    p.set_property("k", "a,, b ,");
    assert_eq!(p.property_slice("k"), Some(strings(&["a", "", " b ", ""])));
}

#[test]
fn idempotent_overwrite() {
    let mut p = builder().build();
    p.set_property("k", "v1");
    p.set_property("k", "v2");
    assert_eq!(p.property("k"), Some("v2".to_string()));
    let names = p.property_names();
    assert_eq!(names.iter().filter(|n| n.as_str() == "k").count(), 1);
    assert_eq!(names.len(), 1);
}

#[test]
fn comment_blank_skip() {
    let mut p = builder().build();
    let bad = p.load("# comment\n\n  \nA = 1\n");
    assert!(bad.is_empty());
    assert_eq!(p.property_names(), strings(&["A"]));
    assert_eq!(p.property("A"), Some("1".to_string()));
}

#[test]
fn slash_comments_skipped() {
    let mut p = builder().build();
    let bad = p.load("// x = 1\n  /* y = 2\n#z=3\nw=4");
    assert!(bad.is_empty());
    assert_eq!(p.property_names(), strings(&["w"]));
    assert_eq!(p.property("w"), Some("4".to_string()));
}

#[test]
fn whitespace_trimming() {
    let mut p = builder().build();
    p.load("  X   =   hello world  \n");
    assert_eq!(p.property("X"), Some("hello world".to_string()));
}

#[test]
fn unicode_white_space_trimmed() {
    let mut p = builder().build();
    p.load("\u{3000}K\u{a0}=\t v \u{2003}\r\n");
    assert_eq!(p.property("K"), Some("v".to_string()));
}

#[test]
fn malformed_line_reported() {
    let mut p = builder().build();
    let bad = p.load("NoEqualsHere\nY = 2\n");
    assert_eq!(bad, vec![1]);
    assert_eq!(p.property("Y"), Some("2".to_string()));
    assert_eq!(p.property("NoEqualsHere"), None);
    assert_eq!(p.property_names(), strings(&["Y"]));
}

#[test]
fn malformed_lines_numbered_from_one() {
    let mut p = builder().build();
    let bad = p.load("a = 1\nb\n# c\nd\ne = 5");
    assert_eq!(bad, vec![2, 4]);
    assert_eq!(p.property("a"), Some("1".to_string()));
    assert_eq!(p.property("e"), Some("5".to_string()));
}

#[test]
fn missing_key() {
    let p = builder().build();
    assert_eq!(p.property("absent"), None);
    assert_eq!(p.property_slice("absent"), None);
    assert!(p.property_names().is_empty());
}

#[test]
fn distinct_keys_both_present() {
    let mut p = builder().build();
    p.set_property("k1", "v1");
    p.set_property("k2", "v2");
    assert_eq!(p.property("k1"), Some("v1".to_string()));
    assert_eq!(p.property("k2"), Some("v2".to_string()));
    let mut names = p.property_names();
    names.sort();
    assert_eq!(names, strings(&["k1", "k2"]));
}

#[test]
fn end_to_end_example() {
    let mongo = "mongodb://10.11.1.5,10.11.1.6,10.11.1.7/?replicaSet=mytest";
    let mut p = builder().file_type_properties().build();
    p.set_property("HttpPort", "8081");
    p.set_property("MongoServer", mongo);
    p.set_property_slice("LogLevel", strings(&["Debug", "Info", "Warn"]));
    let text = p.store();
    let mut q = builder().file_type_properties().build();
    let bad = q.load(&text);
    assert!(bad.is_empty());
    assert_eq!(q.property("HttpPort"), Some("8081".to_string()));
    assert_eq!(q.property_slice("LogLevel"), Some(strings(&["Debug", "Info", "Warn"])));
    assert_eq!(q.property("MongoServer"), Some(mongo.to_string()));
}

#[test]
fn store_then_load_round_trip() {
    let mut p = builder().build();
    p.set_property("a", "1");
    p.set_property("b c", "x y");
    p.set_property("", "empty key");
    p.set_property("d", "");
    let text = p.store();
    let mut q = builder().build();
    q.load(&text);
    let mut names = q.property_names();
    names.sort();
    assert_eq!(names, strings(&["", "a", "b c", "d"]));
    for k in ["a", "b c", "", "d"] {
        assert_eq!(q.property(k), p.property(k));
    }
}

#[test]
fn store_writes_one_line_per_property() {
    let mut p = builder().build();
    assert_eq!(p.store(), "");
    p.set_property("HttpPort", "8081");
    assert_eq!(p.store(), "HttpPort = 8081\n");
    p.set_property("x", "y");
    let text = p.store();
    assert!(text == "HttpPort = 8081\nx = y\n" || text == "x = y\nHttpPort = 8081\n");
}

#[test]
fn load_keeps_existing_and_overwrites() {
    let mut p = builder().build();
    p.set_property("old", "1");
    p.set_property("A", "0");
    p.load("A = 2\nA = 3");
    assert_eq!(p.property("old"), Some("1".to_string()));
    assert_eq!(p.property("A"), Some("3".to_string()));
}

#[test]
fn value_keeps_text_after_first_equals() {
    let mut p = builder().build();
    p.load("url = a=b=c\n");
    assert_eq!(p.property("url"), Some("a=b=c".to_string()));
}

#[test]
fn format_line_exact() {
    assert_eq!(format_line("HttpPort", "8081"), "HttpPort = 8081\n");
    assert_eq!(format_line("", ""), " = \n");
}

#[test]
fn is_comment_line_cases() {
    assert!(is_comment_line(""));
    assert!(is_comment_line("# x"));
    assert!(is_comment_line("// x"));
    assert!(is_comment_line("/* x"));
    assert!(!is_comment_line("/x"));
    assert!(!is_comment_line("a = #"));
}

#[test]
fn parse_line_cases() {
    assert!(matches!(parse_line("   "), ParsedLine::Ignored));
    assert!(matches!(parse_line("  # a = b"), ParsedLine::Ignored));
    assert!(matches!(parse_line("no separator"), ParsedLine::Malformed));
    match parse_line("  key  =  some value ") {
        ParsedLine::Entry(k, v) => {
            assert_eq!(k, "key");
            assert_eq!(v, "some value");
        }
        _ => panic!("expected an entry"),
    }
    match parse_line("=") {
        ParsedLine::Entry(k, v) => {
            assert_eq!(k, "");
            assert_eq!(v, "");
        }
        _ => panic!("expected an entry"),
    }
}
