use dosconf::parser::{parse_lines, LineDiag, Parser};
use dosconf::schema::{DocBounds, DocProperty, DocScalar, DocSection, DocValues, SchemaDoc};
use dosconf::store::Config;
use dosconf::value::PropertyValue;

fn parser_prop(name: &str, ptype: &str, default: DocScalar) -> DocProperty {
    DocProperty {
        name: String::from(name),
        ptype: String::from(ptype),
        default,
        changeable: None,
        values: DocValues::Absent,
        bounds: DocBounds::Absent,
        help: Some(String::from("help text")),
    }
}

fn parser_config() -> Config {
    let doc = SchemaDoc {
        sections: vec![
            DocSection {
                name: String::from("cpu"),
                stype: String::from("property"),
                properties: vec![
                    parser_prop("cycles", "int", DocScalar::Int(3000)),
                    parser_prop("core", "bool", DocScalar::Flag(false)),
                    parser_prop("title", "string", DocScalar::Text(String::from("untitled"))),
                    parser_prop("speed", "double", DocScalar::Text(String::from("1.0"))),
                ],
            },
            DocSection {
                name: String::from("sound"),
                stype: String::from("property"),
                properties: vec![parser_prop("rate", "int", DocScalar::Int(22050))],
            },
            DocSection {
                name: String::from("autoexec"),
                stype: String::from("line"),
                properties: vec![],
            },
        ],
        value_lists: vec![],
    };
    Config::from_schema(&doc).expect("schema loads")
}

fn lines(v: &[&str]) -> Vec<String> {
    v.iter().map(|s| String::from(*s)).collect()
}

fn int_of(c: &Config, sec: &str, key: &str) -> i64 {
    match c.find(sec, key) {
        Some(PropertyValue::Int(v)) => *v,
        other => panic!("unexpected: {:?}", other),
    }
}

#[test]
fn unknown_property_never_aborts_the_parse() {
    // a later line still lands even after an unknown key
    let mut c = parser_config();
    let diags = parse_lines(&mut c, &lines(&["[sound]", "bogus=1", "[sound]", "rate=44100"]));
    assert_eq!(int_of(&c, "sound", "rate"), 44100);
    assert!(c.find("sound", "bogus").is_none());
    assert_eq!(diags, vec![LineDiag::UnknownProperty]);
}

#[test]
fn header_sets_current_section() {
    let mut c = parser_config();
    let mut p = Parser::new();
    assert_eq!(p.feed_line(&mut c, "[cpu]"), None);
    assert_eq!(p.current_section, "cpu");
    assert_eq!(p.feed_line(&mut c, "cycles=7"), None);
    assert_eq!(int_of(&c, "cpu", "cycles"), 7);
}

#[test]
fn malformed_header_keeps_current_section() {
    let mut c = parser_config();
    let mut p = Parser::new();
    assert_eq!(p.feed_line(&mut c, "[cpu]"), None);
    assert_eq!(p.feed_line(&mut c, "[sound"), Some(LineDiag::MalformedHeader));
    assert_eq!(p.current_section, "cpu");
    // the assignment still lands in cpu
    assert_eq!(p.feed_line(&mut c, "cycles=9"), None);
    assert_eq!(int_of(&c, "cpu", "cycles"), 9);
}

#[test]
fn header_takes_text_up_to_first_bracket() {
    let mut c = parser_config();
    let mut p = Parser::new();
    assert_eq!(p.feed_line(&mut c, "[cpu] trailing words"), None);
    assert_eq!(p.current_section, "cpu");
}

#[test]
fn comments_and_blanks_are_ignored() {
    let mut c = parser_config();
    let diags = parse_lines(
        &mut c,
        &lines(&["% remark", "# remark", " indented", "", "[cpu]", "cycles=5"]),
    );
    assert!(diags.is_empty());
    assert_eq!(int_of(&c, "cpu", "cycles"), 5);
}

#[test]
fn line_without_equals_is_malformed() {
    let mut c = parser_config();
    let diags = parse_lines(&mut c, &lines(&["[cpu]", "cycles"]));
    assert_eq!(diags, vec![LineDiag::MalformedAssignment]);
}

#[test]
fn line_with_two_equals_is_malformed() {
    let mut c = parser_config();
    let diags = parse_lines(&mut c, &lines(&["[cpu]", "cycles=1=2"]));
    assert_eq!(diags, vec![LineDiag::MalformedAssignment]);
    assert_eq!(int_of(&c, "cpu", "cycles"), 3000);
}

#[test]
fn assignment_before_any_header_is_unknown() {
    let mut c = parser_config();
    let diags = parse_lines(&mut c, &lines(&["cycles=5"]));
    assert_eq!(diags, vec![LineDiag::UnknownProperty]);
}

#[test]
fn whitespace_is_preserved_not_trimmed() {
    // the split keeps source text exactly: a spaced key is unknown,
    // and a spaced value is stored verbatim
    let mut c = parser_config();
    let diags = parse_lines(&mut c, &lines(&["[cpu]", "cycles =5", "title= hi"]));
    assert_eq!(diags, vec![LineDiag::UnknownProperty]);
    match c.find("cpu", "title") {
        Some(PropertyValue::Str(t)) => assert_eq!(t, " hi"),
        other => panic!("unexpected: {:?}", other),
    }
}

#[test]
fn bad_numeric_values_are_diagnosed_per_line() {
    let mut c = parser_config();
    let diags = parse_lines(&mut c, &lines(&["[cpu]", "cycles=fast", "cycles=250"]));
    assert_eq!(diags, vec![LineDiag::BadInt]);
    assert_eq!(int_of(&c, "cpu", "cycles"), 250);
}

#[test]
fn bad_double_line_is_diagnosed() {
    let mut c = parser_config();
    let diags = parse_lines(&mut c, &lines(&["[cpu]", "speed=quick", "speed=2.5"]));
    assert_eq!(diags, vec![LineDiag::BadDouble]);
    match c.find("cpu", "speed") {
        Some(PropertyValue::Double(t)) => assert_eq!(t, "2.5"),
        other => panic!("unexpected: {:?}", other),
    }
}

#[test]
fn bool_lines_coerce_leniently() {
    let mut c = parser_config();
    parse_lines(&mut c, &lines(&["[cpu]", "core=true"]));
    assert!(matches!(c.find("cpu", "core"), Some(PropertyValue::Bool(true))));
    parse_lines(&mut c, &lines(&["[cpu]", "core=yes"]));
    assert!(matches!(c.find("cpu", "core"), Some(PropertyValue::Bool(false))));
}

#[test]
fn lines_sections_take_content_verbatim() {
    let mut c = parser_config();
    let diags = parse_lines(
        &mut c,
        &lines(&["[autoexec]", "mount c /data", "echo a=b=c", "# skipped", "c:"]),
    );
    assert!(diags.is_empty());
    assert_eq!(c.sections[2].lines, vec!["mount c /data", "echo a=b=c", "c:"]);
}

#[test]
fn last_write_wins_per_key() {
    let mut c = parser_config();
    parse_lines(&mut c, &lines(&["[cpu]", "cycles=1", "cycles=2", "cycles=3"]));
    assert_eq!(int_of(&c, "cpu", "cycles"), 3);
}

#[test]
fn parsing_twice_equals_parsing_once() {
    let file = [
        "[cpu]",
        "cycles=42",
        "core=true",
        "title=hello",
        "% comment",
        "[sound]",
        "rate=8000",
        "bogus=9",
    ];
    let mut once = parser_config();
    let d1 = parse_lines(&mut once, &lines(&file));
    let mut twice = parser_config();
    parse_lines(&mut twice, &lines(&file));
    let d2 = parse_lines(&mut twice, &lines(&file));
    assert_eq!(d1, d2);
    for (sec, key) in [("cpu", "cycles"), ("cpu", "core"), ("cpu", "title"), ("sound", "rate")] {
        let a = format!("{:?}", once.find(sec, key));
        let b = format!("{:?}", twice.find(sec, key));
        assert_eq!(a, b);
    }
}

#[test]
fn reparsing_after_other_writes_reapplies_the_file() {
    let mut c = parser_config();
    parse_lines(&mut c, &lines(&["[cpu]", "cycles=42"]));
    c.set_value("cpu", "cycles", "7").unwrap();
    parse_lines(&mut c, &lines(&["[cpu]", "cycles=42"]));
    assert_eq!(int_of(&c, "cpu", "cycles"), 42);
}

#[test]
fn empty_brackets_name_an_empty_section() {
    let mut c = parser_config();
    let mut p = Parser::new();
    assert_eq!(p.feed_line(&mut c, "[]"), None);
    assert_eq!(p.current_section, "");
    assert_eq!(p.feed_line(&mut c, "cycles=5"), Some(LineDiag::UnknownProperty));
}

#[test]
fn header_inside_lines_section_switches_out() {
    let mut c = parser_config();
    let diags = parse_lines(
        &mut c,
        &lines(&["[autoexec]", "mount c /data", "[cpu]", "cycles=64"]),
    );
    assert!(diags.is_empty());
    assert_eq!(c.sections[2].lines, vec!["mount c /data"]);
    assert_eq!(int_of(&c, "cpu", "cycles"), 64);
}

#[test]
fn diagnostics_come_in_line_order() {
    let mut c = parser_config();
    let diags = parse_lines(
        &mut c,
        &lines(&["[cpu", "noequals", "[cpu]", "bogus=1", "cycles=zz"]),
    );
    assert_eq!(
        diags,
        vec![
            LineDiag::MalformedHeader,
            LineDiag::MalformedAssignment,
            LineDiag::UnknownProperty,
            LineDiag::BadInt,
        ]
    );
}
