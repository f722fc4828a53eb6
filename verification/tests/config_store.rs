use dosconf::schema::{DocBounds, DocProperty, DocScalar, DocSection, DocValues, SchemaDoc,
    SchemaError, ValueList};
use dosconf::store::{Config, SectionKind};
use dosconf::value::{Changeable, PropertyValue, SetError, Tag};

fn prop(name: &str, ptype: &str, default: DocScalar) -> DocProperty {
    DocProperty {
        name: String::from(name),
        ptype: String::from(ptype),
        default,
        changeable: None,
        values: DocValues::Absent,
        bounds: DocBounds::Absent,
        help: Some(String::from("help text")),
    }
}

fn demo_doc() -> SchemaDoc {
    let mut cycles = prop("cycles", "int", DocScalar::Int(3000));
    cycles.bounds = DocBounds::MinMax(1, 100000);
    let mut core = prop("core", "bool", DocScalar::Flag(false));
    core.changeable = Some(String::from("only_at_start"));
    let mut title = prop("title", "string", DocScalar::Text(String::from("untitled")));
    title.values = DocValues::Named(String::from("titles"));
    let speed = prop("speed", "double", DocScalar::Text(String::from("1.0")));
    let base = prop("base", "hex", DocScalar::Text(String::from("0x220")));
    let dir = prop("dir", "path", DocScalar::Text(String::from("/tmp/x")));
    let rate = prop("rate", "int", DocScalar::Int(44100));
    let unset = prop("unset", "string", DocScalar::Absent);
    SchemaDoc {
        sections: vec![
            DocSection {
                name: String::from("cpu"),
                stype: String::from("property"),
                properties: vec![cycles, core, title, speed, base, dir, unset],
            },
            DocSection {
                name: String::from("sound"),
                stype: String::from("property"),
                properties: vec![rate],
            },
            DocSection {
                name: String::from("autoexec"),
                stype: String::from("line"),
                properties: vec![],
            },
        ],
        value_lists: vec![ValueList {
            name: String::from("titles"),
            items: vec![String::from("untitled"), String::from("named")],
        }],
    }
}

fn demo_config() -> Config {
    Config::from_schema(&demo_doc()).expect("demo schema loads")
}

#[test]
fn schema_builds_sections_in_order() {
    let c = demo_config();
    assert_eq!(c.sections.len(), 3);
    assert_eq!(c.sections[0].name, "cpu");
    assert_eq!(c.sections[1].name, "sound");
    assert_eq!(c.sections[2].name, "autoexec");
    assert!(matches!(c.sections[2].kind, SectionKind::Lines));
    assert!(c.sections[2].lines.is_empty());
}

#[test]
fn schema_defaults_become_current_values() {
    let c = demo_config();
    match c.find("cpu", "cycles") {
        Some(PropertyValue::Int(v)) => assert_eq!(*v, 3000),
        other => panic!("unexpected: {:?}", other),
    }
    match c.find("cpu", "core") {
        Some(PropertyValue::Bool(b)) => assert!(!b),
        other => panic!("unexpected: {:?}", other),
    }
    match c.find("cpu", "speed") {
        Some(PropertyValue::Double(t)) => assert_eq!(t, "1.0"),
        other => panic!("unexpected: {:?}", other),
    }
    match c.find("cpu", "base") {
        Some(PropertyValue::Hex(t)) => assert_eq!(t, "0x220"),
        other => panic!("unexpected: {:?}", other),
    }
    match c.find("cpu", "dir") {
        Some(PropertyValue::Path(t)) => assert_eq!(t, "/tmp/x"),
        other => panic!("unexpected: {:?}", other),
    }
    match c.find("cpu", "unset") {
        Some(PropertyValue::Null) => {}
        other => panic!("unexpected: {:?}", other),
    }
}

#[test]
fn schema_resolves_named_value_list() {
    let c = demo_config();
    let p = &c.sections[0].properties[2];
    assert_eq!(p.name, "title");
    assert_eq!(p.allowed_values, vec!["untitled", "named"]);
}

#[test]
fn schema_changeable_parsed_with_lenient_default() {
    let c = demo_config();
    assert_eq!(c.get_changeable("cpu", "core"), Some(Changeable::OnlyAtStart));
    assert_eq!(c.get_changeable("cpu", "cycles"), Some(Changeable::Always));
    assert_eq!(c.get_changeable("cpu", "missing"), None);
}

#[test]
fn schema_rejects_unknown_section_type() {
    let mut doc = demo_doc();
    doc.sections[0].stype = String::from("weird");
    assert_eq!(Config::from_schema(&doc).err(), Some(SchemaError::UnknownSectionType));
}

#[test]
fn schema_rejects_unknown_property_type() {
    let mut doc = demo_doc();
    doc.sections[0].properties[0].ptype = String::from("float");
    assert_eq!(Config::from_schema(&doc).err(), Some(SchemaError::UnknownPropertyType));
}

#[test]
fn schema_rejects_missing_help() {
    let mut doc = demo_doc();
    doc.sections[0].properties[0].help = None;
    assert_eq!(Config::from_schema(&doc).err(), Some(SchemaError::MissingHelp));
}

#[test]
fn schema_rejects_mistyped_default() {
    let mut doc = demo_doc();
    doc.sections[0].properties[0].default = DocScalar::Text(String::from("fast"));
    assert_eq!(Config::from_schema(&doc).err(), Some(SchemaError::BadDefault));
}

#[test]
fn schema_rejects_bad_double_default() {
    let mut doc = demo_doc();
    doc.sections[0].properties[3].default = DocScalar::Text(String::from("quick"));
    assert_eq!(Config::from_schema(&doc).err(), Some(SchemaError::BadDefault));
}

#[test]
fn schema_rejects_bad_bounds_array() {
    let mut doc = demo_doc();
    doc.sections[0].properties[0].bounds = DocBounds::Pair(vec![1, 2, 3]);
    assert_eq!(Config::from_schema(&doc).err(), Some(SchemaError::BadBounds));
}

#[test]
fn schema_accepts_two_element_bounds_array() {
    let mut doc = demo_doc();
    doc.sections[0].properties[0].bounds = DocBounds::Pair(vec![10, 20]);
    let c = Config::from_schema(&doc).expect("loads");
    let p = &c.sections[0].properties[0];
    assert_eq!((p.min, p.max), (10, 20));
}

#[test]
fn schema_rejects_unknown_value_list() {
    let mut doc = demo_doc();
    doc.sections[0].properties[2].values = DocValues::Named(String::from("nowhere"));
    assert_eq!(Config::from_schema(&doc).err(), Some(SchemaError::UnknownValueList));
}

#[test]
fn schema_rejects_duplicate_property_name() {
    let mut doc = demo_doc();
    let dup = prop("cycles", "int", DocScalar::Int(1));
    doc.sections[0].properties.push(dup);
    assert_eq!(Config::from_schema(&doc).err(), Some(SchemaError::DuplicateName));
}

#[test]
fn schema_rejects_duplicate_section_name() {
    let mut doc = demo_doc();
    doc.sections[1].name = String::from("cpu");
    assert_eq!(Config::from_schema(&doc).err(), Some(SchemaError::DuplicateName));
}

#[test]
fn set_value_keeps_tags() {
    let mut c = demo_config();
    c.set_value("cpu", "cycles", "77").unwrap();
    match c.find("cpu", "cycles") {
        Some(PropertyValue::Int(v)) => assert_eq!(*v, 77),
        other => panic!("unexpected: {:?}", other),
    }
    c.set_value("cpu", "title", "12345").unwrap();
    match c.find("cpu", "title") {
        Some(PropertyValue::Str(t)) => assert_eq!(t, "12345"),
        other => panic!("unexpected: {:?}", other),
    }
    // the tag method itself
    assert_eq!(c.find("cpu", "title").unwrap().tag(), Tag::Str);
    assert_eq!(c.find("cpu", "cycles").unwrap().tag(), Tag::Int);
}

#[test]
fn set_value_on_null_is_a_no_op() {
    let mut c = demo_config();
    c.set_value("cpu", "unset", "anything").unwrap();
    assert!(matches!(c.find("cpu", "unset"), Some(PropertyValue::Null)));
}

#[test]
fn set_value_unknown_property_fails_and_store_unchanged() {
    let mut c = demo_config();
    assert_eq!(c.set_value("cpu", "bogus", "1"), Err(SetError::UnknownProperty));
    assert_eq!(c.set_value("nowhere", "cycles", "1"), Err(SetError::UnknownProperty));
    assert_eq!(c.set_value("autoexec", "cycles", "1"), Err(SetError::UnknownProperty));
    match c.find("cpu", "cycles") {
        Some(PropertyValue::Int(v)) => assert_eq!(*v, 3000),
        other => panic!("unexpected: {:?}", other),
    }
}

#[test]
fn set_value_bad_int_keeps_prior_value() {
    let mut c = demo_config();
    assert_eq!(c.set_value("cpu", "cycles", "fast"), Err(SetError::BadInt));
    assert_eq!(c.set_value("cpu", "cycles", ""), Err(SetError::BadInt));
    assert_eq!(c.set_value("cpu", "cycles", "9223372036854775808"), Err(SetError::BadInt));
    match c.find("cpu", "cycles") {
        Some(PropertyValue::Int(v)) => assert_eq!(*v, 3000),
        other => panic!("unexpected: {:?}", other),
    }
}

#[test]
fn set_value_int_accepts_extremes() {
    let mut c = demo_config();
    c.set_value("cpu", "cycles", "-9223372036854775808").unwrap();
    match c.find("cpu", "cycles") {
        Some(PropertyValue::Int(v)) => assert_eq!(*v, i64::MIN),
        other => panic!("unexpected: {:?}", other),
    }
    c.set_value("cpu", "cycles", "+9223372036854775807").unwrap();
    match c.find("cpu", "cycles") {
        Some(PropertyValue::Int(v)) => assert_eq!(*v, i64::MAX),
        other => panic!("unexpected: {:?}", other),
    }
}

#[test]
fn set_value_bad_double_reported() {
    let mut c = demo_config();
    assert_eq!(c.set_value("cpu", "speed", "quick"), Err(SetError::BadDouble));
    assert_eq!(c.set_value("cpu", "speed", "1.2.3"), Err(SetError::BadDouble));
    assert_eq!(c.set_value("cpu", "speed", "1e"), Err(SetError::BadDouble));
    c.set_value("cpu", "speed", "-2.5E-3").unwrap();
    match c.find("cpu", "speed") {
        Some(PropertyValue::Double(t)) => assert_eq!(t, "-2.5E-3"),
        other => panic!("unexpected: {:?}", other),
    }
}

#[test]
fn bool_coercion_is_leniently_false() {
    // `true` and only `true` reads as true; anything else is false
    let mut c = demo_config();
    c.set_value("cpu", "core", "true").unwrap();
    assert!(matches!(c.find("cpu", "core"), Some(PropertyValue::Bool(true))));
    c.set_value("cpu", "core", "yes").unwrap();
    assert!(matches!(c.find("cpu", "core"), Some(PropertyValue::Bool(false))));
    c.set_value("cpu", "core", "True").unwrap();
    assert!(matches!(c.find("cpu", "core"), Some(PropertyValue::Bool(false))));
}

#[test]
fn out_of_range_int_accepted_but_flagged() {
    // chosen policy: the store accepts the write; a separate query
    // reports the advisory verdict
    let mut c = demo_config();
    assert_eq!(c.set_value("cpu", "cycles", "99999999"), Ok(()));
    match c.find("cpu", "cycles") {
        Some(PropertyValue::Int(v)) => assert_eq!(*v, 99999999),
        other => panic!("unexpected: {:?}", other),
    }
    assert_eq!(c.check_range("cpu", "cycles"), Some(false));
    c.set_value("cpu", "cycles", "500").unwrap();
    assert_eq!(c.check_range("cpu", "cycles"), Some(true));
    // unconstrained bounds are always in range
    c.set_value("sound", "rate", "999999999").unwrap();
    assert_eq!(c.check_range("sound", "rate"), Some(true));
    // non-integer properties are always in range
    assert_eq!(c.check_range("cpu", "title"), Some(true));
    assert_eq!(c.check_range("cpu", "nope"), None);
}

#[test]
fn append_line_only_reaches_lines_sections() {
    let mut c = demo_config();
    assert!(c.append_line("autoexec", "mount c /data"));
    assert!(c.append_line("autoexec", "c:"));
    assert!(!c.append_line("cpu", "stray"));
    assert!(!c.append_line("nowhere", "stray"));
    assert_eq!(c.sections[2].lines, vec!["mount c /data", "c:"]);
}

#[test]
fn find_absent_is_none() {
    let c = demo_config();
    assert!(c.find("cpu", "bogus").is_none());
    assert!(c.find("nowhere", "cycles").is_none());
    assert!(c.find("autoexec", "anything").is_none());
}
