use dosconf::context::{Context, Setup};
use dosconf::schema::{DocBounds, DocProperty, DocScalar, DocSection, DocValues, SchemaDoc,
    SchemaError};
use dosconf::value::PropertyValue;

fn ctx_prop(name: &str, ptype: &str, default: DocScalar) -> DocProperty {
    DocProperty {
        name: String::from(name),
        ptype: String::from(ptype),
        default,
        changeable: None,
        values: DocValues::Absent,
        bounds: DocBounds::Absent,
        help: Some(String::from("help text")),
    }
}

fn ctx_doc() -> SchemaDoc {
    SchemaDoc {
        sections: vec![DocSection {
            name: String::from("cpu"),
            stype: String::from("property"),
            properties: vec![ctx_prop("cycles", "int", DocScalar::Int(3000))],
        }],
        value_lists: vec![],
    }
}

#[test]
fn context_builds_from_a_schema() {
    let c = Context::new(&ctx_doc()).expect("schema loads");
    assert!(matches!(c.config.find("cpu", "cycles"), Some(PropertyValue::Int(3000))));
}

#[test]
fn context_refuses_a_bad_schema() {
    let mut doc = ctx_doc();
    doc.sections[0].stype = String::from("weird");
    assert!(Context::new(&doc).is_none());
}

#[test]
fn context_loads_config_and_language() {
    let mut c = Context::new(&ctx_doc()).expect("schema loads");
    let diags = c.load_config(&vec![String::from("[cpu]"), String::from("cycles=9")]);
    assert!(diags.is_empty());
    assert!(matches!(c.config.find("cpu", "cycles"), Some(PropertyValue::Int(9))));
    c.load_language(":HI\nhello\n.\n");
    assert_eq!(c.msg_get(&String::from("HI")), Some(&String::from("hello\n")));
    assert_eq!(c.msg_get(&String::from("NO")), None);
    assert_eq!(c.save_language(), ":HI\nhello\n.\n");
}

#[test]
fn parse_args_applies_selected_files_and_renders_the_table() {
    let mut c = Context::new(&ctx_doc()).expect("schema loads");
    let conf = vec![String::from("[cpu]"), String::from("cycles=12")];
    let (diags, saved) = c.parse_args(Some(&conf), Some(":HI\nhello\n.\n"));
    assert!(diags.is_empty());
    assert!(matches!(c.config.find("cpu", "cycles"), Some(PropertyValue::Int(12))));
    assert_eq!(saved, ":HI\nhello\n.\n");
}

#[test]
fn parse_args_without_selections_changes_nothing() {
    let mut c = Context::new(&ctx_doc()).expect("schema loads");
    let (diags, saved) = c.parse_args(None, None);
    assert!(diags.is_empty());
    assert_eq!(saved, "");
    assert!(matches!(c.config.find("cpu", "cycles"), Some(PropertyValue::Int(3000))));
}

#[test]
fn setup_builds_or_reports_the_schema_error() {
    let s = Setup::new(&ctx_doc()).expect("schema loads");
    assert!(matches!(s.config.find("cpu", "cycles"), Some(PropertyValue::Int(3000))));
    let mut doc = ctx_doc();
    doc.sections[0].properties[0].help = None;
    assert_eq!(Setup::new(&doc).err(), Some(SchemaError::MissingHelp));
}
