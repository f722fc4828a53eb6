use dosconf::msg::{split_to_lines, Messages};

#[test]
fn set_and_get() {
    let mut m = Messages::new();
    m.set(&String::from("HELLO"), &String::from("Hi there\n"));
    m.set(&String::from("BYE"), &String::from("So long\n"));
    assert_eq!(m.get(&String::from("HELLO")), Some(&String::from("Hi there\n")));
    assert_eq!(m.get(&String::from("BYE")), Some(&String::from("So long\n")));
    assert_eq!(m.get(&String::from("NOPE")), None);
}

#[test]
fn set_overwrites_in_place() {
    let mut m = Messages::new();
    m.set(&String::from("A"), &String::from("one\n"));
    m.set(&String::from("B"), &String::from("two\n"));
    m.set(&String::from("A"), &String::from("three\n"));
    assert_eq!(m.get(&String::from("A")), Some(&String::from("three\n")));
    assert_eq!(m.entries.len(), 2);
    assert_eq!(m.entries[0].0, "A");
}

#[test]
fn load_parses_the_delimited_format() {
    let mut m = Messages::new();
    m.load_text(":GREETING\nHello\nworld\n.\n:BYE\nlater\n.\n");
    assert_eq!(m.get(&String::from("GREETING")), Some(&String::from("Hello\nworld\n")));
    assert_eq!(m.get(&String::from("BYE")), Some(&String::from("later\n")));
}

#[test]
fn load_discards_an_unterminated_entry() {
    let mut m = Messages::new();
    m.load_text(":OPEN\ndangling text\n");
    assert_eq!(m.get(&String::from("OPEN")), None);
}

#[test]
fn load_commits_an_empty_body() {
    // `:K` directly followed by the bare `.` commits K with empty text
    let mut m = Messages::new();
    m.load_text(":K\n.\n");
    assert_eq!(m.get(&String::from("K")), Some(&String::from("")));
}

#[test]
fn load_appends_empty_body_lines() {
    // an empty line inside a block appends its newline
    let mut m = Messages::new();
    m.load_text(":A\nx\n\ny\n.\n");
    assert_eq!(m.get(&String::from("A")), Some(&String::from("x\n\ny\n")));
}

#[test]
fn load_takes_dot_prefixed_lines_as_body_text() {
    // only a line that is exactly `.` closes; `.x` is body text
    let mut m = Messages::new();
    m.load_text(":A\n.x\n.\n");
    assert_eq!(m.get(&String::from("A")), Some(&String::from(".x\n")));
}

#[test]
fn load_ignores_text_outside_any_entry() {
    // a bare `.` or body line with no entry open does nothing
    let mut m = Messages::new();
    m.load_text(".\nstray\n:B\ntext\n.\n");
    assert_eq!(m.entries.len(), 1);
    assert_eq!(m.get(&String::from("B")), Some(&String::from("text\n")));
}

#[test]
fn load_reopening_discards_an_unclosed_entry() {
    let mut m = Messages::new();
    m.load_text(":A\nx\n:B\ny\n.\n");
    assert_eq!(m.get(&String::from("A")), None);
    assert_eq!(m.get(&String::from("B")), Some(&String::from("y\n")));
}

#[test]
fn load_last_block_wins_for_a_repeated_name() {
    let mut m = Messages::new();
    m.load_text(":A\nfirst\n.\n:A\nsecond\n.\n");
    assert_eq!(m.entries.len(), 1);
    assert_eq!(m.get(&String::from("A")), Some(&String::from("second\n")));
}

#[test]
fn load_merges_into_existing_entries() {
    let mut m = Messages::new();
    m.set(&String::from("KEEP"), &String::from("kept\n"));
    m.set(&String::from("SWAP"), &String::from("old\n"));
    m.load_text(":SWAP\nnew\n.\n");
    assert_eq!(m.get(&String::from("KEEP")), Some(&String::from("kept\n")));
    assert_eq!(m.get(&String::from("SWAP")), Some(&String::from("new\n")));
}

#[test]
fn save_renders_each_entry() {
    let mut m = Messages::new();
    m.set(&String::from("A"), &String::from("one\n"));
    m.set(&String::from("B"), &String::from("two\nlines\n"));
    assert_eq!(m.save_text(), ":A\none\n.\n:B\ntwo\nlines\n.\n");
}

#[test]
fn save_then_load_is_identity_on_the_mapping() {
    let mut m = Messages::new();
    m.set(&String::from("ONE"), &String::from("first text\n"));
    m.set(&String::from("TWO"), &String::from("a\nb\nc\n"));
    m.set(&String::from("EMPTY"), &String::from(""));
    m.set(&String::from("GAPPY"), &String::from("x\n\ny\n"));
    m.set(&String::from("DOTTY"), &String::from(".dot\n"));
    let saved = m.save_text();
    let mut back = Messages::new();
    back.load_text(&saved);
    assert_eq!(back.entries.len(), 5);
    for (k, v) in &m.entries {
        assert_eq!(back.get(k), Some(v));
    }
    assert_eq!(back.entries[0].0, "ONE");
    assert_eq!(back.entries[1].0, "TWO");
    assert_eq!(back.entries[2].0, "EMPTY");
}

#[test]
fn split_to_lines_matches_the_format() {
    let got = split_to_lines("a\nbb\n\nc");
    assert_eq!(got, vec!["a", "bb", "", "c"]);
    let got2 = split_to_lines("a\n");
    assert_eq!(got2, vec!["a"]);
    let got3 = split_to_lines("");
    assert!(got3.is_empty());
}
