use rustic::record::{parse_record, render_record, RecordFields};

fn fields(name: &str, icon: Option<&str>, exe: Option<&str>) -> RecordFields {
    RecordFields {
        name: name.to_string(),
        icon: icon.map(|s| s.to_string()),
        game_exe_path: exe.map(|s| s.to_string()),
    }
}

#[test]
fn round_trip_name_only() {
    let text = render_record(&fields("Alpha", None, None));
    let back = parse_record(&text).expect("rendered record must parse");
    assert_eq!(back.name, "Alpha");
    assert_eq!(back.icon, None);
    assert_eq!(back.game_exe_path, None);
}

#[test]
fn round_trip_all_fields() {
    let text = render_record(&fields("My Pack", Some("star.png"), Some("/games/run.exe")));
    let back = parse_record(&text).expect("rendered record must parse");
    assert_eq!(back.name, "My Pack");
    assert_eq!(back.icon.as_deref(), Some("star.png"));
    assert_eq!(back.game_exe_path.as_deref(), Some("/games/run.exe"));
}

#[test]
fn round_trip_special_characters() {
    let tricky = "a \"quoted\" name\\with\nnewline\tand tab";
    let text = render_record(&fields(tricky, Some("ic\"on.png"), None));
    let back = parse_record(&text).expect("rendered record must parse");
    assert_eq!(back.name, tricky);
    assert_eq!(back.icon.as_deref(), Some("ic\"on.png"));
}

#[test]
fn rendered_text_shape() {
    let text = render_record(&fields("Alpha", Some("a.png"), None));
    assert_eq!(text, "name = \"Alpha\"\nicon = \"a.png\"\n");
}

#[test]
fn parse_tolerates_comments_blank_lines_and_unknown_keys() {
    let text = "# a comment\n\nname = \"Beta\" # trailing comment\nother_key = 42\nicon = \"b.png\"\n";
    let back = parse_record(text).expect("record with extras must parse");
    assert_eq!(back.name, "Beta");
    assert_eq!(back.icon.as_deref(), Some("b.png"));
    assert_eq!(back.game_exe_path, None);
}

#[test]
fn parse_understands_escapes() {
    let text = "name = \"tab\\there \\\"q\\\" back\\\\slash\\nnl\"\n";
    let back = parse_record(text).expect("escaped record must parse");
    assert_eq!(back.name, "tab\there \"q\" back\\slash\nnl");
}

#[test]
fn parse_rejects_missing_name() {
    assert!(parse_record("icon = \"a.png\"\n").is_none());
    assert!(parse_record("").is_none());
}

#[test]
fn parse_rejects_duplicate_known_key() {
    assert!(parse_record("name = \"a\"\nname = \"b\"\n").is_none());
}

#[test]
fn parse_rejects_malformed_lines() {
    assert!(parse_record("name = unquoted\n").is_none());
    assert!(parse_record("name = \"unterminated\n").is_none());
    assert!(parse_record("name \"no equals\"\n").is_none());
    assert!(parse_record("name = \"a\" garbage\n").is_none());
}
