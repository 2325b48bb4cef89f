use rustic::mods::{load_mods, mod_info_from_archive, ModError, ModFile};
use rustic::relaxed_json::{parse_object, PairVal};

fn zip_with_entry(entry: &str, content: &str) -> Vec<u8> {
    let mut w = zip::ZipWriter::new(std::io::Cursor::new(Vec::new()));
    w.start_file(entry, zip::write::SimpleFileOptions::default())
        .expect("start_file");
    std::io::Write::write_all(&mut w, content.as_bytes()).expect("write entry");
    w.finish().expect("finish").into_inner()
}

fn modfile(name: &str, data: Vec<u8>) -> ModFile {
    ModFile { name: name.to_string(), data }
}

#[test]
fn well_formed_modinfo_is_read_in_full() {
    let json = "{ \"modid\": \"coolmod\", \"name\": \"Cool Mod\", \"description\": \"Does things\", \"version\": \"1.2.3\" }";
    let data = zip_with_entry("modinfo.json", json);
    let m = mod_info_from_archive("cool.zip", &data).expect("well-formed metadata");
    assert_eq!(m.zip_name, "cool.zip");
    assert_eq!(m.mod_id, "coolmod");
    assert_eq!(m.name, "Cool Mod");
    assert_eq!(m.description, "Does things");
    assert_eq!(m.version, "1.2.3");
}

#[test]
fn alias_spellings_fill_the_same_fields() {
    let upper = "{ \"ModID\": \"same\", \"Name\": \"N\", \"Description\": \"D\", \"Version\": \"2\" }";
    let lower = "{ \"modid\": \"same\", \"name\": \"N\", \"description\": \"D\", \"version\": \"2\" }";
    let camel = "{ modId: \"same\", name: \"N\", version: \"2\" }";
    let a = mod_info_from_archive("a.zip", &zip_with_entry("modinfo.json", upper)).expect("upper");
    let b = mod_info_from_archive("b.zip", &zip_with_entry("modinfo.json", lower)).expect("lower");
    let c = mod_info_from_archive("c.zip", &zip_with_entry("modinfo.json", camel)).expect("camel");
    assert_eq!(a.mod_id, b.mod_id);
    assert_eq!(a.mod_id, c.mod_id);
    assert_eq!(a.name, b.name);
    assert_eq!(a.description, b.description);
    assert_eq!(a.version, b.version);
}

#[test]
fn alias_priority_and_equal_keys_take_the_first() {
    let both_spellings = "{ ModID: \"upper\", modid: \"lower\", name: \"N\", version: \"1\" }";
    let m = mod_info_from_archive("p.zip", &zip_with_entry("modinfo.json", both_spellings))
        .expect("metadata with two spellings");
    assert_eq!(m.mod_id, "lower");

    let same_key_twice = "{ name: \"first\", name: \"second\", version: \"1\" }";
    let m = mod_info_from_archive("q.zip", &zip_with_entry("modinfo.json", same_key_twice))
        .expect("metadata with a repeated key");
    assert_eq!(m.name, "first");
}

#[test]
fn relaxed_syntax_is_tolerated() {
    let json = "// header\n{\n  // the id\n  modid: 'relaxed',\n  name: 'Relaxed', /* block\n comment */\n  version: '0.1',\n  authors: [\"a\", \"b\",],\n  dependencies: { game: \"1.0\", },\n  worldConfig: { stuff: [1, 2e3, 0x1A, true, null,], },\n}\n";
    let data = zip_with_entry("modinfo.json", json);
    let m = mod_info_from_archive("relaxed.zip", &data).expect("relaxed metadata");
    assert_eq!(m.mod_id, "relaxed");
    assert_eq!(m.name, "Relaxed");
    assert_eq!(m.version, "0.1");
    assert_eq!(m.description, "");
}

#[test]
fn archive_without_entry_yields_empty_record() {
    let data = zip_with_entry("something_else.txt", "hello");
    let m = mod_info_from_archive("bare.zip", &data).expect("fail-soft record");
    assert_eq!(m.zip_name, "bare.zip");
    assert_eq!(m.mod_id, "");
    assert_eq!(m.name, "");
    assert_eq!(m.description, "");
    assert_eq!(m.version, "");
}

#[test]
fn non_archive_yields_empty_record() {
    let m = mod_info_from_archive("note.txt", &b"just text, no zip".to_vec())
        .expect("fail-soft record");
    assert_eq!(m.zip_name, "note.txt");
    assert_eq!(m.name, "");
}

#[test]
fn malformed_metadata_is_an_error() {
    let missing_name = "{ \"modid\": \"x\", \"version\": \"1\" }";
    let r = mod_info_from_archive("m.zip", &zip_with_entry("modinfo.json", missing_name));
    assert!(matches!(r, Err(ModError::InfoParseError)));

    let bad_syntax = "{ name: \"x\", version: ";
    let r = mod_info_from_archive("m.zip", &zip_with_entry("modinfo.json", bad_syntax));
    assert!(matches!(r, Err(ModError::InfoParseError)));

    let wrong_type = "{ name: \"x\", version: 1.0 }";
    let r = mod_info_from_archive("m.zip", &zip_with_entry("modinfo.json", wrong_type));
    assert!(matches!(r, Err(ModError::InfoParseError)));
}

#[test]
fn unreadable_entry_is_a_zip_parse_error() {
    let mut w = zip::ZipWriter::new(std::io::Cursor::new(Vec::new()));
    w.start_file("modinfo.json", zip::write::SimpleFileOptions::default())
        .expect("start_file");
    std::io::Write::write_all(&mut w, &[0xff, 0xfe, 0x80, 0x00]).expect("write entry");
    let data = w.finish().expect("finish").into_inner();
    let r = mod_info_from_archive("bad.zip", &data);
    assert!(matches!(r, Err(ModError::ZipParseError)));
}

#[test]
fn scan_skips_bad_metadata_and_keeps_the_rest() {
    let good = "{ name: \"Good\", version: \"1\" }";
    let bad = "{ name: 7, version: \"1\" }";
    let files = vec![
        modfile("good.zip", zip_with_entry("modinfo.json", good)),
        modfile("bad.zip", zip_with_entry("modinfo.json", bad)),
        modfile("plain.zip", zip_with_entry("readme.txt", "hi")),
        modfile("not_a_zip.bin", vec![1, 2, 3]),
    ];
    let mods = load_mods(&files);
    assert_eq!(mods.len(), 3);
    assert_eq!(mods[0].zip_name, "good.zip");
    assert_eq!(mods[0].name, "Good");
    assert_eq!(mods[1].zip_name, "plain.zip");
    assert_eq!(mods[1].name, "");
    assert_eq!(mods[2].zip_name, "not_a_zip.bin");
    assert_eq!(mods[2].name, "");
}

#[test]
fn scan_of_nothing_is_empty() {
    let mods = load_mods(&Vec::new());
    assert_eq!(mods.len(), 0);
}

#[test]
fn parser_reports_members_in_order() {
    let chars: Vec<char> = "{ a: '1', b: [true, {c: 2}], d: \"x\\u0041\" }".chars().collect();
    let pairs = parse_object(&chars).expect("object must parse");
    assert_eq!(pairs.len(), 3);
    assert_eq!(pairs[0].key, "a");
    assert!(matches!(&pairs[0].val, PairVal::Text(s) if s == "1"));
    assert_eq!(pairs[1].key, "b");
    assert!(matches!(pairs[1].val, PairVal::Other));
    assert_eq!(pairs[2].key, "d");
    assert!(matches!(&pairs[2].val, PairVal::Text(s) if s == "xA"));
}

#[test]
fn parser_rejects_trailing_garbage_and_unterminated_comments() {
    let chars: Vec<char> = "{ a: '1' } extra".chars().collect();
    assert!(parse_object(&chars).is_none());
    let chars: Vec<char> = "{ a: '1' /* open".chars().collect();
    assert!(parse_object(&chars).is_none());
}
