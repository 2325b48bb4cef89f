use rustic::instance::{load_instances, Instance, InstanceDir, InstanceError};
use rustic::mods::ModFile;

fn dir(folder: &str, record: Option<&str>) -> InstanceDir {
    InstanceDir {
        folder_name: folder.to_string(),
        record: record.map(|s| s.to_string()),
        mod_files: Vec::new(),
    }
}

#[test]
fn new_instance_is_bare() {
    let inst = Instance::new("Fresh");
    assert_eq!(inst.name, "Fresh");
    assert_eq!(inst.folder_name, "Fresh");
    assert_eq!(inst.icon, None);
    assert_eq!(inst.game_exe_path, None);
    assert_eq!(inst.mods_count(), 0);
}

#[test]
fn folder_name_is_sanitized() {
    let inst = Instance::new("My Mod Pack!");
    let folder = inst.folder_name_string();
    for c in folder.chars() {
        assert!(!matches!(c, '<' | '>' | ':' | '"' | '/' | '\\' | '|' | '?' | '*'));
        assert!(c as u32 > 0x1f);
    }
    assert_eq!(inst.name, "My Mod Pack!");

    let slashed = Instance::new("//foo/bar/file");
    assert_eq!(slashed.folder_name, "_foo_bar_file");
    assert_eq!(slashed.name, "//foo/bar/file");
}

#[test]
fn created_instance_loads_back_with_its_display_name() {
    let inst = Instance::new("My Mod Pack!");
    let listing = vec![dir(&inst.folder_name_string(), Some(&inst.record_text()))];
    let loaded = load_instances(&listing);
    assert_eq!(loaded.len(), 1);
    assert_eq!(loaded[0].name, "My Mod Pack!");
    assert_eq!(loaded[0].folder_name, inst.folder_name);
    assert_eq!(loaded[0].icon, None);
    assert_eq!(loaded[0].game_exe_path, None);
}

#[test]
fn load_takes_folder_name_from_the_directory() {
    let text = "name = \"Shown Name\"\nicon = \"i.png\"\ngame_exe_path = \"/bin/game\"\n";
    let inst = Instance::load("the_folder", Some(text), &Vec::new()).expect("must load");
    assert_eq!(inst.folder_name, "the_folder");
    assert_eq!(inst.name, "Shown Name");
    assert_eq!(inst.icon.as_deref(), Some("i.png"));
    assert_eq!(inst.game_exe_path.as_deref(), Some("/bin/game"));
    assert_eq!(inst.mods_count(), 0);
}

#[test]
fn load_distinguishes_missing_from_malformed() {
    let r = Instance::load("f", None, &Vec::new());
    assert!(matches!(r, Err(InstanceError::TomlMissing)));
    let r = Instance::load("f", Some("not a record"), &Vec::new());
    assert!(matches!(r, Err(InstanceError::TomlParseError)));
}

#[test]
fn load_scans_the_mods_folder() {
    let mut w = zip::ZipWriter::new(std::io::Cursor::new(Vec::new()));
    w.start_file("modinfo.json", zip::write::SimpleFileOptions::default())
        .expect("start_file");
    std::io::Write::write_all(&mut w, b"{ name: \"M\", version: \"1\" }").expect("write");
    let data = w.finish().expect("finish").into_inner();
    let files = vec![ModFile { name: "m.zip".to_string(), data }];
    let inst = Instance::load("f", Some("name = \"A\"\n"), &files).expect("must load");
    assert_eq!(inst.mods_count(), 1);
    assert_eq!(inst.mods[0].name, "M");
}

#[test]
fn load_all_keeps_the_valid_and_skips_the_invalid() {
    let listing = vec![
        dir("one", Some("name = \"One\"\n")),
        dir("missing", None),
        dir("broken", Some("name = oops\n")),
        dir("two", Some("name = \"Two\"\nicon = \"t.png\"\n")),
        dir("empty", Some("")),
    ];
    let loaded = load_instances(&listing);
    assert_eq!(loaded.len(), 2);
    assert_eq!(loaded[0].folder_name, "one");
    assert_eq!(loaded[0].name, "One");
    assert_eq!(loaded[1].folder_name, "two");
    assert_eq!(loaded[1].name, "Two");
    assert_eq!(loaded[1].icon.as_deref(), Some("t.png"));
}

#[test]
fn load_all_of_empty_listing_is_empty() {
    assert_eq!(load_instances(&Vec::new()).len(), 0);
}

#[test]
fn record_text_excludes_folder_and_mods() {
    let mut inst = Instance::new("Named!?");
    inst.icon = Some("x.png".to_string());
    let text = inst.record_text();
    assert_eq!(text, "name = \"Named!?\"\nicon = \"x.png\"\n");
}
