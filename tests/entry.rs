use rust_upload::entry::relative_entry_name;

fn parts(p: &[&str]) -> Vec<String> {
    p.iter().map(|s| s.to_string()).collect()
}

#[test]
fn entry_names_are_relative_to_root() {
    let root = parts(&["data", "root"]);
    assert_eq!(
        relative_entry_name(&root, &parts(&["data", "root", "a.txt"])),
        Some("a.txt".to_string())
    );
    assert_eq!(
        relative_entry_name(&root, &parts(&["data", "root", "sub", "b.txt"])),
        Some("sub/b.txt".to_string())
    );
}

#[test]
fn root_itself_has_empty_name() {
    let root = parts(&["data", "file.bin"]);
    assert_eq!(relative_entry_name(&root, &root), Some(String::new()));
}

#[test]
fn path_outside_root_has_no_name() {
    let root = parts(&["data", "root"]);
    assert_eq!(relative_entry_name(&root, &parts(&["data", "other", "a.txt"])), None);
    assert_eq!(relative_entry_name(&root, &parts(&["data"])), None);
}
