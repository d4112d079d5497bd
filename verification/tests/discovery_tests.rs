use revolver_extract::discovery::{cstr_prefix_text, process_by_name, ProcessEntry};

fn entry(name: &str, pid: u32) -> ProcessEntry {
    ProcessEntry { name: name.to_string(), pid }
}

#[test]
fn name_field_stops_at_first_nul() {
    let raw = b"Revolver Office.exe\0\0\0\0";
    assert_eq!(cstr_prefix_text(raw).unwrap(), "Revolver Office.exe");
}

#[test]
fn name_field_without_nul_is_taken_whole() {
    assert_eq!(cstr_prefix_text(b"abc").unwrap(), "abc");
}

#[test]
fn empty_name_field() {
    assert_eq!(cstr_prefix_text(b"\0junk").unwrap(), "");
}

#[test]
fn name_field_that_is_not_text() {
    assert!(cstr_prefix_text(&[0xff, 0xfe, 0x00]).is_none());
}

#[test]
fn first_matching_process_wins() {
    let entries = vec![
        entry("init", 1),
        entry("Revolver Office.exe", 7),
        entry("Revolver Office.exe", 9),
    ];
    assert_eq!(process_by_name(&entries, "Revolver Office.exe"), Some(7));
}

#[test]
fn absent_process_is_not_found() {
    let entries = vec![entry("init", 1), entry("shell", 2)];
    assert_eq!(process_by_name(&entries, "Revolver Office.exe"), None);
}
