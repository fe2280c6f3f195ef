use lunar::paths::{has_exe_extension, is_executable_file};
use lunar::registry::{is_listed_entry, launch_path_for, normalize_entries, RegistryEntry};

fn entry(name: &str) -> RegistryEntry {
    RegistryEntry {
        name: name.to_string(),
        icon_source: None,
        icon_index: None,
        launch_path: None,
        install_date: None,
        install_location: None,
    }
}

fn names(v: &[RegistryEntry]) -> Vec<&str> {
    v.iter().map(|e| e.name.as_str()).collect()
}

#[test]
fn listed_entries_exclude_updates_and_components() {
    assert!(is_listed_entry("Mozilla Firefox", 0));
    assert!(!is_listed_entry("   ", 0));
    assert!(!is_listed_entry("", 0));
    assert!(!is_listed_entry("Tool", 1));
    assert!(is_listed_entry("Tool", 2));
    assert!(!is_listed_entry("Security Update for Windows (KB1)", 0));
    assert!(!is_listed_entry("Update for Microsoft Office", 0));
    assert!(!is_listed_entry("Hotfix 3", 0));
    assert!(!is_listed_entry("Office Service Pack 2", 0));
    assert!(is_listed_entry("security update", 0));
}

#[test]
fn exe_extension_of_last_component() {
    assert!(has_exe_extension(r"C:\Apps\app.exe"));
    assert!(has_exe_extension(r"C:\Apps\APP.EXE"));
    assert!(has_exe_extension("C:/Apps/x.y.Exe"));
    assert!(!has_exe_extension(r"C:\Apps.exe\app.dll"));
    assert!(!has_exe_extension(r"C:\Apps\.exe"));
    assert!(has_exe_extension(r"C:\Apps\app.exe\"));
    assert!(has_exe_extension(r"C:\Apps\app.exe\.\\"));
    assert!(!has_exe_extension(r"C:\Apps\app.exe\.."));
    assert!(!has_exe_extension("app"));
    assert!(!has_exe_extension(""));
    assert!(!has_exe_extension(r"C:\Apps\app.exex"));
}

#[test]
fn exe_extension_agrees_with_std_on_slash_paths() {
    for p in ["a.exe", "/x/a.exe/", "/x/a.exe/.", "./a.EXE", "..", ".", "", "/", "a/..", ".exe", "a.", "a.b.exe", "dir.exe/file", "//x.exe//", "a/./b.exe/./"] {
        let expected = std::path::Path::new(p)
            .extension()
            .is_some_and(|e| e.eq_ignore_ascii_case("exe"));
        assert_eq!(has_exe_extension(p), expected, "{p}");
    }
}

#[test]
fn executable_needs_a_file() {
    assert!(is_executable_file("a.exe", true));
    assert!(!is_executable_file("a.exe", false));
    assert!(!is_executable_file("a.ico", true));
}

#[test]
fn launch_path_is_the_icon_source_when_executable() {
    let source = Some(r"C:\Apps\app.exe".to_string());
    assert_eq!(launch_path_for(&source, true), source);
    assert_eq!(launch_path_for(&source, false), None);
    assert_eq!(launch_path_for(&Some(r"C:\Apps\app.ico".to_string()), true), None);
    assert_eq!(launch_path_for(&None, true), None);
}

#[test]
fn entries_are_sorted_by_lower_case_name() {
    let out = normalize_entries(vec![entry("zeta"), entry("Alpha"), entry("beta"), entry("alphabet")]);
    assert_eq!(names(&out), vec!["Alpha", "alphabet", "beta", "zeta"]);
}

#[test]
fn duplicates_keep_the_first_in_sorted_order() {
    let mut first = entry("Notepad++");
    first.install_date = Some("20240101".to_string());
    let mut second = entry("NOTEPAD++");
    second.install_date = Some("20250101".to_string());
    let out = normalize_entries(vec![entry("7-Zip"), first, second, entry("notepad++")]);
    assert_eq!(names(&out), vec!["7-Zip", "Notepad++"]);
    assert_eq!(out[1].install_date.as_deref(), Some("20240101"));
}

#[test]
fn only_ascii_case_counts_as_duplicate() {
    let out = normalize_entries(vec![entry("Äpfel"), entry("äpfel"), entry("ÄPFEL")]);
    assert_eq!(names(&out), vec!["Äpfel", "äpfel", "ÄPFEL"]);
}

#[test]
fn empty_list_stays_empty() {
    assert!(normalize_entries(Vec::new()).is_empty());
}

#[test]
fn drive_and_unc_prefixes_are_not_file_names() {
    assert!(!has_exe_extension("C:.exe"));
    assert!(has_exe_extension("C:a.EXE"));
    assert!(!has_exe_extension(r"\\server\share.exe"));
    assert!(!has_exe_extension("//server/share.exe"));
    assert!(has_exe_extension(r"\\server\share\a.exe"));
    assert!(!has_exe_extension(r"\\.\x.exe"));
    assert!(!has_exe_extension(r"\\?\x.exe"));
    assert!(has_exe_extension(r"\\?\C:\a.exe"));
    assert!(!has_exe_extension(r"\\?\C:\a.exe\."));
    assert!(has_exe_extension(r"\\?\UNC\srv\share\a.exe"));
    assert!(!has_exe_extension(r"\\?\UNC\srv\share.exe"));
}

#[test]
fn drive_relative_dot_exe_is_no_launch_path() {
    assert!(!is_executable_file("C:.exe", true));
    assert_eq!(launch_path_for(&Some("C:.exe".to_string()), true), None);
    let source = Some("C:tool.exe".to_string());
    assert_eq!(launch_path_for(&source, true), source);
}

#[test]
fn ascii_case_duplicates_keep_only_the_first_listed() {
    let mut first = entry("Zoom");
    first.install_location = Some("first".to_string());
    let mut second = entry("ZOOM");
    second.install_location = Some("second".to_string());
    let out = normalize_entries(vec![first, entry("alpha"), second, entry("zoom")]);
    assert_eq!(names(&out), vec!["alpha", "Zoom"]);
    assert_eq!(out[1].install_location.as_deref(), Some("first"));
}
