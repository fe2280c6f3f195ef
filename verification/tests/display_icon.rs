use lunar::display_icon::parse_display_icon;
use lunar::env::expand_windows_env;

fn no_env() -> Vec<(String, String)> {
    Vec::new()
}

fn env_of(pairs: &[(&str, &str)]) -> Vec<(String, String)> {
    pairs.iter().map(|(k, v)| (k.to_string(), v.to_string())).collect()
}

#[test]
fn parses_quoted_display_icon_with_index() {
    let (path, index) = parse_display_icon(r#""C:\Apps, Inc\app.exe",-12"#, &no_env());
    assert_eq!(path.as_deref(), Some(r"C:\Apps, Inc\app.exe"));
    assert_eq!(index, Some(-12));
}

#[test]
fn parses_unquoted_display_icon() {
    let (path, index) = parse_display_icon(r"C:\Apps\app.exe,0", &no_env());
    assert_eq!(path.as_deref(), Some(r"C:\Apps\app.exe"));
    assert_eq!(index, Some(0));
}

#[test]
fn quoted_path_without_index() {
    let (path, index) = parse_display_icon(r#"  "C:\Program Files\x.exe"  "#, &no_env());
    assert_eq!(path.as_deref(), Some(r"C:\Program Files\x.exe"));
    assert_eq!(index, None);
}

#[test]
fn quoted_path_with_spaced_index() {
    let (path, index) = parse_display_icon(r#""C:\x.exe" ,  +7 "#, &no_env());
    assert_eq!(path.as_deref(), Some(r"C:\x.exe"));
    assert_eq!(index, Some(7));
}

#[test]
fn quoted_path_with_bad_index() {
    let (path, index) = parse_display_icon(r#""C:\x.exe",abc"#, &no_env());
    assert_eq!(path.as_deref(), Some(r"C:\x.exe"));
    assert_eq!(index, None);
}

#[test]
fn unclosed_quote_is_stripped() {
    let (path, index) = parse_display_icon(r#""C:\x.exe,3"#, &no_env());
    assert_eq!(path.as_deref(), Some(r"C:\x.exe,3"));
    assert_eq!(index, None);
}

#[test]
fn unquoted_text_after_last_comma_must_be_a_number() {
    let (path, index) = parse_display_icon(r"C:\Apps, Inc\app.exe", &no_env());
    assert_eq!(path.as_deref(), Some(r"C:\Apps, Inc\app.exe"));
    assert_eq!(index, None);
}

#[test]
fn unquoted_index_out_of_range_is_kept_in_path() {
    let (path, index) = parse_display_icon(r"C:\a.exe,2147483648", &no_env());
    assert_eq!(path.as_deref(), Some(r"C:\a.exe,2147483648"));
    assert_eq!(index, None);
    let (path, index) = parse_display_icon(r"C:\a.exe,-2147483648", &no_env());
    assert_eq!(path.as_deref(), Some(r"C:\a.exe"));
    assert_eq!(index, Some(i32::MIN));
}

#[test]
fn empty_path_is_none() {
    let (path, index) = parse_display_icon(r#""",5"#, &no_env());
    assert_eq!(path, None);
    assert_eq!(index, Some(5));
    let (path, index) = parse_display_icon("   ", &no_env());
    assert_eq!(path, None);
    assert_eq!(index, None);
    let (path, index) = parse_display_icon(",1", &no_env());
    assert_eq!(path, None);
    assert_eq!(index, Some(1));
}

#[test]
fn variables_are_expanded_before_splitting() {
    let env = env_of(&[("SystemRoot", r"C:\Windows"), ("ProgramFiles", r"C:\Program Files")]);
    let (path, index) = parse_display_icon(r"%SYSTEMROOT%\System32\shell32.dll,-21", &env);
    assert_eq!(path.as_deref(), Some(r"C:\Windows\System32\shell32.dll"));
    assert_eq!(index, Some(-21));
    let (path, _) = parse_display_icon(r#""%programfiles%\App\a.exe""#, &env);
    assert_eq!(path.as_deref(), Some(r"C:\Program Files\App\a.exe"));
}

#[test]
fn expansion_keeps_unknown_and_unclosed_references() {
    let env = env_of(&[("A", "1"), ("a", "2")]);
    assert_eq!(expand_windows_env("x%a%y", &env), "x1y");
    assert_eq!(expand_windows_env("%B%-%A%", &env), "%B%-1");
    assert_eq!(expand_windows_env("50%", &env), "50%");
    assert_eq!(expand_windows_env("%A%%A", &env), "1%A");
    assert_eq!(expand_windows_env("%%", &env), "%%");
}

#[test]
fn expansion_without_variables_is_identity() {
    for text in ["", "%x%", "a%b%c%d", "%%%", "plain"] {
        assert_eq!(expand_windows_env(text, &no_env()), text);
    }
}

#[test]
fn written_locations_read_back() {
    let path = r"C:\Program Files\A, B\app 1.exe";
    for i in [0, 7, -5, i32::MAX, i32::MIN] {
        let quoted = format!("\"{}\",{}", path, i);
        assert_eq!(parse_display_icon(&quoted, &no_env()), (Some(path.to_string()), Some(i)));
        let plain = format!("{},{}", path, i);
        assert_eq!(parse_display_icon(&plain, &no_env()), (Some(path.to_string()), Some(i)));
    }
    let quoted = format!("\"{}\"", path);
    assert_eq!(parse_display_icon(&quoted, &no_env()), (Some(path.to_string()), None));
}

#[test]
fn references_to_absent_names_stay_as_written() {
    let env = env_of(&[("windir", r"C:\Windows"), ("TEMP", r"C:\Temp")]);
    for text in ["%FOO%", r"%APPDATA%\x.exe", "a%B%c%D%", "%WINDIRX%"] {
        assert_eq!(expand_windows_env(text, &env), text);
    }
}
