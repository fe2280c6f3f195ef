use lunar::paths::{join_windows_path, windows_dir};
use lunar::powershell::{
    associated_icon_script, escape_ps, extraction_result, extraction_step, icon_script,
    indexed_icon_script, powershell_arguments, powershell_candidate, powershell_program,
    ExtractionStep,
};

#[test]
fn escapes_apostrophes() {
    assert_eq!(escape_ps("it's"), "it''s");
    assert_eq!(escape_ps("''"), "''''");
    assert_eq!(escape_ps(r"C:\plain"), r"C:\plain");
    assert_eq!(escape_ps(""), "");
}

#[test]
fn associated_script_text() {
    let script = associated_icon_script(r"C:\O'Neil\a.exe", r"C:\cache\x.png");
    let expected = r#"Add-Type -AssemblyName System.Drawing
$icon = [System.Drawing.Icon]::ExtractAssociatedIcon('C:\O''Neil\a.exe')
if ($icon) {
    $bitmap = $icon.ToBitmap()
    $bitmap.Save('C:\cache\x.png', [System.Drawing.Imaging.ImageFormat]::Png)
    $icon.Dispose()
    $bitmap.Dispose()
}"#;
    assert_eq!(script, expected);
    assert_eq!(icon_script(r"C:\O'Neil\a.exe", None, r"C:\cache\x.png"), expected);
}

#[test]
fn indexed_script_text() {
    let script = indexed_icon_script(r"C:\W\imageres.dll", -55, r"C:\c\y.png");
    assert!(script.starts_with("Add-Type -TypeDefinition @\"\nusing System;\n"));
    assert!(script.contains("    [DllImport(\"shell32.dll\", CharSet = CharSet.Auto)]\n"));
    assert!(script.contains("        if (small[0] != IntPtr.Zero) DestroyIcon(small[0]);\n    }\n}\n\"@\n"));
    assert!(script.ends_with("[IconExtractor]::Extract('C:\\W\\imageres.dll', -55, 'C:\\c\\y.png')\n"));
    assert_eq!(icon_script(r"C:\W\imageres.dll", Some(-55), r"C:\c\y.png"), script);
}

#[test]
fn powershell_location_and_arguments() {
    assert_eq!(
        powershell_candidate(r"C:\Windows"),
        r"C:\Windows\System32\WindowsPowerShell\v1.0\powershell.exe"
    );
    assert_eq!(powershell_program("p.exe".to_string(), true), "p.exe");
    assert_eq!(powershell_program("p.exe".to_string(), false), "powershell");
    assert_eq!(
        powershell_arguments("Get-Date"),
        vec!["-NoProfile", "-NonInteractive", "-Command", "Get-Date"]
    );
}

#[test]
fn windows_directory_precedence() {
    assert_eq!(windows_dir(Some("A".into()), Some("B".into())), "A");
    assert_eq!(windows_dir(None, Some("B".into())), "B");
    assert_eq!(windows_dir(None, None), r"C:\Windows");
    assert_eq!(windows_dir(Some(String::new()), Some("B".into())), "");
}

#[test]
fn joins_like_windows_paths() {
    assert_eq!(join_windows_path(r"C:\Windows", "a.exe"), r"C:\Windows\a.exe");
    assert_eq!(join_windows_path(r"C:\Windows\", "a.exe"), r"C:\Windows\a.exe");
    assert_eq!(join_windows_path("C:/Win/", "a.exe"), "C:/Win/a.exe");
    assert_eq!(join_windows_path("C:", "a.exe"), "C:a.exe");
    assert_eq!(join_windows_path("", "a.exe"), "a.exe");
}

fn expected_indexed(source: &str, index: i32, output: &str) -> String {
    format!(
        r#"Add-Type -TypeDefinition @"
using System;
using System.Drawing;
using System.Runtime.InteropServices;
public class IconExtractor {{
    [DllImport("shell32.dll", CharSet = CharSet.Auto)]
    static extern uint ExtractIconEx(string file, int index, IntPtr[] large, IntPtr[] small, uint count);
    [DllImport("user32.dll")]
    static extern bool DestroyIcon(IntPtr handle);

    public static void Extract(string file, int index, string output) {{
        IntPtr[] large = new IntPtr[1], small = new IntPtr[1];
        ExtractIconEx(file, index, large, small, 1);
        IntPtr selected = large[0] != IntPtr.Zero ? large[0] : small[0];
        if (selected != IntPtr.Zero) {{
            using (var icon = Icon.FromHandle(selected))
            using (var bitmap = icon.ToBitmap())
                bitmap.Save(output, System.Drawing.Imaging.ImageFormat.Png);
        }}
        if (large[0] != IntPtr.Zero) DestroyIcon(large[0]);
        if (small[0] != IntPtr.Zero) DestroyIcon(small[0]);
    }}
}}
"@
[IconExtractor]::Extract('{source}', {index}, '{output}')
"#,
        source = source.replace('\'', "''"),
        output = output.replace('\'', "''"),
    )
}

#[test]
fn indexed_script_matches_template() {
    for (source, index, output) in [
        (r"C:\Windows\System32\imageres.dll", 55, r"C:\cache\icons\a.png"),
        (r"C:\it's\x.exe", i32::MIN, r"C:\o'\y.png"),
        ("", 0, ""),
    ] {
        assert_eq!(indexed_icon_script(source, index, output), expected_indexed(source, index, output));
    }
}

#[test]
fn joins_onto_verbatim_directories_by_components() {
    assert_eq!(
        join_windows_path(r"\\?\C:\Windows", r"System32\notepad.exe"),
        r"\\?\C:\Windows\System32\notepad.exe"
    );
    assert_eq!(join_windows_path(r"\\?\C:\Windows\", "a.exe"), r"\\?\C:\Windows\a.exe");
    assert_eq!(join_windows_path(r"\\?\C:\\Win\\.\", "a.exe"), r"\\?\C:\Win\.\a.exe");
    assert_eq!(join_windows_path(r"\\?\C:", "a.exe"), r"\\?\C:\a.exe");
    assert_eq!(join_windows_path(r"\\?\C:/Win", "a.exe"), r"\\?\C:\Win\a.exe");
    assert_eq!(join_windows_path(r"\\?\UNC\srv\share", "a.exe"), r"\\?\UNC\srv\share\a.exe");
    assert_eq!(
        join_windows_path(r"\\?\UNC\srv\share\dir\\", "a.exe"),
        r"\\?\UNC\srv\share\dir\a.exe"
    );
}

#[test]
fn unc_and_device_directories_are_appended_to() {
    assert_eq!(join_windows_path(r"\\srv\share", "a.exe"), r"\\srv\share\a.exe");
    assert_eq!(join_windows_path(r"\\.\dev", "a.exe"), r"\\.\dev\a.exe");
    assert_eq!(join_windows_path(r"C:\\Win\\", "a.exe"), r"C:\\Win\\a.exe");
}

#[test]
fn escaped_text_doubles_each_apostrophe() {
    let s = "a'b''c'";
    let e = escape_ps(s);
    assert_eq!(e, "a''b''''c''");
    assert_eq!(e.chars().count(), s.chars().count() + s.matches('\'').count());
    assert_eq!(e.replace("''", "'"), s);
}

#[test]
fn cached_icons_run_no_script() {
    match extraction_step(r"C:\a.exe", Some(3), r"C:\cache\k.png", true) {
        ExtractionStep::Cached(p) => assert_eq!(p, r"C:\cache\k.png"),
        ExtractionStep::RunScript(_) => panic!("a cached icon needs no script"),
    }
    match extraction_step(r"C:\a.exe", Some(3), r"C:\cache\k.png", false) {
        ExtractionStep::Cached(_) => panic!("nothing is cached"),
        ExtractionStep::RunScript(script) => {
            assert_eq!(script, icon_script(r"C:\a.exe", Some(3), r"C:\cache\k.png"))
        }
    }
    match extraction_step(r"C:\a.exe", None, "out.png", false) {
        ExtractionStep::Cached(_) => panic!("nothing is cached"),
        ExtractionStep::RunScript(script) => assert_eq!(script, associated_icon_script(r"C:\a.exe", "out.png")),
    }
}

#[test]
fn extraction_succeeds_only_with_a_written_file() {
    assert_eq!(extraction_result("k.png", true, true), Some("k.png".to_string()));
    assert_eq!(extraction_result("k.png", true, false), None);
    assert_eq!(extraction_result("k.png", false, true), None);
    assert_eq!(extraction_result("k.png", false, false), None);
}
