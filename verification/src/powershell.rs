//! Icon extraction through PowerShell: quoting, the scripts, the interpreter to
//! run, and the Windows directory it lives under.
use vstd::prelude::*;
use crate::number::{format_int, push_i32};
use crate::paths::{is_name_path, join_path, join_windows_path, names_from};
use crate::text::{chars_of, push_str, string_from_chars};

verus! {

/// Start of the script that saves the icon associated with a file.
pub const ASSOCIATED_HEAD: &'static str = "Add-Type -AssemblyName System.Drawing\n$icon = [System.Drawing.Icon]::ExtractAssociatedIcon('";

/// Middle of the script that saves the icon associated with a file.
pub const ASSOCIATED_MIDDLE: &'static str = "')\nif ($icon) {\n    $bitmap = $icon.ToBitmap()\n    $bitmap.Save('";

/// End of the script that saves the icon associated with a file.
pub const ASSOCIATED_TAIL: &'static str = "', [System.Drawing.Imaging.ImageFormat]::Png)\n    $icon.Dispose()\n    $bitmap.Dispose()\n}";

/// Start of the script that saves an icon resource of a file by its index.
pub const INDEXED_HEAD: &'static str = "Add-Type -TypeDefinition @\"\nusing System;\nusing System.Drawing;\nusing System.Runtime.InteropServices;\npublic class IconExtractor {\n    [DllImport(\"shell32.dll\", CharSet = CharSet.Auto)]\n    static extern uint ExtractIconEx(string file, int index, IntPtr[] large, IntPtr[] small, uint count);\n    [DllImport(\"user32.dll\")]\n    static extern bool DestroyIcon(IntPtr handle);\n\n    public static void Extract(string file, int index, string output) {\n        IntPtr[] large = new IntPtr[1], small = new IntPtr[1];\n        ExtractIconEx(file, index, large, small, 1);\n        IntPtr selected = large[0] != IntPtr.Zero ? large[0] : small[0];\n        if (selected != IntPtr.Zero) {\n            using (var icon = Icon.FromHandle(selected))\n            using (var bitmap = icon.ToBitmap())\n                bitmap.Save(output, System.Drawing.Imaging.ImageFormat.Png);\n        }\n        if (large[0] != IntPtr.Zero) DestroyIcon(large[0]);\n        if (small[0] != IntPtr.Zero) DestroyIcon(small[0]);\n    }\n}\n\"@\n[IconExtractor]::Extract('";

/// Text between the quoted source and the index in the indexed-icon script.
pub const INDEXED_AFTER_SOURCE: &'static str = "', ";

/// Text between the index and the quoted output in the indexed-icon script.
pub const INDEXED_AFTER_INDEX: &'static str = ", '";

/// End of the script that saves an icon resource of a file by its index.
pub const INDEXED_TAIL: &'static str = "')\n";

/// `c` escaped for a single-quoted PowerShell string: an apostrophe is doubled.
pub open spec fn escape_piece(c: char) -> Seq<char> {
    if c == '\'' {
        seq!['\'', '\'']
    } else {
        seq![c]
    }
}

/// `s` with every apostrophe doubled.
pub open spec fn escape_quotes(s: Seq<char>) -> Seq<char>
    decreases s.len(),
{
    if s.len() == 0 {
        Seq::empty()
    } else {
        escape_piece(s[0]) + escape_quotes(s.drop_first())
    }
}

/// The text that a single-quoted PowerShell string with body `s` stands for,
/// reading each doubled apostrophe as one.
pub open spec fn unescape_quotes(s: Seq<char>) -> Seq<char>
    decreases s.len(),
{
    if s.len() == 0 {
        Seq::empty()
    } else if s.len() >= 2 && s[0] == '\'' && s[1] == '\'' {
        seq!['\''] + unescape_quotes(s.skip(2))
    } else {
        seq![s[0]] + unescape_quotes(s.drop_first())
    }
}

/// Escaping distributes over concatenation.
pub proof fn lemma_escape_concat(a: Seq<char>, b: Seq<char>)
    ensures
        escape_quotes(a + b) == escape_quotes(a) + escape_quotes(b),
    decreases a.len(),
{
    if a.len() == 0 {
        assert(a + b =~= b);
    } else {
        lemma_escape_concat(a.drop_first(), b);
        assert((a + b).drop_first() =~= a.drop_first() + b);
        assert(escape_quotes(a) + escape_quotes(b) =~= escape_piece(a[0]) + (escape_quotes(
            a.drop_first(),
        ) + escape_quotes(b)));
    }
}

/// Reading an escaped text back gives the original: every apostrophe of the
/// source survives the quoting, and nothing ends the quoted string early.
pub proof fn lemma_escape_roundtrip(s: Seq<char>)
    ensures
        unescape_quotes(escape_quotes(s)) == s,
    decreases s.len(),
{
    if s.len() > 0 {
        let rest = s.drop_first();
        lemma_escape_roundtrip(rest);
        let e = escape_quotes(s);
        if s[0] == '\'' {
            assert(e.skip(2) =~= escape_quotes(rest));
        } else {
            assert(e.drop_first() =~= escape_quotes(rest));
        }
        assert(s =~= seq![s[0]] + rest);
    }
}

/// The number of apostrophes in `s`.
pub open spec fn apostrophes(s: Seq<char>) -> nat
    decreases s.len(),
{
    if s.len() == 0 {
        0
    } else {
        (if s[0] == '\'' {
            1nat
        } else {
            0nat
        }) + apostrophes(s.drop_first())
    }
}

/// Every apostrophe of `s` is one of a pair of adjacent apostrophes, read from
/// the left: every run of apostrophes has even length.
pub open spec fn apostrophes_paired(s: Seq<char>) -> bool
    decreases s.len(),
{
    if s.len() == 0 {
        true
    } else if s[0] == '\'' {
        s.len() >= 2 && s[1] == '\'' && apostrophes_paired(s.skip(2))
    } else {
        apostrophes_paired(s.drop_first())
    }
}

/// The escaped text is one apostrophe longer per apostrophe of the source, and
/// its apostrophes come in pairs, so between single quotes it is one PowerShell
/// literal.
pub proof fn lemma_escape_shape(s: Seq<char>)
    ensures
        escape_quotes(s).len() == s.len() + apostrophes(s),
        apostrophes_paired(escape_quotes(s)),
    decreases s.len(),
{
    if s.len() > 0 {
        let rest = s.drop_first();
        lemma_escape_shape(rest);
        let e = escape_quotes(s);
        if s[0] == '\'' {
            assert(e.skip(2) =~= escape_quotes(rest));
        } else {
            assert(e.drop_first() =~= escape_quotes(rest));
        }
    }
}

/// `s` with every apostrophe doubled, for use inside a single-quoted PowerShell string.
pub fn escape_ps(value: &str) -> (r: String)
    ensures
        r@ == escape_quotes(value@),
{
    let mut out: Vec<char> = Vec::new();
    push_escaped(&mut out, value);
    string_from_chars(out.as_slice())
}

/// Appends `value` with every apostrophe doubled.
fn push_escaped(out: &mut Vec<char>, value: &str)
    ensures
        final(out)@ == old(out)@ + escape_quotes(value@),
{
    let v = chars_of(value);
    let ghost start = out@;
    let mut i: usize = 0;
    assert(escape_quotes(v@.take(0)) =~= Seq::<char>::empty());
    while i < v.len()
        invariant
            i <= v.len(),
            v@ == value@,
            out@ == start + escape_quotes(v@.take(i as int)),
        decreases v.len() - i,
    {
        let c = v[i];
        if c == '\'' {
            out.push('\'');
            out.push('\'');
        } else {
            out.push(c);
        }
        proof {
            lemma_escape_concat(v@.take(i as int), seq![c]);
            assert(v@.take(i + 1) =~= v@.take(i as int) + seq![c]);
            assert(escape_quotes(seq![c]) =~= escape_piece(c)) by {
                assert(seq![c].drop_first() =~= Seq::<char>::empty());
                assert(escape_quotes(Seq::<char>::empty()) == Seq::<char>::empty());
                assert(seq![c][0] == c);
                assert(escape_quotes(seq![c]) == escape_piece(c) + escape_quotes(
                    Seq::<char>::empty(),
                ));
            }
        }
        assert(out@ =~= start + escape_quotes(v@.take(i + 1)));
        i = i + 1;
    }
    assert(v@.take(v.len() as int) =~= v@);
}

/// The script that saves the icon associated with `source` as a PNG at `output`.
pub open spec fn associated_icon_script_text(source: Seq<char>, output: Seq<char>) -> Seq<char> {
    ASSOCIATED_HEAD@ + escape_quotes(source) + ASSOCIATED_MIDDLE@ + escape_quotes(output)
        + ASSOCIATED_TAIL@
}

/// The script that saves icon resource `index` of `source` as a PNG at `output`.
pub open spec fn indexed_icon_script_text(source: Seq<char>, index: i32, output: Seq<char>) -> Seq<
    char,
> {
    INDEXED_HEAD@ + escape_quotes(source) + INDEXED_AFTER_SOURCE@ + format_int(index as int)
        + INDEXED_AFTER_INDEX@ + escape_quotes(output) + INDEXED_TAIL@
}

/// The PowerShell script that saves the icon associated with `source` as a PNG at
/// `output`; both paths are quoted with `escape_ps`.
pub fn associated_icon_script(source: &str, output: &str) -> (r: String)
    ensures
        r@ == associated_icon_script_text(source@, output@),
{
    let mut out: Vec<char> = Vec::new();
    push_str(&mut out, ASSOCIATED_HEAD);
    push_escaped(&mut out, source);
    push_str(&mut out, ASSOCIATED_MIDDLE);
    push_escaped(&mut out, output);
    push_str(&mut out, ASSOCIATED_TAIL);
    assert(out@ =~= associated_icon_script_text(source@, output@));
    string_from_chars(out.as_slice())
}

/// The PowerShell script that saves icon resource `index` of `source` as a PNG at
/// `output`; both paths are quoted with `escape_ps`.
pub fn indexed_icon_script(source: &str, index: i32, output: &str) -> (r: String)
    ensures
        r@ == indexed_icon_script_text(source@, index, output@),
{
    let mut out: Vec<char> = Vec::new();
    push_str(&mut out, INDEXED_HEAD);
    push_escaped(&mut out, source);
    push_str(&mut out, INDEXED_AFTER_SOURCE);
    push_i32(index, &mut out);
    push_str(&mut out, INDEXED_AFTER_INDEX);
    push_escaped(&mut out, output);
    push_str(&mut out, INDEXED_TAIL);
    assert(out@ =~= indexed_icon_script_text(source@, index, output@));
    string_from_chars(out.as_slice())
}

/// The script that extracts the icon of `source` to `output`: resource `index`
/// when one is given, else the icon associated with the file.
pub open spec fn icon_script_text(source: Seq<char>, index: Option<i32>, output: Seq<char>) -> Seq<
    char,
> {
    match index {
        Some(i) => indexed_icon_script_text(source, i, output),
        None => associated_icon_script_text(source, output),
    }
}

/// The script that extracts the icon of `source` to `output`: resource `index`
/// when one is given, else the icon associated with the file.
pub fn icon_script(source: &str, index: Option<i32>, output: &str) -> (r: String)
    ensures
        r@ == icon_script_text(source@, index, output@),
{
    match index {
        Some(i) => indexed_icon_script(source, i, output),
        None => associated_icon_script(source, output),
    }
}

/// The first step of extracting an icon into its cache file.
pub enum ExtractionStep {
    /// The icon is in the cache already, at this path.
    Cached(String),
    /// Run this script, which writes the icon to the cache file.
    RunScript(String),
}

/// The first step of extracting the icon of `source` (resource `index`, or the
/// associated icon) into the cache file `output`: the file itself when it
/// exists (`output_exists`), else the script that writes it.
pub fn extraction_step(source: &str, index: Option<i32>, output: &str, output_exists: bool) -> (r:
    ExtractionStep)
    ensures
        match r {
            ExtractionStep::Cached(p) => output_exists && p@ == output@,
            ExtractionStep::RunScript(script) => !output_exists && script@ == icon_script_text(
                source@,
                index,
                output@,
            ),
        },
{
    if output_exists {
        ExtractionStep::Cached(String::from_str(output))
    } else {
        ExtractionStep::RunScript(icon_script(source, index, output))
    }
}

/// What extraction yields once the script has run: the cache file `output`
/// when the script succeeded and the file exists now, else nothing.
pub fn extraction_result(output: &str, script_succeeded: bool, output_exists: bool) -> (r: Option<
    String,
>)
    ensures
        r.deep_view() == (if script_succeeded && output_exists {
            Some(output@)
        } else {
            None::<Seq<char>>
        }),
{
    if script_succeeded && output_exists {
        Some(String::from_str(output))
    } else {
        None
    }
}

/// Where Windows PowerShell lives, relative to the Windows directory.
pub const POWERSHELL_RELATIVE: &'static str = "System32\\WindowsPowerShell\\v1.0\\powershell.exe";

/// The program name used when PowerShell is not found under the Windows directory.
pub const POWERSHELL_FALLBACK: &'static str = "powershell";

/// The location of PowerShell under the Windows directory is a path made of names.
proof fn lemma_powershell_relative_is_names()
    ensures
        is_name_path(POWERSHELL_RELATIVE@),
{
    reveal_strlit("System32\\WindowsPowerShell\\v1.0\\powershell.exe");
    reveal_with_fuel(names_from, 50);
}

/// The usual location of `powershell.exe` under `windows_dir`.
pub fn powershell_candidate(windows_dir: &str) -> (r: String)
    ensures
        r@ == join_path(windows_dir@, POWERSHELL_RELATIVE@),
{
    proof {
        lemma_powershell_relative_is_names();
    }
    join_windows_path(windows_dir, POWERSHELL_RELATIVE)
}

/// The program to run: the candidate when it exists, else `powershell` from the search path.
pub fn powershell_program(candidate: String, candidate_exists: bool) -> (r: String)
    ensures
        r@ == (if candidate_exists {
            candidate@
        } else {
            POWERSHELL_FALLBACK@
        }),
{
    if candidate_exists {
        candidate
    } else {
        String::from_str(POWERSHELL_FALLBACK)
    }
}

/// The command-line arguments that run `script` without a profile and without
/// interaction: `-NoProfile -NonInteractive -Command <script>`.
pub fn powershell_arguments(script: &str) -> (r: Vec<String>)
    ensures
        r.len() == 4,
        r[0]@ == "-NoProfile"@,
        r[1]@ == "-NonInteractive"@,
        r[2]@ == "-Command"@,
        r[3]@ == script@,
{
    let mut args: Vec<String> = Vec::new();
    args.push(String::from_str("-NoProfile"));
    args.push(String::from_str("-NonInteractive"));
    args.push(String::from_str("-Command"));
    args.push(String::from_str(script));
    args
}

} // verus!
