//! Deciding how an application is started, and the messages shown when it
//! cannot be started or its icon cannot be extracted.
use vstd::prelude::*;
use crate::apps::{system_app_defs, system_apps, texts};
use crate::registry::RegistryEntry;
use crate::text::{ascii_fold, eq_ignore_ascii_case, lemma_eq_ignore_ascii_case_equiv,
    str_eq_ignore_ascii_case};

verus! {

/// What starting an application takes.
pub enum LaunchPlan {
    /// Run `program` with `args`.
    Spawn { program: String, args: Vec<String> },
    /// Read the installed applications and start the one of that name
    /// (see `installed_launch_target`).
    LookUpInstalled,
}

/// `k` is the first position of `names` holding `name` up to ASCII case.
pub open spec fn is_first_match(names: Seq<Seq<char>>, name: Seq<char>, k: int) -> bool {
    &&& 0 <= k < names.len()
    &&& eq_ignore_ascii_case(names[k], name)
    &&& forall|j: int| 0 <= j < k ==> !eq_ignore_ascii_case(#[trigger] names[j], name)
}

/// Some position of `names` holds `name` up to ASCII case.
pub open spec fn has_match(names: Seq<Seq<char>>, name: Seq<char>) -> bool {
    exists|k: int| 0 <= k < names.len() && eq_ignore_ascii_case(#[trigger] names[k], name)
}

/// The display names of the built-in tools.
pub open spec fn system_app_names() -> Seq<Seq<char>> {
    system_app_defs().map_values(|d: crate::apps::SystemAppDef| d.name)
}

/// `a` followed by `b`.
fn joined(a: &str, b: &str) -> (r: String)
    ensures
        r@ == a@ + b@,
{
    let mut s = String::from_str(a);
    s.append(b);
    s
}

/// `a`, `b` and `c` in a row.
fn joined3(a: &str, b: &str, c: &str) -> (r: String)
    ensures
        r@ == a@ + b@ + c@,
{
    let mut s = String::from_str(a);
    s.append(b);
    s.append(c);
    s
}

/// The message for a built-in tool that does not exist.
pub open spec fn unknown_system_app_text(name: Seq<char>) -> Seq<char> {
    "未找到系统应用: "@ + name
}

/// The message for a category other than `system` and `installed`.
pub open spec fn unknown_category_text(category: Seq<char>) -> Seq<char> {
    "不支持的应用分类: "@ + category
}

/// The message for an installed application that does not exist.
pub open spec fn unknown_installed_app_text(name: Seq<char>) -> Seq<char> {
    "未找到已安装应用: "@ + name
}

/// The message for an installed application without a launch path.
pub open spec fn no_launch_path_text(name: Seq<char>) -> Seq<char> {
    "“"@ + name + "”没有可用的启动路径"@
}

/// How to start the application `name` of `category`: a built-in tool is found
/// by its name up to ASCII case (the first one) and run with its arguments; an
/// installed application is looked up among the installed ones; any other
/// category, and an unknown tool, is refused with a message.
pub fn plan_launch(category: &str, name: &str) -> (r: Result<LaunchPlan, String>)
    ensures
        category@ == "system"@ ==> (if has_match(system_app_names(), name@) {
            exists|k: int|
                is_first_match(system_app_names(), name@, k) && (r matches Ok(
                    LaunchPlan::Spawn { program, args },
                ) && program@ == system_app_defs()[k].launch_program && texts(args@)
                    == system_app_defs()[k].launch_args)
        } else {
            r matches Err(message) && message@ == unknown_system_app_text(name@)
        }),
        category@ == "installed"@ ==> r matches Ok(LaunchPlan::LookUpInstalled),
        category@ != "system"@ && category@ != "installed"@ ==> (r matches Err(message)
            && message@ == unknown_category_text(category@)),
{
    proof {
        reveal_strlit("system");
        reveal_strlit("installed");
        assert("system"@.len() != "installed"@.len());
    }
    if str_eq_exact(category, "system") {
        // Names and launch commands do not depend on the Windows directory.
        let apps = system_apps("");
        let ghost defs = system_app_defs();
        let mut k: usize = 0;
        while k < apps.len()
            invariant
                category@ == "system"@,
                "system"@ != "installed"@,
                apps.len() == defs.len(),
                defs == system_app_defs(),
                forall|i: int| 0 <= i < apps.len() ==> crate::apps::resolves(#[trigger] apps@[i], defs[i], ""@),
                k <= apps.len(),
                forall|j: int| 0 <= j < k ==> !eq_ignore_ascii_case(#[trigger] system_app_names()[j], name@),
            decreases apps.len() - k,
        {
            assert(system_app_names()[k as int] == apps@[k as int].name@);
            if str_eq_ignore_ascii_case(apps[k].name.as_str(), name) {
                let program = apps[k].launch_program.clone();
                let args = apps[k].launch_args.clone();
                assert(args@ == apps@[k as int].launch_args@);
                let r = Ok(LaunchPlan::Spawn { program, args });
                assert(is_first_match(system_app_names(), name@, k as int));
                return r;
            }
            k = k + 1;
        }
        assert(!has_match(system_app_names(), name@));
        Err(joined("未找到系统应用: ", name))
    } else if str_eq_exact(category, "installed") {
        Ok(LaunchPlan::LookUpInstalled)
    } else {
        Err(joined("不支持的应用分类: ", category))
    }
}

/// Whether two strings are equal.
fn str_eq_exact(a: &str, b: &str) -> (r: bool)
    ensures
        r == (a@ == b@),
{
    let x = String::from_str(a);
    let y = String::from_str(b);
    x == y
}

/// The executable of the installed application `name`: the first entry whose
/// name equals `name` up to ASCII case, if it has a launch path; otherwise the
/// reason it cannot be started.
pub fn installed_launch_target(name: &str, entries: &Vec<RegistryEntry>) -> (r: Result<String, String>)
    ensures
        match r {
            Ok(path) => exists|k: int|
                is_first_match(texts_of_names(entries@), name@, k) && (entries@[k].launch_path
                    matches Some(p) && p@ == path@),
            Err(message) => (has_match(texts_of_names(entries@), name@) && exists|k: int|
                is_first_match(texts_of_names(entries@), name@, k) && entries@[k].launch_path is None
                    && message@ == no_launch_path_text(name@)) || (!has_match(
                texts_of_names(entries@),
                name@,
            ) && message@ == unknown_installed_app_text(name@)),
        },
        has_match(texts_of_names(entries@), name@) ==> exists|k: int|
            is_first_match(texts_of_names(entries@), name@, k) && (entries@[k].launch_path is Some
                <==> r is Ok),
{
    let mut k: usize = 0;
    while k < entries.len()
        invariant
            k <= entries.len(),
            forall|j: int| 0 <= j < k ==> !eq_ignore_ascii_case(#[trigger] texts_of_names(entries@)[j], name@),
        decreases entries.len() - k,
    {
        assert(texts_of_names(entries@)[k as int] == entries@[k as int].name@);
        if str_eq_ignore_ascii_case(entries[k].name.as_str(), name) {
            assert(is_first_match(texts_of_names(entries@), name@, k as int));
            return match &entries[k].launch_path {
                Some(p) => Ok(p.clone()),
                None => Err(joined3("“", name, "”没有可用的启动路径")),
            };
        }
        k = k + 1;
    }
    assert(!has_match(texts_of_names(entries@), name@));
    Err(joined("未找到已安装应用: ", name))
}

/// The names of a list of entries.
pub open spec fn texts_of_names(v: Seq<RegistryEntry>) -> Seq<Seq<char>> {
    v.map_values(|e: RegistryEntry| e.name@)
}

/// The message for an application that could not be started.
pub fn launch_failure_message(name: &str, error: &str) -> (r: String)
    ensures
        r@ == "无法打开“"@ + name@ + "”: "@ + error@,
{
    let mut s = joined3("无法打开“", name, "”: ");
    s.append(error);
    s
}

/// The message for an icon source that is not a file.
pub fn icon_source_missing_message(source: &str) -> (r: String)
    ensures
        r@ == "图标源文件不存在: "@ + source@,
{
    joined("图标源文件不存在: ", source)
}

/// The message for an icon that could not be extracted.
pub fn icon_extraction_failed_message(source: &str) -> (r: String)
    ensures
        r@ == "无法提取图标: "@ + source@,
{
    joined("无法提取图标: ", source)
}

/// The message for a failure while reading the installed applications.
pub fn installed_apps_failure_message(error: &str) -> (r: String)
    ensures
        r@ == "读取已安装应用失败: "@ + error@,
{
    joined("读取已安装应用失败: ", error)
}

/// The built-in tool `name` is found and started by running `program` with `args`:
/// some tool has that name up to ASCII case, and the first such tool has that
/// command.
pub open spec fn starts_tool(name: Seq<char>, program: Seq<char>, args: Seq<Seq<char>>) -> bool {
    &&& has_match(system_app_names(), name)
    &&& forall|k: int|
        is_first_match(system_app_names(), name, k) ==> system_app_defs()[k].launch_program
            == program && #[trigger] system_app_defs()[k].launch_args == args
}

/// The built-in tool `name` is listed with the icon resource `icon_index` of the
/// file `icon_relative_path` under the Windows directory.
pub open spec fn tool_icon(name: Seq<char>, icon_relative_path: Seq<char>, icon_index: Option<i32>) -> bool {
    &&& has_match(system_app_names(), name)
    &&& forall|k: int|
        is_first_match(system_app_names(), name, k) ==> system_app_defs()[k].icon_relative_path
            == icon_relative_path && #[trigger] system_app_defs()[k].icon_index == icon_index
}

/// Texts whose first characters differ after folding ASCII case are different
/// names.
proof fn lemma_first_chars_differ(a: Seq<char>, b: Seq<char>)
    requires
        a.len() > 0,
        b.len() > 0,
        ascii_fold(a[0]) != ascii_fold(b[0]),
    ensures
        !eq_ignore_ascii_case(a, b),
{
}

/// A tool whose name differs from those of all tools before it is the first match
/// of its own name.
proof fn lemma_found_at(idx: int)
    requires
        0 <= idx < system_app_defs().len(),
        forall|j: int|
            0 <= j < idx ==> !eq_ignore_ascii_case(
                #[trigger] system_app_names()[j],
                system_app_names()[idx],
            ),
    ensures
        has_match(system_app_names(), system_app_names()[idx]),
        forall|k: int| is_first_match(system_app_names(), system_app_names()[idx], k) ==> k == idx,
{
    let names = system_app_names();
    lemma_eq_ignore_ascii_case_equiv(names[idx], names[idx], names[idx]);
    assert forall|k: int| is_first_match(names, names[idx], k) implies k == idx by {
        if k < idx {
            assert(!eq_ignore_ascii_case(names[k], names[idx]));
        } else if k > idx {
            assert(!eq_ignore_ascii_case(names[idx], names[idx]));
        }
    }
}

/// How each built-in tool is started: This PC, the Recycle Bin and Settings by
/// Explorer with their shell folder or settings page, the others by their own
/// program without arguments; and the icon each one is listed with.
pub proof fn lemma_system_launch_commands()
    ensures
        starts_tool("此电脑"@, "explorer.exe"@, seq!["shell:MyComputerFolder"@]),
        starts_tool("回收站"@, "explorer.exe"@, seq!["shell:RecycleBinFolder"@]),
        starts_tool("计算器"@, "calc.exe"@, Seq::<Seq<char>>::empty()),
        starts_tool("控制面板"@, "control.exe"@, Seq::<Seq<char>>::empty()),
        starts_tool("记事本"@, "notepad.exe"@, Seq::<Seq<char>>::empty()),
        starts_tool("命令提示符"@, "cmd.exe"@, Seq::<Seq<char>>::empty()),
        starts_tool("任务管理器"@, "Taskmgr.exe"@, Seq::<Seq<char>>::empty()),
        starts_tool("截图工具"@, "SnippingTool.exe"@, Seq::<Seq<char>>::empty()),
        starts_tool("Windows 设置"@, "explorer.exe"@, seq!["ms-settings:"@]),
        tool_icon("此电脑"@, "explorer.exe"@, None),
        tool_icon("回收站"@, "System32\\imageres.dll"@, Some(55)),
        tool_icon("计算器"@, "System32\\calc.exe"@, None),
        tool_icon("控制面板"@, "System32\\control.exe"@, None),
        tool_icon("记事本"@, "System32\\notepad.exe"@, None),
        tool_icon("命令提示符"@, "System32\\cmd.exe"@, None),
        tool_icon("任务管理器"@, "System32\\Taskmgr.exe"@, None),
        tool_icon("截图工具"@, "System32\\SnippingTool.exe"@, None),
        tool_icon("Windows 设置"@, "System32\\imageres.dll"@, Some(114)),
{
    reveal_strlit("此电脑");
    reveal_strlit("回收站");
    reveal_strlit("计算器");
    reveal_strlit("控制面板");
    reveal_strlit("记事本");
    reveal_strlit("命令提示符");
    reveal_strlit("任务管理器");
    reveal_strlit("截图工具");
    reveal_strlit("Windows 设置");
    let names = system_app_names();
    let defs = system_app_defs();
    assert forall|i: int, j: int| 0 <= j < i < defs.len() implies !eq_ignore_ascii_case(
        #[trigger] names[j],
        #[trigger] names[i],
    ) by {
        assert(names[i] == defs[i].name && names[j] == defs[j].name);
        if names[i].len() == names[j].len() {
            lemma_first_chars_differ(names[j], names[i]);
        }
    }
    assert forall|idx: int| 0 <= idx < defs.len() implies has_match(names, #[trigger] names[idx])
        && forall|k: int| is_first_match(names, names[idx], k) ==> k == idx by {
        lemma_found_at(idx);
    }
    assert(names[0] == "此电脑"@ && names[1] == "回收站"@ && names[2] == "计算器"@);
    assert(names[3] == "控制面板"@ && names[4] == "记事本"@ && names[5] == "命令提示符"@);
    assert(names[6] == "任务管理器"@ && names[7] == "截图工具"@ && names[8] == "Windows 设置"@);
}

} // verus!
