//! The applications the launcher shows: the built-in Windows tools, the
//! installed programs, and how either of them is started.
use vstd::prelude::*;
use crate::paths::{is_name_path, join_path, join_windows_path, names_from};
use crate::registry::RegistryEntry;

verus! {

/// An application as the front end lists it.
#[derive(Debug)]
pub struct AppInfo {
    pub name: String,
    /// Where the application comes from: `system` or `installed`.
    pub category: String,
    pub can_launch: bool,
    /// The cached icon, or empty when the icon has not been extracted yet.
    pub icon_path: String,
    /// The file the icon is extracted from.
    pub icon_source: Option<String>,
    /// The icon resource index; none for the icon associated with the file.
    pub icon_index: Option<i32>,
    /// The executable that starts the application.
    pub path: Option<String>,
    pub install_date: Option<String>,
    pub install_location: Option<String>,
}

/// The value of an `AppInfo`, with texts as character sequences.
pub ghost struct AppModel {
    pub name: Seq<char>,
    pub category: Seq<char>,
    pub can_launch: bool,
    pub icon_path: Seq<char>,
    pub icon_source: Option<Seq<char>>,
    pub icon_index: Option<i32>,
    pub path: Option<Seq<char>>,
    pub install_date: Option<Seq<char>>,
    pub install_location: Option<Seq<char>>,
}

impl View for AppInfo {
    type V = AppModel;

    open spec fn view(&self) -> AppModel {
        AppModel {
            name: self.name@,
            category: self.category@,
            can_launch: self.can_launch,
            icon_path: self.icon_path@,
            icon_source: self.icon_source.deep_view(),
            icon_index: self.icon_index,
            path: self.path.deep_view(),
            install_date: self.install_date.deep_view(),
            install_location: self.install_location.deep_view(),
        }
    }
}

/// A built-in Windows tool: its display name, the icon file relative to the
/// Windows directory, the icon resource index, and how to start it.
pub ghost struct SystemAppDef {
    pub name: Seq<char>,
    pub icon_relative_path: Seq<char>,
    pub icon_index: Option<i32>,
    pub launch_program: Seq<char>,
    pub launch_args: Seq<Seq<char>>,
}

/// The built-in Windows tools the launcher offers, in the order it lists them.
pub open spec fn system_app_defs() -> Seq<SystemAppDef> {
    seq![
        SystemAppDef {
            name: "此电脑"@,
            icon_relative_path: "explorer.exe"@,
            icon_index: None,
            launch_program: "explorer.exe"@,
            launch_args: seq!["shell:MyComputerFolder"@],
        },
        SystemAppDef {
            name: "回收站"@,
            icon_relative_path: "System32\\imageres.dll"@,
            icon_index: Some(55),
            launch_program: "explorer.exe"@,
            launch_args: seq!["shell:RecycleBinFolder"@],
        },
        SystemAppDef {
            name: "计算器"@,
            icon_relative_path: "System32\\calc.exe"@,
            icon_index: None,
            launch_program: "calc.exe"@,
            launch_args: seq![],
        },
        SystemAppDef {
            name: "控制面板"@,
            icon_relative_path: "System32\\control.exe"@,
            icon_index: None,
            launch_program: "control.exe"@,
            launch_args: seq![],
        },
        SystemAppDef {
            name: "记事本"@,
            icon_relative_path: "System32\\notepad.exe"@,
            icon_index: None,
            launch_program: "notepad.exe"@,
            launch_args: seq![],
        },
        SystemAppDef {
            name: "命令提示符"@,
            icon_relative_path: "System32\\cmd.exe"@,
            icon_index: None,
            launch_program: "cmd.exe"@,
            launch_args: seq![],
        },
        SystemAppDef {
            name: "任务管理器"@,
            icon_relative_path: "System32\\Taskmgr.exe"@,
            icon_index: None,
            launch_program: "Taskmgr.exe"@,
            launch_args: seq![],
        },
        SystemAppDef {
            name: "截图工具"@,
            icon_relative_path: "System32\\SnippingTool.exe"@,
            icon_index: None,
            launch_program: "SnippingTool.exe"@,
            launch_args: seq![],
        },
        SystemAppDef {
            name: "Windows 设置"@,
            icon_relative_path: "System32\\imageres.dll"@,
            icon_index: Some(114),
            launch_program: "explorer.exe"@,
            launch_args: seq!["ms-settings:"@],
        },
    ]
}

/// A built-in Windows tool with its icon file resolved against the Windows directory.
pub struct SystemApp {
    pub name: String,
    pub icon_source: String,
    pub icon_index: Option<i32>,
    pub launch_program: String,
    pub launch_args: Vec<String>,
}

/// The texts of a list of strings.
pub open spec fn texts(v: Seq<String>) -> Seq<Seq<char>> {
    v.map_values(|s: String| s@)
}

/// `app` is definition `def` with its icon file under `windows_dir`.
pub open spec fn resolves(app: SystemApp, def: SystemAppDef, windows_dir: Seq<char>) -> bool {
    &&& app.name@ == def.name
    &&& app.icon_source@ == join_path(windows_dir, def.icon_relative_path)
    &&& app.icon_index == def.icon_index
    &&& app.launch_program@ == def.launch_program
    &&& texts(app.launch_args@) == def.launch_args
}

/// Builds a tool from its parts.
fn system_app(
    windows_dir: &str,
    name: &str,
    icon_relative_path: &str,
    icon_index: Option<i32>,
    launch_program: &str,
    launch_arg: Option<&str>,
) -> (r: SystemApp)
    requires
        is_name_path(icon_relative_path@),
    ensures
        r.name@ == name@,
        r.icon_source@ == join_path(windows_dir@, icon_relative_path@),
        r.icon_index == icon_index,
        r.launch_program@ == launch_program@,
        texts(r.launch_args@) == match launch_arg {
            Some(a) => seq![a@],
            None => Seq::<Seq<char>>::empty(),
        },
{
    let mut launch_args: Vec<String> = Vec::new();
    match launch_arg {
        Some(a) => launch_args.push(String::from_str(a)),
        None => {},
    }
    let r = SystemApp {
        name: String::from_str(name),
        icon_source: join_windows_path(windows_dir, icon_relative_path),
        icon_index,
        launch_program: String::from_str(launch_program),
        launch_args,
    };
    assert(texts(r.launch_args@) =~= match launch_arg {
        Some(a) => seq![a@],
        None => Seq::<Seq<char>>::empty(),
    });
    r
}

/// The icon files of the built-in tools are relative paths made of names.
proof fn lemma_icon_paths_are_names()
    ensures
        is_name_path("explorer.exe"@),
        is_name_path("System32\\imageres.dll"@),
        is_name_path("System32\\calc.exe"@),
        is_name_path("System32\\control.exe"@),
        is_name_path("System32\\notepad.exe"@),
        is_name_path("System32\\cmd.exe"@),
        is_name_path("System32\\Taskmgr.exe"@),
        is_name_path("System32\\SnippingTool.exe"@),
{
    assert(is_name_path("explorer.exe"@)) by {
        reveal_strlit("explorer.exe");
        reveal_with_fuel(names_from, 13);
    }
    assert(is_name_path("System32\\imageres.dll"@)) by {
        reveal_strlit("System32\\imageres.dll");
        reveal_with_fuel(names_from, 22);
    }
    assert(is_name_path("System32\\calc.exe"@)) by {
        reveal_strlit("System32\\calc.exe");
        reveal_with_fuel(names_from, 18);
    }
    assert(is_name_path("System32\\control.exe"@)) by {
        reveal_strlit("System32\\control.exe");
        reveal_with_fuel(names_from, 21);
    }
    assert(is_name_path("System32\\notepad.exe"@)) by {
        reveal_strlit("System32\\notepad.exe");
        reveal_with_fuel(names_from, 21);
    }
    assert(is_name_path("System32\\cmd.exe"@)) by {
        reveal_strlit("System32\\cmd.exe");
        reveal_with_fuel(names_from, 17);
    }
    assert(is_name_path("System32\\Taskmgr.exe"@)) by {
        reveal_strlit("System32\\Taskmgr.exe");
        reveal_with_fuel(names_from, 21);
    }
    assert(is_name_path("System32\\SnippingTool.exe"@)) by {
        reveal_strlit("System32\\SnippingTool.exe");
        reveal_with_fuel(names_from, 26);
    }
}

/// The built-in Windows tools, with icon files under `windows_dir`.
pub fn system_apps(windows_dir: &str) -> (r: Vec<SystemApp>)
    ensures
        r.len() == system_app_defs().len(),
        forall|i: int| 0 <= i < r.len() ==> resolves(#[trigger] r@[i], system_app_defs()[i], windows_dir@),
{
    proof {
        reveal_strlit("explorer.exe");
        reveal_strlit("System32\\imageres.dll");
        reveal_strlit("System32\\calc.exe");
        reveal_strlit("System32\\control.exe");
        reveal_strlit("System32\\notepad.exe");
        reveal_strlit("System32\\cmd.exe");
        reveal_strlit("System32\\Taskmgr.exe");
        reveal_strlit("System32\\SnippingTool.exe");
        lemma_icon_paths_are_names();
    }
    let mut r: Vec<SystemApp> = Vec::new();
    r.push(system_app(windows_dir, "此电脑", "explorer.exe", None, "explorer.exe", Some("shell:MyComputerFolder")));
    r.push(system_app(windows_dir, "回收站", "System32\\imageres.dll", Some(55), "explorer.exe", Some("shell:RecycleBinFolder")));
    r.push(system_app(windows_dir, "计算器", "System32\\calc.exe", None, "calc.exe", None));
    r.push(system_app(windows_dir, "控制面板", "System32\\control.exe", None, "control.exe", None));
    r.push(system_app(windows_dir, "记事本", "System32\\notepad.exe", None, "notepad.exe", None));
    r.push(system_app(windows_dir, "命令提示符", "System32\\cmd.exe", None, "cmd.exe", None));
    r.push(system_app(windows_dir, "任务管理器", "System32\\Taskmgr.exe", None, "Taskmgr.exe", None));
    r.push(system_app(windows_dir, "截图工具", "System32\\SnippingTool.exe", None, "SnippingTool.exe", None));
    r.push(system_app(windows_dir, "Windows 设置", "System32\\imageres.dll", Some(114), "explorer.exe", Some("ms-settings:")));
    r
}

/// The cached icon path, or the empty text when there is none.
pub open spec fn icon_path_text(cached_icon: Option<Seq<char>>) -> Seq<char> {
    match cached_icon {
        Some(p) => p,
        None => Seq::empty(),
    }
}

/// The listing of a built-in tool; `cached_icon` is its icon file in the cache,
/// when that exists.
pub fn system_app_info(app: &SystemApp, cached_icon: Option<String>) -> (r: AppInfo)
    ensures
        r@ == (AppModel {
            name: app.name@,
            category: "system"@,
            can_launch: true,
            icon_path: icon_path_text(cached_icon.deep_view()),
            icon_source: Some(app.icon_source@),
            icon_index: app.icon_index,
            path: Some(app.launch_program@),
            install_date: None,
            install_location: None,
        }),
{
    AppInfo {
        name: app.name.clone(),
        category: String::from_str("system"),
        can_launch: true,
        icon_path: match cached_icon {
            Some(p) => p,
            None => String::new(),
        },
        icon_source: Some(app.icon_source.clone()),
        icon_index: app.icon_index,
        path: Some(app.launch_program.clone()),
        install_date: None,
        install_location: None,
    }
}

/// The listing of an installed application; `cached_icon` is its icon file in
/// the cache, when that exists. It can be started when its launch path is known.
pub fn installed_app_info(entry: RegistryEntry, cached_icon: Option<String>) -> (r: AppInfo)
    ensures
        r@ == (AppModel {
            name: entry.name@,
            category: "installed"@,
            can_launch: entry.launch_path is Some,
            icon_path: icon_path_text(cached_icon.deep_view()),
            icon_source: entry.icon_source.deep_view(),
            icon_index: entry.icon_index,
            path: entry.launch_path.deep_view(),
            install_date: entry.install_date.deep_view(),
            install_location: entry.install_location.deep_view(),
        }),
{
    let can_launch = entry.launch_path.is_some();
    AppInfo {
        name: entry.name,
        category: String::from_str("installed"),
        can_launch,
        icon_path: match cached_icon {
            Some(p) => p,
            None => String::new(),
        },
        icon_source: entry.icon_source,
        icon_index: entry.icon_index,
        path: entry.launch_path,
        install_date: entry.install_date,
        install_location: entry.install_location,
    }
}

} // verus!
