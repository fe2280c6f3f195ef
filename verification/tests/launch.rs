use lunar::apps::{installed_app_info, system_app_info, system_apps};
use lunar::launch::{
    icon_extraction_failed_message, icon_source_missing_message, installed_apps_failure_message,
    installed_launch_target, launch_failure_message, plan_launch, LaunchPlan,
};
use lunar::registry::RegistryEntry;

fn entry(name: &str, launch: Option<&str>) -> RegistryEntry {
    RegistryEntry {
        name: name.to_string(),
        icon_source: launch.map(|s| s.to_string()),
        icon_index: Some(3),
        launch_path: launch.map(|s| s.to_string()),
        install_date: Some("20240101".to_string()),
        install_location: None,
    }
}

#[test]
fn system_tools_resolve_under_windows_dir() {
    let apps = system_apps(r"C:\Windows");
    assert_eq!(apps.len(), 9);
    assert_eq!(apps[0].name, "此电脑");
    assert_eq!(apps[0].icon_source, r"C:\Windows\explorer.exe");
    assert_eq!(apps[0].launch_args, vec!["shell:MyComputerFolder".to_string()]);
    assert_eq!(apps[1].icon_source, r"C:\Windows\System32\imageres.dll");
    assert_eq!(apps[1].icon_index, Some(55));
    assert_eq!(apps[8].name, "Windows 设置");
    assert_eq!(apps[8].icon_index, Some(114));
    assert_eq!(apps[8].launch_program, "explorer.exe");
    assert!(apps[2].launch_args.is_empty());
    let trailing = system_apps(r"D:\Win\");
    assert_eq!(trailing[2].icon_source, r"D:\Win\System32\calc.exe");
}

#[test]
fn system_tool_listing() {
    let apps = system_apps(r"C:\Windows");
    let info = system_app_info(&apps[1], Some(r"C:\cache\icons\1.png".to_string()));
    assert_eq!(info.name, "回收站");
    assert_eq!(info.category, "system");
    assert!(info.can_launch);
    assert_eq!(info.icon_path, r"C:\cache\icons\1.png");
    assert_eq!(info.icon_source.as_deref(), Some(r"C:\Windows\System32\imageres.dll"));
    assert_eq!(info.icon_index, Some(55));
    assert_eq!(info.path.as_deref(), Some("explorer.exe"));
    assert_eq!(info.install_date, None);
    let bare = system_app_info(&apps[2], None);
    assert_eq!(bare.icon_path, "");
}

#[test]
fn installed_listing() {
    let info = installed_app_info(entry("App", Some(r"C:\a.exe")), None);
    assert_eq!(info.category, "installed");
    assert!(info.can_launch);
    assert_eq!(info.path.as_deref(), Some(r"C:\a.exe"));
    assert_eq!(info.icon_index, Some(3));
    assert_eq!(info.install_date.as_deref(), Some("20240101"));
    assert_eq!(info.icon_path, "");
    let info = installed_app_info(entry("App", None), Some("x.png".to_string()));
    assert!(!info.can_launch);
    assert_eq!(info.icon_path, "x.png");
}

#[test]
fn plans_system_launch_by_name_ignoring_ascii_case() {
    match plan_launch("system", "windows 设置") {
        Ok(LaunchPlan::Spawn { program, args }) => {
            assert_eq!(program, "explorer.exe");
            assert_eq!(args, vec!["ms-settings:".to_string()]);
        }
        _ => panic!("expected a spawn"),
    }
    match plan_launch("system", "记事本") {
        Ok(LaunchPlan::Spawn { program, args }) => {
            assert_eq!(program, "notepad.exe");
            assert!(args.is_empty());
        }
        _ => panic!("expected a spawn"),
    }
}

#[test]
fn refuses_unknown_tool_and_category() {
    match plan_launch("system", "Paint") {
        Err(message) => assert_eq!(message, "未找到系统应用: Paint"),
        _ => panic!("expected an error"),
    }
    match plan_launch("web", "x") {
        Err(message) => assert_eq!(message, "不支持的应用分类: web"),
        _ => panic!("expected an error"),
    }
    assert!(matches!(plan_launch("installed", "x"), Ok(LaunchPlan::LookUpInstalled)));
    assert!(matches!(plan_launch("System", "记事本"), Err(_)));
}

#[test]
fn installed_target_by_name() {
    let entries = vec![entry("Alpha", None), entry("Beta", Some(r"C:\b.exe")), entry("beta", Some(r"C:\c.exe"))];
    assert_eq!(installed_launch_target("BETA", &entries), Ok(r"C:\b.exe".to_string()));
    assert_eq!(
        installed_launch_target("alpha", &entries),
        Err("“alpha”没有可用的启动路径".to_string())
    );
    assert_eq!(
        installed_launch_target("Gamma", &entries),
        Err("未找到已安装应用: Gamma".to_string())
    );
}

#[test]
fn messages() {
    assert_eq!(launch_failure_message("记事本", "denied"), "无法打开“记事本”: denied");
    assert_eq!(icon_source_missing_message(r"C:\x.ico"), r"图标源文件不存在: C:\x.ico");
    assert_eq!(icon_extraction_failed_message(r"C:\x.ico"), r"无法提取图标: C:\x.ico");
    assert_eq!(installed_apps_failure_message("panic"), "读取已安装应用失败: panic");
}
