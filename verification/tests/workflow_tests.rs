use ezcli::config::{Config, Project};
use ezcli::env_map::EnvMap;
use ezcli::render::ShellKind;
use ezcli::workflow::{
    build_enter_project_script, build_init_script, build_load_cl_script, confirm_answer,
    enter_project_script, extend_path_value, install_profile_report, is_vcvarsall_path,
    load_cl_command_line, show_profile, ShellError,
};
use ezcli::wrapper::render_powershell_wrapper_script;

#[test]
fn load_cl_script_sets_captured_variables() {
    let mut m = EnvMap::new();
    m.insert("INCLUDE".to_string(), "C:\\inc".to_string());
    m.insert("LIB".to_string(), "C:\\lib".to_string());
    assert_eq!(
        build_load_cl_script(ShellKind::Powershell, m.clone()),
        "$env:INCLUDE = 'C:\\inc'\n$env:LIB = 'C:\\lib'"
    );
    assert_eq!(
        build_load_cl_script(ShellKind::Cmd, m),
        "set \"INCLUDE=C:\\inc\"\r\nset \"LIB=C:\\lib\"\r\n"
    );
}

#[test]
fn enter_project_script_prepends_path_and_changes_directory() {
    let p = Project { name: "handmade".to_string(), path: "D:\\code\\handmade".to_string() };
    assert_eq!(
        build_enter_project_script(ShellKind::Powershell, &p),
        "$env:Path = 'D:\\code\\handmade;' + $env:Path\nSet-Location -LiteralPath 'D:\\code\\handmade'"
    );
    assert_eq!(
        build_enter_project_script(ShellKind::Cmd, &p),
        "set \"PATH=D:\\code\\handmade;%PATH%\"\r\ncd /d \"D:\\code\\handmade\"\r\n"
    );
}

#[test]
fn enter_project_script_looks_up_the_name() {
    let c = Config {
        vc_path: String::new(),
        default_arch: "x64".to_string(),
        projects: vec![Project { name: "a".to_string(), path: "C:\\a".to_string() }],
    };
    assert_eq!(
        enter_project_script(ShellKind::Cmd, &c, "a"),
        Some("set \"PATH=C:\\a;%PATH%\"\r\ncd /d \"C:\\a\"\r\n".to_string())
    );
    assert_eq!(enter_project_script(ShellKind::Cmd, &c, "b"), None);
}

#[test]
fn init_script_is_powershell_only() {
    assert_eq!(
        build_init_script(ShellKind::Powershell, "C:\\ezcli.exe"),
        Ok(render_powershell_wrapper_script("C:\\ezcli.exe"))
    );
    assert_eq!(build_init_script(ShellKind::Cmd, "C:\\ezcli.exe"), Err(ShellError::CmdInitUnsupported));
    assert_eq!(
        ShellError::CmdInitUnsupported.message(),
        "cmd init is not supported; use `ezcli emit --shell cmd install-wrapper` instead"
    );
}

#[test]
fn show_profile_reports_path_and_line() {
    assert_eq!(
        show_profile(ShellKind::Powershell, "C:\\p.ps1", ". 'C:\\w.ps1'"),
        Ok("profile path: C:\\p.ps1\nsource line: . 'C:\\w.ps1'".to_string())
    );
    assert_eq!(show_profile(ShellKind::Cmd, "x", "y"), Err(ShellError::CmdProfileUnsupported));
    assert_eq!(
        ShellError::CmdProfileUnsupported.message(),
        "cmd has no profile support; use `ezcli emit --shell cmd install-wrapper` instead"
    );
}

#[test]
fn install_profile_report_says_whether_it_changed() {
    assert_eq!(
        install_profile_report(ShellKind::Powershell, true, "C:\\p.ps1"),
        Ok("powershell profile updated: C:\\p.ps1".to_string())
    );
    assert_eq!(
        install_profile_report(ShellKind::Powershell, false, "C:\\p.ps1"),
        Ok("powershell profile already configured: C:\\p.ps1".to_string())
    );
    assert_eq!(install_profile_report(ShellKind::Cmd, true, "x"), Err(ShellError::CmdProfileUnsupported));
}

#[test]
fn confirm_answer_reads_y_and_n() {
    assert_eq!(confirm_answer("y\n"), Some(true));
    assert_eq!(confirm_answer("  Y \r\n"), Some(true));
    assert_eq!(confirm_answer("n\n"), Some(false));
    assert_eq!(confirm_answer("N"), Some(false));
    assert_eq!(confirm_answer("yes\n"), None);
    assert_eq!(confirm_answer("\n"), None);
    assert_eq!(confirm_answer(""), None);
    assert_eq!(confirm_answer("q"), None);
}

#[test]
fn extend_path_value_adds_directory_once() {
    let dir = "C:\\Users\\me\\.ezcli";
    assert_eq!(extend_path_value("", dir), Some(dir.to_string()));
    let once = extend_path_value("C:\\Windows;C:\\bin", dir).unwrap();
    assert_eq!(once, format!("C:\\Windows;C:\\bin;{dir}"));
    assert_eq!(extend_path_value(&once, dir), None);
    assert_eq!(extend_path_value("c:\\users\\ME\\.EZCLI;x", dir), None);
    assert_eq!(extend_path_value("C:\\Users\\me\\.ezcli2", dir), Some(format!("C:\\Users\\me\\.ezcli2;{dir}")));
    assert_eq!(extend_path_value(";", dir), Some(format!(";;{dir}")));
}

#[test]
fn vcvarsall_path_check() {
    assert!(is_vcvarsall_path("C:\\VS\\VC\\Auxiliary\\Build\\vcvarsall.bat"));
    assert!(is_vcvarsall_path("vcvarsall.bat"));
    assert!(!is_vcvarsall_path("vcvarsall.bat.txt"));
    assert!(!is_vcvarsall_path("C:\\VS\\VCVARSALL.BAT"));
    assert!(!is_vcvarsall_path(""));
}

#[test]
fn load_cl_command_lines() {
    assert_eq!(
        load_cl_command_line("C:\\VS\\vcvarsall.bat", "x64", false),
        r#"/s /k "call "C:\VS\vcvarsall.bat" x64""#
    );
    assert_eq!(
        load_cl_command_line("C:\\VS\\vcvarsall.bat", "x64", true),
        r#"/s /k "call "%ConEmuDir%\..\init.bat" && call "C:\VS\vcvarsall.bat" x64""#
    );
}
