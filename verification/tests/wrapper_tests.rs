use ezcli::wrapper::{
    add_source_line_to_profile, build_powershell_profile_source_line,
    render_cmd_ecl_wrapper_script, render_cmd_enter_project_wrapper_script,
    render_cmd_ep_wrapper_script, render_cmd_load_cl_wrapper_script,
    render_powershell_wrapper_script,
};

fn ps_wrapper(program: &str) -> String {
    let program = program.replace('\'', "''");
    format!(
        r#"
function ezcli-load-cl {{
    & '{program}' emit --shell powershell load-cl | Invoke-Expression
    Write-Host "cl environment loaded" -ForegroundColor Green
}}

function ezcli-enter-project {{
    param(
        [Parameter(Mandatory = $true)]
        [string]$Name
    )

    & '{program}' emit --shell powershell enter-project $Name | Invoke-Expression
}}
Set-Alias ecl ezcli-load-cl
Set-Alias ep ezcli-enter-project
        "#
    )
}

fn cmd_wrapper(action: &str, extra_args: &str, temp_stem: &str, announce: bool) -> String {
    let mut lines = vec![
        "@echo off".to_string(),
        format!(r#"set "EZCLI_WRAPPER_TMP=%TEMP%\{temp_stem}-%RANDOM%%RANDOM%.cmd""#),
        format!(r#"ezcli emit --shell cmd {action} --output "%EZCLI_WRAPPER_TMP%"{extra_args}"#),
        "if errorlevel 1 goto :cleanup".to_string(),
        r#"call "%EZCLI_WRAPPER_TMP%""#.to_string(),
    ];
    if announce {
        lines.push("echo cl environment loaded".to_string());
    }
    lines.extend([
        ":cleanup".to_string(),
        r#"if exist "%EZCLI_WRAPPER_TMP%" del "%EZCLI_WRAPPER_TMP%""#.to_string(),
        r#"set "EZCLI_WRAPPER_TMP=""#.to_string(),
        String::new(),
    ]);
    lines.join("\r\n")
}

#[test]
fn powershell_wrapper_embeds_quoted_program() {
    let p = "C:\\Users\\o'neil\\.cargo\\bin\\ezcli.exe";
    assert_eq!(render_powershell_wrapper_script(p), ps_wrapper(p));
    assert!(render_powershell_wrapper_script(p).contains("& 'C:\\Users\\o''neil"));
}

#[test]
fn cmd_wrappers_match_their_templates() {
    let p = "C:\\bin\\ezcli.exe";
    assert_eq!(render_cmd_load_cl_wrapper_script(p), cmd_wrapper("load-cl", "", "ezcli-load-cl", true));
    assert_eq!(render_cmd_ecl_wrapper_script(p), cmd_wrapper("load-cl", "", "ecl", true));
    assert_eq!(
        render_cmd_enter_project_wrapper_script(p),
        cmd_wrapper("enter-project", " %*", "ezcli-enter-project", false)
    );
    assert_eq!(render_cmd_ep_wrapper_script(p), cmd_wrapper("enter-project", " %*", "ep", false));
}

#[test]
fn cmd_wrapper_exact_text() {
    assert_eq!(
        render_cmd_ep_wrapper_script("a\"b"),
        "@echo off\r\nset \"EZCLI_WRAPPER_TMP=%TEMP%\\ep-%RANDOM%%RANDOM%.cmd\"\r\nezcli emit --shell cmd enter-project --output \"%EZCLI_WRAPPER_TMP%\" %*\r\nif errorlevel 1 goto :cleanup\r\ncall \"%EZCLI_WRAPPER_TMP%\"\r\n:cleanup\r\nif exist \"%EZCLI_WRAPPER_TMP%\" del \"%EZCLI_WRAPPER_TMP%\"\r\nset \"EZCLI_WRAPPER_TMP=\"\r\n"
    );
}

#[test]
fn cmd_wrappers_stay_ascii_for_non_ascii_program_paths() {
    let p = "C:/用户/ezcli.exe";
    for w in [
        render_cmd_load_cl_wrapper_script(p),
        render_cmd_ecl_wrapper_script(p),
        render_cmd_enter_project_wrapper_script(p),
        render_cmd_ep_wrapper_script(p),
    ] {
        assert!(w.is_ascii());
        assert!(!w.contains("用户"));
    }
}

#[test]
fn source_line_dot_sources_quoted_path() {
    assert_eq!(
        build_powershell_profile_source_line("C:\\Users\\o'neil\\.ezcli\\ezcli-wrapper.ps1"),
        ". 'C:\\Users\\o''neil\\.ezcli\\ezcli-wrapper.ps1'"
    );
}

#[test]
fn profile_gets_line_appended_once() {
    let line = ". 'C:\\w.ps1'";
    assert_eq!(add_source_line_to_profile("", line), Some(format!("{line}\n")));
    assert_eq!(add_source_line_to_profile("Import-Module x", line), Some(format!("Import-Module x\n{line}\n")));
    assert_eq!(add_source_line_to_profile("Import-Module x\n", line), Some(format!("Import-Module x\n{line}\n")));
    let once = add_source_line_to_profile("a\r\nb", line).unwrap();
    assert_eq!(once, format!("a\r\nb\n{line}\n"));
    assert_eq!(add_source_line_to_profile(&once, line), None);
}

#[test]
fn profile_already_having_line_is_unchanged() {
    let line = ". 'C:\\w.ps1'";
    assert_eq!(add_source_line_to_profile("x\r\n   . 'C:\\w.ps1'  \r\ny", line), None);
    assert_eq!(add_source_line_to_profile(". 'C:\\w.ps1'", line), None);
    assert!(add_source_line_to_profile("# . 'C:\\w.ps1'", line).is_some());
}

#[test]
fn ecl_and_ep_differ_from_their_long_forms_only_in_the_stem() {
    for p in ["C:\\bin\\ezcli.exe", "C:/用户/ezcli.exe"] {
        assert_eq!(
            render_cmd_ecl_wrapper_script(p),
            render_cmd_load_cl_wrapper_script(p).replacen("%TEMP%\\ezcli-load-cl-", "%TEMP%\\ecl-", 1)
        );
        assert_eq!(
            render_cmd_ep_wrapper_script(p),
            render_cmd_enter_project_wrapper_script(p)
                .replacen("%TEMP%\\ezcli-enter-project-", "%TEMP%\\ep-", 1)
        );
    }
}
