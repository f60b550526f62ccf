use ezcli::env_map::EnvMap;
use ezcli::render::{
    cmd_quote, join_strings, ps_env_ref_exec, ps_quote, render_cmd_script, render_powershell_script, render_script,
    ScriptPlan, ShellKind,
};

fn env(pairs: &[(&str, &str)]) -> EnvMap {
    let mut m = EnvMap::new();
    for (k, v) in pairs {
        m.insert(k.to_string(), v.to_string());
    }
    m
}

fn plan(pairs: &[(&str, &str)], paths: &[&str], cwd: Option<&str>) -> ScriptPlan {
    ScriptPlan {
        set_env: env(pairs),
        prepend_path: paths.iter().map(|p| p.to_string()).collect(),
        cwd: cwd.map(|c| c.to_string()),
    }
}

#[test]
fn ps_quote_doubles_single_quotes() {
    assert_eq!(ps_quote("it's"), "it''s");
    assert_eq!(ps_quote("''"), "''''");
    assert_eq!(ps_quote("plain"), "plain");
    assert_eq!(ps_quote(""), "");
    assert_eq!(ps_quote("a\"b"), "a\"b");
}

#[test]
fn cmd_quote_doubles_double_quotes() {
    assert_eq!(cmd_quote("say \"hi\""), "say \"\"hi\"\"");
    assert_eq!(cmd_quote("it's"), "it's");
    assert_eq!(cmd_quote(""), "");
}

#[test]
fn join_strings_uses_separator_between_parts() {
    let parts = vec!["a".to_string(), "b".to_string(), "c".to_string()];
    assert_eq!(join_strings(&parts, ";"), "a;b;c");
    assert_eq!(join_strings(&vec![], ";"), "");
    assert_eq!(join_strings(&vec!["x".to_string()], ";"), "x");
}

#[test]
fn powershell_script_of_empty_plan_is_empty() {
    let p = ScriptPlan::default();
    assert_eq!(render_powershell_script(&p), "");
}

#[test]
fn cmd_script_of_empty_plan_is_one_crlf() {
    let p = ScriptPlan::default();
    assert_eq!(render_cmd_script(&p), "\r\n");
}

#[test]
fn powershell_script_sets_variables_in_name_order() {
    let p = plan(&[("ZED", "1"), ("ALPHA", "it's")], &[], None);
    assert_eq!(
        render_powershell_script(&p),
        "$env:ALPHA = 'it''s'\n$env:ZED = '1'"
    );
}

#[test]
fn powershell_script_prepends_paths_and_changes_directory() {
    let p = plan(&[], &["C:\\a", "D:\\b'c"], Some("C:\\work dir"));
    assert_eq!(
        render_powershell_script(&p),
        "$env:Path = 'C:\\a;D:\\b''c;' + $env:Path\nSet-Location -LiteralPath 'C:\\work dir'"
    );
}

#[test]
fn cmd_script_full_plan() {
    let p = plan(&[("INCLUDE", "C:\\inc \"x\"")], &["C:\\p"], Some("C:\\p"));
    assert_eq!(
        render_cmd_script(&p),
        "set \"INCLUDE=C:\\inc \"\"x\"\"\"\r\nset \"PATH=C:\\p;%PATH%\"\r\ncd /d \"C:\\p\"\r\n"
    );
}

#[test]
fn render_script_dispatches_on_shell() {
    let p = plan(&[("A", "b")], &[], None);
    assert_eq!(render_script(ShellKind::Powershell, &p), "$env:A = 'b'");
    assert_eq!(render_script(ShellKind::Cmd, &p), "set \"A=b\"\r\n");
}

#[test]
fn script_plan_clone_keeps_contents() {
    let p = plan(&[("A", "b")], &["x"], Some("y"));
    let q = p.clone();
    assert_eq!(render_cmd_script(&q), render_cmd_script(&p));
}

fn undouble(q: &str, c: char) -> String {
    let chars: Vec<char> = q.chars().collect();
    let mut out = String::new();
    let mut i = 0;
    while i < chars.len() {
        if i + 1 < chars.len() && chars[i] == c && chars[i + 1] == c {
            out.push(c);
            i += 2;
        } else {
            out.push(chars[i]);
            i += 1;
        }
    }
    out
}

#[test]
fn quoted_values_read_back() {
    for s in ["", "'", "''", "a'b'c", "x\"y", "\"\"\"", "plain", "C:\\Users\\o'neil"] {
        assert_eq!(undouble(&ps_quote(s), '\''), s);
        assert_eq!(undouble(&cmd_quote(s), '"'), s);
    }
}

#[test]
fn powershell_braces_names_that_are_not_plain() {
    let p = plan(&[("CommonProgramFiles(x86)", "C:\\CPF")], &[], None);
    assert_eq!(render_powershell_script(&p), "${env:CommonProgramFiles(x86)} = 'C:\\CPF'");
    let p = plan(&[("a}b`c", "v"), ("PLAIN_1", "w")], &[], None);
    assert_eq!(render_powershell_script(&p), "$env:PLAIN_1 = 'w'\n${env:a`}b``c} = 'v'");
}

#[test]
fn ps_env_ref_forms() {
    assert_eq!(ps_env_ref_exec("Path"), "$env:Path");
    assert_eq!(ps_env_ref_exec("ProgramFiles(x86)"), "${env:ProgramFiles(x86)}");
    assert_eq!(ps_env_ref_exec("A B"), "${env:A B}");
    assert_eq!(ps_env_ref_exec(""), "${env:}");
}
