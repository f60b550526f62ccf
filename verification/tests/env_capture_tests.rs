use ezcli::env_capture::{
    build_vcvars_command_line, diff_env_vars, env_changes_from_output, extract_between_markers,
    parse_env_block, MarkerError, ENV_AFTER_BEGIN, ENV_AFTER_END, ENV_BEFORE_BEGIN, ENV_BEFORE_END,
};
use ezcli::env_map::EnvMap;

fn pairs(m: &EnvMap) -> Vec<(String, String)> {
    (0..m.len()).map(|i| (m.key_at(i).clone(), m.value_at(i).clone())).collect()
}

fn env(ps: &[(&str, &str)]) -> EnvMap {
    let mut m = EnvMap::new();
    for (k, v) in ps {
        m.insert(k.to_string(), v.to_string());
    }
    m
}

fn owned(ps: &[(&str, &str)]) -> Vec<(String, String)> {
    ps.iter().map(|(k, v)| (k.to_string(), v.to_string())).collect()
}

#[test]
fn vcvars_command_line_is_exact() {
    assert_eq!(
        build_vcvars_command_line("C:\\VS\\vcvarsall.bat", "x64"),
        "echo __EZCLI_ENV_BEFORE_BEGIN__ && set && echo __EZCLI_ENV_BEFORE_END__ && call \"C:\\VS\\vcvarsall.bat\" x64 && echo __EZCLI_ENV_AFTER_BEGIN__ && set && echo __EZCLI_ENV_AFTER_END__"
    );
}

#[test]
fn extract_returns_text_between_markers_without_line_breaks() {
    let text = "noise\r\nBEGIN\r\nA=1\r\nB=2\r\nEND\r\nmore";
    assert_eq!(extract_between_markers(text, "BEGIN", "END").ok(), Some("A=1\r\nB=2"));
}

#[test]
fn extract_keeps_inner_spaces_and_uses_first_markers() {
    let text = "B  x \nE E B y E";
    assert_eq!(extract_between_markers(text, "B", "E").ok(), Some("  x "));
}

#[test]
fn extract_reports_missing_begin_marker() {
    match extract_between_markers("nothing here", "BEGIN", "END") {
        Err(e @ MarkerError::BeginNotFound(_)) => {
            assert_eq!(e.message(), "begin marker not found: BEGIN")
        }
        _ => panic!("expected a missing begin marker"),
    }
}

#[test]
fn extract_reports_missing_end_marker() {
    match extract_between_markers("END BEGIN then", "BEGIN", "END") {
        Err(e @ MarkerError::EndNotFound(_)) => assert_eq!(e.message(), "end marker not found: END"),
        _ => panic!("expected a missing end marker"),
    }
}

#[test]
fn extract_empty_content() {
    assert_eq!(extract_between_markers("BEGIN\r\n\r\nEND", "BEGIN", "END").ok(), Some(""));
}

#[test]
fn parse_env_block_reads_set_output() {
    let out = "Path=C:\\a;C:\\b\r\n  NAME  = value with = sign \r\n=C:=C:\\\r\nno equals here\r\n\r\nA=1\nA=2";
    let m = parse_env_block(out);
    assert_eq!(
        pairs(&m),
        owned(&[("A", "2"), ("NAME", " value with = sign "), ("Path", "C:\\a;C:\\b")])
    );
}

#[test]
fn parse_env_block_keeps_bare_carriage_return_at_end() {
    let m = parse_env_block("X=1\rY=2\r");
    assert_eq!(pairs(&m), owned(&[("X", "1\rY=2\r")]));
}

#[test]
fn parse_env_block_of_empty_text_is_empty() {
    assert!(parse_env_block("").is_empty());
    assert!(parse_env_block("\n\n").is_empty());
}

#[test]
fn diff_keeps_new_and_changed_variables_only() {
    let before = env(&[("Path", "C:\\old"), ("TEMP", "t"), ("GONE", "g")]);
    let after = env(&[("PATH", "C:\\new;C:\\old"), ("TEMP", "t"), ("INCLUDE", "inc")]);
    let d = diff_env_vars(before, after);
    assert_eq!(pairs(&d), owned(&[("INCLUDE", "inc"), ("PATH", "C:\\new;C:\\old")]));
}

#[test]
fn diff_matches_names_ignoring_case() {
    let before = env(&[("Path", "same")]);
    let after = env(&[("PATH", "same")]);
    assert!(diff_env_vars(before, after).is_empty());
}

#[test]
fn diff_of_same_snapshot_is_empty() {
    let a = env(&[("A", "1"), ("B", "2")]);
    let b = env(&[("A", "1"), ("B", "2")]);
    assert!(diff_env_vars(a, b).is_empty());
}

#[test]
fn diff_with_case_collision_uses_last_name_in_order() {
    // "Path" sorts after "PATH", so its value stands for both.
    let before = env(&[("PATH", "x"), ("Path", "y")]);
    let after = env(&[("PATH", "x")]);
    assert_eq!(pairs(&diff_env_vars(before, after)), owned(&[("PATH", "x")]));
}

#[test]
fn env_changes_from_full_output() {
    let stdout = format!(
        "{}\r\nA=1\r\nB=2\r\n{}\r\n** vcvars banner **\r\n{}\r\nA=1\r\nB=3\r\nC=4\r\n{}\r\n",
        ENV_BEFORE_BEGIN, ENV_BEFORE_END, ENV_AFTER_BEGIN, ENV_AFTER_END
    );
    let m = env_changes_from_output(&stdout).ok().expect("markers present");
    assert_eq!(pairs(&m), owned(&[("B", "3"), ("C", "4")]));
}

#[test]
fn env_changes_reports_missing_after_marker() {
    let stdout = format!("{}\r\nA=1\r\n{}\r\n", ENV_BEFORE_BEGIN, ENV_BEFORE_END);
    match env_changes_from_output(&stdout) {
        Err(e) => assert_eq!(e.message(), format!("begin marker not found: {}", ENV_AFTER_BEGIN)),
        Ok(_) => panic!("expected an error"),
    }
}

#[test]
fn env_changes_reports_before_block_first() {
    match env_changes_from_output("no markers at all") {
        Err(e) => assert_eq!(e.message(), format!("begin marker not found: {}", ENV_BEFORE_BEGIN)),
        Ok(_) => panic!("expected an error"),
    }
    let stdout = format!("{}\r\nA=1\r\n{}\r\nB=2\r\n{}\r\n", ENV_BEFORE_BEGIN, ENV_AFTER_BEGIN, ENV_AFTER_END);
    match env_changes_from_output(&stdout) {
        Err(e) => assert_eq!(e.message(), format!("end marker not found: {}", ENV_BEFORE_END)),
        Ok(_) => panic!("expected an error"),
    }
}
