use ezcli::config::{
    add_project, delete_project, find_project, project_script_file_name, same_text,
    update_project_path, Config, Project,
};

fn config(projects: &[(&str, &str)]) -> Config {
    Config {
        vc_path: "C:\\VS\\vcvarsall.bat".to_string(),
        default_arch: "x64".to_string(),
        projects: projects
            .iter()
            .map(|(n, p)| Project { name: n.to_string(), path: p.to_string() })
            .collect(),
    }
}

fn listing(c: &Config) -> Vec<(String, String)> {
    c.projects.iter().map(|p| (p.name.clone(), p.path.clone())).collect()
}

#[test]
fn find_project_returns_first_match() {
    let c = config(&[("a", "1"), ("b", "2"), ("b", "3")]);
    assert_eq!(find_project(&c, "b").map(|p| p.path.as_str()), Some("2"));
    assert!(find_project(&c, "c").is_none());
    assert!(find_project(&c, "B").is_none());
}

#[test]
fn add_project_appends_new_name() {
    let mut c = config(&[("a", "1")]);
    let existed = add_project(&mut c, "handmade", "D:\\code\\handmade");
    assert!(!existed);
    assert_eq!(
        listing(&c),
        vec![
            ("a".to_string(), "1".to_string()),
            ("handmade".to_string(), "D:\\code\\handmade".to_string())
        ]
    );
    assert_eq!(c.vc_path, "C:\\VS\\vcvarsall.bat");
    assert_eq!(c.default_arch, "x64");
}

#[test]
fn add_project_updates_existing_name_in_place() {
    let mut c = config(&[("a", "1"), ("b", "2")]);
    let existed = add_project(&mut c, "a", "9");
    assert!(existed);
    assert_eq!(
        listing(&c),
        vec![("a".to_string(), "9".to_string()), ("b".to_string(), "2".to_string())]
    );
}

#[test]
fn find_after_add_gives_new_path_and_add_is_idempotent() {
    let mut c = config(&[]);
    add_project(&mut c, "p", "x");
    add_project(&mut c, "p", "x");
    assert_eq!(c.projects.len(), 1);
    assert_eq!(find_project(&c, "p").map(|p| p.path.as_str()), Some("x"));
}

#[test]
fn delete_project_removes_every_match() {
    let mut c = config(&[("a", "1"), ("b", "2"), ("a", "3")]);
    assert!(delete_project(&mut c, "a"));
    assert_eq!(listing(&c), vec![("b".to_string(), "2".to_string())]);
    assert!(!delete_project(&mut c, "a"));
    assert!(find_project(&c, "a").is_none());
}

#[test]
fn update_project_path_only_changes_existing() {
    let mut c = config(&[("a", "1")]);
    assert!(update_project_path(&mut c, "a", "2"));
    assert_eq!(listing(&c), vec![("a".to_string(), "2".to_string())]);
    assert!(!update_project_path(&mut c, "zz", "3"));
    assert_eq!(listing(&c), vec![("a".to_string(), "2".to_string())]);
}

#[test]
fn project_script_file_name_appends_suffix() {
    assert_eq!(project_script_file_name("handmade"), "handmade_l.bat");
}

#[test]
fn same_text_compares_characters() {
    assert!(same_text("abc", "abc"));
    assert!(!same_text("abc", "abd"));
    assert!(!same_text("abc", "ab"));
    assert!(same_text("", ""));
}
