use ssmtool::{build_env_map, variable_name, EnvArgs, EnvError, Parameter};

fn param(name: &str, value: &str) -> Parameter {
    Parameter::new(name.to_string(), value.to_string())
}

fn args(path: &str, uppercase: bool, add_prefix: Option<&str>) -> EnvArgs {
    EnvArgs {
        path: path.to_string(),
        uppercase,
        add_prefix: add_prefix.map(|p| p.to_string()),
        command: vec!["env".to_string()],
    }
}

#[test]
fn end_to_end_example() {
    let a = args("/app/", true, Some("MYAPP_"));
    let params = vec![param("/app/DB_HOST", "db1"), param("/app/db_port", "5432")];
    let env = build_env_map(&a, &params).ok().unwrap();
    assert_eq!(env.len(), 2);
    assert_eq!(env.get("MYAPP_DB_HOST").map(|s| s.as_str()), Some("db1"));
    assert_eq!(env.get("MYAPP_DB_PORT").map(|s| s.as_str()), Some("5432"));
    assert!(env.get("MYAPP_db_port").is_none());
}

#[test]
fn strips_path_without_changes() {
    let a = args("/app/", false, None);
    let params = vec![param("/app/db_port", "5432"), param("/app/nested/key", "v")];
    let env = build_env_map(&a, &params).ok().unwrap();
    assert_eq!(env.len(), 2);
    assert_eq!(env.get("db_port").map(|s| s.as_str()), Some("5432"));
    assert_eq!(env.get("nested/key").map(|s| s.as_str()), Some("v"));
}

#[test]
fn uppercase_changes_the_name() {
    let a = args("/svc", true, None);
    assert_eq!(variable_name(&a, "/svc/mixed_Case"), "/MIXED_CASE");
    let a = args("/svc/", true, None);
    assert_eq!(variable_name(&a, "/svc/straße"), "STRASSE");
}

#[test]
fn prefix_is_added_verbatim() {
    let a = args("/p/", false, Some("pre_"));
    assert_eq!(variable_name(&a, "/p/name"), "pre_name");
    assert_eq!(variable_name(&a, "/p/"), "pre_");
}

#[test]
fn later_parameter_wins_on_collision() {
    let a = args("/app/", true, None);
    let params = vec![
        param("/app/key", "first"),
        param("/app/other", "x"),
        param("/app/KEY", "second"),
    ];
    let env = build_env_map(&a, &params).ok().unwrap();
    assert_eq!(env.len(), 2);
    assert_eq!(env.get("KEY").map(|s| s.as_str()), Some("second"));
    assert_eq!(env.get("OTHER").map(|s| s.as_str()), Some("x"));
}

#[test]
fn prefix_mismatch_is_refused() {
    let a = args("/app/", false, None);
    let params = vec![
        param("/app/ok", "1"),
        param("/other/bad", "2"),
        param("/also/bad", "3"),
    ];
    match build_env_map(&a, &params) {
        Err(EnvError::PrefixMismatch { name }) => assert_eq!(name, "/other/bad"),
        Ok(_) => panic!("a mapping was built"),
    }
}

#[test]
fn shorter_name_than_path_is_refused() {
    let a = args("/application/", false, None);
    let params = vec![param("/app", "1")];
    assert!(build_env_map(&a, &params).is_err());
}

#[test]
fn error_message_names_the_parameter() {
    let e = EnvError::PrefixMismatch { name: "/x/y".to_string() };
    assert_eq!(e.message(), "Parameter name does not begin with the requested path: /x/y");
}

#[test]
fn no_parameters_give_an_empty_mapping() {
    let a = args("/app/", true, Some("X_"));
    let env = build_env_map(&a, &[]).ok().unwrap();
    assert_eq!(env.len(), 0);
    assert!(env.into_pairs().is_empty());
}

#[test]
fn mapping_twice_gives_the_same_result() {
    let a = args("/app/", true, Some("P_"));
    let params = vec![param("/app/a", "1"), param("/app/b", "2"), param("/app/A", "3")];
    let first = build_env_map(&a, &params).ok().unwrap().into_pairs();
    let second = build_env_map(&a, &params).ok().unwrap().into_pairs();
    assert_eq!(first, second);
    assert_eq!(first, vec![("P_A".to_string(), "3".to_string()), ("P_B".to_string(), "2".to_string())]);
}
