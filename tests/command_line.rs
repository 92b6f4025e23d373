use todo_core::command_line::{parse_command_line, resolve_aliases, validate_alias_definitions};
use todo_core::config::Config;
use todo_core::config_override::{extract_config_override_args, ConfigOverrideTarget};
use todo_core::error::AppError;
use todo_core::model::{status_label, TaskStatus};

fn strings(items: &[&str]) -> Vec<String> {
    items.iter().map(|s| s.to_string()).collect()
}

fn config(aliases: &[(&str, &str)]) -> Config {
    Config {
        theme: None,
        aliases: aliases
            .iter()
            .map(|(k, v)| (k.to_string(), v.to_string()))
            .collect(),
    }
}

#[test]
fn parse_command_line_splits_and_quotes() {
    assert_eq!(
        parse_command_line(r#"add "Buy milk" --urgent"#).unwrap(),
        strings(&["add", "Buy milk", "--urgent"])
    );
    assert_eq!(
        parse_command_line(r#"done 1 -m "say \"hi\" \n""#).unwrap(),
        strings(&["done", "1", "-m", r#"say "hi" \n"#])
    );
    assert_eq!(parse_command_line("   ").unwrap(), Vec::<String>::new());
    assert_eq!(parse_command_line(r#"a""b"#).unwrap(), strings(&["ab"]));
}

#[test]
fn parse_command_line_rejects_open_quote() {
    let err = parse_command_line(r#"add "milk"#).unwrap_err();
    assert_eq!(
        err,
        AppError::InvalidInput("unterminated quote in command".to_string())
    );
}

#[test]
fn resolve_aliases_expands_first_plain_argument() {
    let cfg = config(&[("ls", "list today"), ("t", "ls")]);
    assert_eq!(
        resolve_aliases(strings(&["--json", "t", "x"]), &cfg).unwrap(),
        strings(&["--json", "list", "today", "x"])
    );
    assert_eq!(
        resolve_aliases(strings(&["add", "ls"]), &cfg).unwrap(),
        strings(&["add", "ls"])
    );
}

#[test]
fn resolve_aliases_reports_bad_expansion() {
    let cfg = config(&[("bad", "add \"open")]);
    let err = resolve_aliases(strings(&["bad"]), &cfg).unwrap_err();
    assert_eq!(
        err,
        AppError::InvalidData(
            "alias 'bad' invalid: invalid_input - unterminated quote in command".to_string()
        )
    );
}

#[test]
fn resolve_aliases_stops_endless_expansion() {
    let cfg = config(&[("a", "-x a")]);
    let err = resolve_aliases(strings(&["a"]), &cfg).unwrap_err();
    assert_eq!(err.code(), "invalid_data");
}

#[test]
fn validate_alias_definitions_accepts_chains() {
    let cfg = config(&[("ls", "list today"), ("t", "ls --json")]);
    assert_eq!(validate_alias_definitions(&cfg.aliases), Ok(()));
}

#[test]
fn validate_alias_definitions_reports_problems() {
    let err = validate_alias_definitions(&config(&[("e", "  ")]).aliases).unwrap_err();
    assert_eq!(
        err,
        AppError::InvalidInput("alias 'e' has empty expansion".to_string())
    );
    let err = validate_alias_definitions(&config(&[("s", "s today")]).aliases).unwrap_err();
    assert_eq!(
        err,
        AppError::InvalidInput("alias 's' expands to itself".to_string())
    );
    let err =
        validate_alias_definitions(&config(&[("a", "b x"), ("b", "a y")]).aliases).unwrap_err();
    assert_eq!(
        err,
        AppError::InvalidInput("alias 'a' introduces a cycle".to_string())
    );
    let err = validate_alias_definitions(&config(&[("q", "\"")]).aliases).unwrap_err();
    assert_eq!(
        err,
        AppError::InvalidInput(
            "alias 'q' invalid: invalid_input - unterminated quote in command".to_string()
        )
    );
}

#[test]
fn extract_config_override_args_separates_overrides() {
    let raw = strings(&[
        "list",
        "--config-override",
        "theme=noir",
        "--config-override=aliases.ls=list today",
        "today",
    ]);
    let (filtered, overrides, tokens) = extract_config_override_args(&raw).unwrap();
    assert_eq!(filtered, strings(&["list", "today"]));
    assert_eq!(overrides.len(), 2);
    assert_eq!(overrides[0].target, ConfigOverrideTarget::Theme);
    assert_eq!(overrides[0].value, "noir");
    assert_eq!(
        overrides[1].target,
        ConfigOverrideTarget::Alias("ls".to_string())
    );
    assert_eq!(
        tokens,
        strings(&[
            "--config-override",
            "theme=noir",
            "--config-override=aliases.ls=list today"
        ])
    );
}

#[test]
fn extract_config_override_args_reports_errors() {
    let err = extract_config_override_args(&strings(&["--config-override"])).unwrap_err();
    assert_eq!(
        err,
        AppError::InvalidInput("missing value for --config-override".to_string())
    );
    let err = extract_config_override_args(&strings(&["--config-override=nope"])).unwrap_err();
    assert_eq!(
        err,
        AppError::InvalidInput(
            "--config-override invalid: override must be in KEY=VALUE format".to_string()
        )
    );
}

#[test]
fn status_label_names_statuses() {
    assert_eq!(status_label(TaskStatus::Pending), "pending");
    assert_eq!(status_label(TaskStatus::Completed), "completed");
}
