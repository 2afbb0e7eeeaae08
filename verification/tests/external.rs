use cutler::external::runner::{exec_message, extract, run_all_commands, run_one, RunError};
use cutler::external::{external_plan, extract_external_commands, shell_invocation, shell_message, variable_text, ExternalError};
use cutler::value::ConfigValue;

fn t(s: &str) -> ConfigValue {
    ConfigValue::Text(s.to_string())
}

fn table(entries: Vec<(&str, ConfigValue)>) -> ConfigValue {
    ConfigValue::Table(entries.into_iter().map(|(k, v)| (k.to_string(), v)).collect(), String::new())
}

fn arr(items: Vec<ConfigValue>) -> ConfigValue {
    ConfigValue::Array(items, String::new())
}

fn config() -> ConfigValue {
    table(vec![(
        "external",
        table(vec![
            ("variables", table(vec![("hostname", t("mac")), ("names", arr(vec![t("a"), ConfigValue::Integer(1), t("b")]))])),
            ("command", arr(vec![
                table(vec![("cmd", t("scutil")), ("args", arr(vec![t("--set"), t("HostName"), t("$hostname")])), ("sudo", ConfigValue::Boolean(true))]),
                table(vec![("cmd", t("echo")), ("args", arr(vec![t("two words"), t("'quoted one'"), t("$names")]))]),
            ])),
        ]),
    )])
}

#[test]
fn extract_for_snapshot() {
    let cmds = extract_external_commands(&config());
    assert_eq!(cmds.len(), 2);
    assert_eq!(cmds[0].cmd, "scutil");
    assert_eq!(cmds[0].args, vec!["--set", "HostName", "$hostname"]);
    assert!(cmds[0].sudo);
    assert!(!cmds[1].sudo);
}

#[test]
fn shell_lines_substituted_and_quoted() {
    let plan = external_plan(&config(), &vec![]);
    assert!(plan.error.is_none());
    assert_eq!(plan.commands[0].line, "scutil --set HostName mac");
    assert!(plan.commands[0].sudo);
    assert_eq!(plan.commands[1].line, "echo \"two words\" 'quoted one' \"a b\"");
    let (bin, args) = shell_invocation(&plan.commands[0]);
    assert_eq!(bin, "sudo");
    assert_eq!(args, vec!["sh", "-c", "scutil --set HostName mac"]);
    assert_eq!(shell_message(&plan.commands[0], true), "Dry-run: Would execute shell command with sudo: scutil --set HostName mac");
    assert_eq!(shell_message(&plan.commands[1], false), "Executing shell command: echo \"two words\" 'quoted one' \"a b\"");
}

#[test]
fn malformed_commands_stop_the_plan() {
    let cfg = table(vec![("external", table(vec![("command", arr(vec![table(vec![("cmd", t("ls"))]), t("oops"), table(vec![("cmd", t("pwd"))])]))]))]);
    let plan = external_plan(&cfg, &vec![]);
    assert_eq!(plan.commands.len(), 1);
    assert!(matches!(plan.error, Some(ExternalError::NotATable)));
    let cfg = table(vec![("external", table(vec![("command", arr(vec![table(vec![("args", arr(vec![]))])]))]))]);
    assert!(matches!(external_plan(&cfg, &vec![]).error, Some(ExternalError::MissingCmd)));
    assert!(external_plan(&table(vec![]), &vec![]).commands.is_empty());
}

#[test]
fn variable_texts() {
    assert_eq!(variable_text(&ConfigValue::Boolean(false)), "false");
    assert_eq!(variable_text(&ConfigValue::Integer(-3)), "-3");
    assert_eq!(variable_text(&arr(vec![t("x"), t("y")])), "x y");
}

fn commands_config() -> ConfigValue {
    table(vec![
        ("vars", table(vec![("who", t("world")), ("again", t("$who"))])),
        ("commands", table(vec![
            ("greet", table(vec![("run", t("echo hello $who")), ("sudo", ConfigValue::Boolean(true))])),
            ("twice", table(vec![("run", t("echo $again"))])),
            ("broken", table(vec![("sudo", ConfigValue::Boolean(true))])),
        ])),
    ])
}

#[test]
fn commands_table() {
    let env = vec![];
    let states = extract(&commands_config(), &env);
    assert_eq!(states.len(), 2);
    assert_eq!(states[0].run, "echo hello world");
    assert_eq!(states[1].run, "echo $who");
    let runs = run_all_commands(&commands_config(), &env);
    assert_eq!(runs[1].run, "echo world");
    let one = run_one(&commands_config(), "greet", &env).ok().unwrap();
    assert!(one.sudo);
    assert_eq!(exec_message(&one, true), "Would exec sudo echo hello world");
    assert!(matches!(run_one(&commands_config(), "nope", &env), Err(RunError::NoSuchCommand(n)) if n == "nope"));
    assert!(matches!(run_one(&commands_config(), "broken", &env), Err(RunError::MissingRun(n)) if n == "broken"));
}
