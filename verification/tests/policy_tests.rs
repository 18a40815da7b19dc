use antigravity_sdk::json::JsonValue;
use antigravity_sdk::path::is_path_in_workspace;
use antigravity_sdk::policy::{
    allow_all, ask_user, confirm_run_command, deny, deny_all, policy_hook_result, workspace_only,
    Decision, PathEnv, Policy, PolicyEngine,
};
use antigravity_sdk::types::ToolCall;

fn call(id: &str, name: &str, args: JsonValue) -> ToolCall {
    ToolCall {
        id: Some(id.to_string()),
        name: name.to_string(),
        args,
        arguments_json: None,
        canonical_path: None,
    }
}

fn empty_object() -> JsonValue {
    JsonValue::Object(Vec::new())
}

fn env() -> PathEnv {
    PathEnv { current_dir: None, case_insensitive: false }
}

fn run(engine: &PolicyEngine, tc: &ToolCall) -> Result<bool, String> {
    engine.evaluate(tc, &env(), &|_i: usize| true, &|_i: usize| true)
}

#[test]
fn test_is_path_in_workspace() {
    assert!(is_path_in_workspace("/a/b/c", "/a/b", &None, false));
    assert!(is_path_in_workspace("/a/b/c/d.txt", "/a/b", &None, false));
    assert!(!is_path_in_workspace("/a/x/c", "/a/b", &None, false));
}

#[test]
fn test_policy_engine() {
    let policies = vec![deny("run_command"), allow_all()];
    let engine = PolicyEngine::new(policies);

    let call_run = call("1", "run_command", empty_object());
    assert!(run(&engine, &call_run).is_err());

    let call_view = call("2", "view_file", empty_object());
    assert!(run(&engine, &call_view).is_ok());
}

#[test]
fn deny_message_names_the_policy() {
    let engine = PolicyEngine::new(vec![deny("run_command")]);
    assert_eq!(
        run(&engine, &call("1", "run_command", empty_object())).unwrap_err(),
        "Denied by policy 'deny'"
    );
}

#[test]
fn no_policy_allows() {
    let engine = PolicyEngine::new(Vec::new());
    assert_eq!(run(&engine, &call("1", "anything", empty_object())), Ok(true));
}

#[test]
fn specific_deny_beats_wildcard_allow_in_any_order() {
    let engine = PolicyEngine::new(vec![allow_all(), deny("run_command")]);
    assert!(run(&engine, &call("1", "run_command", empty_object())).is_err());
    assert_eq!(run(&engine, &call("2", "view_file", empty_object())), Ok(true));
}

#[test]
fn specific_allow_beats_wildcard_deny() {
    let engine = PolicyEngine::new(vec![deny_all(), antigravity_sdk::policy::allow("view_file")]);
    assert_eq!(run(&engine, &call("1", "view_file", empty_object())), Ok(true));
    assert_eq!(
        run(&engine, &call("2", "run_command", empty_object())).unwrap_err(),
        "Denied by policy 'deny_all'"
    );
}

#[test]
fn ask_user_answers_decide() {
    let engine = PolicyEngine::new(vec![ask_user("run_command")]);
    let tc = call("1", "run_command", empty_object());
    assert_eq!(engine.evaluate(&tc, &env(), &|_i: usize| true, &|_i: usize| true), Ok(true));
    assert_eq!(
        engine.evaluate(&tc, &env(), &|_i: usize| true, &|_i: usize| false).unwrap_err(),
        "User denied tool 'run_command' (policy 'ask_user')"
    );
}

#[test]
fn ask_without_handler_is_refused() {
    let engine = PolicyEngine::new(confirm_run_command(false));
    assert_eq!(
        run(&engine, &call("1", "run_command", empty_object())).unwrap_err(),
        "Denied by policy 'deny'"
    );
    let mut p = Policy::new("run_command", Decision::AskUser, "needs_handler");
    p.has_ask_user = false;
    let engine = PolicyEngine::new(vec![p]);
    assert_eq!(
        run(&engine, &call("1", "run_command", empty_object())).unwrap_err(),
        "ASK_USER policy 'needs_handler' is missing a handler"
    );
}

#[test]
fn custom_condition_is_consulted() {
    let engine = PolicyEngine::new(vec![deny("run_command").when(), allow_all()]);
    let tc = call("1", "run_command", empty_object());
    assert!(engine.evaluate(&tc, &env(), &|_i: usize| true, &|_i: usize| true).is_err());
    assert_eq!(engine.evaluate(&tc, &env(), &|_i: usize| false, &|_i: usize| true), Ok(true));
}

#[test]
fn confirm_run_command_with_handler_asks() {
    let ps = confirm_run_command(true);
    assert_eq!(ps.len(), 2);
    assert_eq!(ps[0].tool, "run_command");
    assert_eq!(ps[0].decision, Decision::AskUser);
    assert_eq!(ps[0].name, "confirm_run_command");
    assert_eq!(ps[1].tool, "*");
}

#[test]
fn workspace_only_denies_outside_paths() {
    let engine = PolicyEngine::new(vec![workspace_only(vec!["/work".to_string()]).remove(0), allow_all()]);
    let inside = call(
        "1",
        "view_file",
        JsonValue::Object(vec![("path".to_string(), JsonValue::String("/work/a.txt".to_string()))]),
    );
    let outside = call(
        "2",
        "view_file",
        JsonValue::Object(vec![("path".to_string(), JsonValue::String("/etc/passwd".to_string()))]),
    );
    assert_eq!(run(&engine, &inside), Ok(true));
    assert_eq!(
        run(&engine, &outside).unwrap_err(),
        "Denied by policy 'workspace_only'"
    );
}

#[test]
fn workspace_only_builds_three_file_policies() {
    let ps = workspace_only(vec!["/w".to_string()]);
    let tools: Vec<&str> = ps.iter().map(|p| p.tool.as_str()).collect();
    assert_eq!(tools, vec!["view_file", "create_file", "edit_file"]);
    assert!(ps.iter().all(|p| p.decision == Decision::Deny && p.name == "workspace_only"));
}

#[test]
fn relative_paths_use_the_current_dir() {
    let cwd = Some("/home/u".to_string());
    assert!(is_path_in_workspace("proj/file.rs", "/home/u/proj", &cwd, false));
    assert!(is_path_in_workspace("/a/b/../b/c", "/a/b", &None, false));
    assert!(!is_path_in_workspace("/a/b/../c", "/a/b", &None, false));
    assert!(is_path_in_workspace("/A/B/c", "/a/b", &None, true));
    assert!(!is_path_in_workspace("/A/B/c", "/a/b", &None, false));
}

#[test]
fn hook_result_from_verdict() {
    let ok = policy_hook_result(Ok(true));
    assert!(ok.allow);
    assert_eq!(ok.message, "");
    let no = policy_hook_result(Ok(false));
    assert!(!no.allow);
    let err = policy_hook_result(Err("Denied by policy 'deny'".to_string()));
    assert!(!err.allow);
    assert!(err.message.contains("Denied by policy"));
}

#[test]
fn order_matters_only_within_a_tier() {
    let a = PolicyEngine::new(vec![
        allow_all(),
        Policy::new("run_command", Decision::Deny, "first"),
        Policy::new("run_command", Decision::Deny, "second"),
    ]);
    let b = PolicyEngine::new(vec![
        Policy::new("run_command", Decision::Deny, "first"),
        allow_all(),
        Policy::new("run_command", Decision::Deny, "second"),
    ]);
    let c = PolicyEngine::new(vec![
        Policy::new("run_command", Decision::Deny, "second"),
        Policy::new("run_command", Decision::Deny, "first"),
        allow_all(),
    ]);
    let tc = call("1", "run_command", empty_object());
    assert_eq!(run(&a, &tc).unwrap_err(), "Denied by policy 'first'");
    assert_eq!(run(&b, &tc).unwrap_err(), "Denied by policy 'first'");
    // swapping two policies of the same tier changes which one decides
    assert_eq!(run(&c, &tc).unwrap_err(), "Denied by policy 'second'");
    let other = call("2", "view_file", empty_object());
    assert_eq!(run(&a, &other), Ok(true));
    assert_eq!(run(&b, &other), Ok(true));
}
