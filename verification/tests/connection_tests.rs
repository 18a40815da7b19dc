use antigravity_sdk::connection::{
    connect_retry, ws_url, RetryAction, actions_for_update, answers_for_request, app_data_location, builtin_failure_message, call_response, complex_input,
    confirmation_event, confirmation_tool_call, custom_call_step, custom_tool_index, decision_or_denial,
    denied_call_response, ends_turn, error_response, extract_builtin_tool_result, finish_output_text,
    finished_builtin_result, halt_event, harness_candidates, harness_config, harness_not_found_error,
    idle_sentinel, interaction_spec, is_host_request, is_idle_sentinel, is_tool_active, normalize_call_paths,
    normalize_wire_path, pending_key, pre_turn_denied_error, pre_turn_denied_step, prompt_event,
    questions_event, received_step, recovered_value, session_policies, session_start_error, step_from_update,
    step_id, subagent_result, tool_output, tool_response_event, tracks_completion, trigger_event,
    wire_path_from_url, TrajectoryTracker,
};
use antigravity_sdk::hooks::HookResult;
use antigravity_sdk::json::JsonValue;
use antigravity_sdk::keyed::KeyedMap;
use antigravity_sdk::policy::Decision;
use antigravity_sdk::types::{
    BuiltinTools, CapabilitiesConfig, ContentPrimitive, GeminiConfig, Media, MultipleChoice,
    MultipleChoiceAnswer, QuestionsResponseInner, Step, StepSource, StepState, StepStatus, StepTarget,
    StepType, StepUpdate, TrajectoryState, TrajectoryStateUpdate, UserQuestion, UserQuestionAnswer,
    UserQuestionsRequest, UserQuestionsResponse, UsageMetadata,
};

fn s(v: &str) -> JsonValue {
    JsonValue::String(v.to_string())
}

fn num(v: &str) -> JsonValue {
    JsonValue::Number(v.to_string())
}

fn obj(members: Vec<(&str, JsonValue)>) -> JsonValue {
    JsonValue::Object(members.into_iter().map(|(k, v)| (k.to_string(), v)).collect())
}

fn field<'a>(v: &'a JsonValue, key: &str) -> Option<&'a JsonValue> {
    match v {
        JsonValue::Object(ms) => ms.iter().find(|(k, _)| k == key).map(|(_, v)| v),
        _ => None,
    }
}

fn text_of(v: Option<&JsonValue>) -> Option<String> {
    match v {
        Some(JsonValue::String(t)) => Some(t.clone()),
        _ => None,
    }
}

fn update() -> StepUpdate {
    StepUpdate {
        cascade_id: None,
        trajectory_id: None,
        step_index: 0,
        state: StepState::Unspecified,
        source: StepSource::Unknown,
        target: StepTarget::Unknown,
        error_message: None,
        thinking: None,
        text_delta: None,
        thinking_delta: None,
        text: None,
        list_directory: None,
        find_file: None,
        search_directory: None,
        view_file: None,
        create_file: None,
        edit_file: None,
        run_command: None,
        compaction: None,
        invoke_subagent: None,
        generate_image: None,
        finish: None,
        error: None,
        request_text: None,
        tool_confirmation_request: None,
        questions_request: None,
    }
}

// ---------------------------------------------------------------------------
// Paths
// ---------------------------------------------------------------------------

#[test]
fn file_urls_become_paths() {
    assert_eq!(normalize_wire_path("file:///tmp/a%20b.txt"), "/tmp/a b.txt");
    assert_eq!(normalize_wire_path("file:///home/user/proj"), "/home/user/proj");
    assert_eq!(normalize_wire_path("/plain/path"), "/plain/path");
    assert_eq!(normalize_wire_path("relative/x"), "relative/x");
    assert_eq!(normalize_wire_path("http://host/x"), "http://host/x");
}

#[test]
fn undecodable_file_urls_stay() {
    // %FF decodes to a byte that is not UTF-8: the text is kept as it came
    assert_eq!(normalize_wire_path("file:///tmp/%FF"), "file:///tmp/%FF");
}

#[test]
fn parsed_parts_decide_the_path() {
    assert_eq!(
        wire_path_from_url("file:///x", Some(("file".to_string(), "/a%2Fb".to_string()))),
        "/a/b"
    );
    assert_eq!(
        wire_path_from_url("orig", Some(("http".to_string(), "/a".to_string()))),
        "orig"
    );
    assert_eq!(wire_path_from_url("orig", None), "orig");
    // a percent sign without two hex digits stays
    assert_eq!(
        wire_path_from_url("o", Some(("file".to_string(), "/50%-off%4".to_string()))),
        "/50%-off%4"
    );
}

#[test]
fn path_arguments_are_normalized() {
    let mut args = obj(vec![
        ("path", s("file:///w/a%20b")),
        ("other", s("file:///untouched")),
        ("directory_path", s("/w/dir")),
    ]);
    let canonical = normalize_call_paths(&mut args);
    assert_eq!(canonical.as_deref(), Some("/w/dir"));
    assert_eq!(text_of(field(&args, "path")).as_deref(), Some("/w/a b"));
    assert_eq!(text_of(field(&args, "other")).as_deref(), Some("file:///untouched"));

    let mut not_object = s("file:///x");
    assert!(normalize_call_paths(&mut not_object).is_none());
}

// ---------------------------------------------------------------------------
// Step updates
// ---------------------------------------------------------------------------

#[test]
fn step_ids() {
    assert_eq!(step_id("traj", 7), "traj:7");
    assert_eq!(step_id("", 12), "12");
}

#[test]
fn text_update_becomes_text_step() {
    let mut u = update();
    u.trajectory_id = Some("t1".to_string());
    u.step_index = 3;
    u.state = StepState::Done;
    u.source = StepSource::Model;
    u.target = StepTarget::User;
    u.text = Some("Hello".to_string());
    u.text_delta = Some("lo".to_string());
    u.thinking = Some("think".to_string());
    let usage = UsageMetadata {
        prompt_token_count: Some(1),
        cached_content_token_count: None,
        candidates_token_count: None,
        thoughts_token_count: None,
        total_token_count: Some(1),
    };
    let st = step_from_update(&u, Some(usage), None);
    assert_eq!(st.id, "t1:3");
    assert_eq!(st.step_index, 3);
    assert_eq!(st.step_type, StepType::TextResponse);
    assert_eq!(st.status, StepStatus::Done);
    assert_eq!(st.source, StepSource::Model);
    assert_eq!(st.target, StepTarget::User);
    assert_eq!(st.content, "Hello");
    assert_eq!(st.content_delta, "lo");
    assert_eq!(st.thinking, "think");
    assert_eq!(st.usage_metadata, Some(usage));
    assert!(st.tool_calls.is_empty());
    assert!(ends_turn(&st));
}

#[test]
fn tool_update_becomes_tool_call_step() {
    let mut u = update();
    u.step_index = 2;
    u.state = StepState::Active;
    u.view_file = Some(obj(vec![("file_path", s("file:///src/main.rs"))]));
    u.run_command = Some(obj(vec![]));
    let st = step_from_update(&u, None, None);
    assert_eq!(st.id, "2");
    assert_eq!(st.step_type, StepType::ToolCall);
    assert_eq!(st.status, StepStatus::Active);
    assert_eq!(st.tool_calls.len(), 1);
    let tc = &st.tool_calls[0];
    // view_file comes before run_command in the scan
    assert_eq!(tc.name, "view_file");
    assert_eq!(tc.id.as_deref(), Some("2"));
    assert_eq!(tc.canonical_path.as_deref(), Some("/src/main.rs"));
    assert_eq!(text_of(field(&tc.args, "file_path")).as_deref(), Some("/src/main.rs"));
}

#[test]
fn step_types_follow_payloads() {
    let mut u = update();
    u.compaction = Some(obj(vec![]));
    u.finish = Some(obj(vec![]));
    assert_eq!(step_from_update(&u, None, None).step_type, StepType::Compaction);
    let mut u = update();
    u.finish = Some(obj(vec![("output_string", s("{\"a\":1}"))]));
    let st = step_from_update(&u, None, Some(obj(vec![("a", num("1"))])));
    assert_eq!(st.step_type, StepType::Finish);
    assert_eq!(st.tool_calls[0].name, "finish");
    assert!(st.structured_output.is_some());
    assert_eq!(finish_output_text(&u).as_deref(), Some("{\"a\":1}"));
    let u = update();
    let st = step_from_update(&u, None, Some(s("ignored")));
    assert_eq!(st.step_type, StepType::Unknown);
    assert!(st.structured_output.is_none());
    assert_eq!(st.status, StepStatus::Unknown);
}

#[test]
fn builtin_results_are_read_from_payloads() {
    let mut u = update();
    u.run_command = Some(obj(vec![("combinedOutput", s("ok\n"))]));
    let r = extract_builtin_tool_result(&u).unwrap();
    assert_eq!(text_of(field(&r, "output")).as_deref(), Some("ok\n"));

    let mut u = update();
    u.list_directory = Some(obj(vec![(
        "results",
        JsonValue::Array(vec![
            obj(vec![("name", s("a.txt")), ("fileSize", num("12"))]),
            obj(vec![("name", s("d")), ("is_directory", JsonValue::Bool(true))]),
        ]),
    )]));
    let r = extract_builtin_tool_result(&u).unwrap();
    match field(&r, "entries") {
        Some(JsonValue::Array(items)) => {
            assert_eq!(items.len(), 2);
            assert_eq!(text_of(field(&items[0], "name")).as_deref(), Some("a.txt"));
            assert!(matches!(field(&items[0], "file_size"), Some(JsonValue::Number(n)) if n == "12"));
            assert!(matches!(field(&items[0], "is_directory"), Some(JsonValue::Bool(false))));
            assert!(matches!(field(&items[1], "is_directory"), Some(JsonValue::Bool(true))));
            assert!(matches!(field(&items[1], "file_size"), Some(JsonValue::Number(n)) if n == "0"));
        }
        _ => panic!("entries"),
    }

    let mut u = update();
    u.search_directory = Some(obj(vec![("num_results", num("4"))]));
    let r = extract_builtin_tool_result(&u).unwrap();
    assert!(matches!(field(&r, "num_results"), Some(JsonValue::Number(n)) if n == "4"));

    let mut u = update();
    u.edit_file = Some(obj(vec![("diffBlock", obj(vec![]))]));
    u.text = Some("edited".to_string());
    let r = extract_builtin_tool_result(&u).unwrap();
    assert_eq!(text_of(field(&r, "summary")).as_deref(), Some("edited"));

    let mut u = update();
    u.generate_image = Some(obj(vec![("image_name", s("cat.png"))]));
    let r = extract_builtin_tool_result(&u).unwrap();
    assert_eq!(text_of(field(&r, "image_name")).as_deref(), Some("cat.png"));

    let mut u = update();
    u.find_file = Some(obj(vec![("output", s("x.rs"))]));
    let r = extract_builtin_tool_result(&u).unwrap();
    assert_eq!(text_of(field(&r, "output")).as_deref(), Some("x.rs"));

    let mut u = update();
    u.run_command = Some(obj(vec![("combined_output", num("3"))]));
    assert!(extract_builtin_tool_result(&u).is_none());
}

#[test]
fn finished_and_failed_builtins() {
    let mut u = update();
    u.trajectory_id = Some("t".to_string());
    u.step_index = 9;
    let key = pending_key(&u);
    assert_eq!(key, ("t".to_string(), 9));
    let tc = confirmation_tool_call(&u, &obj(vec![]));
    let r = finished_builtin_result(&tc, &u, "the text");
    assert_eq!(r.name, "pre_request_host_tool_request");
    assert_eq!(r.id.as_deref(), Some("t:9"));
    assert!(matches!(&r.result, JsonValue::String(t) if t == "the text"));
    assert_eq!(builtin_failure_message(&u), "Built-in tool failed");
    u.error_message = Some("disk full".to_string());
    assert_eq!(builtin_failure_message(&u), "disk full");
}

// ---------------------------------------------------------------------------
// Confirmations and questions
// ---------------------------------------------------------------------------

#[test]
fn confirmation_requests() {
    let mut u = update();
    u.step_index = 4;
    u.request_text = Some("may I?".to_string());
    u.edit_file = Some(obj(vec![("TargetFile", s("file:///p/f.rs"))]));
    let tc = confirmation_tool_call(&u, &obj(vec![("ignored", JsonValue::Null)]));
    assert_eq!(tc.name, "edit_file");
    // an empty trajectory id still gets the separator
    assert_eq!(tc.id.as_deref(), Some(":4"));
    assert_eq!(tc.canonical_path.as_deref(), Some("/p/f.rs"));
    assert_eq!(text_of(field(&tc.args, "request_text")).as_deref(), Some("may I?"));
    assert!(!is_host_request(&tc));
    assert!(tracks_completion(true, &tc));
    assert!(!tracks_completion(false, &tc));

    let mut u = update();
    u.trajectory_id = Some("tr".to_string());
    let host = confirmation_tool_call(&u, &obj(vec![("cmd", s("ls"))]));
    assert_eq!(host.name, "pre_request_host_tool_request");
    assert!(is_host_request(&host));
    assert!(!tracks_completion(true, &host));
    assert_eq!(text_of(field(&host.args, "cmd")).as_deref(), Some("ls"));

    let ev = confirmation_event("tr".to_string(), 5, true);
    let c = ev.tool_confirmation.unwrap();
    assert_eq!(c.trajectory_id, "tr");
    assert_eq!(c.step_index, 5);
    assert!(c.accepted);
    assert!(ev.user_input.is_none() && ev.tool_response.is_none());
}

#[test]
fn hook_failures_deny() {
    let d = decision_or_denial(Err("hook broke".to_string()));
    assert!(!d.allow);
    assert_eq!(d.message, "hook broke");
    assert!(decision_or_denial(Ok(HookResult::allow())).allow);
}

fn question(q: &str, choices: &[&str]) -> UserQuestion {
    UserQuestion {
        multiple_choice: MultipleChoice {
            question: q.to_string(),
            choices: choices.iter().map(|c| c.to_string()).collect(),
            is_multi_select: false,
        },
    }
}

#[test]
fn question_requests() {
    let req = UserQuestionsRequest { questions: vec![question("Color?", &["red", "blue"]), question("Ok?", &[])] };
    let spec = interaction_spec(&req);
    assert_eq!(spec.questions.len(), 2);
    assert_eq!(spec.questions[0].question, "Color?");
    assert_eq!(spec.questions[0].options[0].id, "1");
    assert_eq!(spec.questions[0].options[1].id, "2");
    assert_eq!(spec.questions[0].options[1].text, "blue");
    assert!(spec.questions[1].options.is_empty());

    let answer = UserQuestionAnswer {
        unanswered: false,
        multiple_choice_answer: Some(MultipleChoiceAnswer { selected_choice_indices: vec![1], freeform_response: None }),
    };
    let resp = UserQuestionsResponse {
        trajectory_id: String::new(),
        step_index: 0,
        response: QuestionsResponseInner { answers: vec![answer] },
    };
    let answers = answers_for_request(2, Ok((HookResult::allow(), Some(resp.clone()))));
    assert_eq!(answers.len(), 2);
    assert!(!answers[0].unanswered);
    assert!(answers[1].unanswered);

    let denied = answers_for_request(2, Ok((HookResult::deny("no"), Some(resp))));
    assert!(denied.iter().all(|a| a.unanswered && a.multiple_choice_answer.is_none()));
    let failed = answers_for_request(1, Err("x".to_string()));
    assert!(failed[0].unanswered);

    let ev = questions_event("t".to_string(), 3, answers);
    let qr = ev.question_response.unwrap();
    assert_eq!(qr.trajectory_id, "t");
    assert_eq!(qr.step_index, 3);
    assert_eq!(qr.response.answers.len(), 2);
}

// ---------------------------------------------------------------------------
// Idle tracking
// ---------------------------------------------------------------------------

fn traj(id: &str, state: TrajectoryState) -> TrajectoryStateUpdate {
    TrajectoryStateUpdate { trajectory_id: id.to_string(), state }
}

#[test]
fn turn_ends_when_main_and_subagents_are_idle() {
    let mut t = TrajectoryTracker::new();
    assert!(t.is_idle());
    let mut u = update();
    u.cascade_id = Some("main".to_string());
    u.trajectory_id = Some("main".to_string());
    t.observe_step(&u);
    assert_eq!(t.conversation_id(), "main");

    t.begin_turn();
    assert!(!t.is_idle());
    let o = t.observe_trajectory(&traj("sub", TrajectoryState::Running));
    assert!(!o.settled && o.finished_subagent.is_none());

    let mut su = update();
    su.trajectory_id = Some("sub".to_string());
    su.source = StepSource::Model;
    su.text = Some("sub answer".to_string());
    t.observe_step(&su);

    let o = t.observe_trajectory(&traj("main", TrajectoryState::Idle));
    assert!(!o.settled);
    assert!(!t.is_idle());

    let o = t.observe_trajectory(&traj("sub", TrajectoryState::Idle));
    let (id, answer) = o.finished_subagent.unwrap();
    assert_eq!(id, "sub");
    assert_eq!(answer, "sub answer");
    assert!(o.settled);
    assert!(t.is_idle());

    // the answer was handed out once
    let o = t.observe_trajectory(&traj("sub", TrajectoryState::Idle));
    assert_eq!(o.finished_subagent.unwrap().1, "");
}

#[test]
fn unknown_main_id_treats_every_trajectory_as_main() {
    let mut t = TrajectoryTracker::new();
    t.begin_turn();
    let o = t.observe_trajectory(&traj("anything", TrajectoryState::Running));
    assert!(!o.settled);
    let o = t.observe_trajectory(&traj("anything", TrajectoryState::Idle));
    assert!(o.settled);
    assert!(o.finished_subagent.is_none());
    t.begin_turn();
    t.mark_idle();
    assert!(t.is_idle());
}

#[test]
fn pending_calls_are_taken_once() {
    let mut m: KeyedMap<(String, u32), u8> = KeyedMap::new();
    m.insert(("t".to_string(), 1), 10);
    m.insert(("t".to_string(), 2), 20);
    m.insert(("t".to_string(), 1), 11);
    assert_eq!(m.get(&("t".to_string(), 1)), Some(&11));
    assert_eq!(m.remove(&("t".to_string(), 1)), Some(11));
    assert_eq!(m.remove(&("t".to_string(), 1)), None);
    assert_eq!(m.get(&("t".to_string(), 2)), Some(&20));
    assert!(!m.is_empty());
    m.clear();
    assert!(m.is_empty());
}

// ---------------------------------------------------------------------------
// Custom tools
// ---------------------------------------------------------------------------

#[test]
fn custom_tool_lookup_and_step() {
    let names = vec!["a".to_string(), "b".to_string(), "a".to_string()];
    assert_eq!(custom_tool_index(&names, "a"), Some(0));
    assert_eq!(custom_tool_index(&names, "b"), Some(1));
    assert_eq!(custom_tool_index(&names, "c"), None);
    let st = custom_call_step("id1", "b", s("x"));
    assert_eq!(st.id, "id1");
    assert_eq!(st.step_index, 1);
    assert_eq!(st.step_type, StepType::ToolCall);
    assert_eq!(st.source, StepSource::Model);
    assert_eq!(st.target, StepTarget::Environment);
    assert_eq!(st.status, StepStatus::Active);
    assert_eq!(st.tool_calls[0].name, "b");
}

#[test]
fn custom_tool_responses() {
    let denied = denied_call_response(&HookResult::deny(""));
    assert_eq!(
        text_of(field(&denied, "error")).as_deref(),
        Some("Tool execution denied by hook policy: No reason provided")
    );
    let denied = denied_call_response(&HookResult::deny("nope"));
    assert_eq!(
        text_of(field(&denied, "error")).as_deref(),
        Some("Tool execution denied by hook policy: nope")
    );
    let wrapped = tool_output(num("42"));
    assert!(matches!(field(&wrapped, "result"), Some(JsonValue::Number(n)) if n == "42"));
    let kept = tool_output(obj(vec![("k", s("v"))]));
    assert_eq!(text_of(field(&kept, "k")).as_deref(), Some("v"));

    assert!(recovered_value(Ok((HookResult::allow(), Some(s("r"))))).is_some());
    assert!(recovered_value(Ok((HookResult::deny(""), Some(s("r"))))).is_none());
    assert!(recovered_value(Ok((HookResult::allow(), None))).is_none());
    assert!(recovered_value(Err("e".to_string())).is_none());

    let err = call_response(Err("boom".to_string()));
    assert_eq!(text_of(field(&err, "error")).as_deref(), Some("boom"));
    let e2 = error_response("x".to_string());
    assert_eq!(text_of(field(&e2, "error")).as_deref(), Some("x"));

    let ev = tool_response_event("c1", "{}".to_string());
    let tr = ev.tool_response.unwrap();
    assert_eq!(tr.id, "c1");
    assert_eq!(tr.response_json, "{}");

    let r = subagent_result("sub".to_string(), "done".to_string());
    assert_eq!(r.name, "start_subagent");
    assert_eq!(r.id.as_deref(), Some("sub"));
}

// ---------------------------------------------------------------------------
// Turns
// ---------------------------------------------------------------------------

#[test]
fn prompts_become_events() {
    let ev = prompt_event(None);
    assert_eq!(ev.user_input.as_deref(), Some(""));
    let ev = prompt_event(Some(vec![ContentPrimitive::Text("hi".to_string())]));
    assert_eq!(ev.user_input.as_deref(), Some("hi"));
    assert!(ev.complex_user_input.is_none());
    let media = Media { mime_type: "image/png".to_string(), data: vec![1, 2], description: None };
    let ev = prompt_event(Some(vec![ContentPrimitive::Media(media.clone())]));
    assert!(ev.user_input.is_none());
    let parts = ev.complex_user_input.unwrap().parts;
    assert_eq!(parts.len(), 1);
    assert_eq!(parts[0].media.as_ref().unwrap().data, vec![1, 2]);
    let ev = complex_input(vec![
        ContentPrimitive::Text("a".to_string()),
        ContentPrimitive::Media(media),
        ContentPrimitive::Text("b".to_string()),
    ]);
    let parts = ev.complex_user_input.unwrap().parts;
    assert_eq!(parts.len(), 3);
    assert_eq!(parts[0].text.as_deref(), Some("a"));
    assert!(parts[1].text.is_none());
    assert_eq!(parts[2].text.as_deref(), Some("b"));

    assert_eq!(halt_event().halt_request, Some(true));
    assert_eq!(trigger_event("ping").automated_trigger.as_deref(), Some("ping"));
}

#[test]
fn sentinel_and_denied_turns() {
    let sentinel = idle_sentinel();
    assert!(is_idle_sentinel(&sentinel));
    assert!(received_step(Some(sentinel)).is_none());
    let other = Step::default();
    assert!(!is_idle_sentinel(&other));
    assert!(received_step(Some(other)).is_some());
    assert!(received_step(None).is_none());

    let denied = pre_turn_denied_step("blocked".to_string());
    assert_eq!(denied.id, "PRE_TURN_DENIED");
    assert_eq!(denied.source, StepSource::System);
    assert_eq!(denied.status, StepStatus::Error);
    assert_eq!(denied.error, "blocked");
    assert!(!ends_turn(&denied));
    assert_eq!(pre_turn_denied_error("blocked"), "PreTurn hook denied: blocked");
    assert_eq!(session_start_error("x"), "Session Start hook failed: x");
}

// ---------------------------------------------------------------------------
// Configuration
// ---------------------------------------------------------------------------

#[test]
fn active_tools_follow_lists() {
    let mut caps = CapabilitiesConfig::default();
    assert!(is_tool_active(&caps, BuiltinTools::RunCommand));
    caps.disabled_tools = Some(vec![BuiltinTools::RunCommand]);
    assert!(!is_tool_active(&caps, BuiltinTools::RunCommand));
    assert!(is_tool_active(&caps, BuiltinTools::ViewFile));
    caps.enabled_tools = Some(vec![BuiltinTools::RunCommand]);
    assert!(is_tool_active(&caps, BuiltinTools::RunCommand));
    assert!(!is_tool_active(&caps, BuiltinTools::ViewFile));
}

#[test]
fn harness_config_is_built() {
    let mut caps = CapabilitiesConfig::default();
    caps.disabled_tools = Some(vec![BuiltinTools::StartSubagent, BuiltinTools::GenerateImage]);
    caps.compaction_threshold = Some(1000);
    let ws = vec!["file:///w%201".to_string(), "/w2".to_string()];
    let c = harness_config(
        Vec::new(),
        None,
        &GeminiConfig::default(),
        &ws,
        vec!["skills".to_string()],
        &caps,
        "data".to_string(),
    );
    assert_eq!(c.cascade_id, "");
    assert_eq!(c.workspaces[0].filesystem_workspace.directory, "/w 1");
    assert_eq!(c.workspaces[1].filesystem_workspace.directory, "/w2");
    assert!(c.harness_side_tools.run_command.enabled);
    assert!(!c.harness_side_tools.subagents.enabled);
    assert!(!c.harness_side_tools.generate_image.enabled);
    assert_eq!(c.harness_side_tools.generate_image.model_name.as_deref(), Some("imagen-3.0-generate-002"));
    assert_eq!(c.compaction_threshold, 1000);
    assert_eq!(c.finish_tool_schema_json, "");
    assert_eq!(c.app_data_dir, "data");
    assert_eq!(c.skills_paths, vec!["skills".to_string()]);
    assert_eq!(c.gemini_config.unwrap().model_name.as_deref(), Some("gemini-2.5-flash"));
}

#[test]
fn session_policies_are_composed() {
    let ws = vec!["/w".to_string()];
    let ps = session_policies(Vec::new(), &ws, "/data".to_string());
    assert_eq!(ps.len(), 5);
    assert_eq!(ps[0].name, "workspace_only");
    assert_eq!(ps[3].tool, "run_command");
    assert_eq!(ps[3].decision, Decision::Deny);
    assert_eq!(ps[4].name, "allow_all");

    let ps = session_policies(vec![antigravity_sdk::policy::allow("x")], &Vec::new(), "/data".to_string());
    assert_eq!(ps.len(), 1);
    assert_eq!(ps[0].tool, "x");
}

#[test]
fn app_data_location_rules() {
    assert_eq!(app_data_location("/abs/data", None, None), "/abs/data");
    assert_eq!(app_data_location("rel", None, Some("/cwd".to_string())), "/cwd/rel");
    assert_eq!(app_data_location("", Some("/home/u".to_string()), None), "/home/u/.gemini/antigravity");
    assert_eq!(
        app_data_location("", None, Some("/cwd".to_string())),
        "/cwd/~/.gemini/antigravity"
    );
}

#[test]
fn harness_binary_candidates() {
    let entries = vec![
        ("/p/.venv/lib/python3.11".to_string(), "python3.11".to_string(), true),
        ("/p/.venv/lib/readme".to_string(), "readme".to_string(), false),
        ("/p/.venv/lib/pythonfile".to_string(), "pythonfile".to_string(), false),
    ];
    let c = harness_candidates(
        Some("/env/lh".to_string()),
        Some("/p".to_string()),
        &entries,
        &vec!["/usr/bin".to_string()],
    );
    assert_eq!(
        c,
        vec![
            "/env/lh".to_string(),
            "/p/.venv/lib/python3.11/site-packages/google/antigravity/bin/localharness".to_string(),
            "/p/.venv/bin/localharness".to_string(),
            "/usr/bin/localharness".to_string(),
        ]
    );
    assert!(harness_candidates(None, None, &entries, &Vec::new()).is_empty());
    assert!(harness_not_found_error().starts_with("Could not find default localharness binary."));
}

#[test]
fn update_actions() {
    let mut u = update();
    u.state = StepState::Done;
    let a = actions_for_update(&u);
    assert!(a.finish_pending && !a.fail_pending);
    assert!(a.compaction.is_none() && a.confirmation.is_none() && a.questions.is_none());

    let mut u = update();
    u.state = StepState::Error;
    u.compaction = Some(obj(vec![("n", num("1"))]));
    let a = actions_for_update(&u);
    assert!(a.fail_pending && !a.finish_pending);
    assert!(a.compaction.is_some());

    let mut u = update();
    u.state = StepState::WaitingForUser;
    u.trajectory_id = Some("t".to_string());
    u.step_index = 2;
    u.tool_confirmation_request = Some(obj(vec![]));
    u.questions_request = Some(UserQuestionsRequest { questions: Vec::new() });
    let a = actions_for_update(&u);
    assert_eq!(a.confirmation.unwrap().id.as_deref(), Some("t:2"));
    let plan = a.questions.unwrap();
    assert_eq!(plan.count, 0);
    assert!(plan.spec.is_none());

    // the same payloads outside of a wait call for nothing
    u.state = StepState::Active;
    let a = actions_for_update(&u);
    assert!(a.confirmation.is_none() && a.questions.is_none());
}

#[test]
fn idle_tracker_does_not_settle_while_a_subagent_runs() {
    let mut t = TrajectoryTracker::new();
    let mut u = update();
    u.cascade_id = Some("main".to_string());
    u.trajectory_id = Some("main".to_string());
    t.observe_step(&u);
    assert!(t.is_idle());
    // a subagent starts while the agent is idle
    let o = t.observe_trajectory(&traj("s1", TrajectoryState::Running));
    assert!(!o.settled);
    // another subagent goes idle: one still runs, so nothing settles
    let o = t.observe_trajectory(&traj("s2", TrajectoryState::Idle));
    assert!(!o.settled);
    let o = t.observe_trajectory(&traj("s1", TrajectoryState::Idle));
    assert!(o.settled);
}

#[test]
fn socket_address_and_retries() {
    assert_eq!(ws_url(8080), "ws://localhost:8080/");
    assert_eq!(ws_url(0), "ws://localhost:0/");
    assert_eq!(ws_url(-5), "ws://localhost:-5/");
    assert_eq!(ws_url(i32::MIN), format!("ws://localhost:{}/", i32::MIN));
    let waits: Vec<u64> = (0..4)
        .map(|a| match connect_retry(a) {
            RetryAction::Retry { wait_ms } => wait_ms,
            RetryAction::Fail => 0,
        })
        .collect();
    assert_eq!(waits, vec![100, 200, 400, 800]);
    assert!(matches!(connect_retry(4), RetryAction::Fail));
}
