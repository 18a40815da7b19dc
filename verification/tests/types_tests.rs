use antigravity_sdk::types::{
    wire_count_from_i64, wire_count_from_str, AntigravityError, BuiltinTools, CapabilitiesConfig, GeminiConfig, GenerationConfig,
    IntoContent, ContentPrimitive, StepSource, StepState, StepTarget, ThinkingLevel, TrajectoryState,
};

#[test]
fn builtin_tool_names() {
    assert_eq!(BuiltinTools::ListDir.as_str(), "list_directory");
    assert_eq!(BuiltinTools::SearchDir.as_str(), "search_directory");
    assert_eq!(BuiltinTools::FindFile.as_str(), "find_file");
    assert_eq!(BuiltinTools::ViewFile.as_str(), "view_file");
    assert_eq!(BuiltinTools::CreateFile.as_str(), "create_file");
    assert_eq!(BuiltinTools::EditFile.as_str(), "edit_file");
    assert_eq!(BuiltinTools::RunCommand.as_str(), "run_command");
    assert_eq!(BuiltinTools::AskQuestion.as_str(), "ask_question");
    assert_eq!(BuiltinTools::StartSubagent.as_str(), "start_subagent");
    assert_eq!(BuiltinTools::GenerateImage.as_str(), "generate_image");
    assert_eq!(BuiltinTools::Finish.as_str(), "finish");
}

#[test]
fn builtin_tool_groups() {
    assert_eq!(BuiltinTools::all_tools().len(), 11);
    assert_eq!(
        BuiltinTools::read_only(),
        vec![
            BuiltinTools::ListDir,
            BuiltinTools::SearchDir,
            BuiltinTools::FindFile,
            BuiltinTools::ViewFile,
            BuiltinTools::Finish
        ]
    );
    assert_eq!(
        BuiltinTools::file_tools(),
        vec![BuiltinTools::ViewFile, BuiltinTools::CreateFile, BuiltinTools::EditFile]
    );
    let all = BuiltinTools::all_tools();
    for (i, a) in all.iter().enumerate() {
        for b in all.iter().skip(i + 1) {
            assert_ne!(a.as_str(), b.as_str());
        }
    }
}

#[test]
fn thinking_level_names() {
    assert_eq!(ThinkingLevel::Minimal.as_str(), "minimal");
    assert_eq!(ThinkingLevel::Low.as_str(), "low");
    assert_eq!(ThinkingLevel::Medium.as_str(), "medium");
    assert_eq!(ThinkingLevel::High.as_str(), "high");
}

#[test]
fn gemini_config_to_wire() {
    let mut c = GeminiConfig::default();
    assert_eq!(c.models.default.name, "gemini-2.5-flash");
    c.api_key = Some("outer".to_string());
    c.models.default.generation = Some(GenerationConfig { thinking_level: Some(ThinkingLevel::High) });
    let w = c.to_wire();
    assert_eq!(w.api_key.as_deref(), Some("outer"));
    assert_eq!(w.model_name.as_deref(), Some("gemini-2.5-flash"));
    assert_eq!(w.thinking_level.as_deref(), Some("high"));
    assert!(w.base_url.is_none());
    assert!(w.enable_url_context.is_none());
    assert!(w.enable_google_search.is_none());

    c.models.default.api_key = Some("model".to_string());
    assert_eq!(c.to_wire().api_key.as_deref(), Some("model"));
}

#[test]
fn enums_from_tags_and_names() {
    assert_eq!(StepState::from_i64(2), StepState::Done);
    assert_eq!(StepState::from_i64(9), StepState::Unspecified);
    assert_eq!(StepState::from_name("STATE_WAITING_FOR_USER"), StepState::WaitingForUser);
    assert_eq!(StepState::from_name("error"), StepState::Error);
    assert_eq!(StepState::from_name("bogus"), StepState::Unspecified);
    assert_eq!(StepSource::from_name("SOURCE_MODEL"), StepSource::Model);
    assert_eq!(StepSource::from_u64(2), StepSource::User);
    assert_eq!(StepTarget::from_i64(1), StepTarget::User);
    assert_eq!(TrajectoryState::from_name("STATE_IDLE"), TrajectoryState::Idle);
    assert_eq!(TrajectoryState::from_i64(1), TrajectoryState::Running);
}

#[test]
fn wire_counts() {
    assert_eq!(wire_count_from_i64(5), Ok(5));
    assert_eq!(wire_count_from_i64(-1).unwrap_err(), "negative sequence number");
}

#[test]
fn error_display_text() {
    assert_eq!(AntigravityError::Connection("x".to_string()).to_string(), "Connection Error: x");
    assert_eq!(AntigravityError::Validation("y".to_string()).to_string(), "Validation Error: y");
    assert_eq!(AntigravityError::Other("z".to_string()).to_string(), "Error: z");
}

#[test]
fn capabilities_defaults() {
    let c = CapabilitiesConfig::default();
    assert!(c.enabled_tools.is_none());
    assert!(c.disabled_tools.is_none());
    assert!(c.enable_subagents);
    assert_eq!(c.image_model, "imagen-3.0-generate-002");
}

#[test]
fn into_content_wraps_text() {
    let c = "hi".into_content();
    assert_eq!(c.len(), 1);
    match &c[0] {
        ContentPrimitive::Text(t) => assert_eq!(t, "hi"),
        _ => panic!("text"),
    }
}

#[test]
fn wire_counts_from_text() {
    assert_eq!(wire_count_from_str("42"), Ok(42));
    assert_eq!(wire_count_from_str("+7"), Ok(7));
    assert_eq!(wire_count_from_str("18446744073709551615"), Ok(u64::MAX));
    assert_eq!(wire_count_from_str("").unwrap_err(), "".parse::<u64>().unwrap_err().to_string());
    assert_eq!(wire_count_from_str("-1").unwrap_err(), "-1".parse::<u64>().unwrap_err().to_string());
    assert!(wire_count_from_str("18446744073709551616").is_err());
    assert!(wire_count_from_str("1 ").is_err());
}
