use antigravity_sdk::conversation::{chunks_from_step, collect_text, collect_thinking, ConversationState};
use antigravity_sdk::json::JsonValue;
use antigravity_sdk::types::{Step, StepSource, StepTarget, StepType, StreamChunk, ToolCall, UsageMetadata};

fn usage(n: u64) -> UsageMetadata {
    UsageMetadata {
        prompt_token_count: Some(n),
        cached_content_token_count: None,
        candidates_token_count: Some(2 * n),
        thoughts_token_count: None,
        total_token_count: Some(3 * n),
    }
}

fn step(kind: StepType) -> Step {
    let mut s = Step::default();
    s.step_type = kind;
    s
}

fn call(id: Option<&str>, name: &str) -> ToolCall {
    ToolCall {
        id: id.map(|x| x.to_string()),
        name: name.to_string(),
        args: JsonValue::Null,
        arguments_json: None,
        canonical_path: None,
    }
}

#[test]
fn new_history_is_empty_with_zero_usage() {
    let c = ConversationState::new();
    assert_eq!(c.history().len(), 0);
    assert_eq!(c.turn_count(), 0);
    let u = c.total_usage();
    assert_eq!(u.prompt_token_count, Some(0));
    assert_eq!(u.total_token_count, Some(0));
    assert!(c.last_turn_usage().is_none());
    assert_eq!(c.last_response(), "");
}

#[test]
fn usage_accumulates_over_steps_and_turns() {
    let mut c = ConversationState::new();
    c.begin_turn();
    let mut s1 = step(StepType::TextResponse);
    s1.usage_metadata = Some(usage(1));
    assert!(c.can_record_step(&s1));
    c.record_step(s1);
    let mut s2 = step(StepType::TextResponse);
    s2.usage_metadata = Some(usage(10));
    c.record_step(s2);
    let total = c.total_usage();
    assert_eq!(total.prompt_token_count, Some(11));
    assert_eq!(total.cached_content_token_count, Some(0));
    assert_eq!(total.candidates_token_count, Some(22));
    assert_eq!(total.total_token_count, Some(33));
    assert_eq!(c.last_turn_usage().unwrap().prompt_token_count, Some(11));

    c.begin_turn();
    assert!(c.last_turn_usage().is_none());
    let mut s3 = step(StepType::TextResponse);
    s3.usage_metadata = Some(usage(5));
    c.record_step(s3);
    assert_eq!(c.last_turn_usage().unwrap().prompt_token_count, Some(5));
    assert_eq!(c.total_usage().prompt_token_count, Some(16));
    assert_eq!(c.turn_count(), 2);
    assert_eq!(c.turn_start_indices(), &vec![0usize, 2]);
}

#[test]
fn overflowing_usage_is_detected() {
    let mut c = ConversationState::new();
    let mut s1 = step(StepType::TextResponse);
    s1.usage_metadata = Some(usage(1));
    c.record_step(s1);
    let mut big = step(StepType::TextResponse);
    big.usage_metadata = Some(UsageMetadata {
        prompt_token_count: Some(u64::MAX),
        cached_content_token_count: None,
        candidates_token_count: None,
        thoughts_token_count: None,
        total_token_count: None,
    });
    assert!(!c.can_record_step(&big));
}

#[test]
fn history_is_trimmed_and_markers_renumbered() {
    let mut c = ConversationState::with_max_history_size(3);
    c.begin_turn();
    c.record_step(step(StepType::Compaction));
    c.record_step(step(StepType::TextResponse));
    c.begin_turn();
    c.record_step(step(StepType::Compaction));
    c.record_step(step(StepType::TextResponse));
    // four steps recorded, three kept: the first is dropped
    assert_eq!(c.history().len(), 3);
    assert_eq!(c.compaction_indices(), &vec![1usize]);
    assert_eq!(c.turn_start_indices(), &vec![1usize]);
    assert_eq!(c.turn_count(), 1);
}

#[test]
fn zero_limit_keeps_everything() {
    let mut c = ConversationState::with_max_history_size(0);
    for _ in 0..20 {
        c.record_step(step(StepType::Unknown));
    }
    assert_eq!(c.history().len(), 20);
}

#[test]
fn clear_history_resets() {
    let mut c = ConversationState::new();
    c.begin_turn();
    let mut s1 = step(StepType::Compaction);
    s1.usage_metadata = Some(usage(4));
    c.record_step(s1);
    c.clear_history();
    assert_eq!(c.history().len(), 0);
    assert_eq!(c.turn_count(), 0);
    assert!(c.compaction_indices().is_empty());
    assert_eq!(c.total_usage().prompt_token_count, Some(0));
    assert!(c.last_turn_usage().is_none());
}

#[test]
fn last_response_is_latest_complete_step() {
    let mut c = ConversationState::new();
    let mut a = step(StepType::TextResponse);
    a.content = "first".to_string();
    a.is_complete_response = Some(true);
    c.record_step(a);
    let mut b = step(StepType::TextResponse);
    b.content = "partial".to_string();
    b.is_complete_response = Some(false);
    c.record_step(b);
    assert_eq!(c.last_response(), "first");
    let mut d = step(StepType::TextResponse);
    d.content = "second".to_string();
    d.is_complete_response = Some(true);
    c.record_step(d);
    assert_eq!(c.last_response(), "second");
}

#[test]
fn chunks_report_each_tool_call_id_once() {
    let mut seen: Vec<String> = Vec::new();
    let mut s1 = Step::default();
    s1.source = StepSource::Model;
    s1.target = StepTarget::User;
    s1.step_index = 4;
    s1.thinking_delta = "hmm".to_string();
    s1.content_delta = "Hello".to_string();
    s1.tool_calls = vec![call(Some("a"), "view_file"), call(None, "x")];
    let chunks = chunks_from_step(s1, &mut seen);
    assert_eq!(chunks.len(), 4);
    match &chunks[0] {
        StreamChunk::Thought { step_index, text } => {
            assert_eq!(*step_index, 4);
            assert_eq!(text, "hmm");
        }
        _ => panic!("thought first"),
    }
    match &chunks[1] {
        StreamChunk::Text { text, .. } => assert_eq!(text, "Hello"),
        _ => panic!("text second"),
    }
    assert_eq!(seen, vec!["a".to_string()]);

    let mut s2 = Step::default();
    s2.tool_calls = vec![call(Some("a"), "view_file"), call(Some("b"), "edit_file"), call(None, "y")];
    let chunks2 = chunks_from_step(s2, &mut seen);
    // "a" was reported already; calls without id are always reported
    assert_eq!(chunks2.len(), 2);
    match &chunks2[0] {
        StreamChunk::ToolCall(tc) => assert_eq!(tc.id.as_deref(), Some("b")),
        _ => panic!("tool call"),
    }
    assert_eq!(seen, vec!["a".to_string(), "b".to_string()]);
}

#[test]
fn chunks_only_from_model_to_user() {
    let mut seen: Vec<String> = Vec::new();
    let mut s1 = Step::default();
    s1.source = StepSource::Model;
    s1.target = StepTarget::Environment;
    s1.content_delta = "hidden".to_string();
    assert!(chunks_from_step(s1, &mut seen).is_empty());
}

#[test]
fn collected_text_and_thinking() {
    let chunks = vec![
        StreamChunk::Thought { step_index: 1, text: "a".to_string() },
        StreamChunk::Text { step_index: 1, text: "Hel".to_string() },
        StreamChunk::ToolCall(call(Some("z"), "t")),
        StreamChunk::Text { step_index: 2, text: "lo".to_string() },
        StreamChunk::Thought { step_index: 2, text: "b".to_string() },
    ];
    assert_eq!(collect_text(&chunks), "Hello");
    assert_eq!(collect_thinking(&chunks), "ab");
}

#[test]
fn recorded_step_is_newest() {
    let mut c = ConversationState::with_max_history_size(2);
    for i in 0..5u32 {
        let mut s = step(StepType::TextResponse);
        s.step_index = i;
        c.record_step(s);
        assert_eq!(c.history().last().unwrap().step_index, i);
    }
    let kept: Vec<u32> = c.history().iter().map(|s| s.step_index).collect();
    assert_eq!(kept, vec![3, 4]);
}
