use antigravity_sdk::hooks::{
    gate_done, gate_step, interaction_done, interaction_step, lookup, notify_step, recover_done, recover_step,
    ContextLayer, DispatchStep, HookResult,
};
use antigravity_sdk::json::JsonValue;

fn s(v: &str) -> JsonValue {
    JsonValue::String(v.to_string())
}

fn get(layers: &[&ContextLayer], key: &str) -> Option<JsonValue> {
    let v: Vec<&ContextLayer> = layers.to_vec();
    lookup(&v, key)
}

fn text(v: Option<JsonValue>) -> Option<String> {
    match v {
        Some(JsonValue::String(t)) => Some(t),
        Some(_) => Some("<not a string>".to_string()),
        None => None,
    }
}

#[test]
fn test_context_hierarchy() {
    let mut session = ContextLayer::new();
    session.set("session_key", s("session_val"));
    session.set("override_key", s("session_override"));

    let mut turn = ContextLayer::new();
    assert_eq!(text(get(&[&turn, &session], "session_key")), Some("session_val".to_string()));
    assert_eq!(text(get(&[&turn, &session], "override_key")), Some("session_override".to_string()));

    turn.set("turn_key", s("turn_val"));
    turn.set("override_key", s("turn_override"));

    assert_eq!(text(get(&[&session], "turn_key")), None);
    assert_eq!(text(get(&[&session], "override_key")), Some("session_override".to_string()));
    assert_eq!(text(get(&[&turn, &session], "override_key")), Some("turn_override".to_string()));

    let mut op = ContextLayer::new();
    assert_eq!(text(get(&[&op, &turn, &session], "session_key")), Some("session_val".to_string()));
    assert_eq!(text(get(&[&op, &turn, &session], "turn_key")), Some("turn_val".to_string()));
    assert_eq!(text(get(&[&op, &turn, &session], "override_key")), Some("turn_override".to_string()));

    op.set("op_key", s("op_val"));
    op.set("override_key", s("op_override"));

    assert_eq!(text(get(&[&turn, &session], "op_key")), None);
    assert_eq!(text(get(&[&turn, &session], "override_key")), Some("turn_override".to_string()));
    assert_eq!(text(get(&[&op, &turn, &session], "override_key")), Some("op_override".to_string()));
}

#[test]
fn set_replaces_value_in_same_scope() {
    let mut layer = ContextLayer::new();
    layer.set("k", s("a"));
    layer.set("k", s("b"));
    assert_eq!(text(get(&[&layer], "k")), Some("b".to_string()));
    assert!(layer.get("missing").is_none());
}

#[test]
fn hook_result_constructors() {
    let a = HookResult::allow();
    assert!(a.allow);
    assert_eq!(a.message, "");
    let d = HookResult::deny("no");
    assert!(!d.allow);
    assert_eq!(d.message, "no");
    let n = HookResult::new(true, "ok");
    assert!(n.allow);
    assert_eq!(n.message, "ok");
    let def = HookResult::default();
    assert!(def.allow);
}

#[test]
fn gate_stops_at_first_denial() {
    // two gate hooks: the first denies, so the second never runs
    let results = vec![Ok(HookResult::deny("denied by hook 1")), Ok(HookResult::allow())];
    let mut outcome = None;
    let mut ran = 0;
    for r in results {
        ran += 1;
        if let DispatchStep::Stop(o) = gate_step(r) {
            outcome = Some(o);
            break;
        }
    }
    let res = outcome.unwrap_or_else(gate_done).unwrap();
    assert_eq!(ran, 1);
    assert!(!res.allow);
    assert_eq!(res.message, "denied by hook 1");
}

#[test]
fn gate_all_allow() {
    assert!(matches!(gate_step(Ok(HookResult::allow())), DispatchStep::Continue));
    let done = gate_done().unwrap();
    assert!(done.allow);
    let stopped = matches!(gate_step(Err("boom".to_string())), DispatchStep::Stop(Err(ref e)) if e == "boom");
    assert!(stopped);
}

#[test]
fn notifications_stop_on_error() {
    assert!(matches!(notify_step(Ok(())), DispatchStep::Continue));
    assert!(matches!(notify_step(Err("x".to_string())), DispatchStep::Stop(Err(_))));
}

#[test]
fn tool_error_recovery_rules() {
    match recover_step(Ok(Some(s("fallback")))) {
        DispatchStep::Stop(Ok((h, Some(JsonValue::String(v))))) => {
            assert!(h.allow);
            assert_eq!(v, "fallback");
        }
        _ => panic!("a value recovers the call"),
    }
    assert!(matches!(recover_step(Ok(None)), DispatchStep::Continue));
    match recover_step(Err("bad".to_string())) {
        DispatchStep::Stop(Ok((h, None))) => {
            assert!(!h.allow);
            assert_eq!(h.message, "Error recovery failed: bad");
        }
        _ => panic!("a failing hook denies"),
    }
    let (h, v) = recover_done().unwrap();
    assert!(!h.allow);
    assert_eq!(h.message, "");
    assert!(v.is_none());
}

#[test]
fn interaction_rules() {
    assert!(matches!(interaction_step(Ok(None)), DispatchStep::Continue));
    assert!(matches!(interaction_step(Err("e".to_string())), DispatchStep::Stop(Err(_))));
    let (h, r) = interaction_done().unwrap();
    assert!(!h.allow);
    assert_eq!(h.message, "No interaction hook handled the request");
    assert!(r.is_none());
}
