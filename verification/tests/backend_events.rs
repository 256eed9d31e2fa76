use iyon_tui::backend::{BackendState, CoreEventModel, FrontendEvent, MessageDelta, MessageRole, ToolUpdatePresentation};

type Event = CoreEventModel<String, u8>;

fn text(message_id: u64, text: &str) -> Event {
    CoreEventModel::MessageDelta { message_id, delta: MessageDelta::Text(text.to_string()) }
}

fn started(message_id: u64, role: MessageRole) -> Event {
    CoreEventModel::MessageStarted { message_id, role }
}

#[test]
fn message_text_follows_the_role_of_its_message() {
    let mut state = BackendState::new(true);
    assert!(state.map_core_event(started(1, MessageRole::User)).is_none());
    assert!(state.map_core_event(started(2, MessageRole::Assistant)).is_none());
    assert!(state.map_core_event(started(3, MessageRole::Status)).is_none());
    assert!(matches!(
        state.map_core_event(text(1, "hi")),
        Some(FrontendEvent::UserMessage { text }) if text == "hi"
    ));
    assert!(matches!(
        state.map_core_event(text(2, "hello")),
        Some(FrontendEvent::AssistantDelta { text }) if text == "hello"
    ));
    assert!(state.map_core_event(text(3, "status")).is_none());
    assert!(state.map_core_event(text(9, "unknown")).is_none());
}

#[test]
fn thinking_is_shown_only_for_assistant_messages() {
    let mut state = BackendState::new(false);
    state.map_core_event::<String, u8>(started(1, MessageRole::Assistant));
    state.map_core_event::<String, u8>(started(2, MessageRole::User));
    let thinking = |id| CoreEventModel::<String, u8>::MessageDelta {
        message_id: id,
        delta: MessageDelta::Thinking("hmm".to_string()),
    };
    assert!(matches!(state.map_core_event(thinking(1)), Some(FrontendEvent::ThinkingDelta { text }) if text == "hmm"));
    assert!(state.map_core_event(thinking(2)).is_none());
}

#[test]
fn a_finished_message_forgets_its_role() {
    let mut state = BackendState::new(false);
    state.map_core_event::<String, u8>(started(1, MessageRole::Assistant));
    assert!(state.map_core_event::<String, u8>(CoreEventModel::MessageFinished { message_id: 1 }).is_none());
    assert!(state.map_core_event(text(1, "late")).is_none());
}

#[test]
fn turn_events_move_the_in_flight_flag() {
    let mut state = BackendState::new(false);
    assert!(!state.has_in_flight_turn());
    assert!(matches!(state.map_core_event::<String, u8>(CoreEventModel::TurnStarted), Some(FrontendEvent::TurnStarted)));
    assert!(state.has_in_flight_turn());
    assert!(matches!(state.map_core_event::<String, u8>(CoreEventModel::TurnFinished), Some(FrontendEvent::TurnFinished)));
    assert!(!state.has_in_flight_turn());
    state.turn_submitted();
    assert!(state.has_in_flight_turn());
    let failed = state.map_core_event::<String, u8>(CoreEventModel::TurnFailed { message: "boom".to_string() });
    assert!(matches!(failed, Some(FrontendEvent::TurnFailed { message }) if message == "boom"));
    assert!(!state.has_in_flight_turn());
}

#[test]
fn cancelling_a_turn_forgets_every_message() {
    let mut state = BackendState::new(false);
    state.map_core_event::<String, u8>(CoreEventModel::TurnStarted);
    state.map_core_event::<String, u8>(started(1, MessageRole::Assistant));
    assert!(matches!(state.map_core_event::<String, u8>(CoreEventModel::TurnCancelled), Some(FrontendEvent::TurnCancelled)));
    assert!(!state.has_in_flight_turn());
    assert!(state.map_core_event(text(1, "after cancel")).is_none());
}

#[test]
fn configuration_echo_ends_the_pending_sync() {
    let mut state = BackendState::new(true);
    assert!(state.has_pending_config_sync());
    let changed = state.map_core_event::<String, u8>(CoreEventModel::ConfigChanged {
        provider: "p".to_string(),
        model_id: "m".to_string(),
        reasoning_effort: 2,
    });
    assert!(matches!(
        changed,
        Some(FrontendEvent::ConfigChanged { provider, model_id, reasoning_effort: 2 }) if provider == "p" && model_id == "m"
    ));
    assert!(!state.has_pending_config_sync());
    state.config_refresh_requested();
    assert!(state.has_pending_config_sync());
    assert!(!BackendState::new(false).has_pending_config_sync());
}

#[test]
fn tool_events_pass_through() {
    let mut state = BackendState::new(false);
    let started = state.map_core_event::<String, u8>(CoreEventModel::ToolCallStarted {
        message_id: 4,
        tool_call_id: "c".to_string(),
        tool_name: "read".to_string(),
        arguments: "{}".to_string(),
    });
    assert!(matches!(started, Some(FrontendEvent::ToolCallStarted { message_id: 4, arguments, .. }) if arguments == "{}"));
    let updated = state.map_core_event::<String, u8>(CoreEventModel::ToolCallUpdated {
        message_id: 4,
        tool_call_id: "c".to_string(),
        tool_name: "read".to_string(),
        update: ToolUpdatePresentation::Progress { label: "x".to_string(), current: Some(1), total: Some(2) },
    });
    assert!(matches!(
        updated,
        Some(FrontendEvent::ToolCallUpdated { update: ToolUpdatePresentation::Progress { current: Some(1), total: Some(2), .. }, .. })
    ));
    let finished = state.map_core_event::<String, u8>(CoreEventModel::ToolResultFinished {
        tool_call_id: "c".to_string(),
        tool_name: "read".to_string(),
        text: "done".to_string(),
        details: "d".to_string(),
        is_error: false,
    });
    assert!(matches!(finished, Some(FrontendEvent::ToolResult { details: Some(d), is_error: false, .. }) if d == "d"));
    assert!(state.map_core_event::<String, u8>(CoreEventModel::ToolResultStarted).is_none());
    assert!(state.map_core_event::<String, u8>(CoreEventModel::AgentStarted).is_none());
    let resolved = state.map_core_event::<String, u8>(CoreEventModel::ToolApprovalResolved {
        approval_id: 3,
        tool_call_id: "c".to_string(),
        approved: false,
        reason: Some("no".to_string()),
    });
    assert!(matches!(resolved, Some(FrontendEvent::ToolApprovalResolved { approval_id: 3, approved: false, .. })));
}

#[test]
fn a_batch_of_events_keeps_order_and_drops_silent_ones() {
    let mut state = BackendState::new(false);
    let out = state.map_core_events::<String, u8>(vec![
        CoreEventModel::TurnStarted,
        started(1, MessageRole::Assistant),
        text(1, "a"),
        CoreEventModel::AgentFinished,
        text(1, "b"),
        CoreEventModel::TurnFinished,
    ]);
    assert_eq!(out.len(), 4);
    assert!(matches!(out[0], FrontendEvent::TurnStarted));
    assert!(matches!(&out[1], FrontendEvent::AssistantDelta { text } if text == "a"));
    assert!(matches!(&out[2], FrontendEvent::AssistantDelta { text } if text == "b"));
    assert!(matches!(out[3], FrontendEvent::TurnFinished));
    assert!(!state.has_in_flight_turn());
}

#[test]
fn a_recorded_role_holds_until_its_message_finishes() {
    let mut state = BackendState::new(false);
    state.map_core_events::<String, u8>(vec![
        started(7, MessageRole::Assistant),
        started(8, MessageRole::User),
        CoreEventModel::MessageFinished { message_id: 8 },
        CoreEventModel::TurnStarted,
    ]);
    assert!(matches!(state.map_core_event(text(7, "x")), Some(FrontendEvent::AssistantDelta { text }) if text == "x"));
    assert!(state.map_core_event(text(8, "gone")).is_none());
    state.map_core_event::<String, u8>(CoreEventModel::MessageFinished { message_id: 7 });
    assert!(state.map_core_event(text(7, "late")).is_none());
}
