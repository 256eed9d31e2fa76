use iyon_tui::activity::{
    ActivityCommand, ActivityKey, ActivityState, ApprovalDecision, ConversationActivity, ToolTimelineStatus,
};

fn pending_tool() -> ConversationActivity<String> {
    ConversationActivity::tool(
        "call-1".to_string(),
        "shell".to_string(),
        "{\"cmd\":\"ls\"}".to_string(),
        ToolTimelineStatus::PendingApproval,
        Some(9),
    )
}

#[test]
fn working_spinner_advances_and_wraps() {
    let mut activity: ConversationActivity<String> = ConversationActivity::working();
    assert!(activity.tick());
    assert!(matches!(activity.state, ActivityState::Working { frame: 1 }));
    activity.state = ActivityState::Working { frame: usize::MAX };
    assert!(activity.tick());
    assert!(matches!(activity.state, ActivityState::Working { frame: 0 }));
    let mut tool = pending_tool();
    assert!(!tool.tick());
}

#[test]
fn approval_keys_only_act_while_an_approval_is_awaited() {
    let activity = pending_tool();
    assert_eq!(activity.map_key(ActivityKey::Enter, true), Some(ActivityCommand::Approve));
    assert_eq!(activity.map_key(ActivityKey::Char('y'), true), Some(ActivityCommand::Approve));
    assert_eq!(activity.map_key(ActivityKey::Escape, true), Some(ActivityCommand::Reject));
    assert_eq!(activity.map_key(ActivityKey::Char('n'), true), Some(ActivityCommand::Reject));
    assert_eq!(activity.map_key(ActivityKey::Char('x'), true), None);
    assert_eq!(activity.map_key(ActivityKey::Enter, false), None);
    let working: ConversationActivity<String> = ConversationActivity::working();
    assert_eq!(working.map_key(ActivityKey::Enter, true), None);
}

#[test]
fn approving_marks_the_call_and_returns_the_decision_once() {
    let mut activity = pending_tool();
    let decision = activity.handle_command(ActivityCommand::Approve);
    assert_eq!(
        decision,
        Some(ApprovalDecision { approval_id: 9, tool_call_id: "call-1".to_string(), approved: true })
    );
    assert_eq!(activity.approval_id, None);
    assert!(matches!(activity.state, ActivityState::Tool { status: ToolTimelineStatus::Approved, .. }));
    assert_eq!(activity.handle_command(ActivityCommand::Reject), None);
}

#[test]
fn rejecting_marks_the_call_rejected() {
    let mut activity = pending_tool();
    let decision = activity.handle_command(ActivityCommand::Reject).unwrap();
    assert!(!decision.approved);
    assert!(matches!(activity.state, ActivityState::Tool { status: ToolTimelineStatus::Rejected, .. }));
}

#[test]
fn tool_updates_and_final_item() {
    let mut activity: ConversationActivity<String> = ConversationActivity::working();
    activity.update_tool(Some("ignored".to_string()));
    activity.set_status(ToolTimelineStatus::Finished, Some(1));
    assert!(matches!(activity.state, ActivityState::Working { frame: 0 }));
    assert_eq!(activity.approval_id, None);
    assert!(activity.final_item(false).is_none());
    activity.transition_to_tool("c".to_string(), "read".to_string(), "{}".to_string(), ToolTimelineStatus::Running, None);
    activity.update_tool(Some("50%".to_string()));
    assert!(matches!(&activity.state, ActivityState::Tool { detail: Some(detail), .. } if detail == "50%"));
    let item = activity.final_item(true).unwrap();
    assert_eq!(item.tool_call_id, "c");
    assert_eq!(item.arguments, "{}");
    assert_eq!(item.status, ToolTimelineStatus::Failed);
    assert_eq!(activity.final_item(false).unwrap().status, ToolTimelineStatus::Finished);
}
