use iyon_tui::active::{is_spinner_animating, ActiveBehavior, ActivePaneKind, ActivePaneState, ActiveTicker, ToolActiveStatus};
use iyon_tui::panel::SteeringQueuePanel;
use iyon_tui::scene::Scene;
use iyon_tui::view::{View, ViewKind, WidthRule};

fn texts(view: &View) -> Vec<String> {
    match &view.kind {
        ViewKind::Column(column) => column
            .children
            .iter()
            .map(|child| match &child.kind {
                ViewKind::Text(text) => text.spans.iter().map(|s| s.text.as_str()).collect::<String>(),
                ViewKind::Spacer { rows } => format!("<spacer {rows}>"),
                _ => "<other>".to_string(),
            })
            .collect(),
        _ => Vec::new(),
    }
}

#[test]
fn empty_steering_queue_shows_an_empty_spacer() {
    let panel = SteeringQueuePanel::new();
    assert_eq!(panel.view(), View::spacer(0));
}

#[test]
fn steering_queue_lists_four_then_counts_the_rest() {
    let mut panel = SteeringQueuePanel::default();
    for text in ["a", "b", "c", "d", "e", "f"] {
        panel.queued(text.to_string());
    }
    let view = panel.view();
    assert_eq!(view.width, WidthRule::Fill);
    assert_eq!(
        texts(&view),
        vec!["Steering: a", "Steering: b", "Steering: c", "Steering: d", "↑ 2 more queued"]
    );
}

#[test]
fn delivered_removes_only_the_first_matching_message() {
    let mut panel = SteeringQueuePanel::new();
    for text in ["x", "y", "x"] {
        panel.queued(text.to_string());
    }
    panel.delivered("x");
    assert_eq!(texts(&panel.view()), vec!["Steering: y", "Steering: x"]);
    panel.delivered("absent");
    assert_eq!(texts(&panel.view()), vec!["Steering: y", "Steering: x"]);
}

#[test]
fn spinner_ticks_through_its_frames() {
    let mut state = ActivePaneState::working_spinner();
    assert_eq!(state.kind(), ActivePaneKind::WorkingSpinner);
    assert_eq!(state.behavior(), ActiveBehavior::SpillToTranscript);
    assert_eq!(state.desired_height(), 3);
    assert_eq!(state.spinner_frame(), "⠋");
    state.tick();
    assert_eq!(state.spinner_frame(), "⠙");
    for _ in 0..10 {
        state.tick();
    }
    assert_eq!(state.spinner_frame(), "⠙");
    assert_eq!(texts(&state.view()), vec!["<spacer 1>", "⠙ Working", "<spacer 1>"]);
}

#[test]
fn spinner_counter_wraps_instead_of_overflowing() {
    let mut state = ActivePaneState::WorkingSpinner { spinner_frame: usize::MAX };
    state.tick();
    assert!(matches!(state, ActivePaneState::WorkingSpinner { spinner_frame: 0 }));
}

#[test]
fn tool_pane_shows_status_and_detail() {
    let state = ActivePaneState::Tool {
        tool_name: "grep".to_string(),
        status: ToolActiveStatus::WaitingForApproval { approval_id: 7 },
        detail: Some("pattern".to_string()),
    };
    assert_eq!(state.kind(), ActivePaneKind::Tool);
    assert_eq!(state.behavior(), ActiveBehavior::OccludeOnly);
    assert_eq!(texts(&state.view()), vec!["<spacer 1>", "tool grep: approval required", "pattern"]);
    let running = ActivePaneState::Tool { tool_name: "ls".to_string(), status: ToolActiveStatus::Running, detail: None };
    assert_eq!(texts(&running.view()), vec!["<spacer 1>", "tool ls: running", ""]);
    assert_eq!(ActivePaneState::SlashMenu.view(), View::spacer(1));
    assert_eq!(ActivePaneState::FilePicker.behavior(), ActiveBehavior::OccludeOnly);
}

#[test]
fn only_the_working_spinner_animates() {
    assert!(is_spinner_animating(Some(&ActivePaneState::working_spinner())));
    assert!(!is_spinner_animating(Some(&ActivePaneState::SlashMenu)));
    assert!(!is_spinner_animating(None));
}

#[test]
fn ticker_waits_idle_without_a_spinner_and_paces_with_one() {
    let mut ticker = ActiveTicker::new(100, 0);
    assert_eq!(ticker.wait_timeout(50, None, 5_000), 5_000);
    assert!(!ticker.is_animating());
    assert_eq!(ticker.next_tick(), 150);
    let spinner = ActivePaneState::working_spinner();
    assert_eq!(ticker.wait_timeout(60, Some(&spinner), 5_000), 100);
    assert!(ticker.is_animating());
    assert_eq!(ticker.wait_timeout(130, Some(&spinner), 5_000), 30);
    assert_eq!(ticker.wait_timeout(200, Some(&spinner), 5_000), 0);
}

#[test]
fn ticker_advances_the_spinner_only_when_due() {
    let mut ticker = ActiveTicker::new(100, 0);
    let mut active = Some(ActivePaneState::working_spinner());
    assert!(!ticker.tick_if_due(50, &mut active));
    assert_eq!(active.as_ref().unwrap().spinner_frame(), "⠋");
    assert!(ticker.tick_if_due(100, &mut active));
    assert_eq!(active.as_ref().unwrap().spinner_frame(), "⠙");
    assert_eq!(ticker.next_tick(), 200);
    let mut menu = Some(ActivePaneState::SlashMenu);
    assert!(!ticker.tick_if_due(500, &mut menu));
    assert_eq!(ticker.next_tick(), 600);
    let mut none: Option<ActivePaneState> = None;
    assert!(!ticker.tick_if_due(700, &mut none));
    assert_eq!(ticker.next_tick(), 800);
}

#[test]
fn scene_holds_its_history_and_body() {
    let mut scene: Scene<u32> = Scene::new(View::spacer(2));
    assert!(scene.history().is_none());
    assert_eq!(scene.body(), &View::spacer(2));
    scene.set_body(View::spacer(3));
    assert_eq!(scene.body(), &View::spacer(3));
    let mut with_history = Scene::with_history(5u32, View::spacer(1));
    assert_eq!(with_history.history(), Some(&5));
    if let Some(history) = with_history.history_mut() {
        *history = 6;
    }
    assert_eq!(with_history.history(), Some(&6));
}
