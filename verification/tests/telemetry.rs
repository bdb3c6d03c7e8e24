use std::collections::VecDeque;

use flowsight_agent::telemetry::{
    begin_cycle, next_cycle_phase, push_event, review_result, set_running, set_task_context, summarize_events,
    task_label, truncate, ActionEvent, AppFocusTracker, CaptureCooldown, ForegroundTracker,
    CyclePhase, TaskContext, TelemetryState, RING_BUFFER_TTL_MS,
};

fn opened(name: &str, at: u64) -> ActionEvent {
    ActionEvent::UiaWindowOpened { name: Some(name.to_string()), at }
}

#[test]
fn push_event_purges_only_expired_front() {
    let mut ring = VecDeque::new();
    push_event(&mut ring, opened("a", 1_000), 1_000);
    push_event(&mut ring, opened("b", 100_000), 100_000);
    assert_eq!(ring.len(), 2);
    push_event(&mut ring, opened("c", 121_001), 121_001);
    assert_eq!(ring.len(), 2);
    assert_eq!(ring[0].timestamp(), 100_000);
    push_event(&mut ring, opened("d", 1_000 + RING_BUFFER_TTL_MS + 100_000), 221_000);
    assert_eq!(ring.len(), 2);
}

#[test]
fn event_at_ttl_edge_is_kept() {
    let mut ring = VecDeque::new();
    push_event(&mut ring, opened("a", 0), 0);
    push_event(&mut ring, opened("b", RING_BUFFER_TTL_MS), RING_BUFFER_TTL_MS);
    assert_eq!(ring.len(), 2);
}

#[test]
fn task_label_prefers_ticket() {
    let ctx = TaskContext { user_task: Some("write docs".into()), jira_ticket: Some("FS-12".into()) };
    assert_eq!(task_label(&ctx), "FS-12");
    let ctx = TaskContext { user_task: Some("write docs".into()), jira_ticket: None };
    assert_eq!(task_label(&ctx), "write docs");
    assert_eq!(task_label(&TaskContext::default()), "General");
}

#[test]
fn stopping_clears_events_and_cycle_takes_all() {
    let mut st = TelemetryState::new();
    set_running(&mut st, true);
    st.ring.push_back(opened("a", 1));
    st.ring.push_back(opened("b", 2));
    set_task_context(&mut st, None, Some("FS-1".into()));
    let c = begin_cycle(&mut st).expect("running");
    assert_eq!(c.events.len(), 2);
    assert_eq!(c.task_label, "FS-1");
    assert_eq!(c.jira_ticket.as_deref(), Some("FS-1"));
    assert!(st.ring.is_empty());
    st.ring.push_back(opened("c", 3));
    set_running(&mut st, false);
    assert!(st.ring.is_empty());
    st.ring.push_back(opened("d", 4));
    assert!(begin_cycle(&mut st).is_none());
    assert!(st.ring.is_empty());
}

#[test]
fn truncate_counts_characters() {
    assert_eq!(truncate("héllo", 5), "héllo");
    assert_eq!(truncate("héllo", 2), "hé…");
    assert_eq!(truncate("", 0), "");
}

#[test]
fn summary_lines_per_event_kind() {
    let events = vec![
        ActionEvent::ForegroundChanged {
            app_name: "Code".into(),
            window_title: "main.rs".into(),
            at: 1,
        },
        ActionEvent::UiaFocusChanged { control_name: Some("Save".into()), control_type: None, at: 2 },
        ActionEvent::UiaFocusChanged {
            control_name: None,
            control_type: Some("button".into()),
            at: 3,
        },
        ActionEvent::UiaWindowOpened { name: None, at: 4 },
        ActionEvent::UiaWindowClosed { name: Some("Prefs".into()), at: 5 },
    ];
    assert_eq!(
        summarize_events(&events),
        "- switched focus to app 'Code' (window: 'main.rs')\n\
         - focused a UI control named 'Save'\n\
         - focused a button control\n\
         - opened a window\n\
         - closed a window 'Prefs'"
    );
}

#[test]
fn summary_stops_at_forty_events_and_cuts_titles() {
    let events: Vec<ActionEvent> = (0..50).map(|i| opened(&format!("w{i}"), i)).collect();
    let s = summarize_events(&events);
    assert_eq!(s.lines().count(), 40);
    assert!(s.ends_with("'w39'"));
    let long = "x".repeat(100);
    let e = vec![ActionEvent::ForegroundChanged { app_name: "a".into(), window_title: long, at: 0 }];
    let s = summarize_events(&e);
    assert!(s.contains(&format!("'{}…'", "x".repeat(80))));
    assert_eq!(summarize_events(&Vec::new()), "");
}

#[test]
fn review_failure_is_filed_as_general() {
    let (d, c) = review_result(Err("timeout".into())).unwrap();
    assert_eq!(d, "Automatic action-log review failed: timeout");
    assert_eq!(c, "General");
    let (d, c) = review_result(Ok("VISIBLE: slack\nCATEGORY: Communication".into())).unwrap();
    assert_eq!(d, "VISIBLE: slack");
    assert_eq!(c, "Communication");
}

#[test]
fn cooldown_spaces_captures() {
    let mut cd = CaptureCooldown::new();
    assert!(!cd.try_fire(false, 0));
    assert!(cd.try_fire(true, 1_000));
    assert!(!cd.try_fire(true, 15_999));
    assert!(cd.try_fire(true, 16_000));
    assert!(!cd.try_fire(true, 10));
    assert_eq!(cd.last_fired, Some(16_000));
}

#[test]
fn foreground_tracker_reports_changes_only() {
    let mut t = ForegroundTracker::new();
    let w = |a: &str, b: &str| Some((a.to_string(), b.to_string()));
    assert!(t.observe(true, w("Code", "a.rs"), 1).is_some());
    assert!(t.observe(true, w("Code", "a.rs"), 2).is_none());
    assert!(t.observe(true, None, 3).is_none());
    match t.observe(true, w("Code", "b.rs"), 4) {
        Some(ActionEvent::ForegroundChanged { window_title, at, .. }) => {
            assert_eq!(window_title, "b.rs");
            assert_eq!(at, 4);
        }
        other => panic!("unexpected {other:?}"),
    }
    assert!(t.observe(false, w("Code", "b.rs"), 5).is_none());
    assert!(t.observe(true, w("Code", "b.rs"), 6).is_some());
}

#[test]
fn app_focus_tracker_switches_and_focus() {
    let mut t = AppFocusTracker::new();
    let s = t.on_app(Some("Safari".into()), 1);
    assert_eq!(s.events.len(), 1);
    assert_eq!(s.capture_context.as_deref(), Some("The user just focused the application 'Safari'."));
    let s = t.on_app(Some("Safari".into()), 2);
    assert!(s.events.is_empty() && s.capture_context.is_none());
    assert!(t.on_focus(Some("URL".into()), Some("AXTextField".into()), 3).is_some());
    assert!(t.on_focus(Some("URL".into()), Some("AXTextField".into()), 4).is_none());
    assert!(t.on_focus(None, None, 5).is_none());
    let s = t.on_app(Some("Mail".into()), 6);
    assert_eq!(s.events.len(), 2);
    assert!(matches!(&s.events[0], ActionEvent::UiaWindowClosed { name: Some(n), .. } if n == "Safari"));
    assert!(matches!(&s.events[1], ActionEvent::UiaWindowOpened { name: Some(n), .. } if n == "Mail"));
    assert!(t.on_focus(Some("URL".into()), Some("AXTextField".into()), 7).is_some());
    let s = t.on_app(None, 8);
    assert_eq!(s.events.len(), 1);
    assert!(s.capture_context.is_none());
    t.reset();
    assert!(t.last_app.is_none());
}

#[test]
fn cycle_reviews_only_taken_events_then_snapshots_while_running() {
    assert_eq!(next_cycle_phase(CyclePhase::Start, true, false), CyclePhase::Reviewing);
    assert_eq!(next_cycle_phase(CyclePhase::Start, false, true), CyclePhase::Snapshotting);
    assert_eq!(next_cycle_phase(CyclePhase::Start, false, false), CyclePhase::Finished);
    assert_eq!(next_cycle_phase(CyclePhase::Reviewing, true, true), CyclePhase::Snapshotting);
    assert_eq!(next_cycle_phase(CyclePhase::Reviewing, true, false), CyclePhase::Finished);
    assert_eq!(next_cycle_phase(CyclePhase::Snapshotting, true, true), CyclePhase::Finished);
    assert_eq!(next_cycle_phase(CyclePhase::Finished, true, true), CyclePhase::Finished);
}
