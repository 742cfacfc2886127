use decthings_model::async_waiter::GetOutcome;
use decthings_model::messages::{encode_event, EventMessage};
use decthings_model::panicfmt::format_panic;
use decthings_model::traintracker::create_train_tracker;

#[test]
fn tracker_builds_progress_and_metrics_events() {
    let (tracker, _waiter, _provider) = create_train_tracker("s1".to_string());
    let progress = tracker.progress_event(b"0.25".to_vec());
    let body = encode_event(&progress);
    assert_eq!(
        serde_json::from_slice::<serde_json::Value>(&body).unwrap(),
        serde_json::from_str::<serde_json::Value>(
            "{\"event\":\"trainingProgress\",\"params\":{\"trainingSessionId\":\"s1\",\"progress\":0.25}}"
        )
        .unwrap()
    );
    let metrics = tracker.metrics_event(vec!["loss".to_string()]);
    match metrics {
        EventMessage::TrainingMetrics { training_session_id, names } => {
            assert_eq!(training_session_id, "s1");
            assert_eq!(names, vec!["loss"]);
        },
        _ => panic!("expected a training-metrics event"),
    }
}

#[test]
fn cancelling_resolves_the_tracker_waiter() {
    let (_tracker, mut waiter, provider) = create_train_tracker("s1".to_string());
    let registered = waiter.inner_get();
    assert_eq!(registered, GetOutcome::Wait(0));
    let woken = provider.provide(&mut waiter, ());
    assert_eq!(woken, vec![0]);
    assert_eq!(waiter.inner_get(), GetOutcome::Ready);
}

#[test]
fn panic_report_with_full_metadata() {
    let report = format_panic(
        Some("worker".to_string()),
        Some(("src/model.rs".to_string(), 42, 7)),
        Some("boom".to_string()),
        "frame 0\nframe 1".to_string(),
    );
    assert_eq!(
        report,
        "Thread 'worker' panicked at src/model.rs:42:7:\nboom\nBacktrace:\nframe 0\nframe 1"
    );
    assert!(report.contains("panicked"));
    assert!(report.contains("boom"));
}

#[test]
fn panic_report_without_metadata() {
    let report = format_panic(None, None, None, "<Backtrace not found>".to_string());
    assert_eq!(
        report,
        "Panicked:\n<unknown panic info>.\nBacktrace:\n<Backtrace not found>"
    );
}
