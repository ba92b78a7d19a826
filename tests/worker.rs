use hungrychicken::{
    Action, AppState, BotAction, BotConfig, BotMessage, Draws, Event, Filter, Monitor, Phase, Rule,
};

const LINE: &str = "AB12 15JAN 3 0700 0730 1500 0800 0600 LHR CDG  ";

fn draws() -> Draws {
    Draws { refresh_secs: 20, idle_ms: 200 }
}

fn rule(filters: Vec<Filter>, action: BotAction) -> Rule {
    Rule { name: "r".to_string(), filters, action }
}

fn begin(now_ms: u64, command: Option<BotMessage>) -> Event {
    Event::Begin { now_ms, command }
}

fn started(rules: Vec<Rule>) -> Monitor {
    let mut m = Monitor::new(&BotConfig::default(), vec![1, 2, 3], 0);
    let acts = m.step_with(begin(1000, Some(BotMessage::Start(rules))), draws());
    assert!(matches!(acts[0], Action::Refocus));
    assert!(matches!(acts[1], Action::Capture));
    assert_eq!(acts.len(), 2);
    assert_eq!(m.state, AppState::Running);
    assert_eq!(m.phase, Phase::AwaitCapture);
    m
}

fn copies(acts: &[Action]) -> usize {
    acts.iter().filter(|a| matches!(a, Action::Copy)).count()
}

#[test]
fn stopped_worker_only_sleeps() {
    let mut m = Monitor::new(&BotConfig::default(), vec![], 0);
    let acts = m.step_with(begin(999_999, None), draws());
    assert_eq!(acts.len(), 1);
    assert!(matches!(acts[0], Action::Sleep(100)));
    assert_eq!(m.phase, Phase::Top);
    assert_eq!(m.state, AppState::Stopped);
}

#[test]
fn unchanged_capture_does_not_scrape() {
    let mut m = started(vec![]);
    let acts = m.step_with(Event::Captured(vec![1, 2, 3]), draws());
    assert_eq!(copies(&acts), 0);
    assert!(matches!(acts[0], Action::WaitSlice(50)));
    assert_eq!(m.phase, Phase::Idle(200));
}

#[test]
fn changed_capture_scrapes_once_per_change() {
    let mut m = started(vec![]);
    let acts = m.step_with(Event::Captured(vec![9, 9]), draws());
    assert_eq!(copies(&acts), 1);
    assert!(matches!(acts[0], Action::Notify(BotMessage::CopyScreen)));
    assert_eq!(m.reference, vec![9, 9]);
    assert_eq!(m.phase, Phase::AwaitText);
    let acts = m.step_with(Event::Copied(Some("nothing here".to_string())), draws());
    assert_eq!(copies(&acts), 0);
    // idle wait: 200 ms in slices of 50
    for _ in 0..3 {
        let acts = m.step_with(Event::SliceDone { cancel: false, command: None }, draws());
        assert!(matches!(acts[0], Action::WaitSlice(50)));
    }
    let acts = m.step_with(Event::SliceDone { cancel: false, command: None }, draws());
    assert!(acts.is_empty());
    assert_eq!(m.phase, Phase::Top);
    let acts = m.step_with(begin(2000, None), draws());
    assert!(matches!(acts[0], Action::Capture));
    let acts = m.step_with(Event::Captured(vec![9, 9]), draws());
    assert_eq!(copies(&acts), 0);
}

#[test]
fn clipboard_failure_goes_idle() {
    let mut m = started(vec![]);
    m.step_with(Event::Captured(vec![7]), draws());
    let acts = m.step_with(Event::Copied(None), draws());
    assert_eq!(acts.len(), 1);
    assert!(matches!(acts[0], Action::WaitSlice(50)));
    assert_eq!(m.state, AppState::Running);
}

#[test]
fn alert_latches_and_pauses_polling() {
    let mut m = started(vec![rule(vec![Filter::IncludeLayover("LHR".to_string())], BotAction::Alert)]);
    m.step_with(Event::Captured(vec![7]), draws());
    let acts = m.step_with(Event::Copied(Some(LINE.to_string())), draws());
    assert!(matches!(&acts[0], Action::Notify(BotMessage::Copied(text)) if text == LINE));
    assert!(matches!(acts[1], Action::Alert));
    assert!(matches!(acts[2], Action::Notify(BotMessage::TripFound)));
    assert!(matches!(acts[3], Action::WaitSlice(50)));
    assert_eq!(m.state, AppState::Alerting);
    for _ in 0..4 {
        m.step_with(Event::SliceDone { cancel: false, command: None }, draws());
    }
    let acts = m.step_with(begin(3000, None), draws());
    assert!(matches!(acts[0], Action::Sleep(100)));
    let acts = m.step_with(begin(3100, Some(BotMessage::Stop)), draws());
    assert!(matches!(acts[0], Action::Silence));
    assert_eq!(m.state, AppState::Stopped);
}

#[test]
fn pickup_claims_first_hit_and_stops() {
    let blob = format!(
        "ZZ9 02FEB 1 0615 0700 0945 0245 0300 AMS\n{}\nCD34 16JAN 3 0800 0830 1600 0700 0500 LHR",
        LINE
    );
    let mut m = started(vec![rule(vec![Filter::NumDays(hungrychicken::Op::Eq, 3)], BotAction::Pickup)]);
    m.step_with(Event::Captured(vec![7]), draws());
    let acts = m.step_with(Event::Copied(Some(blob)), draws());
    assert_eq!(acts.len(), 4);
    assert!(matches!(&acts[1], Action::Pickup(id) if id == "AB12"));
    assert!(matches!(acts[2], Action::Notify(BotMessage::Stop)));
    assert_eq!(m.state, AppState::Stopped);
}

#[test]
fn stop_during_idle_wait_takes_effect_after_one_slice() {
    let mut m = started(vec![rule(vec![], BotAction::Alert)]);
    m.step_with(Event::Captured(vec![1, 2, 3]), draws());
    assert_eq!(m.phase, Phase::Idle(200));
    let acts = m.step_with(Event::SliceDone { cancel: false, command: Some(BotMessage::Stop) }, draws());
    assert!(matches!(acts[0], Action::Silence));
    assert_eq!(m.state, AppState::Stopped);
    assert_eq!(m.phase, Phase::Top);
    for now in [5_000u64, 60_000, 120_000] {
        let acts = m.step_with(begin(now, None), draws());
        assert_eq!(acts.len(), 1);
        assert!(matches!(acts[0], Action::Sleep(100)));
        let acts = m.step_with(Event::Captured(vec![42]), draws());
        assert!(acts.is_empty());
        let acts = m.step_with(Event::Copied(Some(LINE.to_string())), draws());
        assert!(acts.is_empty());
    }
    assert_eq!(m.state, AppState::Stopped);
}

#[test]
fn cancel_hotkey_stops_from_any_state() {
    let mut m = started(vec![rule(vec![], BotAction::Alert)]);
    m.step_with(Event::Captured(vec![5]), draws());
    m.step_with(Event::Copied(Some(LINE.to_string())), draws());
    assert_eq!(m.state, AppState::Alerting);
    let acts = m.step_with(Event::SliceDone { cancel: true, command: None }, draws());
    assert!(matches!(acts[0], Action::Notify(BotMessage::Stop)));
    assert_eq!(m.state, AppState::Stopped);
}

#[test]
fn refresh_when_interval_has_elapsed() {
    let mut m = started(vec![]);
    m.step_with(Event::Captured(vec![1, 2, 3]), draws());
    for _ in 0..4 {
        m.step_with(Event::SliceDone { cancel: false, command: None }, draws());
    }
    // first interval is the lower bound, 10 s, counted from 0
    let acts = m.step_with(begin(10_000, None), draws());
    assert_eq!(acts.len(), 1);
    m.step_with(Event::Captured(vec![1, 2, 3]), draws());
    for _ in 0..4 {
        m.step_with(Event::SliceDone { cancel: false, command: None }, draws());
    }
    let acts = m.step_with(begin(10_001, None), draws());
    assert!(matches!(acts[0], Action::Notify(BotMessage::Waiting(20))));
    assert!(matches!(acts[1], Action::Refresh));
    assert!(matches!(acts[2], Action::Capture));
    assert_eq!(m.last_refresh_ms, 10_001);
    assert_eq!(m.refresh_interval_secs, 20);
}

#[test]
fn random_draws_stay_within_bounds() {
    let mut m = Monitor::new(&BotConfig::default(), vec![0], 0);
    m.step(begin(0, Some(BotMessage::Start(vec![]))));
    m.step(Event::Captured(vec![0]));
    while m.phase != Phase::Top {
        m.step(Event::SliceDone { cancel: false, command: None });
    }
    let mut waits = Vec::new();
    let mut now = 0u64;
    for _ in 0..60 {
        now += 1_000_000;
        let acts = m.step(begin(now, None));
        match acts[0] {
            Action::Notify(BotMessage::Waiting(s)) => waits.push(s),
            _ => panic!("refresh expected"),
        }
        m.step(Event::Captured(vec![0]));
        match m.phase {
            Phase::Idle(ms) => assert!((150..250).contains(&ms)),
            _ => panic!("idle wait expected"),
        }
        while m.phase != Phase::Top {
            m.step(Event::SliceDone { cancel: false, command: None });
        }
    }
    assert!(waits.iter().all(|s| (10..30).contains(s)));
    assert!(waits.iter().any(|s| *s != waits[0]));
}

#[test]
fn start_does_not_end_an_alert() {
    let mut m = started(vec![rule(vec![], BotAction::Alert)]);
    m.step_with(Event::Captured(vec![5]), draws());
    m.step_with(Event::Copied(Some(LINE.to_string())), draws());
    assert_eq!(m.state, AppState::Alerting);
    let acts = m.step_with(
        Event::SliceDone { cancel: false, command: Some(BotMessage::Start(vec![])) },
        draws(),
    );
    assert!(acts.is_empty());
    assert_eq!(m.state, AppState::Alerting);
    assert_eq!(m.rules.len(), 1);
    let acts = m.step_with(begin(500_000, Some(BotMessage::Start(vec![]))), draws());
    assert_eq!(acts.len(), 1);
    assert!(matches!(acts[0], Action::Sleep(100)));
    assert_eq!(m.state, AppState::Alerting);
    let acts = m.step_with(begin(500_100, Some(BotMessage::Stop)), draws());
    assert!(matches!(acts[0], Action::Silence));
    assert_eq!(m.state, AppState::Stopped);
    let acts = m.step_with(begin(500_200, Some(BotMessage::Start(vec![]))), draws());
    assert!(matches!(acts[0], Action::Refocus));
    assert_eq!(m.state, AppState::Running);
}

#[test]
fn hotkey_and_stop_in_one_slice_silence_and_stop() {
    let mut m = started(vec![rule(vec![], BotAction::Alert)]);
    m.step_with(Event::Captured(vec![5]), draws());
    m.step_with(Event::Copied(Some(LINE.to_string())), draws());
    let acts = m.step_with(
        Event::SliceDone { cancel: true, command: Some(BotMessage::Stop) },
        draws(),
    );
    assert_eq!(acts.len(), 2);
    assert!(matches!(acts[0], Action::Silence));
    assert!(matches!(acts[1], Action::Notify(BotMessage::Stop)));
    assert_eq!(m.state, AppState::Stopped);
    assert_eq!(m.phase, Phase::Top);
}

#[test]
fn hotkey_wins_over_start_in_one_slice() {
    let mut m = started(vec![]);
    m.step_with(Event::Captured(vec![1, 2, 3]), draws());
    let new_rules = vec![rule(vec![], BotAction::Pickup), rule(vec![], BotAction::Alert)];
    let acts = m.step_with(
        Event::SliceDone { cancel: true, command: Some(BotMessage::Start(new_rules)) },
        draws(),
    );
    assert!(matches!(acts.last(), Some(Action::Notify(BotMessage::Stop))));
    assert_eq!(m.state, AppState::Stopped);
    assert_eq!(m.rules.len(), 2);
}

#[test]
fn skipped_records_are_announced() {
    let blob = format!(
        "AB12 15JAX 3 0700 0730 1500 0800 0600\n{}\nCD34 16JAN 2 0800 0830 1600 0800 6000",
        LINE
    );
    let mut m = started(vec![]);
    m.step_with(Event::Captured(vec![8]), draws());
    let acts = m.step_with(Event::Copied(Some(blob)), draws());
    assert_eq!(acts.len(), 4);
    assert!(matches!(acts[0], Action::Notify(BotMessage::Copied(_))));
    assert!(matches!(
        acts[1],
        Action::Notify(BotMessage::Skipped(hungrychicken::ParseTripError::Date))
    ));
    assert!(matches!(
        acts[2],
        Action::Notify(BotMessage::Skipped(hungrychicken::ParseTripError::Credit))
    ));
    assert!(matches!(acts[3], Action::WaitSlice(50)));
}
