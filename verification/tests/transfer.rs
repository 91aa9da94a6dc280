use i2control::message::{Message, MessageBuilder};
use i2control::transfer::{Action, Event, Transfer, REPORT_INTERVAL_MS};

fn message(reports: u8) -> Message {
    MessageBuilder::new(1, reports).build().unwrap()
}

#[test]
fn transfer_interval() {
    assert_eq!(REPORT_INTERVAL_MS, 150);
}

#[test]
fn transfer_writes_in_order_with_a_pause_after_each() {
    let m = message(3);
    let mut t = Transfer::new(&m);
    let mut action = t.action();
    let mut seen = Vec::new();
    for _ in 0..20 {
        seen.push(action);
        let event = match action {
            Action::Write { .. } => Event::Written,
            Action::Pause { .. } => Event::Paused,
            Action::Finish | Action::Abort { .. } => break,
        };
        (t, action) = t.step(event);
    }
    assert_eq!(
        seen,
        vec![
            Action::Write { index: 0 },
            Action::Pause { millis: 150 },
            Action::Write { index: 1 },
            Action::Pause { millis: 150 },
            Action::Write { index: 2 },
            Action::Pause { millis: 150 },
            Action::Finish,
        ]
    );
}

#[test]
fn transfer_stops_at_a_failed_write() {
    let m = message(3);
    let t = Transfer::new(&m);
    let (t, a) = t.step(Event::Written);
    assert_eq!(a, Action::Pause { millis: 150 });
    let (t, a) = t.step(Event::Paused);
    assert_eq!(a, Action::Write { index: 1 });
    let (t, a) = t.step(Event::WriteFailed);
    assert_eq!(a, Action::Abort { index: 1 });
    let mut t = t;
    for event in [Event::Written, Event::Paused, Event::WriteFailed, Event::Written] {
        let (next, a) = t.step(event);
        assert_eq!(a, Action::Abort { index: 1 });
        assert_eq!(next, t);
        t = next;
    }
}

#[test]
fn transfer_ignores_an_event_that_answers_nothing() {
    let m = message(2);
    let t = Transfer::new(&m);
    let (t, a) = t.step(Event::Paused);
    assert_eq!(a, Action::Write { index: 0 });
    let (t, a) = t.step(Event::Written);
    assert_eq!(a, Action::Pause { millis: 150 });
    let (t, a) = t.step(Event::Written);
    assert_eq!(a, Action::Pause { millis: 150 });
    let (t, a) = t.step(Event::WriteFailed);
    assert_eq!(a, Action::Pause { millis: 150 });
    let (_, a) = t.step(Event::Paused);
    assert_eq!(a, Action::Write { index: 1 });
}

#[test]
fn transfer_of_one_report() {
    let m = message(1);
    let t = Transfer::new(&m);
    assert_eq!(t.action(), Action::Write { index: 0 });
    let (t, _) = t.step(Event::Written);
    let (t, a) = t.step(Event::Paused);
    assert_eq!(a, Action::Finish);
    let (_, a) = t.step(Event::Written);
    assert_eq!(a, Action::Finish);
}
