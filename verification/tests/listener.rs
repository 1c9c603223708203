use input_listener::event::Event;
use input_listener::event::Key;
use input_listener::listener::after_forward;
use input_listener::listener::decide;
use input_listener::listener::replay;
use input_listener::listener::Directive;
use input_listener::listener::Observation;

#[test]
fn decide_forwards_a_pending_key() {
    let directive = decide(Some(Key::Char('A')), false);
    assert_eq!(directive, Directive::Forward(Event::Key(Key::Char('A'))));
}

#[test]
fn decide_forwards_a_key_even_when_shutdown_is_pending() {
    let directive = decide(Some(Key::Ctrl('c')), true);
    assert_eq!(directive, Directive::Forward(Event::Key(Key::Ctrl('c'))));
}

#[test]
fn decide_stops_on_an_idle_iteration_with_shutdown_pending() {
    assert_eq!(decide(None, true), Directive::Stop);
}

#[test]
fn decide_keeps_polling_on_an_idle_iteration_without_shutdown() {
    assert_eq!(decide(None, false), Directive::Idle);
}

#[test]
fn after_forward_keeps_running_whatever_the_send_outcome() {
    assert!(after_forward(true));
    assert!(after_forward(false));
}

#[test]
fn replay_forwards_each_key_exactly_once_and_in_order() {
    let trace = vec![
        Observation { input: Some(Key::Char('h')), shutdown: false },
        Observation { input: None, shutdown: false },
        Observation { input: Some(Key::Char('i')), shutdown: false },
        Observation { input: Some(Key::Enter), shutdown: false },
        Observation { input: None, shutdown: true },
    ];
    let (events, stopped) = replay(&trace);
    assert_eq!(
        events,
        vec![
            Event::Key(Key::Char('h')),
            Event::Key(Key::Char('i')),
            Event::Key(Key::Enter),
        ]
    );
    assert!(stopped);
}

#[test]
fn replay_sends_nothing_when_the_terminal_stays_idle() {
    let trace = vec![
        Observation { input: None, shutdown: false },
        Observation { input: None, shutdown: false },
        Observation { input: None, shutdown: false },
    ];
    let (events, stopped) = replay(&trace);
    assert_eq!(events, Vec::new());
    assert!(!stopped);
}

#[test]
fn replay_stops_at_the_first_idle_iteration_with_shutdown_pending() {
    let trace = vec![
        Observation { input: None, shutdown: false },
        Observation { input: None, shutdown: true },
        Observation { input: Some(Key::Char('Z')), shutdown: false },
    ];
    let (events, stopped) = replay(&trace);
    assert_eq!(events, Vec::new());
    assert!(stopped);
}

#[test]
fn replay_does_not_drop_a_key_that_races_with_shutdown() {
    let trace = vec![
        Observation { input: Some(Key::Char('q')), shutdown: true },
        Observation { input: None, shutdown: true },
    ];
    let (events, stopped) = replay(&trace);
    assert_eq!(events, vec![Event::Key(Key::Char('q'))]);
    assert!(stopped);
}

#[test]
fn replay_listens_for_and_sends_key_events_from_the_terminal() {
    // A terminal that yields one keystroke and then reports no input: the
    // first event on the channel wraps that keystroke, and a later shutdown
    // signal ends the loop on its next idle iteration.
    let trace = vec![
        Observation { input: Some(Key::Char('A')), shutdown: false },
        Observation { input: None, shutdown: false },
        Observation { input: None, shutdown: true },
    ];
    let (events, stopped) = replay(&trace);
    assert_eq!(events.first(), Some(&Event::Key(Key::Char('A'))));
    assert_eq!(events.len(), 1);
    assert!(stopped);
}
