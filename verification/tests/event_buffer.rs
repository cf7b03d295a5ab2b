use phone_core::event_buffer::{EventBuffer, EventBufferMode};
use phone_core::keypad::KeypadEvent;

#[test]
fn clearing() {
    let mut eb = EventBuffer::new();

    let number = "22233334444";
    for c in number.chars() {
        assert_eq!(
            false,
            eb.push(EventBufferMode::WaitForUserDial, KeypadEvent::KeyPress(c))
        );
    }
    assert_eq!(eb.len(), 11);
    eb.clear();
    assert_eq!(eb.len(), 0);

    for c in number.chars() {
        assert_eq!(true, eb.push(EventBufferMode::Dtmf, KeypadEvent::KeyPress(c)));
    }
    assert_eq!(eb.len(), 11);
    eb.clear();
    assert_eq!(eb.len(), 0);
}

#[test]
fn mode_changes_clear() {
    let mut eb = EventBuffer::new();
    assert_eq!(eb.len(), 0);

    for c in "12345".chars() {
        assert_eq!(
            false,
            eb.push(EventBufferMode::WaitForUserDial, KeypadEvent::KeyPress(c))
        );
    }
    assert_eq!(eb.len(), 5);
    assert_eq!(eb.mode(), EventBufferMode::WaitForUserDial);
    assert_eq!(eb.as_str(), "12345");

    assert_eq!(true, eb.push(EventBufferMode::Dtmf, KeypadEvent::KeyPress('1')));
    assert_eq!(eb.len(), 1);
    assert_eq!(eb.mode(), EventBufferMode::Dtmf);
    assert_eq!(eb.as_str(), "1");
}

#[test]
fn wait_for_user_dials() {
    let mut eb = EventBuffer::new();

    let number = "22233334444";
    for c in number.chars() {
        assert_eq!(
            false,
            eb.push(EventBufferMode::WaitForUserDial, KeypadEvent::KeyPress(c))
        );
    }

    // long presses are ignored except '#'
    assert_eq!(
        false,
        eb.push(EventBufferMode::WaitForUserDial, KeypadEvent::LongPress('1'))
    );

    assert_eq!(
        true,
        eb.push(EventBufferMode::WaitForUserDial, KeypadEvent::LongPress('#'))
    );
    assert_eq!(eb.as_str(), number);
}

#[test]
fn dial_accumulation_completes_at_terminator() {
    let mut eb = EventBuffer::new();
    for c in "2223334444".chars() {
        assert_eq!(
            false,
            eb.push(EventBufferMode::WaitForUserDial, KeypadEvent::KeyPress(c))
        );
    }
    assert_eq!(
        true,
        eb.push(EventBufferMode::WaitForUserDial, KeypadEvent::LongPress('#'))
    );
    assert_eq!(eb.as_str(), "2223334444");
}

#[test]
fn stray_long_press_leaves_buffer() {
    let mut eb = EventBuffer::new();
    for c in "123".chars() {
        eb.push(EventBufferMode::WaitForUserDial, KeypadEvent::KeyPress(c));
    }
    assert_eq!(
        false,
        eb.push(EventBufferMode::WaitForUserDial, KeypadEvent::LongPress('1'))
    );
    assert_eq!(eb.as_str(), "123");
    assert_eq!(eb.len(), 3);
}

#[test]
fn mode_switch_discards_and_relays() {
    let mut eb = EventBuffer::new();
    for c in "12345".chars() {
        assert_eq!(
            false,
            eb.push(EventBufferMode::WaitForUserDial, KeypadEvent::KeyPress(c))
        );
    }
    let done = eb.push(EventBufferMode::Dtmf, KeypadEvent::KeyPress('1'));
    assert_eq!(done, true);
    assert_eq!(eb.len(), 1);
    assert_eq!(eb.mode(), EventBufferMode::Dtmf);
}

#[test]
fn clear_empty_is_idempotent() {
    let mut eb = EventBuffer::new();
    assert_eq!(eb.len(), 0);
    let mode_before = eb.mode();
    eb.clear();
    assert_eq!(eb.len(), 0);
    assert_eq!(eb.mode(), mode_before);
    assert_eq!(eb.as_str(), "");
    eb.clear();
    assert_eq!(eb.len(), 0);
    assert_eq!(eb.mode(), mode_before);
}

#[test]
fn overflow_drops_silently() {
    let mut eb = EventBuffer::new();
    for _ in 0..130 {
        assert_eq!(
            false,
            eb.push(EventBufferMode::WaitForUserDial, KeypadEvent::KeyPress('7'))
        );
    }
    assert_eq!(eb.len(), 128);
    // dropped characters stay dropped until the buffer is cleared
    eb.push(EventBufferMode::WaitForUserDial, KeypadEvent::KeyPress('8'));
    assert_eq!(eb.len(), 128);
    assert!(eb.as_str().chars().all(|c| c == '7'));
    eb.clear();
    assert_eq!(eb.len(), 0);
}

#[test]
fn long_press_ignored_under_dtmf() {
    let mut eb = EventBuffer::new();
    assert_eq!(true, eb.push(EventBufferMode::Dtmf, KeypadEvent::KeyPress('5')));
    assert_eq!(false, eb.push(EventBufferMode::Dtmf, KeypadEvent::LongPress('#')));
    assert_eq!(eb.as_str(), "5");
}

#[test]
fn default_mode_is_dial() {
    let eb = EventBuffer::new();
    assert_eq!(eb.mode(), EventBufferMode::WaitForUserDial);
    assert_eq!(eb.as_str(), "");
}
