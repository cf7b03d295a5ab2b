//! The three stages end to end: scripted raw levels through the scanner,
//! events through the accumulator, the finished buffer through the parser.

use phone_core::event_buffer::{EventBuffer, EventBufferMode};
use phone_core::keypad::{Keypad, KeypadEvent, SoftKeypad};
use phone_core::phone_number::PhoneNumber;
use phone_core::time::Instant;

fn quiet() -> [[bool; 3]; 4] {
    [[false; 3]; 4]
}

/// Press and release the key at `(row, col)`, long enough to settle; a
/// long press holds past the long-press window.
fn tap(
    keypad: &mut Keypad<SoftKeypad>,
    t: &mut u64,
    row: usize,
    col: usize,
    long: bool,
) -> Option<KeypadEvent> {
    let mut pressed = quiet();
    pressed[row][col] = true;
    keypad.set_inner(SoftKeypad::new(pressed));
    assert_eq!(keypad.read(&Instant::from_millis(*t)), None);
    let hold = if long { 1100 } else { 100 };
    assert_eq!(keypad.read(&Instant::from_millis(*t + hold / 2)), None);
    keypad.set_inner(SoftKeypad::new(quiet()));
    let ev = keypad.read(&Instant::from_millis(*t + hold));
    *t += hold + 100;
    ev
}

#[test]
fn dial_a_number() {
    let mut keypad = Keypad::new(SoftKeypad::new(quiet()));
    let mut eb = EventBuffer::new();
    let mut t: u64 = 0;

    // dial 2223334444: '2' is (0,1), '3' is (0,2), '4' is (1,0)
    let taps = [
        (0, 1),
        (0, 1),
        (0, 1),
        (0, 2),
        (0, 2),
        (0, 2),
        (1, 0),
        (1, 0),
        (1, 0),
        (1, 0),
    ];
    for (row, col) in taps {
        let ev = tap(&mut keypad, &mut t, row, col, false).expect("a short press");
        assert_eq!(false, eb.push(EventBufferMode::WaitForUserDial, ev));
    }

    // the dial terminator: a long press of '#', at (3, 2)
    let ev = tap(&mut keypad, &mut t, 3, 2, true).expect("a long press");
    assert_eq!(ev, KeypadEvent::LongPress('#'));
    assert_eq!(true, eb.push(EventBufferMode::WaitForUserDial, ev));

    let text = eb.as_str();
    assert_eq!(text, "2223334444");
    let num = PhoneNumber::from_utf8(&text).expect("a parsable number");
    assert_eq!(num, PhoneNumber::new(222, 333, 4444));
}
