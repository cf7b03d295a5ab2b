use phone_core::keypad::{Keypad, KeypadEvent, SoftKeypad};
use phone_core::time::Instant;

fn quiet() -> [[bool; 3]; 4] {
    [[false; 3]; 4]
}

#[test]
fn construction() {
    let inner = SoftKeypad::new(quiet());
    let mut keypad = Keypad::new(inner);
    let t = Instant::from_millis(0);
    assert_eq!(keypad.read(&t), None);
}

#[test]
fn short_press() {
    let mut row0 = quiet();
    row0[0] = [true, true, true];
    let inner_set = SoftKeypad::new(row0);
    let inner_clr = SoftKeypad::new(quiet());

    let mut keypad = Keypad::new(inner_set);

    // press edge observed
    assert_eq!(keypad.read(&Instant::from_millis(0)), None);
    // still inside the debounce window
    assert_eq!(keypad.read(&Instant::from_millis(12)), None);
    assert_eq!(keypad.read(&Instant::from_millis(24)), None);
    // settled, but no level change yet
    assert_eq!(keypad.read(&Instant::from_millis(25)), None);

    // release after more than the debounce window, well before the
    // long-press window: exactly one short press
    keypad.set_inner(inner_clr);
    assert_eq!(
        keypad.read(&Instant::from_millis(26)),
        Some(KeypadEvent::KeyPress('1'))
    );
    assert_eq!(keypad.read(&Instant::from_millis(27)), None);
}

#[test]
fn long_press() {
    let mut row0 = quiet();
    row0[0] = [true, true, true];
    let inner_set = SoftKeypad::new(row0);
    let inner_clr = SoftKeypad::new(quiet());

    let mut keypad = Keypad::new(inner_set);

    assert_eq!(keypad.read(&Instant::from_millis(0)), None);
    assert_eq!(keypad.read(&Instant::from_millis(12)), None);
    assert_eq!(keypad.read(&Instant::from_millis(26)), None);
    assert_eq!(keypad.read(&Instant::from_millis(500)), None);

    // release at the long-press window: exactly one long press
    keypad.set_inner(inner_clr);
    assert_eq!(
        keypad.read(&Instant::from_millis(1000)),
        Some(KeypadEvent::LongPress('1'))
    );
    assert_eq!(keypad.read(&Instant::from_millis(1001)), None);
}

#[test]
fn events() {
    let short = KeypadEvent::KeyPress('C');
    let long = KeypadEvent::LongPress('C');
    assert_eq!(short.as_char(), long.as_char());
}

#[test]
fn bounce_rejected() {
    // edges spaced below the debounce window: press at 0, bounce off at
    // 10, back on at 20, off again at 40 — never an event
    let mut row0 = quiet();
    row0[0] = [true, true, true];
    let pressed = row0;

    let mut keypad = Keypad::new(SoftKeypad::new(pressed));
    assert_eq!(keypad.read(&Instant::from_millis(0)), None);

    keypad.set_inner(SoftKeypad::new(quiet()));
    assert_eq!(keypad.read(&Instant::from_millis(10)), None);

    keypad.set_inner(SoftKeypad::new(pressed));
    assert_eq!(keypad.read(&Instant::from_millis(20)), None);

    keypad.set_inner(SoftKeypad::new(quiet()));
    assert_eq!(keypad.read(&Instant::from_millis(40)), None);

    // and the line stays quiet afterwards
    assert_eq!(keypad.read(&Instant::from_millis(100)), None);
    assert_eq!(keypad.read(&Instant::from_millis(200)), None);
}

#[test]
fn single_event_per_tick() {
    // two keys pressed and released together: the row-major first one
    // fires, and firing resets the other key's timing state, so the
    // second release never becomes an event
    let mut two = quiet();
    two[0][0] = true; // '1'
    two[1][0] = true; // '4'

    let mut keypad = Keypad::new(SoftKeypad::new(two));
    assert_eq!(keypad.read(&Instant::from_millis(0)), None);
    assert_eq!(keypad.read(&Instant::from_millis(30)), None);

    keypad.set_inner(SoftKeypad::new(quiet()));
    assert_eq!(
        keypad.read(&Instant::from_millis(60)),
        Some(KeypadEvent::KeyPress('1'))
    );
    assert_eq!(keypad.read(&Instant::from_millis(61)), None);
    assert_eq!(keypad.read(&Instant::from_millis(100)), None);
}

#[test]
fn every_key_reachable() {
    // press and release each key alone; the emitted label follows the
    // standard pad layout
    let labels = [
        ['1', '2', '3'],
        ['4', '5', '6'],
        ['7', '8', '9'],
        ['*', '0', '#'],
    ];
    let mut t: u64 = 0;
    for row in 0..4 {
        for col in 0..3 {
            let mut pressed = quiet();
            pressed[row][col] = true;
            let mut keypad = Keypad::new(SoftKeypad::new(pressed));
            assert_eq!(keypad.read(&Instant::from_millis(t)), None);
            assert_eq!(keypad.read(&Instant::from_millis(t + 30)), None);
            keypad.set_inner(SoftKeypad::new(quiet()));
            assert_eq!(
                keypad.read(&Instant::from_millis(t + 60)),
                Some(KeypadEvent::KeyPress(labels[row][col]))
            );
            t += 100;
        }
    }
}
