//! The debouncing key-matrix scanner.
//!
//! Twelve keys are wired as four rows by three columns, labeled like a
//! standard keypad. Each scan receives a snapshot of the raw electrical
//! levels (active low: a pressed key reads as line low) and the current
//! monotonic timestamp, and emits at most one discrete, debounced
//! [`KeypadEvent`].
//!
//! Per key, a scan works in three steps: record the raw level and, on a
//! press edge, the edge timestamp; treat the key as debounced-pressed only
//! once the level has held for the debounce window; and emit an event
//! exactly when the level changes while the previous scan had already
//! confirmed the key pressed. The event is a long press when the confirmed
//! press is at least the long-press window old, else a short press. When
//! an event fires, the timing state of every key is reset, so a second key
//! changing in the same tick cannot cross-talk into a phantom event.

use crate::time::Instant;
use vstd::prelude::*;

verus! {

/// Minimum settle time after an electrical edge before a key's state is
/// trusted, in milliseconds.
pub const DEBOUNCE_WINDOW_MS: u64 = 25;

/// Minimum duration since a confirmed press edge before a release is
/// classified as a long press, in milliseconds.
pub const LONGPRESS_WINDOW_MS: u64 = 1000;

/// A discrete, debounced key event: one per qualifying transition.
#[derive(Debug, Clone, Copy, PartialEq, Eq, Structural)]
pub enum KeypadEvent {
    KeyPress(char),
    LongPress(char),
}

impl KeypadEvent {
    /// The label of the key the event came from, whatever its kind.
    pub fn as_char(&self) -> (c: char)
        ensures
            match *self {
                KeypadEvent::KeyPress(k) => c == k,
                KeypadEvent::LongPress(k) => c == k,
            },
    {
        match *self {
            KeypadEvent::KeyPress(c) => c,
            KeypadEvent::LongPress(c) => c,
        }
    }
}

/// The debouncing state of one matrix position.
#[derive(Debug, Clone, Copy, PartialEq, Eq, Structural)]
pub struct KeyState {
    /// The immutable character label of this matrix position.
    pub key: char,
    /// The raw level sampled by the most recent scan (true = line low =
    /// pressed).
    pub state: bool,
    /// The debounced-pressed value computed by the most recent scan.
    pub prev_pressed: bool,
    /// The timestamp of the most recent observed press (rising) edge.
    pub last_db: Instant,
}

/// What one scan makes of one key, given the freshly sampled raw `level`
/// at time `now`: the raw state follows the sample, a press edge stamps
/// `last_db`, and the key counts as debounced-pressed only once the press
/// edge is at least the debounce window old.
pub open spec fn step_state(ks: KeyState, level: bool, now: Instant) -> KeyState {
    let changed = ks.state != level;
    let last_db = if changed && level {
        now
    } else {
        ks.last_db
    };
    KeyState {
        key: ks.key,
        state: level,
        prev_pressed: last_db.millis + DEBOUNCE_WINDOW_MS <= now.millis && level,
        last_db,
    }
}

/// Whether this scan emits an event for the key: the raw level changed
/// and the previous scan had already confirmed the key pressed.
pub open spec fn step_fires(ks: KeyState, level: bool) -> bool {
    ks.state != level && ks.prev_pressed
}

/// Whether the event emitted by this scan is a long press: the press edge
/// the key is tracking is at least the long-press window old.
pub open spec fn step_long(ks: KeyState, level: bool, now: Instant) -> bool {
    step_state(ks, level, now).last_db.millis + LONGPRESS_WINDOW_MS <= now.millis
}

/// The event emitted when the key fires on this scan.
pub open spec fn step_event(ks: KeyState, level: bool, now: Instant) -> KeypadEvent {
    if step_long(ks, level, now) {
        KeypadEvent::LongPress(ks.key)
    } else {
        KeypadEvent::KeyPress(ks.key)
    }
}

impl KeyState {
    pub fn new(key: char) -> (r: KeyState)
        ensures
            r == (KeyState { key, state: false, prev_pressed: false, last_db: Instant { millis: 0 } }),
    {
        KeyState { key, state: false, prev_pressed: false, last_db: Instant { millis: 0 } }
    }

    pub fn key(&self) -> (c: char)
        ensures
            c == self.key,
    {
        self.key
    }

    /// Record the raw level sampled at `time`; a press edge stamps
    /// `last_db`. Returns whether the level changed since the last scan.
    pub fn set(&mut self, time: &Instant, state: bool) -> (changed: bool)
        ensures
            changed == (old(self).state != state),
            final(self).key == old(self).key,
            final(self).state == state,
            final(self).prev_pressed == old(self).prev_pressed,
            final(self).last_db == if old(self).state != state && state {
                *time
            } else {
                old(self).last_db
            },
    {
        let prev = self.state;
        self.state = state;
        let changed = prev != self.state;
        if changed && state {
            self.last_db = *time;
        }
        changed
    }

    /// Recompute the debounced-pressed value at `time` and return it,
    /// paired with the value the previous scan had computed.
    pub fn pressed(&mut self, time: &Instant) -> (r: (bool, bool))
        requires
            old(self).last_db.millis <= time.millis,
        ensures
            r.1 == old(self).prev_pressed,
            r.0 == final(self).prev_pressed,
            final(self).prev_pressed == (old(self).last_db.millis + DEBOUNCE_WINDOW_MS
                <= time.millis && old(self).state),
            final(self).key == old(self).key,
            final(self).state == old(self).state,
            final(self).last_db == old(self).last_db,
    {
        let prev = self.prev_pressed;
        self.prev_pressed = if time.millis - self.last_db.millis < DEBOUNCE_WINDOW_MS {
            false
        } else {
            self.state
        };
        (self.prev_pressed, prev)
    }

    /// Whether the press edge the key is tracking is at least the
    /// long-press window old at `time`.
    pub fn long_pressed(&mut self, time: &Instant) -> (long: bool)
        requires
            old(self).last_db.millis <= time.millis,
        ensures
            *final(self) == *old(self),
            long == (old(self).last_db.millis + LONGPRESS_WINDOW_MS <= time.millis),
    {
        if time.millis - self.last_db.millis < LONGPRESS_WINDOW_MS {
            false
        } else {
            true
        }
    }
}

/// The label of matrix position `i`, row-major over the standard
/// twelve-key pad.
pub open spec fn key_label(i: int) -> char {
    seq!['1', '2', '3', '4', '5', '6', '7', '8', '9', '*', '0', '#'][i]
}

/// The state of every key when the scanner is created: raw and debounced
/// both unpressed, press-edge timestamp at zero.
pub open spec fn initial_states() -> Seq<KeyState> {
    Seq::new(
        12,
        |i: int|
            KeyState {
                key: key_label(i),
                state: false,
                prev_pressed: false,
                last_db: Instant { millis: 0 },
            },
    )
}

/// A raw-level snapshot flattened row-major: entry `i` is the level of
/// the key at row `i / 3`, column `i % 3`.
pub open spec fn flat_levels(levels: [[bool; 3]; 4]) -> Seq<bool> {
    Seq::new(12, |i: int| levels@[i / 3]@[i % 3])
}

/// Every key's timing state reset to `now` and marked not previously
/// pressed; the raw levels are kept as they were.
pub open spec fn reset_states(states: Seq<KeyState>, now: Instant) -> Seq<KeyState> {
    Seq::new(
        states.len(),
        |i: int|
            KeyState {
                key: states[i].key,
                state: states[i].state,
                prev_pressed: false,
                last_db: now,
            },
    )
}

/// One whole scan, resumed at key `k`: keys are visited in row-major
/// order; the first key whose raw level changed while it was already
/// confirmed pressed fires the scan's single event, and firing resets the
/// timing state of every key. Keys after the firing one keep their stale
/// raw state until the next scan.
pub open spec fn scan_from(
    states: Seq<KeyState>,
    levels: Seq<bool>,
    now: Instant,
    k: int,
) -> (Seq<KeyState>, Option<KeypadEvent>)
    decreases states.len() - k,
{
    if k < 0 || k >= states.len() || states.len() != levels.len() {
        (states, None)
    } else {
        let ks = states[k];
        let level = levels[k];
        if step_fires(ks, level) {
            (
                reset_states(states.update(k, step_state(ks, level, now)), now),
                Some(step_event(ks, level, now)),
            )
        } else {
            scan_from(states.update(k, step_state(ks, level, now)), levels, now, k + 1)
        }
    }
}

/// What one scan makes of the whole matrix: the resulting key states and
/// the at-most-one event emitted.
pub open spec fn scan_spec(
    states: Seq<KeyState>,
    levels: Seq<bool>,
    now: Instant,
) -> (Seq<KeyState>, Option<KeypadEvent>) {
    scan_from(states, levels, now, 0)
}

/// The matrix wiring: one snapshot of the raw levels per scan. The
/// hardware implementation strobes the columns and reads the row lines;
/// [`SoftKeypad`] is the software test double.
pub trait KeypadDecomp {
    /// One snapshot of the raw matrix levels, row-major; true means the
    /// line reads electrically low, i.e. the key is pressed.
    fn decompose(&self) -> [[bool; 3]; 4];
}

/// A software-backed matrix: the levels are a plain field, set by the
/// test or simulation driving the scanner.
pub struct SoftKeypad {
    pub levels: [[bool; 3]; 4],
}

impl SoftKeypad {
    pub fn new(levels: [[bool; 3]; 4]) -> (r: SoftKeypad)
        ensures
            r.levels == levels,
    {
        SoftKeypad { levels }
    }
}

impl KeypadDecomp for SoftKeypad {
    fn decompose(&self) -> [[bool; 3]; 4] {
        self.levels
    }
}

/// The scanner: the debouncing state of all twelve keys over some matrix
/// wiring.
pub struct Keypad<INNER: KeypadDecomp> {
    states: Vec<KeyState>,
    inner: INNER,
}

impl<INNER: KeypadDecomp> Keypad<INNER> {
    /// The debouncing state of the twelve keys, row-major.
    pub closed spec fn key_states(&self) -> Seq<KeyState> {
        self.states@
    }

    /// The wiring the scanner reads from.
    pub closed spec fn spec_inner(&self) -> INNER {
        self.inner
    }

    pub open spec fn wf(&self) -> bool {
        self.key_states().len() == 12
    }

    /// No key tracks a press edge later than `t`: the timestamps handed
    /// to the scanner are monotonic, so this holds of every time at or
    /// after the most recent scan.
    pub open spec fn time_ok(&self, t: Instant) -> bool {
        forall|i: int|
            0 <= i < self.key_states().len() ==> self.key_states()[i].last_db.millis <= t.millis
    }

    pub fn new(inner: INNER) -> (r: Keypad<INNER>)
        ensures
            r.wf(),
            r.key_states() == initial_states(),
            r.spec_inner() == inner,
    {
        let labels: [char; 12] = ['1', '2', '3', '4', '5', '6', '7', '8', '9', '*', '0', '#'];
        proof {
            assert(labels@ =~= seq!['1', '2', '3', '4', '5', '6', '7', '8', '9', '*', '0', '#']);
        }
        let mut states: Vec<KeyState> = Vec::new();
        let mut i: usize = 0;
        while i < 12
            invariant
                i <= 12,
                states@.len() == i,
                labels@ == seq!['1', '2', '3', '4', '5', '6', '7', '8', '9', '*', '0', '#'],
                forall|j: int| 0 <= j < i ==> states@[j] == initial_states()[j],
            decreases 12 - i,
        {
            states.push(KeyState::new(labels[i]));
            i += 1;
        }
        let r = Keypad { states, inner };
        proof {
            assert(r.key_states() =~= initial_states());
        }
        r
    }

    /// Replace the wiring, keeping every key's debouncing state.
    pub fn set_inner(&mut self, inner: INNER)
        ensures
            final(self).key_states() == old(self).key_states(),
            final(self).spec_inner() == inner,
    {
        self.inner = inner;
    }

    /// One scan over an explicit level snapshot: at most one event, per
    /// [`scan_spec`].
    pub fn scan(&mut self, levels: [[bool; 3]; 4], time: &Instant) -> (r: Option<KeypadEvent>)
        requires
            old(self).wf(),
            old(self).time_ok(*time),
        ensures
            final(self).wf(),
            final(self).time_ok(*time),
            final(self).spec_inner() == old(self).spec_inner(),
            final(self).key_states() == scan_spec(
                old(self).key_states(),
                flat_levels(levels),
                *time,
            ).0,
            r == scan_spec(old(self).key_states(), flat_levels(levels), *time).1,
    {
        let ghost orig = self.states@;
        let ghost lseq = flat_levels(levels);
        let mut k: usize = 0;
        while k < 12
            invariant
                k <= 12,
                self.states@.len() == 12,
                lseq == flat_levels(levels),
                lseq.len() == 12,
                self.inner == old(self).inner,
                orig == old(self).key_states(),
                scan_from(orig, lseq, *time, 0) == scan_from(self.states@, lseq, *time, k as int),
                forall|i: int| k <= i < 12 ==> self.states@[i] == orig[i],
                forall|i: int| 0 <= i < 12 ==> self.states@[i].last_db.millis <= time.millis,
            decreases 12 - k,
        {
            let level = levels[k / 3][k % 3];
            proof {
                assert(level == lseq[k as int]);
            }
            let ghost pre = self.states@;
            let mut ks = self.states[k];
            let changed = ks.set(time, level);
            let (_db_pressed, prev_pressed) = ks.pressed(time);
            let long = ks.long_pressed(time);
            proof {
                assert(ks == step_state(pre[k as int], level, *time));
                assert((changed && prev_pressed) == step_fires(pre[k as int], level));
            }
            self.states.set(k, ks);
            if changed && prev_pressed {
                let c = ks.key();
                let ghost stepped = pre.update(k as int, step_state(pre[k as int], level, *time));
                let mut j: usize = 0;
                while j < 12
                    invariant
                        j <= 12,
                        self.states@.len() == 12,
                        stepped.len() == 12,
                        self.inner == old(self).inner,
                        forall|i: int| 0 <= i < j ==> self.states@[i] == reset_states(stepped, *time)[i],
                        forall|i: int| j <= i < 12 ==> self.states@[i] == stepped[i],
                    decreases 12 - j,
                {
                    let mut s = self.states[j];
                    s.last_db = *time;
                    s.prev_pressed = false;
                    self.states.set(j, s);
                    j += 1;
                }
                proof {
                    assert(self.states@ =~= reset_states(stepped, *time));
                    assert(scan_from(pre, lseq, *time, k as int) == (
                        self.states@,
                        Some(step_event(pre[k as int], level, *time)),
                    ));
                }
                return Some(
                    if long {
                        KeypadEvent::LongPress(c)
                    } else {
                        KeypadEvent::KeyPress(c)
                    },
                );
            }
            proof {
                assert(scan_from(pre, lseq, *time, k as int) == scan_from(
                    self.states@,
                    lseq,
                    *time,
                    k as int + 1,
                ));
            }
            k += 1;
        }
        None
    }

    /// One scan against the wiring: read a level snapshot and feed it to
    /// [`Keypad::scan`]. The snapshot the wiring returns is not pinned by
    /// any contract, so the result is related to the prior state by
    /// [`scan_spec`] for some level snapshot.
    pub fn read(&mut self, time: &Instant) -> (r: Option<KeypadEvent>)
        requires
            old(self).wf(),
            old(self).time_ok(*time),
        ensures
            final(self).wf(),
            final(self).time_ok(*time),
            exists|levels: [[bool; 3]; 4]|
                #![auto]
                final(self).key_states() == scan_spec(
                    old(self).key_states(),
                    flat_levels(levels),
                    *time,
                ).0 && r == scan_spec(old(self).key_states(), flat_levels(levels), *time).1,
    {
        let levels = self.inner.decompose();
        let r = self.scan(levels, time);
        r
    }
}

/// A scan on which no key qualifies emits nothing, and each key steps by
/// its own sample alone. Helper generalized over the resume index.
proof fn lemma_scan_from_quiet(states: Seq<KeyState>, levels: Seq<bool>, now: Instant, k: int)
    requires
        states.len() == levels.len(),
        0 <= k <= states.len(),
        forall|i: int| k <= i < states.len() ==> !step_fires(states[i], levels[i]),
    ensures
        scan_from(states, levels, now, k).1 is None,
        scan_from(states, levels, now, k).0.len() == states.len(),
        forall|i: int| 0 <= i < k ==> scan_from(states, levels, now, k).0[i] == states[i],
        forall|i: int|
            k <= i < states.len() ==> scan_from(states, levels, now, k).0[i] == step_state(
                states[i],
                levels[i],
                now,
            ),
    decreases states.len() - k,
{
    if k < states.len() {
        assert(!step_fires(states[k], levels[k]));
        let stepped = states.update(k, step_state(states[k], levels[k], now));
        assert(scan_from(states, levels, now, k) == scan_from(stepped, levels, now, k + 1));
        lemma_scan_from_quiet(stepped, levels, now, k + 1);
        assert(forall|i: int| 0 <= i < states.len() && i != k ==> stepped[i] == states[i]);
        assert(scan_from(stepped, levels, now, k + 1).0[k] == stepped[k]);
    }
}

/// A scan on which no key's raw level changed while the key was already
/// confirmed pressed emits no event, and each key steps by its own
/// sample alone.
pub proof fn lemma_scan_no_event(states: Seq<KeyState>, levels: Seq<bool>, now: Instant)
    requires
        states.len() == levels.len(),
        forall|i: int| 0 <= i < states.len() ==> !step_fires(states[i], levels[i]),
    ensures
        scan_spec(states, levels, now).1 is None,
        scan_spec(states, levels, now).0.len() == states.len(),
        forall|i: int|
            0 <= i < states.len() ==> scan_spec(states, levels, now).0[i] == step_state(
                states[i],
                levels[i],
                now,
            ),
{
    lemma_scan_from_quiet(states, levels, now, 0);
}

/// The first firing key decides a scan. Helper generalized over the
/// resume index.
proof fn lemma_scan_from_fires(
    states: Seq<KeyState>,
    levels: Seq<bool>,
    now: Instant,
    k: int,
    m: int,
)
    requires
        states.len() == levels.len(),
        0 <= k <= m < states.len(),
        step_fires(states[m], levels[m]),
        forall|i: int| k <= i < m ==> !step_fires(states[i], levels[i]),
    ensures
        scan_from(states, levels, now, k).1 == Some(step_event(states[m], levels[m], now)),
        scan_from(states, levels, now, k).0.len() == states.len(),
        forall|i: int|
            0 <= i < states.len() ==> scan_from(states, levels, now, k).0[i] == if i == m {
                reset_key(step_state(states[m], levels[m], now), now)
            } else if k <= i < m {
                reset_key(step_state(states[i], levels[i], now), now)
            } else {
                reset_key(states[i], now)
            },
    decreases m - k,
{
    if k == m {
        let stepped = states.update(m, step_state(states[m], levels[m], now));
        assert forall|i: int|
            0 <= i < states.len() implies reset_states(stepped, now)[i] == if i == m {
            reset_key(step_state(states[m], levels[m], now), now)
        } else {
            reset_key(states[i], now)
        } by {}
    } else {
        assert(!step_fires(states[k], levels[k]));
        let stepped = states.update(k, step_state(states[k], levels[k], now));
        assert(scan_from(states, levels, now, k) == scan_from(stepped, levels, now, k + 1));
        lemma_scan_from_fires(stepped, levels, now, k + 1, m);
        assert(forall|i: int| 0 <= i < states.len() && i != k ==> stepped[i] == states[i]);
        assert(scan_from(stepped, levels, now, k + 1).0[k] == reset_key(
            step_state(states[k], levels[k], now),
            now,
        ));
    }
}

/// The scan's single event comes from the first key whose raw level
/// changed while it was already confirmed pressed: that key's event is
/// emitted, that key and the keys before it step by their samples, and
/// every key's timing state is then reset. Keys after the firing one
/// keep their stale raw state.
pub proof fn lemma_scan_single_event(
    states: Seq<KeyState>,
    levels: Seq<bool>,
    now: Instant,
    m: int,
)
    requires
        states.len() == levels.len(),
        0 <= m < states.len(),
        step_fires(states[m], levels[m]),
        forall|i: int| 0 <= i < m ==> !step_fires(states[i], levels[i]),
    ensures
        scan_spec(states, levels, now).1 == Some(step_event(states[m], levels[m], now)),
        scan_spec(states, levels, now).0.len() == states.len(),
        scan_spec(states, levels, now).0[m] == reset_key(
            step_state(states[m], levels[m], now),
            now,
        ),
        forall|i: int|
            0 <= i < m ==> scan_spec(states, levels, now).0[i] == reset_key(
                step_state(states[i], levels[i], now),
                now,
            ),
        forall|i: int|
            m < i < states.len() ==> scan_spec(states, levels, now).0[i] == reset_key(
                states[i],
                now,
            ),
{
    lemma_scan_from_fires(states, levels, now, 0, m);
}

// ---------------------------------------------------------------------
// The single-key trace model.
//
// The scanner treats each key by the same three step functions
// (`step_state`, `step_fires`, `step_event`); the model below runs one
// key through a whole sequence of samples, each sample being the scan
// time and the raw level read. When the key fires, its own timing state
// is reset, exactly as the scanner's whole-matrix reset does to it. An
// event on *another* key also resets this key's timing state in the full
// scanner; such a reset only lowers `prev_pressed`, so it can suppress an
// event but never create one.
// ---------------------------------------------------------------------

/// A key's timing state reset at `now`: not previously pressed, press
/// edge re-stamped; the raw level is kept.
pub open spec fn reset_key(ks: KeyState, now: Instant) -> KeyState {
    KeyState { key: ks.key, state: ks.state, prev_pressed: false, last_db: now }
}

/// One sample applied to one key, including the reset the scanner
/// performs when the key fires.
pub open spec fn key_step(ks: KeyState, level: bool, now: Instant) -> KeyState {
    if step_fires(ks, level) {
        reset_key(step_state(ks, level, now), now)
    } else {
        step_state(ks, level, now)
    }
}

/// The key's state after a whole sequence of samples.
pub open spec fn key_run(ks: KeyState, samples: Seq<(Instant, bool)>) -> KeyState
    decreases samples.len(),
{
    if samples.len() == 0 {
        ks
    } else {
        key_run(key_step(ks, samples[0].1, samples[0].0), samples.drop_first())
    }
}

/// Every event the key emits over a whole sequence of samples, in order.
pub open spec fn key_events(ks: KeyState, samples: Seq<(Instant, bool)>) -> Seq<KeypadEvent>
    decreases samples.len(),
{
    if samples.len() == 0 {
        Seq::empty()
    } else {
        let rest = key_events(key_step(ks, samples[0].1, samples[0].0), samples.drop_first());
        if step_fires(ks, samples[0].1) {
            seq![step_event(ks, samples[0].1, samples[0].0)] + rest
        } else {
            rest
        }
    }
}

/// Sample times are nondecreasing, starting no earlier than `lo`.
pub open spec fn times_from(lo: Instant, samples: Seq<(Instant, bool)>) -> bool
    decreases samples.len(),
{
    samples.len() == 0 || (lo.millis <= samples[0].0.millis && times_from(
        samples[0].0,
        samples.drop_first(),
    ))
}

/// Every release (falling) sample comes less than the debounce window
/// after the press edge the key is tracking at that moment. A signal
/// whose consecutive edges are spaced below the debounce window bounces
/// this way: each release follows its press edge within the window.
pub open spec fn releases_bounce(ks: KeyState, samples: Seq<(Instant, bool)>) -> bool
    decreases samples.len(),
{
    samples.len() == 0 || {
        (ks.state && !samples[0].1 ==> samples[0].0.millis < ks.last_db.millis
            + DEBOUNCE_WINDOW_MS) && releases_bounce(
            key_step(ks, samples[0].1, samples[0].0),
            samples.drop_first(),
        )
    }
}

/// Bounce rejection: over any chronological sample sequence whose
/// releases all come within the debounce window of their press edge, the
/// key emits no event at all. The third premise says the key starts
/// consistent: if it is already confirmed pressed, its press edge had
/// settled before the samples begin.
pub proof fn lemma_bounce_rejection(ks: KeyState, samples: Seq<(Instant, bool)>, lo: Instant)
    requires
        times_from(lo, samples),
        releases_bounce(ks, samples),
        ks.prev_pressed ==> ks.state && ks.last_db.millis + DEBOUNCE_WINDOW_MS <= lo.millis,
    ensures
        key_events(ks, samples) == Seq::<KeypadEvent>::empty(),
    decreases samples.len(),
{
    if samples.len() > 0 {
        let t = samples[0].0;
        let l = samples[0].1;
        if step_fires(ks, l) {
            // firing needs a level change while confirmed pressed; a
            // confirmed press means the key reads pressed and settled, so
            // the change is a release at least a debounce window after
            // the press edge — against the bounce premise
            assert(ks.state && !l);
            assert(t.millis < ks.last_db.millis + DEBOUNCE_WINDOW_MS);
            assert(ks.last_db.millis + DEBOUNCE_WINDOW_MS <= lo.millis);
            assert(false);
        }
        let ks1 = key_step(ks, l, t);
        assert(ks1.prev_pressed ==> ks1.state && ks1.last_db.millis + DEBOUNCE_WINDOW_MS
            <= t.millis);
        lemma_bounce_rejection(ks1, samples.drop_first(), t);
    }
}

/// The samples of a key read as pressed at each time in `mids`.
pub open spec fn held_samples(mids: Seq<Instant>) -> Seq<(Instant, bool)> {
    Seq::new(mids.len(), |i: int| (mids[i], true))
}

/// The samples of one full press: a press edge at `t0`, a hold read at
/// each time in `mids`, and a release at `tr`.
pub open spec fn press_release_samples(t0: Instant, mids: Seq<Instant>, tr: Instant) -> Seq<
    (Instant, bool),
> {
    seq![(t0, true)] + held_samples(mids) + seq![(tr, false)]
}

/// Running a key through two sample sequences in turn is running it
/// through their concatenation, and the events concatenate likewise.
pub proof fn lemma_key_events_append(
    ks: KeyState,
    s1: Seq<(Instant, bool)>,
    s2: Seq<(Instant, bool)>,
)
    ensures
        key_run(ks, s1 + s2) == key_run(key_run(ks, s1), s2),
        key_events(ks, s1 + s2) == key_events(ks, s1) + key_events(key_run(ks, s1), s2),
    decreases s1.len(),
{
    if s1.len() == 0 {
        assert(s1 + s2 =~= s2);
        assert(key_events(ks, s1) + key_events(key_run(ks, s1), s2) =~= key_events(ks, s2));
    } else {
        let ks1 = key_step(ks, s1[0].1, s1[0].0);
        assert((s1 + s2).drop_first() =~= s1.drop_first() + s2);
        assert((s1 + s2)[0] == s1[0]);
        lemma_key_events_append(ks1, s1.drop_first(), s2);
        if step_fires(ks, s1[0].1) {
            let ev = seq![step_event(ks, s1[0].1, s1[0].0)];
            assert(ev + (key_events(ks1, s1.drop_first()) + key_events(
                key_run(ks1, s1.drop_first()),
                s2,
            )) =~= (ev + key_events(ks1, s1.drop_first())) + key_events(
                key_run(ks1, s1.drop_first()),
                s2,
            ));
        }
    }
}

/// A key that reads as pressed through every sample of a hold emits no
/// event, keeps its press-edge timestamp, and ends confirmed pressed
/// exactly when the last hold sample is at least the debounce window
/// after the press edge.
proof fn lemma_hold_high(ks: KeyState, mids: Seq<Instant>)
    requires
        ks.state,
    ensures
        key_events(ks, held_samples(mids)) == Seq::<KeypadEvent>::empty(),
        key_run(ks, held_samples(mids)) == if mids.len() == 0 {
            ks
        } else {
            KeyState {
                key: ks.key,
                state: true,
                prev_pressed: ks.last_db.millis + DEBOUNCE_WINDOW_MS <= mids.last().millis,
                last_db: ks.last_db,
            }
        },
    decreases mids.len(),
{
    if mids.len() > 0 {
        let t = mids[0];
        assert(held_samples(mids)[0] == (t, true));
        assert(!step_fires(ks, true));
        let ks1 = step_state(ks, true, t);
        assert(ks1.last_db == ks.last_db && ks1.state && ks1.key == ks.key);
        assert(held_samples(mids).drop_first() =~= held_samples(mids.drop_first()));
        lemma_hold_high(ks1, mids.drop_first());
        if mids.len() > 1 {
            assert(mids.drop_first().last() == mids.last());
        }
    }
}

/// One full press yields exactly one event. A quiet key is pressed at
/// `t0`, reads as held at each time in `mids` (the hold outlasting the
/// debounce window), and is released at `tr`: the release emits the one
/// event of the whole episode, a long press iff the press edge is at
/// least the long-press window old at the release, else a short press.
pub proof fn lemma_press_release(ks: KeyState, t0: Instant, mids: Seq<Instant>, tr: Instant)
    requires
        !ks.state,
        !ks.prev_pressed,
        mids.len() > 0,
        times_from(t0, held_samples(mids)),
        mids.last().millis <= tr.millis,
        t0.millis + DEBOUNCE_WINDOW_MS <= mids.last().millis,
    ensures
        key_events(ks, press_release_samples(t0, mids, tr)) == seq![
            if t0.millis + LONGPRESS_WINDOW_MS <= tr.millis {
                KeypadEvent::LongPress(ks.key)
            } else {
                KeypadEvent::KeyPress(ks.key)
            },
        ],
{
    let press = seq![(t0, true)];
    let hold = held_samples(mids);
    let release = seq![(tr, false)];

    // the press edge itself cannot fire: the key was not confirmed pressed
    assert(!step_fires(ks, true));
    let ks1 = key_step(ks, true, t0);
    assert(ks1 == (KeyState { key: ks.key, state: true, prev_pressed: false, last_db: t0 }));
    assert(press.drop_first() =~= Seq::<(Instant, bool)>::empty());
    assert(press.len() == 1 && press[0] == (t0, true));
    assert(key_events(ks, press) == key_events(ks1, press.drop_first()));
    assert(key_events(ks1, Seq::<(Instant, bool)>::empty()) == Seq::<KeypadEvent>::empty());
    assert(key_run(ks, press) == key_run(ks1, press.drop_first()));
    assert(key_run(ks1, Seq::<(Instant, bool)>::empty()) == ks1);

    // the hold emits nothing and ends confirmed pressed
    lemma_hold_high(ks1, mids);
    let ks2 = key_run(ks1, hold);
    assert(ks2 == (KeyState { key: ks.key, state: true, prev_pressed: true, last_db: t0 }));

    // the release fires the one event; the press edge is untouched by a
    // release, so the long-press classification compares `tr` to `t0`
    assert(step_fires(ks2, false));
    assert(step_state(ks2, false, tr).last_db == t0);
    assert(release.drop_first() =~= Seq::<(Instant, bool)>::empty());
    assert(release.len() == 1 && release[0] == (tr, false));
    let ks3 = key_step(ks2, false, tr);
    assert(key_events(ks3, Seq::<(Instant, bool)>::empty()) == Seq::<KeypadEvent>::empty());
    assert(key_events(ks2, release) == seq![step_event(ks2, false, tr)] + key_events(
        ks3,
        release.drop_first(),
    ));
    assert(key_events(ks2, release) =~= seq![step_event(ks2, false, tr)]);

    lemma_key_events_append(ks, press, hold);
    lemma_key_events_append(ks, press + hold, release);
    assert(key_events(ks, (press + hold) + release) =~= key_events(ks2, release));
    assert(press_release_samples(t0, mids, tr) == (press + hold) + release);
}

} // verus!
