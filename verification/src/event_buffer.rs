//! The mode-aware event accumulator.
//!
//! Key events are assembled into a bounded text buffer according to an
//! operating mode; pushing an event reports whether a unit of input is
//! complete (a dialed number under [`EventBufferMode::WaitForUserDial`],
//! each single digit under [`EventBufferMode::Dtmf`]).
//!
//! The text lives in a fixed-capacity `heapless` vector: the buffer never
//! allocates, and appending to a full buffer silently drops the character
//! until the buffer is cleared or the mode switches.

use crate::keypad::KeypadEvent;
use vstd::prelude::*;

verus! {

/// Fixed maximum number of buffered characters. Appends beyond it are
/// silently dropped, never an error.
pub const TEXT_CAPACITY: usize = 128;

#[verifier::external_type_specification]
#[verifier::external_body]
#[verifier::reject_recursive_types(T)]
pub struct ExHeaplessVec<T, const N: usize>(heapless::Vec<T, N>);

/// The characters a text buffer holds, in order.
pub uninterp spec fn storage_chars(v: heapless::Vec<char, TEXT_CAPACITY>) -> Seq<char>;

/// Relies on heapless::Vec::new: a new vector holds no elements.
#[verifier::external_body]
fn storage_new() -> (r: heapless::Vec<char, TEXT_CAPACITY>)
    ensures
        storage_chars(r) == Seq::<char>::empty(),
{
    heapless::Vec::new()
}

/// Relies on heapless::Vec::push: the item is appended at the back when
/// the vector holds fewer elements than its fixed capacity, and is
/// rejected with the vector unchanged when the vector is full.
#[verifier::external_body]
fn storage_push(v: &mut heapless::Vec<char, TEXT_CAPACITY>, c: char) -> (pushed: bool)
    ensures
        storage_chars(*old(v)).len() < TEXT_CAPACITY ==> pushed
            && storage_chars(*final(v)) == storage_chars(*old(v)).push(c),
        storage_chars(*old(v)).len() >= TEXT_CAPACITY ==> !pushed
            && storage_chars(*final(v)) == storage_chars(*old(v)),
{
    v.push(c).is_ok()
}

/// Relies on heapless::Vec::clear: every element is removed.
#[verifier::external_body]
fn storage_clear(v: &mut heapless::Vec<char, TEXT_CAPACITY>)
    ensures
        storage_chars(*final(v)) == Seq::<char>::empty(),
{
    v.clear()
}

/// Relies on heapless::Vec::len: the number of elements held.
#[verifier::external_body]
fn storage_len(v: &heapless::Vec<char, TEXT_CAPACITY>) -> (n: usize)
    ensures
        n == storage_chars(*v).len(),
{
    v.len()
}

/// Relies on indexing through heapless::Vec's deref to a slice of its
/// elements.
#[verifier::external_body]
fn storage_get(v: &heapless::Vec<char, TEXT_CAPACITY>, i: usize) -> (c: char)
    requires
        i < storage_chars(*v).len(),
    ensures
        c == storage_chars(*v)[i as int],
{
    v[i]
}

/// Relies on String::push: the given character is appended to the end of
/// the string.
#[verifier::external_body]
fn string_push_char(s: &mut String, c: char)
    ensures
        final(s)@ == old(s)@.push(c),
{
    s.push(c);
}

/// Policy governing how buffered key events are interpreted as complete
/// units of input.
#[derive(Debug, Clone, Copy, PartialEq, Eq, Structural)]
pub enum EventBufferMode {
    /// Buffer short-press digits until a long-press '#' completes a dialed
    /// number.
    WaitForUserDial,
    /// Each short-press digit is an independently complete DTMF event,
    /// also buffered for history.
    Dtmf,
}

impl Default for EventBufferMode {
    fn default() -> (r: EventBufferMode)
        ensures
            r == EventBufferMode::WaitForUserDial,
    {
        EventBufferMode::WaitForUserDial
    }
}

/// The text after pushing one event onto buffered text `buf`: a short
/// press appends its character when capacity remains and is silently
/// dropped otherwise; a long press never changes the text.
pub open spec fn pushed_text(buf: Seq<char>, event: KeypadEvent) -> Seq<char> {
    match event {
        KeypadEvent::KeyPress(c) => if buf.len() < TEXT_CAPACITY {
            buf.push(c)
        } else {
            buf
        },
        KeypadEvent::LongPress(_) => buf,
    }
}

/// Whether pushing `event` under `mode` completes a unit of input: a
/// dialed number is complete at the long-press dial terminator '#', a
/// DTMF digit is complete at every short press.
pub open spec fn completes_unit(mode: EventBufferMode, event: KeypadEvent) -> bool {
    match mode {
        EventBufferMode::WaitForUserDial => match event {
            KeypadEvent::KeyPress(_) => false,
            KeypadEvent::LongPress(c) => c == '#',
        },
        EventBufferMode::Dtmf => match event {
            KeypadEvent::KeyPress(_) => true,
            KeypadEvent::LongPress(_) => false,
        },
    }
}

/// A long press that is not the dial terminator completes nothing under
/// [`EventBufferMode::WaitForUserDial`] and leaves any buffered text
/// unchanged.
pub proof fn lemma_long_press_ignored(buf: Seq<char>, c: char)
    requires
        c != '#',
    ensures
        !completes_unit(EventBufferMode::WaitForUserDial, KeypadEvent::LongPress(c)),
        pushed_text(buf, KeypadEvent::LongPress(c)) == buf,
{
}

/// A bounded text buffer together with the mode its content was typed
/// under. Any mode change discards prior content before adopting the new
/// mode; content only ever leaves the buffer through [`EventBuffer::clear`]
/// or such a mode change.
#[derive(Debug)]
pub struct EventBuffer {
    mode: EventBufferMode,
    buffer: heapless::Vec<char, TEXT_CAPACITY>,
}

impl EventBuffer {
    /// The buffered text, as a mathematical sequence of characters.
    pub closed spec fn text(&self) -> Seq<char> {
        storage_chars(self.buffer)
    }

    /// The mode the buffered text was typed under.
    pub closed spec fn spec_mode(&self) -> EventBufferMode {
        self.mode
    }

    /// A reachable buffer never holds more than [`TEXT_CAPACITY`]
    /// characters.
    pub closed spec fn wf(&self) -> bool {
        self.text().len() <= TEXT_CAPACITY
    }

    /// A fresh, empty buffer in the default mode.
    pub fn new() -> (r: EventBuffer)
        ensures
            r.spec_mode() == EventBufferMode::WaitForUserDial,
            r.text() == Seq::<char>::empty(),
            r.wf(),
    {
        EventBuffer { mode: EventBufferMode::default(), buffer: storage_new() }
    }

    pub fn mode(&self) -> (m: EventBufferMode)
        ensures
            m == self.spec_mode(),
    {
        self.mode
    }

    /// The number of buffered characters.
    pub fn len(&self) -> (n: usize)
        ensures
            n == self.text().len(),
    {
        storage_len(&self.buffer)
    }

    /// The buffered text. The returned string is exactly the accumulated
    /// characters, in the order they were pushed.
    pub fn as_str(&self) -> (r: String)
        ensures
            r@ == self.text(),
    {
        let n = storage_len(&self.buffer);
        let mut r = String::new();
        let mut i: usize = 0;
        while i < n
            invariant
                n == self.text().len(),
                i <= n,
                r@ == self.text().subrange(0, i as int),
            decreases n - i,
        {
            let c = storage_get(&self.buffer, i);
            string_push_char(&mut r, c);
            proof {
                assert(self.text().subrange(0, i + 1 as int) =~= self.text().subrange(
                    0,
                    i as int,
                ).push(self.text()[i as int]));
            }
            i += 1;
        }
        proof {
            assert(r@ =~= self.text());
        }
        r
    }

    /// Empty the buffer without changing its mode. Clearing an already
    /// empty buffer changes nothing observable.
    pub fn clear(&mut self)
        ensures
            final(self).text() == Seq::<char>::empty(),
            final(self).spec_mode() == old(self).spec_mode(),
            final(self).wf(),
            old(self).text() == Seq::<char>::empty() ==> *final(self) == *old(self),
    {
        if storage_len(&self.buffer) > 0 {
            storage_clear(&mut self.buffer);
        } else {
            proof {
                assert(self.text() =~= Seq::<char>::empty());
            }
        }
    }

    /// Feed one key event under `mode`; the result says whether a unit of
    /// input is now complete. If `mode` differs from the buffer's current
    /// mode, the prior content is discarded first; then a short press
    /// appends its character (silently dropped when the buffer is full),
    /// while long presses leave the text alone.
    pub fn push(&mut self, mode: EventBufferMode, event: KeypadEvent) -> (done: bool)
        requires
            old(self).wf(),
        ensures
            final(self).wf(),
            final(self).spec_mode() == mode,
            final(self).text() == pushed_text(
                if mode == old(self).spec_mode() {
                    old(self).text()
                } else {
                    Seq::<char>::empty()
                },
                event,
            ),
            done == completes_unit(mode, event),
    {
        if mode != self.mode {
            self.clear();
        }
        self.mode = mode;

        match self.mode {
            EventBufferMode::WaitForUserDial => match event {
                KeypadEvent::KeyPress(c) => {
                    let _ = storage_push(&mut self.buffer, c);
                    false
                },
                KeypadEvent::LongPress(c) => c == '#',
            },
            EventBufferMode::Dtmf => match event {
                KeypadEvent::KeyPress(c) => {
                    let _ = storage_push(&mut self.buffer, c);
                    true
                },
                KeypadEvent::LongPress(_) => false,
            },
        }
    }
}

} // verus!
