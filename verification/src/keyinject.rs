//! The virtual keyboard: the paste chord (Ctrl+Shift+V) and Enter.

use vstd::prelude::*;

verus! {

/// Key codes of the Linux input layer.
pub const EV_ENTER: u32 = 28;

pub const EV_LEFTCTRL: u32 = 29;

pub const EV_LEFTSHIFT: u32 = 42;

pub const EV_V: u32 = 47;

/// A key going down or up.
#[derive(Clone, Copy, PartialEq, Eq, Structural)]
pub struct KeyStroke {
    pub time: u32,
    pub code: u32,
    pub pressed: bool,
}

/// The clock of the virtual keyboard: it counts its events.
pub struct KeyInject {
    pub time: u32,
}

/// The time after `n` more events.
pub open spec fn later(time: u32, n: int) -> u32 {
    ((time + n) % 0x1_0000_0000) as u32
}

/// The paste chord: the modifiers go down first and up last, so that they are held when V goes
/// down.
pub open spec fn chord() -> Seq<(u32, bool)> {
    seq![
        (EV_LEFTCTRL, true),
        (EV_LEFTSHIFT, true),
        (EV_V, true),
        (EV_V, false),
        (EV_LEFTSHIFT, false),
        (EV_LEFTCTRL, false),
    ]
}

/// Enter.
pub open spec fn enter_keys() -> Seq<(u32, bool)> {
    seq![(EV_ENTER, true), (EV_ENTER, false)]
}

/// The strokes that send `keys` after `time`.
pub open spec fn strokes(time: u32, keys: Seq<(u32, bool)>) -> Seq<KeyStroke> {
    Seq::new(
        keys.len(),
        |i: int| KeyStroke { time: later(time, i + 1), code: keys[i].0, pressed: keys[i].1 },
    )
}

impl KeyInject {
    /// A keyboard before its first event.
    pub fn new() -> (r: KeyInject)
        ensures
            r.time == 0,
    {
        KeyInject { time: 0 }
    }

    fn key(&mut self, code: u32, pressed: bool) -> (r: KeyStroke)
        ensures
            final(self).time == later(old(self).time, 1),
            r == (KeyStroke { time: later(old(self).time, 1), code, pressed }),
    {
        self.time = self.time.wrapping_add(1);
        KeyStroke { time: self.time, code, pressed }
    }

    /// The strokes of the paste chord.
    pub fn paste(&mut self) -> (r: Vec<KeyStroke>)
        ensures
            r@ == strokes(old(self).time, chord()),
            final(self).time == later(old(self).time, 6),
    {
        let mut r: Vec<KeyStroke> = Vec::new();
        r.push(self.key(EV_LEFTCTRL, true));
        r.push(self.key(EV_LEFTSHIFT, true));
        r.push(self.key(EV_V, true));
        r.push(self.key(EV_V, false));
        r.push(self.key(EV_LEFTSHIFT, false));
        r.push(self.key(EV_LEFTCTRL, false));
        assert(r@ =~= strokes(old(self).time, chord()));
        r
    }

    /// The strokes of Enter.
    pub fn enter(&mut self) -> (r: Vec<KeyStroke>)
        ensures
            r@ == strokes(old(self).time, enter_keys()),
            final(self).time == later(old(self).time, 2),
    {
        let mut r: Vec<KeyStroke> = Vec::new();
        r.push(self.key(EV_ENTER, true));
        r.push(self.key(EV_ENTER, false));
        assert(r@ =~= strokes(old(self).time, enter_keys()));
        r
    }
}

/// Whether `code` is held after the first `n` keys.
pub open spec fn held(keys: Seq<(u32, bool)>, code: u32, n: int) -> bool
    decreases n,
{
    if n <= 0 {
        false
    } else if keys[n - 1].0 == code {
        keys[n - 1].1
    } else {
        held(keys, code, n - 1)
    }
}

/// The paste chord and Enter leave no key held, whatever its code.
pub proof fn law_no_key_stays_held(code: u32)
    ensures
        !held(chord(), code, chord().len() as int),
        !held(enter_keys(), code, enter_keys().len() as int),
{
    reveal_with_fuel(held, 7);
}

/// Both modifiers are held when V goes down and when it goes up, so that no bare "v" is typed.
pub proof fn law_modifiers_are_held_for_v(i: int)
    requires
        0 <= i < chord().len(),
        chord()[i].0 == EV_V,
    ensures
        held(chord(), EV_LEFTCTRL, i),
        held(chord(), EV_LEFTSHIFT, i),
{
    reveal_with_fuel(held, 7);
}

/// The paste chord is Ctrl+Shift+V: each of the three goes down once and up once, in the opposite
/// order. Enter goes down and up.
pub proof fn law_chord_is_ctrl_shift_v(i: int)
    ensures
        chord().len() == 6,
        chord()[0] == (29u32, true),
        chord()[1] == (42u32, true),
        chord()[2] == (47u32, true),
        0 <= i < 3 ==> chord()[5 - i] == (chord()[i].0, false),
        enter_keys() == seq![(28u32, true), (28u32, false)],
{
}

/// Keys are sent as they are, in their order, each with the next time of the keyboard's clock, which
/// begins again at zero after its last.
pub proof fn law_each_key_has_its_time(time: u32, keys: Seq<(u32, bool)>, i: int)
    requires
        0 <= i < keys.len(),
    ensures
        strokes(time, keys).len() == keys.len(),
        strokes(time, keys)[i].code == keys[i].0,
        strokes(time, keys)[i].pressed == keys[i].1,
        ({
            let earlier = if i == 0 { time } else { strokes(time, keys)[i - 1].time };
            strokes(time, keys)[i].time == (if earlier == u32::MAX { 0int } else { earlier + 1 })
        }),
{
}

} // verus!
