//! The state of the input-method protocol: whether a text field listens, and which serial a commit
//! carries.

use vstd::prelude::*;

verus! {

/// An event of the protocol.
#[derive(Clone, Copy, PartialEq, Eq, Structural)]
pub enum ImeEvent {
    /// A text field got the focus; applied with the next `Done`.
    Activate,
    /// It lost the focus; applied with the next `Done`.
    Deactivate,
    /// Applies what came before it.
    Done,
    /// Another input method owns the seat.
    Unavailable,
    /// What committing does not depend on.
    Other,
}

/// The state of the protocol.
#[derive(Clone, Copy, PartialEq, Eq, Structural)]
pub struct InputMethod {
    /// Whether a text field is focused. When false, a commit goes nowhere.
    pub active: bool,
    /// False once another input method owns the seat or the connection is gone. While false,
    /// commits do nothing.
    pub available: bool,
    /// The number of `Done` events so far, which the protocol requires a commit to carry.
    pub serial: u32,
    /// What the next `Done` makes of `active`.
    pub pending_active: bool,
    /// Whether the connection is to be closed.
    pub exit: bool,
}

impl InputMethod {
    /// The state after an event.
    pub open spec fn after(self, ev: ImeEvent) -> InputMethod {
        match ev {
            ImeEvent::Activate => InputMethod { pending_active: true, ..self },
            ImeEvent::Deactivate => InputMethod { pending_active: false, ..self },
            ImeEvent::Done => InputMethod {
                active: self.pending_active,
                serial: if self.serial == u32::MAX { 0u32 } else { (self.serial + 1) as u32 },
                ..self
            },
            ImeEvent::Unavailable => InputMethod {
                available: false,
                active: false,
                exit: true,
                ..self
            },
            ImeEvent::Other => self,
        }
    }

    /// Whether a text field is focused and listening.
    pub open spec fn listening(self) -> bool {
        self.available && self.active
    }

    /// The state before the first event.
    pub fn new() -> (r: InputMethod)
        ensures
            r == (InputMethod {
                active: false,
                available: true,
                serial: 0,
                pending_active: false,
                exit: false,
            }),
    {
        InputMethod {
            active: false,
            available: true,
            serial: 0,
            pending_active: false,
            exit: false,
        }
    }

    /// Takes in an event.
    pub fn event(&mut self, ev: ImeEvent)
        ensures
            *final(self) == old(self).after(ev),
    {
        match ev {
            ImeEvent::Activate => {
                self.pending_active = true;
            },
            ImeEvent::Deactivate => {
                self.pending_active = false;
            },
            ImeEvent::Done => {
                self.active = self.pending_active;
                self.serial = self.serial.wrapping_add(1);
            },
            ImeEvent::Unavailable => {
                self.available = false;
                self.active = false;
                self.exit = true;
            },
            ImeEvent::Other => {},
        }
    }

    /// The connection is gone: no input method is live anymore.
    pub fn close(&mut self)
        ensures
            *final(self) == (InputMethod { available: false, active: false, ..*old(self) }),
    {
        self.available = false;
        self.active = false;
    }

    /// Whether a text field is focused and listening. False for applications without text input,
    /// which never activate an input method.
    pub fn is_active(&self) -> (r: bool)
        ensures
            r == self.listening(),
    {
        self.available && self.active
    }

    /// False once this input method can never become active again.
    pub fn available(&self) -> (r: bool)
        ensures
            r == self.available,
    {
        self.available
    }

    /// The serial with which a text is committed: none for an empty text or where nothing listens,
    /// since the commit would be dropped.
    pub fn commit(&self, text: &str) -> (r: Option<u32>)
        ensures
            r == (if text@.len() > 0 && self.listening() { Some(self.serial) } else { None }),
    {
        if text.is_empty() || !self.available || !self.active {
            None
        } else {
            Some(self.serial)
        }
    }
}

/// The state after events.
pub open spec fn after_all(start: InputMethod, events: Seq<ImeEvent>) -> InputMethod
    decreases events.len(),
{
    if events.len() == 0 {
        start
    } else {
        after_all(start, events.drop_last()).after(events.last())
    }
}

/// How many of the events are `Done`.
pub open spec fn dones(events: Seq<ImeEvent>) -> nat
    decreases events.len(),
{
    if events.len() == 0 {
        0
    } else {
        dones(events.drop_last()) + if events.last() == ImeEvent::Done {
            1nat
        } else {
            0nat
        }
    }
}

/// The serial is the number of `Done` events, as the protocol requires; after 2^32 of them it
/// starts over.
pub proof fn law_serial_counts_done(start: InputMethod, events: Seq<ImeEvent>)
    requires
        start.serial == 0,
    ensures
        after_all(start, events).serial == dones(events) % 0x1_0000_0000,
    decreases events.len(),
{
    if events.len() > 0 {
        law_serial_counts_done(start, events.drop_last());
    }
}

/// Once the input method is unavailable it stays so, and nothing is committed anymore.
pub proof fn law_unavailable_is_final(start: InputMethod, events: Seq<ImeEvent>)
    requires
        !start.available,
    ensures
        !after_all(start, events).available,
        !after_all(start, events).listening(),
    decreases events.len(),
{
    if events.len() > 0 {
        law_unavailable_is_final(start, events.drop_last());
    }
}

/// Whether a field listens changes only with `Done`, or for good when the input method becomes
/// unavailable.
pub proof fn law_activation_waits_for_done(s: InputMethod, ev: ImeEvent)
    requires
        ev != ImeEvent::Done,
        ev != ImeEvent::Unavailable,
    ensures
        s.after(ev).active == s.active,
        s.after(ev).serial == s.serial,
{
}

/// `Done` applies the latest change of the focus, whatever else came before it, and leaves
/// everything else as it is but for the serial.
pub proof fn law_done_applies_the_latest_focus(start: InputMethod, events: Seq<ImeEvent>, n: int)
    requires
        0 <= n < events.len(),
        events[n] == ImeEvent::Activate || events[n] == ImeEvent::Deactivate,
        forall|i: int|
            n < i < events.len() ==> events[i] != ImeEvent::Activate && events[i]
                != ImeEvent::Deactivate,
    ensures
        after_all(start, events).pending_active == (events[n] == ImeEvent::Activate),
        after_all(start, events.push(ImeEvent::Done)).active == (events[n] == ImeEvent::Activate),
        after_all(start, events.push(ImeEvent::Done)).available == after_all(
            start,
            events,
        ).available,
        after_all(start, events.push(ImeEvent::Done)).exit == after_all(start, events).exit,
    decreases events.len(),
{
    if n < events.len() - 1 {
        assert(events.drop_last()[n] == events[n]);
        law_done_applies_the_latest_focus(start, events.drop_last(), n);
    }
    let all = events.push(ImeEvent::Done);
    assert(all.drop_last() =~= events);
    assert(all.last() == ImeEvent::Done);
    assert(after_all(start, all) == after_all(start, events).after(ImeEvent::Done));
}

/// Text is committed only while the seat is the input method's own and a field has the focus. Where
/// another one takes the seat the connection ends, and only there.
pub proof fn law_lost_seat_ends_the_connection(s: InputMethod, ev: ImeEvent)
    ensures
        s.listening() <==> s.available && s.active,
        ev == ImeEvent::Unavailable ==> s.after(ev).exit && !s.after(ev).available && !s.after(
            ev,
        ).active,
        ev != ImeEvent::Unavailable ==> s.after(ev).exit == s.exit && s.after(ev).available
            == s.available,
        ev == ImeEvent::Other ==> s.after(ev) == s,
{
}

} // verus!
