//! Pressure plates and the doors they open.

use vstd::prelude::*;
use crate::signals::Signal;

verus! {

/// A plate that counts the creatures standing on it and sends its signal
/// when the first steps on and when the last steps off.
#[derive(Clone, Copy, Debug, PartialEq, Eq, Structural)]
pub struct PressurePlate {
    /// Number of creatures on the plate.
    pub count: u16,
    pub signal: Signal,
}

/// A plate has been pressed or released.
#[derive(Clone, Copy, Debug, PartialEq, Eq, Structural)]
pub struct PressurePlateEvent {
    /// Identifier of the plate.
    pub plate: u64,
    pub signal: Signal,
    pub pressed: bool,
}

/// A door with the number that opens it.
#[derive(Clone, Copy, Debug, PartialEq, Eq, Structural)]
pub struct Door {
    pub number: u16,
}

impl PressurePlate {
    /// The plate after a creature has stepped on. The count stops at the
    /// largest value it can hold.
    pub open spec fn entered(self) -> PressurePlate {
        PressurePlate {
            count: if self.count < u16::MAX {
                (self.count + 1) as u16
            } else {
                self.count
            },
            signal: self.signal,
        }
    }

    /// The plate after a creature has stepped off. A count at zero stays at
    /// zero.
    pub open spec fn exited(self) -> PressurePlate {
        PressurePlate {
            count: if self.count > 0 {
                (self.count - 1) as u16
            } else {
                0
            },
            signal: self.signal,
        }
    }

    /// A plate that sends `signal`, with no creature on it.
    pub fn new(signal: Signal) -> (plate: PressurePlate)
        ensures
            plate == (PressurePlate { count: 0, signal }),
    {
        PressurePlate { count: 0, signal }
    }

    /// Whether a creature stands on the plate.
    pub fn is_pressed(&self) -> (pressed: bool)
        ensures
            pressed == (self.count > 0),
    {
        self.count > 0
    }

    /// A creature steps on the plate `plate`. The first creature presses
    /// it: the event to send is handed back.
    pub fn on_pressure_enter(&mut self, plate: u64) -> (event: Option<PressurePlateEvent>)
        ensures
            *final(self) == old(self).entered(),
            event == if old(self).count == 0 {
                Some(PressurePlateEvent { plate, signal: old(self).signal, pressed: true })
            } else {
                None
            },
    {
        if self.count < u16::MAX {
            self.count = self.count + 1;
        }
        if self.count == 1 {
            Some(PressurePlateEvent { plate, signal: self.signal, pressed: true })
        } else {
            None
        }
    }

    /// A creature steps off the plate `plate`. The last creature releases
    /// it: the event to send is handed back. A step off a plate that nobody
    /// stands on is passed over.
    pub fn on_pressure_exit(&mut self, plate: u64) -> (event: Option<PressurePlateEvent>)
        ensures
            *final(self) == old(self).exited(),
            event == if old(self).count == 1 {
                Some(PressurePlateEvent { plate, signal: old(self).signal, pressed: false })
            } else {
                None
            },
    {
        if self.count == 0 {
            return None;
        }
        self.count = self.count - 1;
        if self.count == 0 {
            Some(PressurePlateEvent { plate, signal: self.signal, pressed: false })
        } else {
            None
        }
    }
}

impl Door {
    /// The event opens the door: a plate with the door's number has been
    /// pressed. A door that has opened stays open.
    pub open spec fn opened_by(self, event: PressurePlateEvent) -> bool {
        event.pressed && event.signal == Signal::Door(self.number)
    }

    /// Whether the event opens the door.
    pub fn on_pressure_event(&self, event: PressurePlateEvent) -> (opens: bool)
        ensures
            opens == self.opened_by(event),
    {
        match event.signal {
            Signal::Door(number) => event.pressed && number == self.number,
            _ => false,
        }
    }
}

} // verus!
