//! Signals that buttons and pressure plates send to the level, and the
//! button that arms on a press and fires on release.

use vstd::prelude::*;

verus! {

/// What a button or a pressure plate asks of the level.
#[derive(Clone, Copy, Debug, PartialEq, Eq, Structural)]
pub enum Signal {
    /// Go on to the next level.
    NextLevel,
    /// Begin the current level again.
    RestartLevel,
    /// Open the doors that carry this number.
    Door(u16),
    /// A signal that a level may wire as it likes.
    Custom(u16),
}

/// How the pointer stands to a button.
#[derive(Clone, Copy, Debug, PartialEq, Eq, Structural)]
pub enum Interaction {
    /// The button is held down.
    Pressed,
    /// The pointer is over the button, which is not held down.
    Hovered,
    /// The pointer is elsewhere.
    Idle,
}

/// A button with the signal it sends. It is armed while it is held down and
/// sends its signal when it is let go with the pointer still over it.
#[derive(Clone, Copy, Debug, PartialEq, Eq, Structural)]
pub struct ButtonSignal {
    pub signal: Signal,
    pub armed: bool,
}

impl ButtonSignal {
    /// Whether the button is armed after the interaction.
    pub open spec fn armed_after(interaction: Interaction) -> bool {
        interaction == Interaction::Pressed
    }

    /// The signal that the interaction sends from a button in this state.
    pub open spec fn sent_on(self, interaction: Interaction) -> Option<Signal> {
        if interaction == Interaction::Hovered && self.armed {
            Some(self.signal)
        } else {
            None
        }
    }

    /// A button that sends `signal`, not armed.
    pub fn new(signal: Signal) -> (button: ButtonSignal)
        ensures
            button == (ButtonSignal { signal, armed: false }),
    {
        ButtonSignal { signal, armed: false }
    }

    /// Takes in a change of interaction and hands back the signal to send,
    /// if any: a press arms the button, a hover after a press fires it, and
    /// anything but a press disarms it.
    pub fn interact(&mut self, interaction: Interaction) -> (sent: Option<Signal>)
        ensures
            sent == old(self).sent_on(interaction),
            final(self).signal == old(self).signal,
            final(self).armed == Self::armed_after(interaction),
    {
        let sent = match interaction {
            Interaction::Hovered => if self.armed {
                Some(self.signal)
            } else {
                None
            },
            _ => None,
        };
        self.armed = match interaction {
            Interaction::Pressed => true,
            _ => false,
        };
        sent
    }
}

} // verus!
