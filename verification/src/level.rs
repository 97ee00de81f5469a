//! The sequence of levels and what moves the game from one to another.

use vstd::prelude::*;
use crate::signals::Signal;

verus! {

/// The levels of the game, in the order in which they are played.
#[derive(Clone, Copy, Debug, PartialEq, Eq, Hash, Structural)]
pub enum Level {
    Loading,
    Test,
    Menu,
    Tutorial1,
    Tutorial2,
    Tutorial3,
    Tutorial4,
    Tutorial5,
}

/// A key that moves between levels.
#[derive(Clone, Copy, Debug, PartialEq, Eq, Structural)]
pub enum LevelKey {
    /// Begin the current level again.
    Restart,
    /// Go on to the next level.
    Next,
    /// Go back to the previous level.
    Previous,
}

impl Default for Level {
    fn default() -> (level: Level)
        ensures
            level == Level::Menu,
    {
        Level::Menu
    }
}

impl Level {
    /// Number of levels.
    pub open spec fn count() -> int {
        8
    }

    /// Place of the level in the sequence, from 0.
    pub open spec fn ordinal(self) -> int {
        match self {
            Level::Loading => 0,
            Level::Test => 1,
            Level::Menu => 2,
            Level::Tutorial1 => 3,
            Level::Tutorial2 => 4,
            Level::Tutorial3 => 5,
            Level::Tutorial4 => 6,
            Level::Tutorial5 => 7,
        }
    }

    /// The level at the given place of the sequence, if there is one.
    pub open spec fn at(place: int) -> Option<Level> {
        if place == 0 {
            Some(Level::Loading)
        } else if place == 1 {
            Some(Level::Test)
        } else if place == 2 {
            Some(Level::Menu)
        } else if place == 3 {
            Some(Level::Tutorial1)
        } else if place == 4 {
            Some(Level::Tutorial2)
        } else if place == 5 {
            Some(Level::Tutorial3)
        } else if place == 6 {
            Some(Level::Tutorial4)
        } else if place == 7 {
            Some(Level::Tutorial5)
        } else {
            None
        }
    }

    /// The level given by an optional choice: the menu where there is none.
    pub open spec fn or_menu(choice: Option<Level>) -> Level {
        match choice {
            Some(level) => level,
            None => Level::Menu,
        }
    }

    /// The level that a key leads to: the same level for a restart; the
    /// next or the previous level for the other keys, and the menu from
    /// either end of the sequence.
    pub open spec fn spec_after_key(self, key: LevelKey) -> Level {
        match key {
            LevelKey::Restart => self,
            LevelKey::Next => Self::or_menu(Self::at(self.ordinal() + 1)),
            LevelKey::Previous => Self::or_menu(Self::at(self.ordinal() - 1)),
        }
    }

    /// The level that a signal leads to, if it leads anywhere. A signal from
    /// a pressure plate counts only while the plate is pressed. A signal
    /// that the level does not know is passed over.
    pub open spec fn spec_after_signal(self, signal: Signal, pressed: bool) -> Option<Level> {
        if !pressed {
            None
        } else {
            match signal {
                Signal::NextLevel => Some(self.spec_after_key(LevelKey::Next)),
                Signal::RestartLevel => Some(self),
                _ => None,
            }
        }
    }

    /// The level to set up or tear down again: a transition from a level to
    /// itself.
    pub open spec fn spec_reentered(exited: Option<Level>, entered: Option<Level>) -> Option<
        Level,
    > {
        if exited == entered {
            entered
        } else {
            None
        }
    }

    /// Every level is found at its place, and every place up to the number
    /// of levels holds a level.
    pub proof fn lemma_levels_in_sequence(self, place: int)
        ensures
            0 <= self.ordinal() < Self::count(),
            Self::at(self.ordinal()) == Some(self),
            0 <= place < Self::count() <==> Self::at(place) is Some,
            Self::at(place) is Some ==> Self::at(place)->0.ordinal() == place,
    {
    }

    /// The first level of the sequence.
    pub fn first() -> (level: Level)
        ensures
            Self::at(0) == Some(level),
    {
        Level::Loading
    }

    /// The last level of the sequence.
    pub fn last() -> (level: Level)
        ensures
            Self::at(Self::count() - 1) == Some(level),
    {
        Level::Tutorial5
    }

    /// The level after this one; none after the last.
    pub fn next(self) -> (level: Option<Level>)
        ensures
            level == Self::at(self.ordinal() + 1),
    {
        match self {
            Level::Loading => Some(Level::Test),
            Level::Test => Some(Level::Menu),
            Level::Menu => Some(Level::Tutorial1),
            Level::Tutorial1 => Some(Level::Tutorial2),
            Level::Tutorial2 => Some(Level::Tutorial3),
            Level::Tutorial3 => Some(Level::Tutorial4),
            Level::Tutorial4 => Some(Level::Tutorial5),
            Level::Tutorial5 => None,
        }
    }

    /// The level before this one; none before the first.
    pub fn previous(self) -> (level: Option<Level>)
        ensures
            level == Self::at(self.ordinal() - 1),
    {
        match self {
            Level::Loading => None,
            Level::Test => Some(Level::Loading),
            Level::Menu => Some(Level::Test),
            Level::Tutorial1 => Some(Level::Menu),
            Level::Tutorial2 => Some(Level::Tutorial1),
            Level::Tutorial3 => Some(Level::Tutorial2),
            Level::Tutorial4 => Some(Level::Tutorial3),
            Level::Tutorial5 => Some(Level::Tutorial4),
        }
    }

    /// The level that a key leads to.
    pub fn after_key(self, key: LevelKey) -> (level: Level)
        ensures
            level == self.spec_after_key(key),
    {
        let choice = match key {
            LevelKey::Restart => Some(self),
            LevelKey::Next => self.next(),
            LevelKey::Previous => self.previous(),
        };
        match choice {
            Some(level) => level,
            None => Level::Menu,
        }
    }

    /// The level that a signal leads to, if it leads anywhere. A signal sent
    /// by a button counts as pressed.
    pub fn after_signal(self, signal: Signal, pressed: bool) -> (level: Option<Level>)
        ensures
            level == self.spec_after_signal(signal, pressed),
    {
        if !pressed {
            return None;
        }
        match signal {
            Signal::NextLevel => Some(self.after_key(LevelKey::Next)),
            Signal::RestartLevel => Some(self),
            _ => None,
        }
    }

    /// The level to set up or tear down again after a transition: the level
    /// itself where the transition led from it to it, none otherwise.
    pub fn reentered(exited: Option<Level>, entered: Option<Level>) -> (level: Option<Level>)
        ensures
            level == Self::spec_reentered(exited, entered),
    {
        match (exited, entered) {
            (Some(from), Some(to)) => if from == to {
                Some(to)
            } else {
                None
            },
            _ => None,
        }
    }
}

} // verus!
