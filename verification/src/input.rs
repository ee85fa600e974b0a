//! What each key does.
//!
//! The window layer reduces a key press to a [`KeyPress`] and performs the
//! [`KeyCommand`] this module decides on; the decision itself is here.

use vstd::prelude::*;

use crate::body::BodyId;

verus! {

/// A key press, as far as the controls are concerned.
#[derive(Debug, Clone, Copy, PartialEq, Eq, Structural)]
pub enum KeyPress {
    /// The space bar.
    Space,
    /// The escape key.
    Escape,
    /// A key that types exactly one character.
    Character(char),
    /// Anything else.
    Other,
}

/// An action the keyboard can ask for.
#[derive(Debug, Clone, Copy, PartialEq, Eq, Structural)]
pub enum KeyCommand {
    /// Pause or resume time.
    TogglePause,
    /// Leave the application.
    Quit,
    /// Halve the time scale.
    HalveTimeScale,
    /// Double the time scale.
    DoubleTimeScale,
    /// Show or hide the orbit tracks.
    ToggleOrbits,
    /// Turn camera following on or off.
    ToggleFollow,
    /// Switch to the next integrator.
    CycleIntegrator,
    /// Restore the initial system.
    Reset,
    /// Point the camera at a body.
    Focus(BodyId),
}

/// The body a digit key selects: `1` is the first body, …, `9` the ninth and
/// `0` the tenth.
pub open spec fn digit_body_index(c: char) -> int {
    if c == '0' {
        9
    } else {
        (c as int) - ('1' as int)
    }
}

/// What a key press asks for, in a system of `body_count` bodies.
pub open spec fn key_command_for(key: KeyPress, body_count: int) -> Option<KeyCommand> {
    match key {
        KeyPress::Space => Some(KeyCommand::TogglePause),
        KeyPress::Escape => Some(KeyCommand::Quit),
        KeyPress::Character(c) => {
            if c == '[' {
                Some(KeyCommand::HalveTimeScale)
            } else if c == ']' {
                Some(KeyCommand::DoubleTimeScale)
            } else if c == 'o' {
                Some(KeyCommand::ToggleOrbits)
            } else if c == 'f' {
                Some(KeyCommand::ToggleFollow)
            } else if c == 'i' {
                Some(KeyCommand::CycleIntegrator)
            } else if c == 'r' {
                Some(KeyCommand::Reset)
            } else if '0' <= c <= '9' && digit_body_index(c) < body_count {
                Some(KeyCommand::Focus(BodyId(digit_body_index(c) as usize)))
            } else {
                None
            }
        },
        KeyPress::Other => None,
    }
}

/// The digit keys select bodies by their ordinal: the key of digit value
/// `d` (1 to 9) focuses the `d`-th body, whose handle is `d − 1`, and the `0`
/// key the tenth — whenever that body exists, and nothing otherwise. So
/// neighbouring digit keys select neighbouring bodies.
pub proof fn lemma_digit_keys_select_bodies_by_ordinal(c: char, body_count: int)
    requires
        '0' <= c <= '9',
    ensures
        ({
            let ordinal = if c == '0' {
                10
            } else {
                c as int - '0' as int
            };
            &&& ordinal <= body_count ==> key_command_for(KeyPress::Character(c), body_count) == Some(
                KeyCommand::Focus(BodyId((ordinal - 1) as usize)),
            )
            &&& ordinal > body_count ==> key_command_for(KeyPress::Character(c), body_count) == None::<KeyCommand>
        }),
{
}

/// The key map: space pauses, escape quits, `[` and `]` halve and double
/// the time scale, `o` toggles the orbit tracks, `f` camera following, `i`
/// cycles the integrator and `r` resets; no two keys ask for the same thing,
/// and the keys asking for nothing are exactly the other keys.
pub proof fn lemma_key_map(body_count: int)
    ensures
        key_command_for(KeyPress::Space, body_count) == Some(KeyCommand::TogglePause),
        key_command_for(KeyPress::Escape, body_count) == Some(KeyCommand::Quit),
        key_command_for(KeyPress::Character('['), body_count) == Some(KeyCommand::HalveTimeScale),
        key_command_for(KeyPress::Character(']'), body_count) == Some(KeyCommand::DoubleTimeScale),
        key_command_for(KeyPress::Character('o'), body_count) == Some(KeyCommand::ToggleOrbits),
        key_command_for(KeyPress::Character('f'), body_count) == Some(KeyCommand::ToggleFollow),
        key_command_for(KeyPress::Character('i'), body_count) == Some(KeyCommand::CycleIntegrator),
        key_command_for(KeyPress::Character('r'), body_count) == Some(KeyCommand::Reset),
        key_command_for(KeyPress::Other, body_count) == None::<KeyCommand>,
        forall|k1: KeyPress, k2: KeyPress|
            #[trigger] key_command_for(k1, body_count) == #[trigger] key_command_for(k2, body_count)
                && key_command_for(k1, body_count) is Some ==> k1 == k2,
        forall|c: char|
            !(c == '[' || c == ']' || c == 'o' || c == 'f' || c == 'i' || c == 'r' || '0' <= c <= '9')
                ==> #[trigger] key_command_for(KeyPress::Character(c), body_count) == None::<KeyCommand>,
{
    assert forall|k1: KeyPress, k2: KeyPress|
        #[trigger] key_command_for(k1, body_count) == #[trigger] key_command_for(k2, body_count)
            && key_command_for(k1, body_count) is Some implies k1 == k2 by {
        if let (KeyPress::Character(c1), KeyPress::Character(c2)) = (k1, k2) {
            if '0' <= c1 <= '9' && '0' <= c2 <= '9' {
                assert(c1 as int == c2 as int);
            }
        }
    }
}

/// Decides what a key press does in a system of `body_count` bodies.
///
/// A digit whose body does not exist does nothing.
pub fn key_command(key: KeyPress, body_count: usize) -> (command: Option<KeyCommand>)
    ensures
        command == key_command_for(key, body_count as int),
{
    match key {
        KeyPress::Space => Some(KeyCommand::TogglePause),
        KeyPress::Escape => Some(KeyCommand::Quit),
        KeyPress::Character(c) => {
            if c == '[' {
                Some(KeyCommand::HalveTimeScale)
            } else if c == ']' {
                Some(KeyCommand::DoubleTimeScale)
            } else if c == 'o' {
                Some(KeyCommand::ToggleOrbits)
            } else if c == 'f' {
                Some(KeyCommand::ToggleFollow)
            } else if c == 'i' {
                Some(KeyCommand::CycleIntegrator)
            } else if c == 'r' {
                Some(KeyCommand::Reset)
            } else if '0' <= c && c <= '9' {
                let digit = (c as u32) - ('0' as u32);
                let index: usize = if digit == 0 {
                    9
                } else {
                    (digit - 1) as usize
                };
                if index < body_count {
                    Some(KeyCommand::Focus(BodyId(index)))
                } else {
                    None
                }
            } else {
                None
            }
        },
        KeyPress::Other => None,
    }
}

} // verus!
