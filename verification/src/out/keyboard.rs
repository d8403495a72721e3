//! What a key press does on the screen.
use vstd::prelude::*;

verus! {

/// The backspace character.
pub const BACKSPACE: char = '\u{8}';

/// What the screen does for a key press.
#[derive(Debug, Clone, Copy, PartialEq, Eq, Structural)]
pub enum KeyAction {
    /// Erase the character before the cursor.
    Erase,
    /// Print the character.
    Print(char),
    /// Nothing.
    Nothing,
}

/// What a key press does: `key` is the character the key stands for, or
/// `None` for a key with no character (or no complete key yet). Backspace
/// erases, any other character is printed, and a key with no character does
/// nothing.
pub fn key_action(key: Option<char>) -> (r: KeyAction)
    ensures
        r == (match key {
            Some(c) => if c == BACKSPACE {
                KeyAction::Erase
            } else {
                KeyAction::Print(c)
            },
            None => KeyAction::Nothing,
        }),
{
    match key {
        Some(c) => if c == BACKSPACE {
            KeyAction::Erase
        } else {
            KeyAction::Print(c)
        },
        None => KeyAction::Nothing,
    }
}

} // verus!
