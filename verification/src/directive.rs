//! What a frame asks of the terminal, one directive at a time.

use crate::color::Color;
use vstd::prelude::*;

verus! {

/// One request to the terminal. A frame is a list of these, to be carried out
/// in order.
#[derive(Clone, Copy, Debug, PartialEq, Eq, Structural)]
pub enum Directive {
    /// Stop showing the cursor.
    HideCursor,
    /// Put the cursor at the top left cell.
    MoveToOrigin,
    /// Draw what follows on the terminal's black.
    BlackBackground,
    /// Draw what follows in this colour.
    Foreground(Color),
    /// Write this character at the cursor and move on by one cell.
    Print(char),
    /// Go back to the terminal's own colours.
    ResetColor,
    /// Show the cursor again.
    ShowCursor,
    /// Hand everything written so far to the terminal.
    Flush,
}

} // verus!
