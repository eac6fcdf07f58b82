//! The command AST shared by the parser and the interpreter.

use vstd::prelude::*;

verus! {

/// One turtle command. Angles, distances, coordinates and widths are
/// fixed-point values with [`crate::fx::SCALE`] units per world unit.
#[derive(Clone, Copy, PartialEq, Eq, Structural, Debug)]
pub enum Command {
    /// Replace the turtle state and the scene with fresh ones and clear
    /// the diagnostic flags.
    Reset,
    /// Raise the pen: movement stops emitting geometry.
    PenUp,
    /// Lower the pen: movement emits stroked geometry.
    PenDown,
    /// Rotate the heading by a relative angle in fixed-point degrees.
    Turn(i64),
    /// Walk the given fixed-point distance along the current heading.
    Move(i64),
    /// Set the heading to an absolute angle in fixed-point degrees.
    Direction(i64),
    /// Push the current position onto the location stack.
    PushLoc,
    /// Pop the location stack into the position; on an empty stack, flag
    /// the underflow and leave the position unchanged.
    PopLoc,
    /// Push the current heading onto the rotation stack.
    PushRot,
    /// Pop the rotation stack into the heading; on an empty stack, flag
    /// the underflow and leave the heading unchanged.
    PopRot,
    /// Jump to an absolute position, extending the bounds regardless of
    /// the pen state.
    Go(i64, i64),
    /// Jump to an absolute x coordinate, keeping y.
    GoX(i64),
    /// Jump to an absolute y coordinate, keeping x.
    GoY(i64),
    /// Set the pen width (no clamping at this layer).
    PenWidth(i64),
    /// Set the pen color from red, green and blue components.
    PenColor(u8, u8, u8),
}

/// A parsed turtle program: commands in execution order.
pub type Turtle = Vec<Command>;

} // verus!
