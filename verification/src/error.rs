//! The error taxonomy of the assistant's core.
use vstd::prelude::*;

verus! {

/// Everything that can go wrong in the core, from calibration to the engine
/// protocol. Per-cycle conditions (`NoMoveDetected`,
/// `InvalidAmountOfMoves`) are loggable and non-fatal; the rest end the
/// session.
#[derive(Debug, Clone, Copy, PartialEq, Eq, Structural)]
pub enum CheatessError {
    /// No monitor matched the caller's criterion.
    MonitorNotFound,
    /// An underlying image operation failed.
    ImageOp,
    /// No quadrilateral met the board locator's geometric constraints.
    BoardNotFound,
    /// A piece template's crop would fall outside the board image.
    TemplateExtractionFailed,
    /// The two boards handed to move inference are identical.
    NoMoveDetected,
    /// The boards differ in a shape that matches no recognised move pattern;
    /// the payload is the number of changed squares.
    InvalidAmountOfMoves(usize),
    /// The engine's output ended or lost its expected shape.
    EngineProtocol,
    /// The engine rejected a move, so the driver's position would diverge.
    IllegalMove,
}

} // verus!
