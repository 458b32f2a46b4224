//! Error taxonomy for command planning. Every variant is terminal for the
//! current invocation; the caller reports it and exits non-zero.

use vstd::prelude::*;

verus! {

#[derive(Clone, Copy, Debug, PartialEq, Eq, Structural)]
pub enum CommandError {
    /// No output-manager global was advertised by the compositor.
    EnvironmentUnsupported,
    /// No head carries the requested name.
    DisplayNotFound,
    /// The target head has no active mode (it is probably off).
    NoCurrentMode,
    /// The target head advertises no preferred mode.
    NoPreferredMode,
    /// The requested width/height/rate is not advertised by the head.
    ModeNotFound,
    /// Two heads share no resolution, so mirroring is impossible.
    NoCommonMode,
    /// A head involved in a placement has no advertised position yet.
    MissingPosition,
    /// A computed placement does not fit the protocol's coordinate range.
    PositionOutOfRange,
}

} // verus!
