//! Relative placement: pure coordinate arithmetic for "above", "below",
//! "left-of" and "right-of", built on the reference head's position and the
//! current modes of both heads.

use crate::error::CommandError;
use crate::model::HeadMode;
use crate::strutil::str_eq;
use vstd::prelude::*;

verus! {

/// A coordinate pair in the compositor's global space.
#[derive(Clone, Copy, Debug, PartialEq, Eq, Structural)]
pub struct Position {
    pub x: i32,
    pub y: i32,
}

/// Where a moved head is placed relative to a reference head.
#[derive(Clone, Copy, Debug, PartialEq, Eq, Structural)]
pub enum RelativePosition {
    Above,
    Below,
    LeftOf,
    RightOf,
}

/// The placement named by a command-line keyword, if any.
pub open spec fn relative_of(s: Seq<char>) -> Option<RelativePosition> {
    if s == "above"@ {
        Some(RelativePosition::Above)
    } else if s == "below"@ {
        Some(RelativePosition::Below)
    } else if s == "left-of"@ {
        Some(RelativePosition::LeftOf)
    } else if s == "right-of"@ {
        Some(RelativePosition::RightOf)
    } else {
        None
    }
}

impl RelativePosition {
    /// The placement named by a command-line keyword, if any.
    pub fn parse(s: &str) -> (r: Option<RelativePosition>)
        ensures
            r == relative_of(s@),
    {
        if str_eq(s, "above") {
            Some(RelativePosition::Above)
        } else if str_eq(s, "below") {
            Some(RelativePosition::Below)
        } else if str_eq(s, "left-of") {
            Some(RelativePosition::LeftOf)
        } else if str_eq(s, "right-of") {
            Some(RelativePosition::RightOf)
        } else {
            None
        }
    }
}

/// The exact target coordinates, over unbounded integers:
/// above: (ref.x, ref.y − moved.height); below: (ref.x, ref.y + ref.height);
/// right-of: (ref.x + ref.width, ref.y); left-of: (ref.x − moved.width, ref.y).
pub open spec fn relative_position_spec(
    pos: RelativePosition,
    reference_x: int,
    reference_y: int,
    reference_mode: HeadMode,
    moved_mode: HeadMode,
) -> (int, int) {
    match pos {
        RelativePosition::Above => (reference_x, reference_y - moved_mode.height),
        RelativePosition::Below => (reference_x, reference_y + reference_mode.height),
        RelativePosition::RightOf => (reference_x + reference_mode.width, reference_y),
        RelativePosition::LeftOf => (reference_x - moved_mode.width, reference_y),
    }
}

pub open spec fn fits_i32(v: int) -> bool {
    i32::MIN <= v <= i32::MAX
}

/// Compute the placement, rejecting a target that leaves the protocol's
/// coordinate range.
pub fn relative_position(
    pos: RelativePosition,
    reference_x: i32,
    reference_y: i32,
    reference_mode: &HeadMode,
    moved_mode: &HeadMode,
) -> (r: Result<Position, CommandError>)
    ensures
        ({
            let (tx, ty) = relative_position_spec(
                pos,
                reference_x as int,
                reference_y as int,
                *reference_mode,
                *moved_mode,
            );
            match r {
                Ok(p) => fits_i32(tx) && fits_i32(ty) && p.x == tx && p.y == ty,
                Err(e) => e == CommandError::PositionOutOfRange && !(fits_i32(tx) && fits_i32(
                    ty,
                )),
            }
        }),
{
    let (tx, ty): (i64, i64) = match pos {
        RelativePosition::Above => (
            reference_x as i64,
            reference_y as i64 - moved_mode.height as i64,
        ),
        RelativePosition::Below => (
            reference_x as i64,
            reference_y as i64 + reference_mode.height as i64,
        ),
        RelativePosition::RightOf => (
            reference_x as i64 + reference_mode.width as i64,
            reference_y as i64,
        ),
        RelativePosition::LeftOf => (
            reference_x as i64 - moved_mode.width as i64,
            reference_y as i64,
        ),
    };
    if tx < i32::MIN as i64 || tx > i32::MAX as i64 || ty < i32::MIN as i64 || ty > i32::MAX as i64 {
        Err(CommandError::PositionOutOfRange)
    } else {
        Ok(Position { x: tx as i32, y: ty as i32 })
    }
}

} // verus!
