//! The four sides of a tile, and the integer codes callers use for them.
//!
//! The two comparison operations historically use different integer
//! encodings for the same four logical edges. Both mappings are kept here,
//! explicit and separate, so that neither is silently changed.

use vstd::prelude::*;

verus! {

/// One side of a rectangular tile.
#[derive(Clone, Copy, Debug, PartialEq, Eq, Structural)]
pub enum Edge {
    Top,
    Right,
    Bottom,
    Left,
}

/// The edge that an aligner code denotes: `0, 1, 2, 3` stand for
/// top, right, bottom, left; every other code is unrecognized.
pub open spec fn aligner_edge(code: u8) -> Option<Edge> {
    if code == 0 {
        Some(Edge::Top)
    } else if code == 1 {
        Some(Edge::Right)
    } else if code == 2 {
        Some(Edge::Bottom)
    } else if code == 3 {
        Some(Edge::Left)
    } else {
        None
    }
}

/// The edge that a scorer code denotes: `0, 1, 3, 4` stand for
/// top, right, bottom, left; the value `2` is unused and every other
/// code is unrecognized.
pub open spec fn scorer_edge(code: u8) -> Option<Edge> {
    if code == 0 {
        Some(Edge::Top)
    } else if code == 1 {
        Some(Edge::Right)
    } else if code == 3 {
        Some(Edge::Bottom)
    } else if code == 4 {
        Some(Edge::Left)
    } else {
        None
    }
}

/// Decodes an aligner edge code.
pub fn edge_from_aligner_code(code: u8) -> (r: Option<Edge>)
    ensures
        r == aligner_edge(code),
{
    match code {
        0 => Some(Edge::Top),
        1 => Some(Edge::Right),
        2 => Some(Edge::Bottom),
        3 => Some(Edge::Left),
        _ => None,
    }
}

/// Decodes a scorer edge code.
pub fn edge_from_scorer_code(code: u8) -> (r: Option<Edge>)
    ensures
        r == scorer_edge(code),
{
    match code {
        0 => Some(Edge::Top),
        1 => Some(Edge::Right),
        3 => Some(Edge::Bottom),
        4 => Some(Edge::Left),
        _ => None,
    }
}

} // verus!
