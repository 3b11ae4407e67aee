//! The choice of pass structure from the input size and the requested
//! geometry level.

use vstd::prelude::*;

verus! {

/// The requested geometry fidelity.
#[derive(Clone, Copy, Debug, PartialEq, Eq, Structural)]
pub enum GeometryLevel {
    Basic,
    Full,
    Auto,
}

/// The pass structure of a conversion.
#[derive(Clone, Copy, Debug, PartialEq, Eq, Structural)]
pub enum Strategy {
    /// One pass, no geometry.
    SinglePass,
    /// Point coordinates first, then every element, ways with geometry and
    /// relations from their member points.
    TwoPass,
    /// Point coordinates, then way geometries, then every element, relations
    /// from their member ways.
    ThreePass,
}

/// Inputs of at most this many bytes are small (under a tenth of a GiB).
pub const SMALL_INPUT_BYTES: u64 = 107_374_182;

/// Inputs of more than this many bytes are large (over one GiB).
pub const LARGE_INPUT_BYTES: u64 = 1_073_741_824;

/// Any level text other than `basic` and `full` means `auto`.
pub open spec fn spec_level(s: Seq<char>) -> GeometryLevel {
    if s == "basic"@ {
        GeometryLevel::Basic
    } else if s == "full"@ {
        GeometryLevel::Full
    } else {
        GeometryLevel::Auto
    }
}

/// `basic` never resolves geometry; `full` takes three passes for small
/// inputs and two otherwise; `auto` is `basic` for large inputs and takes
/// three passes for the rest.
pub open spec fn spec_strategy(size: u64, level: GeometryLevel) -> Strategy {
    match level {
        GeometryLevel::Basic => Strategy::SinglePass,
        GeometryLevel::Full => if size <= SMALL_INPUT_BYTES {
            Strategy::ThreePass
        } else {
            Strategy::TwoPass
        },
        GeometryLevel::Auto => if size > LARGE_INPUT_BYTES {
            Strategy::SinglePass
        } else {
            Strategy::ThreePass
        },
    }
}

/// Reads a geometry level; unrecognised text means `auto`.
pub fn parse_geometry_level(s: &str) -> (r: GeometryLevel)
    ensures
        r == spec_level(s@),
{
    let t = s.to_owned();
    if t == "basic".to_owned() {
        GeometryLevel::Basic
    } else if t == "full".to_owned() {
        GeometryLevel::Full
    } else {
        GeometryLevel::Auto
    }
}

/// The pass structure for an input of `size` bytes at `level`.
pub fn select_strategy(size: u64, level: GeometryLevel) -> (r: Strategy)
    ensures
        r == spec_strategy(size, level),
{
    match level {
        GeometryLevel::Basic => Strategy::SinglePass,
        GeometryLevel::Full => {
            if size <= SMALL_INPUT_BYTES {
                Strategy::ThreePass
            } else {
                Strategy::TwoPass
            }
        },
        GeometryLevel::Auto => {
            if size > LARGE_INPUT_BYTES {
                Strategy::SinglePass
            } else {
                Strategy::ThreePass
            }
        },
    }
}

/// Whether a strategy runs collection passes before the final pass.
pub open spec fn collects_geometry(s: Strategy) -> bool {
    s != Strategy::SinglePass
}

} // verus!
