//! The scroll rail's tick geometry and its default palette.

use vstd::prelude::*;
use crate::text::owned;

verus! {

/// Tick width and inset per depth against the ruler edge: `0` is the long
/// (major) tick, `1` the medium one, anything deeper the short one.
pub open spec fn tick_of(depth: u8) -> (i32, i32) {
    if depth == 0 {
        (16, 4)
    } else if depth == 1 {
        (10, 10)
    } else {
        (6, 14)
    }
}

/// Tick width and inset per depth, against the ruler edge.
pub fn tick(depth: u8) -> (r: (i32, i32))
    ensures
        r == tick_of(depth),
{
    match depth {
        0 => (16, 4),
        1 => (10, 10),
        _ => (6, 14),
    }
}

/// Deeper ticks are shorter, and every tick ends at the same edge: a depth
/// past the known ones is drawn as the short tick.
pub proof fn lemma_ticks_shrink_with_depth(depth: u8)
    ensures
        tick_of(0).0 > tick_of(1).0 > tick_of(2).0,
        depth >= 2 ==> tick_of(depth) == tick_of(2),
        tick_of(depth).0 + tick_of(depth).1 == 20,
{
}

/// Colours come from the host; there is no rail-wide sheet a host cannot
/// override.
#[derive(Clone, Copy, PartialEq)]
pub struct RailPalette {
    /// The ruler edge line.
    pub track: &'static str,
    /// Mark at rest.
    pub mark: &'static str,
    /// Mark under the pointer.
    pub mark_hover: &'static str,
}

impl Default for RailPalette {
    fn default() -> (r: Self)
        ensures
            r.track@ == "rgba(127,127,127,0.35)"@,
            r.mark@ == "rgba(127,127,127,0.75)"@,
            r.mark_hover@ == "rgba(0,0,0,0.85)"@,
    {
        RailPalette {
            track: "rgba(127,127,127,0.35)",
            mark: "rgba(127,127,127,0.75)",
            mark_hover: "rgba(0,0,0,0.85)",
        }
    }
}

/// The name a rail stamps on itself for its scoped hover sheet: the host's
/// surface id, or `default` when it gave none.
pub fn rail_scope(surface_id: &str) -> (r: String)
    ensures
        r@ == (if surface_id@.len() == 0 {
            "default"@
        } else {
            surface_id@
        }),
{
    if surface_id.is_empty() {
        owned("default")
    } else {
        owned(surface_id)
    }
}

} // verus!
