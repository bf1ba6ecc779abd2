//! Uniform data for a character-grid terminal panel.

use vstd::prelude::*;

verus! {

/// The per-panel uniform block: the grid size of a terminal panel, as the
/// shader consumes it.
#[derive(Clone, Copy, PartialEq, Eq, Structural, Debug)]
pub struct TerminalUBO {
    width: u32,
    height: u32,
}

impl TerminalUBO {
    /// The grid width in cells.
    pub closed spec fn width_spec(self) -> u32 {
        self.width
    }

    /// The grid height in cells.
    pub closed spec fn height_spec(self) -> u32 {
        self.height
    }

    /// A uniform block for a `width` by `height` cell grid.
    pub fn new(width: u32, height: u32) -> (r: TerminalUBO)
        ensures
            r.width_spec() == width,
            r.height_spec() == height,
    {
        TerminalUBO { width, height }
    }
}

} // verus!
