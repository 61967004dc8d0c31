//! The per-page document configuration handed to the output sink.

use vstd::prelude::*;

use crate::text::str_eq;

verus! {

/// The background pattern requested for a page.
#[derive(Clone, Copy, Debug, PartialEq, Eq, Structural)]
pub enum PatternKind {
    /// No pattern.
    Plain,
    /// A square grid.
    Grid,
}

/// The bit pattern of the grid cell edge length (the encoding of 32),
/// used for both grid dimensions.
pub const GRID_CELL: u64 = 0x4040000000000000;

/// Document-level configuration for one page, constructed once and
/// passed explicitly to the output sink: white background, no borders,
/// an unbounded canvas layout, and the background pattern declared by
/// the page metadata.
#[derive(Clone, Copy, Debug, PartialEq, Eq)]
pub struct DocConfig {
    pub background_color: (u8, u8, u8, u8),
    pub show_borders: bool,
    pub infinite_layout: bool,
    pub pattern: PatternKind,
    pub pattern_size: (u64, u64),
}

/// Builds the configuration for a page whose metadata declares the given
/// background pattern: a `grid` pattern is recognized and sized to the
/// fixed grid cell; every other value leaves the background plain.
pub fn doc_config(background_pattern: &str) -> (c: DocConfig)
    ensures
        c.background_color == (255u8, 255u8, 255u8, 255u8),
        !c.show_borders,
        c.infinite_layout,
        background_pattern@ == "grid"@ ==> c.pattern == PatternKind::Grid,
        background_pattern@ != "grid"@ ==> c.pattern == PatternKind::Plain,
        c.pattern_size == (GRID_CELL, GRID_CELL),
{
    let pattern = if str_eq(background_pattern, "grid") {
        PatternKind::Grid
    } else {
        PatternKind::Plain
    };
    DocConfig {
        background_color: (255, 255, 255, 255),
        show_borders: false,
        infinite_layout: true,
        pattern,
        pattern_size: (GRID_CELL, GRID_CELL),
    }
}

} // verus!
