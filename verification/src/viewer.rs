//! Values the surrounding viewer application is configured and furnished
//! with: its command-line options and the ground-grid geometry it uploads.

use vstd::prelude::*;

verus! {

/// How many cells the viewer's ground grid has along each axis.
pub const GRIDLINE_COUNT: u8 = 10;

/// The viewer's configuration: how many worker threads to use, whether to
/// run with the 3D camera, and which input file to load.
#[derive(Clone, Debug)]
pub struct Options {
    pub jobs: Option<usize>,
    pub threed: bool,
    pub input_path: String,
}

impl Options {
    /// Bundle the viewer's configuration values.
    pub fn new(jobs: Option<usize>, threed: bool, input_path: String) -> (o: Options)
        ensures
            o.jobs == jobs,
            o.threed == threed,
            o.input_path@ == input_path@,
    {
        Options { jobs, threed, input_path }
    }
}

/// The vertex at index `t` of the gridline vertex list: gridline `t / 4`
/// contributes one horizontal line and one vertical line, two endpoints
/// each.
pub open spec fn grid_vertex(t: int) -> (u8, u8) {
    let i = (t / 4) as u8;
    if t % 4 == 0 {
        (0, i)
    } else if t % 4 == 1 {
        (GRIDLINE_COUNT, i)
    } else if t % 4 == 2 {
        (i, 0)
    } else {
        (i, GRIDLINE_COUNT)
    }
}

/// Endpoint pairs for the ground grid's lines: for each gridline index,
/// the two endpoints of its horizontal line and the two of its vertical
/// line, in cell units.
pub fn create_grid_vertex_positions() -> (positions: Vec<(u8, u8)>)
    ensures
        positions@.len() == 4 * (GRIDLINE_COUNT + 1),
        forall|t: int| 0 <= t < positions@.len() ==> positions@[t] == grid_vertex(t),
{
    let mut positions: Vec<(u8, u8)> = Vec::new();
    let mut index: u8 = 0;
    while index <= GRIDLINE_COUNT
        invariant
            index <= GRIDLINE_COUNT + 1,
            positions@.len() == 4 * index,
            forall|t: int| 0 <= t < positions@.len() ==> positions@[t] == grid_vertex(t),
        decreases GRIDLINE_COUNT + 1 - index,
    {
        proof {
            vstd::arithmetic::div_mod::lemma_fundamental_div_mod_converse(
                4 * index,
                4,
                index as int,
                0,
            );
            vstd::arithmetic::div_mod::lemma_fundamental_div_mod_converse(
                4 * index + 1,
                4,
                index as int,
                1,
            );
            vstd::arithmetic::div_mod::lemma_fundamental_div_mod_converse(
                4 * index + 2,
                4,
                index as int,
                2,
            );
            vstd::arithmetic::div_mod::lemma_fundamental_div_mod_converse(
                4 * index + 3,
                4,
                index as int,
                3,
            );
        }
        positions.push((0, index));
        positions.push((GRIDLINE_COUNT, index));
        positions.push((index, 0));
        positions.push((index, GRIDLINE_COUNT));
        index = index + 1;
    }
    positions
}

} // verus!
