//! The coordinate triple that names one cell of a grid.

use vstd::prelude::*;

use crate::extents::Coord;

verus! {

/// A cell position: one zero-based coordinate per axis.
#[derive(Clone, Copy, Debug, PartialEq, Eq, Structural)]
pub struct IJK {
    pub i: usize,
    pub j: usize,
    pub k: usize,
}

impl View for IJK {
    type V = Coord;

    open spec fn view(&self) -> Coord {
        Coord { i: self.i as nat, j: self.j as nat, k: self.k as nat }
    }
}

} // verus!
