//! Indexing of three-dimensional rectangular grids: the arithmetic that maps a
//! coordinate `(i, j, k)` to its offset in a flat backing array and back.

use vstd::prelude::*;

pub mod cached_grid;
pub mod coord;
pub mod enumeration;
pub mod extents;
pub mod light_grid;

pub use cached_grid::CachedGrid;
pub use coord::IJK;
pub use extents::{Coord, Extents};
pub use light_grid::LightGrid;

verus! {

/// What every indexing strategy offers: the shape of the grid and the forward
/// lookup from a coordinate to its linear index.
pub trait IndexFromCoord3D {
    /// The extents that the indexer answers for.
    spec fn extents(&self) -> Extents;

    /// The number of cells of the grid.
    fn size(&self) -> (r: usize)
        ensures
            r == self.extents().size(),
    ;

    /// The extent of the `i` axis.
    fn i_max(&self) -> (r: usize)
        ensures
            r == self.extents().i_max,
    ;

    /// The extent of the `j` axis.
    fn j_max(&self) -> (r: usize)
        ensures
            r == self.extents().j_max,
    ;

    /// The extent of the `k` axis.
    fn k_max(&self) -> (r: usize)
        ensures
            r == self.extents().k_max,
    ;

    /// The linear index of `coord`, or `None` where a coordinate reaches its
    /// extent.
    fn index_from(&self, coord: &IJK) -> (r: Option<usize>)
        ensures
            r.is_some() <==> self.extents().contains(coord@),
            r matches Some(index) ==> index == self.extents().index_of(coord@),
    ;
}

} // verus!
