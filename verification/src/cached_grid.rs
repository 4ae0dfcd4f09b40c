//! The cached indexer: extents with one table of offsets for the `j` axis and
//! one for the `k` axis, so that a lookup adds three numbers.

use std::rc::Rc;
use vstd::prelude::*;
use vstd::std_specs::convert::FromSpecImpl;

use crate::coord::IJK;
use crate::extents::{lemma_linear_bound, Extents};
use crate::light_grid::LightGrid;
use crate::IndexFromCoord3D;

verus! {

/// The extents of a grid and the offsets that each `j` and each `k` adds to a
/// linear index, computed once.
#[derive(Debug, PartialEq)]
pub struct CachedGrid {
    pub(crate) i_max: usize,
    pub(crate) j_max: usize,
    pub(crate) k_max: usize,
    pub(crate) size: usize,
    pub(crate) j_cache: Vec<usize>,
    pub(crate) k_cache: Vec<usize>,
}

impl View for CachedGrid {
    type V = Extents;

    closed spec fn view(&self) -> Extents {
        Extents::of(self.i_max, self.j_max, self.k_max)
    }
}

impl CachedGrid {
    /// The offsets by `j`, as stored.
    pub closed spec fn j_table(self) -> Seq<usize> {
        self.j_cache@
    }

    /// The offsets by `k`, as stored.
    pub closed spec fn k_table(self) -> Seq<usize> {
        self.k_cache@
    }

    /// The stored size is the product of the extents, and each table holds the
    /// offsets of its axis, one entry for each value below the extent.
    #[verifier::type_invariant]
    pub closed spec fn wf(self) -> bool {
        &&& self@.addressable()
        &&& self.size == self@.size()
        &&& self.j_table().len() == self@.j_max
        &&& self.k_table().len() == self@.k_max
        &&& forall|j: int|
            0 <= j < self.j_table().len() ==> #[trigger] self.j_table()[j] == self@.j_offset(
                j as nat,
            )
        &&& forall|k: int|
            0 <= k < self.k_table().len() ==> #[trigger] self.k_table()[k] == self@.k_offset(
                k as nat,
            )
    }

    /// Each table of a well-formed grid has one entry for each value below the
    /// extent of its axis, and the entry is the offset of that value.
    pub proof fn lemma_tables_hold_offsets(self)
        requires
            self.wf(),
        ensures
            self@.addressable(),
            self.j_table().len() == self@.j_max,
            self.k_table().len() == self@.k_max,
            forall|j: int|
                0 <= j < self@.j_max ==> #[trigger] self.j_table()[j] == self@.j_offset(j as nat),
            forall|k: int|
                0 <= k < self@.k_max ==> #[trigger] self.k_table()[k] == self@.k_offset(k as nat),
    {
    }

    /// What a lookup adds up for a coordinate inside the grid.
    pub open spec fn table_sum(self, c: IJK) -> int {
        c.i + self.j_table()[c.j as int] + self.k_table()[c.k as int]
    }

    /// On every coordinate inside the grid, the sum read from the tables is
    /// the index that the formula indexer of the same extents computes.
    pub proof fn lemma_agrees_with_formula(self, light: LightGrid, c: IJK)
        requires
            self.wf(),
            light.wf(),
            self@ == light@,
            light@.contains(c@),
        ensures
            self.table_sum(c) == light@.index_of(c@),
    {
        self@.lemma_offsets_sum_to_index(c@);
    }

    /// A grid of the given extents behind a shared pointer.
    pub fn new_rc(i_max: usize, j_max: usize, k_max: usize) -> (g: Rc<Self>)
        requires
            Extents::of(i_max, j_max, k_max).addressable(),
        ensures
            g.wf(),
            g@ == Extents::of(i_max, j_max, k_max),
    {
        Rc::new(Self::new(i_max, j_max, k_max))
    }

    /// A grid of the given extents, with its tables filled.
    pub fn new(i_max: usize, j_max: usize, k_max: usize) -> (g: Self)
        requires
            Extents::of(i_max, j_max, k_max).addressable(),
        ensures
            g.wf(),
            g@ == Extents::of(i_max, j_max, k_max),
    {
        let grid_calculator = LightGrid::new(i_max, j_max, k_max);
        CachedGrid::from(grid_calculator)
    }

    /// The table of offsets by `j`.
    pub fn j_cache(&self) -> (table: &[usize])
        ensures
            table@ == self.j_table(),
            table@.len() == self@.j_max,
            forall|j: int| 0 <= j < table@.len() ==> #[trigger] table@[j] == self@.j_offset(j as nat),
    {
        proof {
            use_type_invariant(self);
        }
        self.j_cache.as_slice()
    }

    /// The table of offsets by `k`.
    pub fn k_cache(&self) -> (table: &[usize])
        ensures
            table@ == self.k_table(),
            table@.len() == self@.k_max,
            forall|k: int| 0 <= k < table@.len() ==> #[trigger] table@[k] == self@.k_offset(k as nat),
    {
        proof {
            use_type_invariant(self);
        }
        self.k_cache.as_slice()
    }
}

/// Two vectors of equal contents are not known to be one value, so no spec
/// function can name the grid that a conversion returns: `from` says in its
/// own `ensures` what it returns.
impl FromSpecImpl<LightGrid> for CachedGrid {
    open spec fn obeys_from_spec() -> bool {
        false
    }

    open spec fn from_spec(src: LightGrid) -> Self {
        arbitrary()
    }
}

impl From<LightGrid> for CachedGrid {
    /// The cached indexer for the extents of `src`.
    fn from(src: LightGrid) -> (g: Self)
        ensures
            g.wf(),
            g@ == src@,
    {
        proof {
            use_type_invariant(&src);
            src.lemma_addressable();
        }
        let j_cache = create_j_cache(&src);
        let k_cache = create_k_cache(&src);
        Self {
            i_max: src.i_max(),
            j_max: src.j_max(),
            k_max: src.k_max(),
            size: src.size(),
            j_cache,
            k_cache,
        }
    }
}

impl IndexFromCoord3D for CachedGrid {
    open spec fn extents(&self) -> Extents {
        self@
    }

    fn index_from(&self, coord: &IJK) -> (r: Option<usize>)
        ensures
            r matches Some(index) ==> index == self.table_sum(*coord),
    {
        let IJK { i, j, k } = *coord;
        if i >= self.i_max {
            return None;
        }
        if j >= self.j_max {
            return None;
        }
        if k >= self.k_max {
            return None;
        }
        proof {
            use_type_invariant(self);
            self@.lemma_offsets_sum_to_index(coord@);
            lemma_linear_bound(
                self.i_max as int,
                self.j_max as int,
                self.k_max as int,
                i as int,
                j as int,
                k as int,
            );
        }
        let result = i + self.j_cache[j] + self.k_cache[k];
        Some(result)
    }

    fn size(&self) -> (r: usize) {
        proof {
            use_type_invariant(self);
        }
        self.size
    }

    fn i_max(&self) -> (r: usize) {
        self.i_max
    }

    fn j_max(&self) -> (r: usize) {
        self.j_max
    }

    fn k_max(&self) -> (r: usize) {
        self.k_max
    }
}

/// The offsets by `j` for the extents of `src`.
fn create_j_cache(src: &LightGrid) -> (cache: Vec<usize>)
    ensures
        cache@.len() == src@.j_max,
        forall|j: int| 0 <= j < cache@.len() ==> #[trigger] cache@[j] == src@.j_offset(j as nat),
{
    proof {
        use_type_invariant(src);
        src.lemma_addressable();
    }
    let j_max = src.j_max();
    let i_max = src.i_max();
    let mut table = Vec::<usize>::with_capacity(j_max);
    for j in 0..j_max
        invariant
            i_max * j_max <= usize::MAX,
            table@.len() == j,
            forall|x: int| 0 <= x < j ==> table@[x] == x * i_max,
    {
        assert(j * i_max <= i_max * j_max) by (nonlinear_arith)
            requires
                0 <= j < j_max,
                0 <= i_max,
        ;
        table.push(j * i_max);
    }
    table
}

/// The offsets by `k` for the extents of `src`.
fn create_k_cache(src: &LightGrid) -> (cache: Vec<usize>)
    ensures
        cache@.len() == src@.k_max,
        forall|k: int| 0 <= k < cache@.len() ==> #[trigger] cache@[k] == src@.k_offset(k as nat),
{
    proof {
        use_type_invariant(src);
        src.lemma_addressable();
    }
    let k_max = src.k_max();
    // One product for all entries: with `j_max == 0` the grid is empty, yet
    // `k * i_max` alone may not fit a machine word.
    let ij_max = src.i_max() * src.j_max();
    let mut table = Vec::<usize>::with_capacity(k_max);
    for k in 0..k_max
        invariant
            ij_max * k_max <= usize::MAX,
            table@.len() == k,
            forall|x: int| 0 <= x < k ==> table@[x] == x * ij_max,
    {
        assert(k * ij_max <= ij_max * k_max) by (nonlinear_arith)
            requires
                0 <= k < k_max,
                0 <= ij_max,
        ;
        table.push(k * ij_max);
    }
    assert forall|x: int| 0 <= x < k_max implies table@[x] == src@.k_offset(x as nat) by {
        assert(x * (src@.i_max * src@.j_max) == x * src@.i_max * src@.j_max) by (nonlinear_arith);
    }
    table
}

} // verus!
