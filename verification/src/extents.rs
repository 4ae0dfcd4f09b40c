//! The mathematical model of a grid: its extents, and the row-major
//! correspondence between coordinates and linear indices.

use vstd::arithmetic::div_mod::{
    lemma_div_denominator, lemma_fundamental_div_mod, lemma_fundamental_div_mod_converse,
};
use vstd::prelude::*;

verus! {

/// A coordinate as three natural numbers.
pub struct Coord {
    pub i: nat,
    pub j: nat,
    pub k: nat,
}

/// The exclusive upper bound of each axis.
pub struct Extents {
    pub i_max: nat,
    pub j_max: nat,
    pub k_max: nat,
}

impl Extents {
    /// The extents given as machine words.
    pub open spec fn of(i_max: usize, j_max: usize, k_max: usize) -> Extents {
        Extents { i_max: i_max as nat, j_max: j_max as nat, k_max: k_max as nat }
    }

    /// The number of cells.
    pub open spec fn size(self) -> nat {
        self.i_max * self.j_max * self.k_max
    }

    /// Whether a machine word can hold the size of the grid and the size of one
    /// of its `k`-planes.
    pub open spec fn addressable(self) -> bool {
        self.i_max * self.j_max <= usize::MAX && self.size() <= usize::MAX
    }

    /// Whether `c` names a cell of the grid.
    pub open spec fn contains(self, c: Coord) -> bool {
        c.i < self.i_max && c.j < self.j_max && c.k < self.k_max
    }

    /// The linear index of `c`: `i` varies fastest, then `j`, then `k`.
    pub open spec fn index_of(self, c: Coord) -> nat {
        c.i + (c.j + c.k * self.j_max) * self.i_max
    }

    /// What one step along the `j` axis, taken `j` times, adds to an index.
    pub open spec fn j_offset(self, j: nat) -> nat {
        j * self.i_max
    }

    /// What one step along the `k` axis, taken `k` times, adds to an index.
    pub open spec fn k_offset(self, k: nat) -> nat {
        k * self.i_max * self.j_max
    }

    /// The coordinate whose linear index is `index`.
    pub open spec fn coord_at(self, index: nat) -> Coord {
        Coord {
            i: index % self.i_max,
            j: (index / self.i_max) % self.j_max,
            k: index / (self.i_max * self.j_max),
        }
    }

    /// The index of a cell of the grid is below the size of the grid.
    pub proof fn lemma_index_below_size(self, c: Coord)
        requires
            self.contains(c),
        ensures
            self.index_of(c) < self.size(),
    {
        lemma_linear_bound(
            self.i_max as int,
            self.j_max as int,
            self.k_max as int,
            c.i as int,
            c.j as int,
            c.k as int,
        );
    }

    /// The index of a coordinate is the coordinate along `i` and the offsets
    /// of the two others, added up.
    pub proof fn lemma_offsets_sum_to_index(self, c: Coord)
        ensures
            c.i + self.j_offset(c.j) + self.k_offset(c.k) == self.index_of(c),
    {
        let (im, jm) = (self.i_max as int, self.j_max as int);
        let (j, k) = (c.j as int, c.k as int);
        assert(j * im + k * im * jm == (j + k * jm) * im) by (nonlinear_arith);
    }

    /// A grid with an extent of zero has size zero and holds no coordinate.
    pub proof fn lemma_zero_extent_is_empty(self)
        requires
            self.i_max == 0 || self.j_max == 0 || self.k_max == 0,
        ensures
            self.size() == 0,
            forall|c: Coord| !self.contains(c),
    {
        let (im, jm, km) = (self.i_max as int, self.j_max as int, self.k_max as int);
        assert(im * jm * km == 0) by (nonlinear_arith)
            requires
                im == 0 || jm == 0 || km == 0,
        ;
    }

    /// Where two extents are 1, the index of a cell is its coordinate along
    /// the third axis.
    pub proof fn lemma_single_axis(self, c: Coord)
        requires
            self.contains(c),
        ensures
            self.j_max == 1 && self.k_max == 1 ==> self.index_of(c) == c.i,
            self.i_max == 1 && self.k_max == 1 ==> self.index_of(c) == c.j,
            self.i_max == 1 && self.j_max == 1 ==> self.index_of(c) == c.k,
    {
        let (im, jm) = (self.i_max as int, self.j_max as int);
        let (j, k) = (c.j as int, c.k as int);
        assert(j == 0 && k == 0 ==> (j + k * jm) * im == 0) by (nonlinear_arith);
        assert(im == 1 && k == 0 ==> (j + k * jm) * im == j) by (nonlinear_arith);
        assert(im == 1 && jm == 1 && j == 0 ==> (j + k * jm) * im == k) by (nonlinear_arith);
    }

    /// A cell is found again from its index.
    pub proof fn lemma_coord_at_index_of(self, c: Coord)
        requires
            self.contains(c),
        ensures
            self.coord_at(self.index_of(c)) == c,
    {
        let (im, jm) = (self.i_max as int, self.j_max as int);
        let row = c.j as int + c.k as int * jm;
        let n = self.index_of(c) as int;
        assert(0 <= c.k as int * jm) by (nonlinear_arith)
            requires
                0 <= c.k as int,
                0 <= jm,
        ;
        lemma_fundamental_div_mod_converse(n, im, row, c.i as int);
        lemma_fundamental_div_mod_converse(row, jm, c.k as int, c.j as int);
        lemma_div_denominator(n, im, jm);
    }

    /// An index below the size is the index of the cell that it leads to, and
    /// that cell lies in the grid.
    pub proof fn lemma_index_of_coord_at(self, index: nat)
        requires
            index < self.size(),
        ensures
            self.contains(self.coord_at(index)),
            self.index_of(self.coord_at(index)) == index,
    {
        let (im, jm, km) = (self.i_max as int, self.j_max as int, self.k_max as int);
        let n = index as int;
        lemma_positive_factors(im, jm, km);
        let row = n / im;
        lemma_fundamental_div_mod(n, im);
        lemma_fundamental_div_mod(row, jm);
        lemma_div_denominator(n, im, jm);
        assert(im * (jm * km) == im * jm * km) by (nonlinear_arith);
        lemma_quotient_bound(n, im, jm * km);
        lemma_quotient_bound(row, jm, km);
        assert(0 <= row) by (nonlinear_arith)
            requires
                row == n / im,
                0 <= n,
                0 < im,
        ;
        assert(0 <= row / jm) by (nonlinear_arith)
            requires
                0 <= row,
                0 < jm,
        ;
        assert((row % jm + (row / jm) * jm) * im == row * im) by (nonlinear_arith)
            requires
                row == jm * (row / jm) + row % jm,
        ;
        assert(row * im == im * row) by (nonlinear_arith);
    }
}

/// With every coordinate below its extent, the linear index is below the
/// product of the extents.
pub(crate) proof fn lemma_linear_bound(im: int, jm: int, km: int, i: int, j: int, k: int)
    by (nonlinear_arith)
    requires
        0 <= i < im,
        0 <= j < jm,
        0 <= k < km,
    ensures
        0 <= k * jm <= j + k * jm < jm * km,
        0 <= (j + k * jm) * im <= i + (j + k * jm) * im < im * jm * km,
        im * jm <= im * jm * km,
        jm * km <= im * jm * km,
{
}

/// A positive product of natural numbers has positive factors.
pub(crate) proof fn lemma_positive_factors(im: int, jm: int, km: int)
    by (nonlinear_arith)
    requires
        0 <= im,
        0 <= jm,
        0 <= km,
        0 < im * jm * km,
    ensures
        0 < im,
        0 < jm,
        0 < km,
{
}

/// A number below `d * m` has a quotient by `d` below `m`.
pub(crate) proof fn lemma_quotient_bound(n: int, d: int, m: int)
    by (nonlinear_arith)
    requires
        0 < d,
        0 <= n < d * m,
    ensures
        n / d < m,
{
}

} // verus!
