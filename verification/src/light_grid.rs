//! The formula indexer: extents, and the index computed from them on each call.

use std::rc::Rc;
use vstd::arithmetic::div_mod::{
    lemma_div_denominator, lemma_fundamental_div_mod, lemma_mod_breakdown, lemma_mod_mod,
};
use vstd::prelude::*;

use crate::coord::IJK;
use crate::extents::{lemma_linear_bound, lemma_positive_factors, Extents};
use crate::IndexFromCoord3D;

verus! {

/// The extents of a grid, with the two products that the index arithmetic
/// needs: the size of a `k`-plane and the size of the grid.
#[derive(Debug, PartialEq, Clone, Copy, Structural)]
pub struct LightGrid {
    pub(crate) i_max: usize,
    pub(crate) j_max: usize,
    pub(crate) k_max: usize,
    pub(crate) ij_max: usize,
    pub(crate) size: usize,
}

impl View for LightGrid {
    type V = Extents;

    closed spec fn view(&self) -> Extents {
        Extents::of(self.i_max, self.j_max, self.k_max)
    }
}

impl LightGrid {
    /// The stored products are those of the extents.
    #[verifier::type_invariant]
    pub closed spec fn wf(self) -> bool {
        &&& self.ij_max == self.i_max * self.j_max
        &&& self.size == self.i_max * self.j_max * self.k_max
    }

    /// The sizes of a well-formed grid and of its `k`-planes fit a machine word.
    pub proof fn lemma_addressable(self)
        requires
            self.wf(),
        ensures
            self@.addressable(),
    {
    }

    /// A grid of the given extents behind a shared pointer.
    pub fn new_rc(i_max: usize, j_max: usize, k_max: usize) -> (g: Rc<Self>)
        requires
            Extents::of(i_max, j_max, k_max).addressable(),
        ensures
            g.wf(),
            g@ == Extents::of(i_max, j_max, k_max),
    {
        Rc::new(Self::new(i_max, j_max, k_max))
    }

    /// A grid of the given extents. An extent of zero gives an empty grid.
    pub fn new(i_max: usize, j_max: usize, k_max: usize) -> (g: Self)
        requires
            Extents::of(i_max, j_max, k_max).addressable(),
        ensures
            g.wf(),
            g@ == Extents::of(i_max, j_max, k_max),
    {
        let ij_max = i_max * j_max;
        Self { i_max, j_max, k_max, ij_max, size: ij_max * k_max }
    }

    /// The coordinate of the cell at `index`, or `None` where `index` reaches
    /// the size of the grid.
    pub fn index_to_coord(&self, index: usize) -> (r: Option<IJK>)
        ensures
            r.is_some() <==> index < self@.size(),
            r matches Some(c) ==> c@ == self@.coord_at(index as nat),
    {
        proof {
            use_type_invariant(self);
        }
        if index >= self.size {
            return None;
        }
        proof {
            let (im, jm) = (self.i_max as int, self.j_max as int);
            lemma_positive_factors(im, jm, self.k_max as int);
            assert(0 < im * jm) by (nonlinear_arith)
                requires
                    0 < im,
                    0 < jm,
            ;
            lemma_mod_mod(index as int, im, jm);
            lemma_mod_breakdown(index as int, im, jm);
            lemma_fundamental_div_mod(index as int, im * jm);
            lemma_div_denominator(index as int, im, jm);
        }
        let wo_k = index % self.ij_max;
        let i = wo_k % self.i_max;
        assert(wo_k - i == self.i_max * ((index / self.i_max) % self.j_max));
        let j = (wo_k - i) / self.i_max;
        assert(j == (index as int / self.i_max as int) % self.j_max as int) by (nonlinear_arith)
            requires
                j == (wo_k - i) / self.i_max as int,
                wo_k - i == self.i_max * ((index as int / self.i_max as int) % self.j_max as int),
                0 < self.i_max,
        ;
        assert(j * self.i_max == wo_k - i) by (nonlinear_arith)
            requires
                wo_k - i == self.i_max * j,
        ;
        let k = (index - (i + j * self.i_max)) / self.ij_max;
        assert(k == index as int / (self.i_max * self.j_max)) by (nonlinear_arith)
            requires
                k == (index - wo_k) / self.ij_max as int,
                self.ij_max == self.i_max * self.j_max,
                0 < self.ij_max,
                index - wo_k == self.ij_max * (index as int / self.ij_max as int),
        ;
        Some(IJK { i, j, k })
    }
}

impl IndexFromCoord3D for LightGrid {
    open spec fn extents(&self) -> Extents {
        self@
    }

    fn index_from(&self, coord: &IJK) -> (r: Option<usize>) {
        let IJK { i, j, k } = *coord;
        if i >= self.i_max {
            return None;
        }
        if j >= self.j_max {
            return None;
        }
        if k >= self.k_max {
            return None;
        }
        proof {
            use_type_invariant(self);
            lemma_linear_bound(
                self.i_max as int,
                self.j_max as int,
                self.k_max as int,
                i as int,
                j as int,
                k as int,
            );
        }
        let result = i + (j + k * self.j_max) * self.i_max;
        Some(result)
    }

    fn size(&self) -> (r: usize) {
        proof {
            use_type_invariant(self);
        }
        self.size
    }

    fn i_max(&self) -> (r: usize) {
        self.i_max
    }

    fn j_max(&self) -> (r: usize) {
        self.j_max
    }

    fn k_max(&self) -> (r: usize) {
        self.k_max
    }
}

} // verus!
