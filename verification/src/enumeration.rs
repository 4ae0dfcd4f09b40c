//! The order in which three nested loops visit the cells of a grid, `k`
//! outermost and `i` innermost, and the indices met on the way.

use vstd::arithmetic::div_mod::{
    lemma_fundamental_div_mod_converse, lemma_mod_breakdown, lemma_mod_mod,
};
use vstd::prelude::*;

use crate::extents::{Coord, Extents};

verus! {

impl Extents {
    /// The cells with the given `j` and `k`, by ascending `i`.
    pub open spec fn row(self, j: nat, k: nat) -> Seq<Coord> {
        Seq::new(self.i_max, |i: int| Coord { i: i as nat, j, k })
    }

    /// The rows of plane `k` with `j` below `j_end`, by ascending `j`.
    pub open spec fn rows(self, j_end: nat, k: nat) -> Seq<Coord>
        decreases j_end,
    {
        if j_end == 0 {
            Seq::empty()
        } else {
            self.rows((j_end - 1) as nat, k) + self.row((j_end - 1) as nat, k)
        }
    }

    /// The planes with `k` below `k_end`, by ascending `k`.
    pub open spec fn planes(self, k_end: nat) -> Seq<Coord>
        decreases k_end,
    {
        if k_end == 0 {
            Seq::empty()
        } else {
            self.planes((k_end - 1) as nat) + self.rows(self.j_max, (k_end - 1) as nat)
        }
    }

    /// All cells of the grid in the order of the nested loops.
    pub open spec fn enumeration(self) -> Seq<Coord> {
        self.planes(self.k_max)
    }

    /// The first `j_end` rows of a plane hold `j_end * i_max` cells, and the
    /// cell at place `n` has `i == n % i_max` and `j == n / i_max`.
    pub proof fn lemma_rows(self, j_end: nat, k: nat)
        ensures
            self.rows(j_end, k).len() == j_end * self.i_max,
            forall|n: int|
                0 <= n < j_end * self.i_max ==> #[trigger] self.rows(j_end, k)[n] == (Coord {
                    i: (n % self.i_max as int) as nat,
                    j: (n / self.i_max as int) as nat,
                    k,
                }),
        decreases j_end,
    {
        let im = self.i_max as int;
        if j_end > 0 {
            let before = (j_end - 1) as nat;
            self.lemma_rows(before, k);
            assert(j_end * im == before * im + im) by (nonlinear_arith)
                requires
                    j_end == before + 1,
            ;
            assert forall|n: int| 0 <= n < j_end * self.i_max implies #[trigger] self.rows(
                j_end,
                k,
            )[n] == (Coord { i: (n % im) as nat, j: (n / im) as nat, k }) by {
                if n >= before * im {
                    lemma_fundamental_div_mod_converse(n, im, before as int, n - before * im);
                }
            }
        } else {
            assert(j_end * im == 0) by (nonlinear_arith)
                requires
                    j_end == 0,
            ;
        }
    }

    /// The first `k_end` planes hold `k_end * (i_max * j_max)` cells, and the
    /// cell at place `n` is the one that `coord_at` gives for `n`.
    pub proof fn lemma_planes(self, k_end: nat)
        ensures
            self.planes(k_end).len() == k_end * (self.i_max * self.j_max),
            forall|n: int|
                0 <= n < k_end * (self.i_max * self.j_max) ==> #[trigger] self.planes(k_end)[n]
                    == self.coord_at(n as nat),
        decreases k_end,
    {
        let (im, jm) = (self.i_max as int, self.j_max as int);
        let plane = im * jm;
        if k_end > 0 {
            let before = (k_end - 1) as nat;
            self.lemma_planes(before);
            self.lemma_rows(self.j_max, before);
            assert(jm * im == plane) by (nonlinear_arith)
                requires
                    plane == im * jm,
            ;
            assert(k_end * plane == before * plane + plane) by (nonlinear_arith)
                requires
                    k_end == before + 1,
            ;
            assert forall|n: int| 0 <= n < k_end * plane implies #[trigger] self.planes(k_end)[n]
                == self.coord_at(n as nat) by {
                if n >= before * plane {
                    let m = n - before * plane;
                    assert(0 < im && 0 < jm) by (nonlinear_arith)
                        requires
                            0 <= im,
                            0 <= jm,
                            0 < im * jm,
                    ;
                    lemma_fundamental_div_mod_converse(n, plane, before as int, m);
                    lemma_mod_mod(n, im, jm);
                    lemma_mod_breakdown(n, im, jm);
                    lemma_fundamental_div_mod_converse(m, im, (n / im) % jm, n % im);
                    assert(self.planes(k_end)[n] == self.rows(self.j_max, before)[m]);
                }
            }
        } else {
            assert(k_end * plane == 0) by (nonlinear_arith)
                requires
                    k_end == 0,
            ;
        }
    }

    /// Three nested loops, `k` in the outer one, `j` in the middle one and `i`
    /// in the inner one, make `size` visits, each to a cell of the grid, and
    /// the cell visited at place `n` has the index `n`: the indices on the way
    /// are 0, 1, 2 and so on up to `size - 1`, with no gap and none twice.
    pub proof fn lemma_enumeration_counts_up(self)
        ensures
            self.enumeration().len() == self.size(),
            forall|n: int|
                0 <= n < self.size() ==> self.contains(#[trigger] self.enumeration()[n])
                    && self.index_of(self.enumeration()[n]) == n,
    {
        let (im, jm, km) = (self.i_max as int, self.j_max as int, self.k_max as int);
        self.lemma_planes(self.k_max);
        assert(km * (im * jm) == im * jm * km) by (nonlinear_arith);
        assert forall|n: int| 0 <= n < self.size() implies self.contains(
            #[trigger] self.enumeration()[n],
        ) && self.index_of(self.enumeration()[n]) == n by {
            self.lemma_index_of_coord_at(n as nat);
        }
    }

    /// Every cell of the grid is visited, at the place that its index gives.
    pub proof fn lemma_enumeration_meets(self, c: Coord)
        requires
            self.contains(c),
        ensures
            self.index_of(c) < self.enumeration().len(),
            self.enumeration()[self.index_of(c) as int] == c,
    {
        let (im, jm, km) = (self.i_max as int, self.j_max as int, self.k_max as int);
        self.lemma_planes(self.k_max);
        self.lemma_index_below_size(c);
        self.lemma_coord_at_index_of(c);
        assert(km * (im * jm) == im * jm * km) by (nonlinear_arith);
    }
}

} // verus!
