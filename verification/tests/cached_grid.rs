use grid3d::{CachedGrid, IndexFromCoord3D, LightGrid, IJK};

#[test]
fn cached_grid_index_comparation() {
    let c_grid = LightGrid::new(13, 57, 29);
    let f_grid = CachedGrid::from(c_grid.clone());

    for i in 0..f_grid.i_max() {
        for j in 0..f_grid.j_max() {
            for k in 0..f_grid.k_max() {
                let coord = IJK { i, j, k };
                assert!(c_grid.index_from(&coord) == f_grid.index_from(&coord));
            }
        }
    }

    for i in 0..c_grid.i_max() {
        for j in 0..c_grid.j_max() {
            for k in 0..c_grid.k_max() {
                let coord = IJK { i, j, k };
                assert!(c_grid.index_from(&coord) == f_grid.index_from(&coord));
            }
        }
    }
}

#[test]
fn cached_grid_create_from() {
    let c_grid = LightGrid::new(3, 5, 7);
    let f_grid = CachedGrid::from(c_grid.clone());

    assert!(f_grid.i_max() == c_grid.i_max());
    assert!(f_grid.j_max() == c_grid.j_max());
    assert!(f_grid.k_max() == c_grid.k_max());
    assert!(f_grid.size() == c_grid.size());
}

#[test]
fn cached_grid_internal_limits() {
    let grid = CachedGrid::new(3, 5, 7);

    assert!(grid.j_max() == grid.j_cache().len());
    assert!(grid.k_max() == grid.k_cache().len());
}
