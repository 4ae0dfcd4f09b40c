use grid3d::{IndexFromCoord3D, LightGrid, IJK};

#[test]
fn simple_cube() {
    let i_max = 3;
    let j_max = 5;
    let k_max = 7;
    let grid = LightGrid::new(i_max, j_max, k_max);
    let mut index = 0;
    for k in 0..k_max {
        for j in 0..j_max {
            for i in 0..i_max {
                let coords = IJK { i, j, k };
                let try_index = grid.index_from(&coords);
                assert!(try_index != None, "get None for {:?}", coords);
                assert!(
                    try_index.unwrap() == index,
                    "get try_index={} for {:?} instead of {}",
                    try_index.unwrap(),
                    coords,
                    index
                );

                let restored = grid.index_to_coord(index);
                assert!(restored.is_some(), "get restored=None for {}", index);
                assert!(
                    restored.unwrap() == coords,
                    "get restored={:?} for index={} instead of {:?}",
                    restored,
                    index,
                    coords
                );

                index += 1;
            }
        }
    }
}

#[test]
fn i_only() {
    for v_max in 0..5 {
        for v in 0..v_max {
            let grid = LightGrid::new(v_max, 1, 1);
            let coords = IJK { i: v, j: 0, k: 0 };
            let index = grid.index_from(&coords);
            assert!(index != None, "get None for v_max={}, v={}", v_max, v);
            assert!(
                index.unwrap() == v,
                "get index={} for v_max={}, v={}",
                index.unwrap(),
                v_max,
                v
            );

            let restored = grid.index_to_coord(index.unwrap());
            assert!(
                restored.is_some(),
                "get restored=None for v_max={}, v={}",
                v_max,
                v
            );
            assert!(
                restored.unwrap() == coords,
                "get restored={:?} for v_max={}, v={} instead of {:?}",
                restored,
                v_max,
                v,
                coords
            );
        }
    }
}

#[test]
fn j_only() {
    for v_max in 0..5 {
        for v in 0..v_max {
            let grid = LightGrid::new(1, v_max, 1);
            let coords = IJK { i: 0, j: v, k: 0 };
            let index = grid.index_from(&coords);
            assert!(index != None, "get None for v_max={}, v={}", v_max, v);
            assert!(index.unwrap() == v);

            let restored = grid.index_to_coord(index.unwrap());
            assert!(
                restored.is_some(),
                "get restored=None for v_max={}, v={}",
                v_max,
                v
            );
            assert!(
                restored.unwrap() == coords,
                "get restored={:?} for v_max={}, v={} instead of {:?}",
                restored,
                v_max,
                v,
                coords
            );
        }
    }
}

#[test]
fn k_only() {
    for v_max in 0..5 {
        for v in 0..v_max {
            let grid = LightGrid::new(1, 1, v_max);
            let coords = IJK { i: 0, j: 0, k: v };
            let index = grid.index_from(&coords);
            assert!(index != None, "get None for v_max={}, v={}", v_max, v);
            assert!(index.unwrap() == v);

            let restored = grid.index_to_coord(index.unwrap());
            assert!(
                restored.is_some(),
                "get restored=None for v_max={}, v={}",
                v_max,
                v
            );
            assert!(
                restored.unwrap() == coords,
                "get restored={:?} for v_max={}, v={} instead of {:?}",
                restored,
                v_max,
                v,
                coords
            );
        }
    }
}

#[test]
fn k_bounds_error() {
    let grid = LightGrid::new(1, 1, 1);
    let coords = IJK { i: 0, j: 0, k: 1 };
    assert!(grid.index_from(&coords) == None);
}

#[test]
fn j_bounds_error() {
    let grid = LightGrid::new(1, 1, 1);
    let coords = IJK { i: 0, j: 1, k: 0 };
    assert!(grid.index_from(&coords) == None);
}

#[test]
fn i_bounds_error() {
    let grid = LightGrid::new(1, 1, 1);
    let coords = IJK { i: 1, j: 0, k: 0 };
    assert!(grid.index_from(&coords) == None);
}
