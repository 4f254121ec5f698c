use cube_rotation::Grid;
use cube_rotation::GridError;

#[test]
fn zero_extent_rejected() {
    let g: Result<Grid<char>, GridError> = Grid::new(0, 'x');
    assert!(matches!(g, Err(GridError::InvalidExtent)));
}

#[test]
fn construction_fills_every_cell() {
    let g = match Grid::new(3, 7u32) {
        Ok(g) => g,
        Err(_) => panic!("extent 3 must be accepted"),
    };
    assert_eq!(g.extent, 3);
    for x in 0..3 {
        for y in 0..3 {
            for z in 0..3 {
                assert_eq!(g.get(x, y, z), 7u32);
            }
        }
    }
}

#[test]
fn other_extents_are_constructible() {
    let g1 = match Grid::new(1, 'c') {
        Ok(g) => g,
        Err(_) => panic!("extent 1 must be accepted"),
    };
    assert_eq!(g1.get(0, 0, 0), 'c');
    let g5 = match Grid::new(5, 0u8) {
        Ok(g) => g,
        Err(_) => panic!("extent 5 must be accepted"),
    };
    assert_eq!(g5.get(4, 4, 4), 0u8);
}

#[test]
fn set_then_get_round_trip() {
    let mut g = match Grid::new(3, 0i64) {
        Ok(g) => g,
        Err(_) => panic!("extent 3 must be accepted"),
    };
    g.set(2, 0, 1, -9);
    assert_eq!(g.get(2, 0, 1), -9);
    // neighbours keep their old value
    assert_eq!(g.get(2, 0, 0), 0);
    assert_eq!(g.get(2, 0, 2), 0);
    assert_eq!(g.get(1, 0, 1), 0);
}

#[test]
fn clone_is_independent() {
    let mut g = match Grid::new(3, 'o') {
        Ok(g) => g,
        Err(_) => panic!("extent 3 must be accepted"),
    };
    let copy = g.clone();
    g.set(1, 1, 1, 'm');
    assert_eq!(g.get(1, 1, 1), 'm');
    assert_eq!(copy.get(1, 1, 1), 'o');
}
