use cube_rotation::Axis;
use cube_rotation::Grid;
use cube_rotation::GridError;
use cube_rotation::Rot;
use cube_rotation::rotate;
use cube_rotation::rotate_vector;

fn full_mask() -> Vec<bool> {
    vec![true, true, true]
}

/// The illustrative letters grid: four "petal" cells around the centre of
/// each x-layer, every other cell blank.
fn letters_grid() -> Grid<char> {
    let mut g = match Grid::new(3, ' ') {
        Ok(g) => g,
        Err(_) => panic!("extent 3 must be accepted"),
    };
    g.set(0, 0, 1, 'a');
    g.set(0, 1, 2, 'b');
    g.set(0, 2, 1, 'c');
    g.set(0, 1, 0, 'd');

    g.set(1, 0, 1, 'e');
    g.set(1, 1, 2, 'f');
    g.set(1, 2, 1, 'g');
    g.set(1, 1, 0, 'h');

    g.set(2, 0, 1, 'i');
    g.set(2, 1, 2, 'j');
    g.set(2, 2, 1, 'k');
    g.set(2, 1, 0, 'l');
    g
}

/// A grid holding 27 pairwise distinct values.
fn distinct_grid() -> Grid<u32> {
    let mut g = match Grid::new(3, 0u32) {
        Ok(g) => g,
        Err(_) => panic!("extent 3 must be accepted"),
    };
    let mut count: u32 = 0;
    for x in 0..3 {
        for y in 0..3 {
            for z in 0..3 {
                g.set(x, y, z, count);
                count += 1;
            }
        }
    }
    g
}

fn cells_of<A: Copy>(g: &Grid<A>) -> Vec<A> {
    let mut out = Vec::new();
    for x in 0..3 {
        for y in 0..3 {
            for z in 0..3 {
                out.push(g.get(x, y, z));
            }
        }
    }
    out
}

fn grids_equal<A: Copy + PartialEq>(a: &Grid<A>, b: &Grid<A>) -> bool {
    cells_of(a) == cells_of(b)
}

fn apply(g: &Grid<char>, rs: Vec<Rot>) -> Grid<char> {
    match rotate(g, rs) {
        Ok(out) => out,
        Err(_) => panic!("masks of length 3 must be accepted"),
    }
}

#[test]
fn identity_zero_turns_every_axis() {
    let g = letters_grid();
    let masks = [
        vec![true, true, true],
        vec![false, true, false],
        vec![true, false, true],
    ];
    for axis in [Axis::X, Axis::Y, Axis::Z] {
        for m in masks.iter() {
            let out = apply(&g, vec![Rot::new(axis, 0, m.clone())]);
            assert!(grids_equal(&g, &out));
        }
    }
}

#[test]
fn four_quarter_turns_restore() {
    let g = letters_grid();
    for axis in [Axis::X, Axis::Y, Axis::Z] {
        let mut cur = apply(&g, vec![Rot::new(axis, 1, full_mask())]);
        cur = apply(&cur, vec![Rot::new(axis, 1, full_mask())]);
        cur = apply(&cur, vec![Rot::new(axis, 1, full_mask())]);
        cur = apply(&cur, vec![Rot::new(axis, 1, full_mask())]);
        assert!(grids_equal(&g, &cur));
    }
}

#[test]
fn inverse_pairing_returns_start() {
    let g = letters_grid();
    let cases = [
        (Axis::X, 1, vec![true, true, true]),
        (Axis::Y, 2, vec![true, false, true]),
        (Axis::Z, 3, vec![false, true, false]),
        (Axis::X, -5, vec![true, true, false]),
    ];
    for (axis, n, mask) in cases.iter() {
        let there = apply(&g, vec![Rot::new(*axis, *n, mask.clone())]);
        let back = apply(&there, vec![Rot::new(*axis, -*n, mask.clone())]);
        assert!(grids_equal(&g, &back));
    }
}

#[test]
fn mask_locality_unselected_layers_untouched() {
    let g = distinct_grid();
    let out = match rotate(&g, vec![Rot::new(Axis::X, 1, vec![true, false, false])]) {
        Ok(out) => out,
        Err(_) => panic!("masks of length 3 must be accepted"),
    };
    // layers x = 1 and x = 2 carry a false flag: every cell unchanged
    for x in 1..3 {
        for y in 0..3 {
            for z in 0..3 {
                assert_eq!(g.get(x, y, z), out.get(x, y, z));
            }
        }
    }
    // layer x = 0 is permuted only among its own cells
    let mut before = Vec::new();
    let mut after = Vec::new();
    for y in 0..3 {
        for z in 0..3 {
            before.push(g.get(0, y, z));
            after.push(out.get(0, y, z));
        }
    }
    before.sort();
    after.sort();
    assert_eq!(before, after);
}

#[test]
fn population_conserved_by_every_operation() {
    let g = distinct_grid();
    let out = match rotate(
        &g,
        vec![
            Rot::new(Axis::X, 1, vec![true, true, true]),
            Rot::new(Axis::Z, 3, vec![true, false, true]),
            Rot::new(Axis::Y, -2, vec![false, true, true]),
        ],
    ) {
        Ok(out) => out,
        Err(_) => panic!("masks of length 3 must be accepted"),
    };
    let mut before = cells_of(&g);
    let mut after = cells_of(&out);
    before.sort();
    after.sort();
    assert_eq!(before, after);
}

#[test]
fn petal_positions_cycle_under_one_x_turn() {
    let g = letters_grid();
    let out = apply(&g, vec![Rot::new(Axis::X, 1, full_mask())]);
    // one quarter-turn about X sends each petal to the next petal position:
    // (0,1) -> (1,0) -> (2,1) -> (1,2) -> (0,1)
    let layers = [['a', 'b', 'c', 'd'], ['e', 'f', 'g', 'h'], ['i', 'j', 'k', 'l']];
    for (x, [p, q, r, s]) in layers.iter().enumerate() {
        assert_eq!(out.get(x, 1, 0), *p);
        assert_eq!(out.get(x, 0, 1), *q);
        assert_eq!(out.get(x, 1, 2), *r);
        assert_eq!(out.get(x, 2, 1), *s);
        // the centre of the layer stays blank
        assert_eq!(out.get(x, 1, 1), ' ');
    }
}

#[test]
fn three_turns_equal_minus_one_turn() {
    let g = letters_grid();
    let three = apply(&g, vec![Rot::new(Axis::Z, 3, full_mask())]);
    let minus_one = apply(&g, vec![Rot::new(Axis::Z, -1, full_mask())]);
    assert!(grids_equal(&three, &minus_one));
}

#[test]
fn operation_order_matters() {
    let g = letters_grid();
    let xz = apply(
        &g,
        vec![
            Rot::new(Axis::X, 1, full_mask()),
            Rot::new(Axis::Z, 1, full_mask()),
        ],
    );
    let zx = apply(
        &g,
        vec![
            Rot::new(Axis::Z, 1, full_mask()),
            Rot::new(Axis::X, 1, full_mask()),
        ],
    );
    assert!(!grids_equal(&xz, &zx));
}

#[test]
fn malformed_mask_rejected() {
    let g = letters_grid();
    let short = rotate(&g, vec![Rot::new(Axis::X, 1, vec![true, true])]);
    assert!(matches!(short, Err(GridError::MalformedSliceMask)));
    let long = rotate(
        &g,
        vec![
            Rot::new(Axis::X, 1, vec![true, true, true]),
            Rot::new(Axis::Y, 1, vec![true, true, true, true]),
        ],
    );
    assert!(matches!(long, Err(GridError::MalformedSliceMask)));
}

#[test]
fn rotate_vector_concrete_images() {
    // one turn about X: (1,0,1) has centred plane vector (-1,0); it maps to
    // (0,-1), that is to grid coordinate (1,1,0)
    assert_eq!(rotate_vector([1, 0, 1], Axis::X, 1), [1, 1, 0]);
    // the cube's centre never moves
    for axis in [Axis::X, Axis::Y, Axis::Z] {
        for n in [-4, -1, 0, 1, 2, 7] {
            assert_eq!(rotate_vector([1, 1, 1], axis, n), [1, 1, 1]);
        }
    }
    // zero turns is the identity everywhere
    assert_eq!(rotate_vector([0, 2, 1], Axis::Y, 0), [0, 2, 1]);
    // the axis component is never changed
    let img = rotate_vector([2, 0, 0], Axis::Z, -3);
    assert_eq!(img[2], 0);
}
