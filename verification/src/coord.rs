//! Coordinates and the atomic rotation primitive: the image of one cell
//! coordinate under a signed number of 90° steps about one axis, within a
//! cube of extent exactly 3 (components re-centred at 1).

use vstd::prelude::*;

verus! {

/// One of the three coordinate directions about which a rotation is defined.
#[derive(Clone, Copy, PartialEq, Eq, Structural, Debug)]
pub enum Axis {
    X,
    Y,
    Z,
}

/// The index (into an `(x, y, z)` triple) of the component that a rotation
/// about `a` holds fixed.
pub open spec fn axis_index(a: Axis) -> int {
    match a {
        Axis::X => 0,
        Axis::Y => 1,
        Axis::Z => 2,
    }
}

/// A coordinate triple that addresses a cell of a cube of extent 3.
pub open spec fn coord_ok(c: Seq<int>) -> bool {
    c.len() == 3 && 0 <= c[0] < 3 && 0 <= c[1] < 3 && 0 <= c[2] < 3
}

/// One 90° step about `a` in direction `d` (`1` or `-1`), written directly in
/// grid coordinates: the two plane components are re-centred by subtracting 1,
/// sent through the single-step rotation matrix, and shifted back. With
/// `i = axis_index(a)`, `j = (i + 1) % 3` and `k = (i + 2) % 3`, the centred
/// components move as `v'[k] = v[j] * d` and `v'[j] = -v[k] * d`.
pub open spec fn step_coord(c: Seq<int>, a: Axis, d: int) -> Seq<int> {
    match a {
        Axis::X => seq![c[0], -(c[2] - 1) * d + 1, (c[1] - 1) * d + 1],
        Axis::Y => seq![(c[2] - 1) * d + 1, c[1], -(c[0] - 1) * d + 1],
        Axis::Z => seq![-(c[1] - 1) * d + 1, (c[0] - 1) * d + 1, c[2]],
    }
}

/// `m` repetitions of the single step about `a` in direction `d`.
pub open spec fn rotate_coord(c: Seq<int>, a: Axis, m: nat, d: int) -> Seq<int>
    decreases m,
{
    if m == 0 {
        c
    } else {
        step_coord(rotate_coord(c, a, (m - 1) as nat, d), a, d)
    }
}

/// The number of elementary 90° steps that a turn count `n` asks for.
pub open spec fn abs_turns(n: int) -> nat {
    if n < 0 {
        (-n) as nat
    } else {
        n as nat
    }
}

/// The direction that the sign of a turn count `n` selects.
pub open spec fn turn_dir(n: int) -> int {
    if n < 0 {
        -1
    } else {
        1
    }
}

/// Image of coordinate `c` after `n` signed quarter-turns about `a`.
pub open spec fn rotate_vector_spec(c: Seq<int>, a: Axis, n: int) -> Seq<int> {
    rotate_coord(c, a, abs_turns(n), turn_dir(n))
}

/// The mathematical triple that an executable coordinate stands for.
pub open spec fn coord_view(c: [usize; 3]) -> Seq<int> {
    seq![c[0] as int, c[1] as int, c[2] as int]
}

/// A single step keeps the component on the rotation axis.
pub proof fn lemma_step_layer(c: Seq<int>, a: Axis, d: int)
    requires
        c.len() == 3,
    ensures
        step_coord(c, a, d).len() == 3,
        step_coord(c, a, d)[axis_index(a)] == c[axis_index(a)],
{
}

/// A single step maps valid coordinates to valid coordinates.
pub proof fn lemma_step_bounds(c: Seq<int>, a: Axis, d: int)
    requires
        coord_ok(c),
        d == 1 || d == -1,
    ensures
        coord_ok(step_coord(c, a, d)),
{
}

/// A step in direction `d` followed by a step in direction `-d` is the
/// identity.
pub proof fn lemma_step_inverse(c: Seq<int>, a: Axis, d: int)
    requires
        c.len() == 3,
        d == 1 || d == -1,
    ensures
        step_coord(step_coord(c, a, d), a, -d) == c,
{
    assert(step_coord(step_coord(c, a, d), a, -d) =~= c);
}

/// Four equal steps about one axis are the identity.
pub proof fn lemma_step_period(c: Seq<int>, a: Axis, d: int)
    requires
        c.len() == 3,
        d == 1 || d == -1,
    ensures
        step_coord(step_coord(step_coord(step_coord(c, a, d), a, d), a, d), a, d) == c,
{
    assert(step_coord(step_coord(step_coord(step_coord(c, a, d), a, d), a, d), a, d) =~= c);
}

/// Three steps one way are one step the other way: the single step has
/// order four.
pub proof fn lemma_three_steps_equal_one_back(c: Seq<int>, a: Axis, d: int)
    requires
        c.len() == 3,
        d == 1 || d == -1,
    ensures
        rotate_coord(c, a, 3, d) == step_coord(c, a, -d),
{
    let y = rotate_coord(c, a, 3, d);
    assert(rotate_coord(c, a, 0, d) == c);
    assert(rotate_coord(c, a, 1, d) == step_coord(c, a, d));
    assert(rotate_coord(c, a, 2, d) == step_coord(rotate_coord(c, a, 1, d), a, d));
    assert(y == step_coord(rotate_coord(c, a, 2, d), a, d));
    lemma_step_period(c, a, d);
    assert(step_coord(y, a, d) == c);
    lemma_rotate_coord_props(c, a, 3, d);
    lemma_step_inverse(y, a, d);
}

/// Repeated steps keep the length, keep the component on the rotation axis,
/// and map valid coordinates to valid coordinates.
pub proof fn lemma_rotate_coord_props(c: Seq<int>, a: Axis, m: nat, d: int)
    requires
        c.len() == 3,
        d == 1 || d == -1,
    ensures
        rotate_coord(c, a, m, d).len() == 3,
        rotate_coord(c, a, m, d)[axis_index(a)] == c[axis_index(a)],
        coord_ok(c) ==> coord_ok(rotate_coord(c, a, m, d)),
    decreases m,
{
    if m > 0 {
        let prev = rotate_coord(c, a, (m - 1) as nat, d);
        lemma_rotate_coord_props(c, a, (m - 1) as nat, d);
        lemma_step_layer(prev, a, d);
        if coord_ok(c) {
            lemma_step_bounds(prev, a, d);
        }
    }
}

/// The step can be peeled off the front of a repetition as well as the back.
pub proof fn lemma_rotate_coord_shift(c: Seq<int>, a: Axis, m: nat, d: int)
    requires
        m >= 1,
    ensures
        rotate_coord(c, a, m, d) == rotate_coord(step_coord(c, a, d), a, (m - 1) as nat, d),
    decreases m,
{
    let s = step_coord(c, a, d);
    if m == 1 {
        assert(rotate_coord(c, a, 1, d) == step_coord(rotate_coord(c, a, 0, d), a, d));
        assert(rotate_coord(s, a, 0, d) == s);
    } else {
        lemma_rotate_coord_shift(c, a, (m - 1) as nat, d);
        assert(rotate_coord(c, a, m, d) == step_coord(
            rotate_coord(c, a, (m - 1) as nat, d),
            a,
            d,
        ));
        assert(rotate_coord(s, a, (m - 1) as nat, d) == step_coord(
            rotate_coord(s, a, (m - 2) as nat, d),
            a,
            d,
        ));
    }
}

/// `m` steps in direction `d` are undone by `m` steps in direction `-d`.
pub proof fn lemma_rotate_coord_inverse(c: Seq<int>, a: Axis, m: nat, d: int)
    requires
        c.len() == 3,
        d == 1 || d == -1,
    ensures
        rotate_coord(rotate_coord(c, a, m, d), a, m, -d) == c,
    decreases m,
{
    if m > 0 {
        let y = rotate_coord(c, a, (m - 1) as nat, d);
        lemma_rotate_coord_props(c, a, (m - 1) as nat, d);
        lemma_rotate_coord_shift(step_coord(y, a, d), a, m, -d);
        lemma_step_inverse(y, a, d);
        lemma_rotate_coord_inverse(c, a, (m - 1) as nat, d);
    }
}

/// `n` quarter-turns followed by `-n` quarter-turns about the same axis put
/// every coordinate back where it started.
pub proof fn lemma_rotate_vector_spec_inverse(c: Seq<int>, a: Axis, n: int)
    requires
        c.len() == 3,
    ensures
        rotate_vector_spec(rotate_vector_spec(c, a, n), a, -n) == c,
{
    if n == 0 {
        assert(rotate_vector_spec(c, a, 0) == c);
    } else {
        lemma_rotate_coord_inverse(c, a, abs_turns(n), turn_dir(n));
    }
}

/// Computes the image of coordinate `c` after `n` signed quarter-turns about
/// axis `a`, for a cube of extent exactly 3: the plane components are
/// re-centred at 1 and sent through the single-step matrix `|n|` times, in
/// the direction that the sign of `n` selects.
pub fn rotate_vector(c: [usize; 3], a: Axis, n: i32) -> (r: [usize; 3])
    requires
        coord_ok(coord_view(c)),
    ensures
        coord_view(r) == rotate_vector_spec(coord_view(c), a, n as int),
        coord_ok(coord_view(r)),
{
    if n == 0 {
        assert(rotate_vector_spec(coord_view(c), a, 0) == coord_view(c));
        return c;
    }
    let m: u32 = if n < 0 {
        (-(n as i64)) as u32
    } else {
        n as u32
    };
    let d: i32 = if n < 0 {
        -1
    } else {
        1
    };
    proof {
        assert(m as nat == abs_turns(n as int));
        assert(d as int == turn_dir(n as int));
    }
    let ghost cv = coord_view(c);
    let mut v0: i32 = c[0] as i32 - 1;
    let mut v1: i32 = c[1] as i32 - 1;
    let mut v2: i32 = c[2] as i32 - 1;
    for q in 0..m
        invariant
            -1 <= v0 <= 1,
            -1 <= v1 <= 1,
            -1 <= v2 <= 1,
            d == 1 || d == -1,
            rotate_coord(cv, a, q as nat, d as int).len() == 3,
            v0 + 1 == rotate_coord(cv, a, q as nat, d as int)[0],
            v1 + 1 == rotate_coord(cv, a, q as nat, d as int)[1],
            v2 + 1 == rotate_coord(cv, a, q as nat, d as int)[2],
    {
        match a {
            Axis::X => {
                let t1 = -v2 * d;
                let t2 = v1 * d;
                v1 = t1;
                v2 = t2;
            },
            Axis::Y => {
                let t0 = v2 * d;
                let t2 = -v0 * d;
                v0 = t0;
                v2 = t2;
            },
            Axis::Z => {
                let t0 = -v1 * d;
                let t1 = v0 * d;
                v0 = t0;
                v1 = t1;
            },
        }
        proof {
            assert(rotate_coord(cv, a, (q + 1) as nat, d as int) == step_coord(
                rotate_coord(cv, a, q as nat, d as int),
                a,
                d as int,
            ));
        }
    }
    let r = [(v0 + 1) as usize, (v1 + 1) as usize, (v2 + 1) as usize];
    proof {
        assert(coord_view(r) =~= rotate_coord(cv, a, m as nat, d as int));
    }
    r
}

} // verus!
