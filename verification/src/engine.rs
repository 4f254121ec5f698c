//! The batch rotation engine: applies an ordered sequence of rotation
//! operations to a cube of extent 3. Each operation scatters every cell to
//! its image under the coordinate primitive, restricted to the layers that
//! the operation's slice mask selects.

use vstd::prelude::*;

use crate::coord::Axis;
use crate::coord::axis_index;
use crate::coord::coord_ok;
use crate::coord::coord_view;
use crate::coord::lemma_rotate_coord_props;
use crate::coord::lemma_rotate_vector_spec_inverse;
use crate::coord::rotate_vector;
use crate::coord::rotate_vector_spec;
use crate::coord::turn_dir;
use crate::grid::Grid;
use crate::grid::GridError;

verus! {

/// One rotation operation: the axis to rotate about, a signed quarter-turn
/// count, and a slice mask with one flag per layer along the axis. A layer
/// whose flag is `false` is left untouched.
pub struct Rot {
    pub a: Axis,
    pub n: i32,
    pub s: Vec<bool>,
}

impl Rot {
    /// Packages an axis, a signed quarter-turn count and a slice mask into
    /// one rotation operation.
    pub fn new(a: Axis, n: i32, s: Vec<bool>) -> (r: Rot)
        ensures
            r.a == a,
            r.n == n,
            r.s@ == s@,
    {
        Rot { a, n, s }
    }
}

/// Where the cell at `c` is sent by operation `r`: through the coordinate
/// primitive when `c`'s layer along the axis is selected, else left in place.
pub open spec fn dest_of(c: Seq<int>, r: Rot) -> Seq<int> {
    if r.s@[c[axis_index(r.a)]] {
        rotate_vector_spec(c, r.a, r.n as int)
    } else {
        c
    }
}

/// Where the cell that operation `r` leaves at `p` came from: the inverse
/// image of `p` under the operation's destination map.
pub open spec fn src_of(p: Seq<int>, r: Rot) -> Seq<int> {
    if r.s@[p[axis_index(r.a)]] {
        rotate_vector_spec(p, r.a, -(r.n as int))
    } else {
        p
    }
}

/// The coordinate that flat cell index `t` addresses in a cube of extent 3.
pub open spec fn unflat3(t: int) -> Seq<int> {
    seq![t / 9, (t / 3) % 3, t % 3]
}

/// The flat cell index of coordinate `c` in a cube of extent 3.
pub open spec fn flat3(c: Seq<int>) -> int {
    (c[0] * 3 + c[1]) * 3 + c[2]
}

/// The cell buffer after one operation: each position holds the value that
/// the operation moved onto it.
pub open spec fn apply_op<A>(s: Seq<A>, r: Rot) -> Seq<A> {
    Seq::new(s.len(), |t: int| s[flat3(src_of(unflat3(t), r))])
}

/// The cell buffer after a whole sequence of operations, applied left to
/// right.
pub open spec fn apply_ops<A>(s: Seq<A>, rs: Seq<Rot>) -> Seq<A>
    decreases rs.len(),
{
    if rs.len() == 0 {
        s
    } else {
        apply_ops(apply_op(s, rs[0]), rs.drop_first())
    }
}

/// Every operation's slice mask has one flag per layer of a cube of
/// extent `e`.
pub open spec fn masks_ok(rs: Seq<Rot>, e: int) -> bool {
    forall|t: int| 0 <= t < rs.len() ==> #[trigger] rs[t].s@.len() == e
}

/// Unflattening a flat index in range gives a valid coordinate, and
/// flattening it again gives the index back.
pub proof fn lemma_flat_unflat(t: int)
    requires
        0 <= t < 27,
    ensures
        coord_ok(unflat3(t)),
        flat3(unflat3(t)) == t,
{
    vstd::arithmetic::div_mod::lemma_fundamental_div_mod(t, 3);
    vstd::arithmetic::div_mod::lemma_fundamental_div_mod(t / 3, 3);
    vstd::arithmetic::div_mod::lemma_div_denominator(t, 3, 3);
    vstd::arithmetic::div_mod::lemma_mod_bound(t, 3);
    vstd::arithmetic::div_mod::lemma_mod_bound(t / 3, 3);
}

/// Flattening a valid coordinate gives an index in range, and unflattening
/// that index gives the coordinate back.
pub proof fn lemma_unflat_flat(c: Seq<int>)
    requires
        coord_ok(c),
    ensures
        0 <= flat3(c) < 27,
        unflat3(flat3(c)) == c,
{
    let t = flat3(c);
    vstd::arithmetic::div_mod::lemma_fundamental_div_mod_converse(t, 9, c[0], c[1] * 3 + c[2]);
    vstd::arithmetic::div_mod::lemma_fundamental_div_mod_converse(t, 3, c[0] * 3 + c[1], c[2]);
    vstd::arithmetic::div_mod::lemma_fundamental_div_mod_converse(c[0] * 3 + c[1], 3, c[0], c[1]);
    assert(unflat3(t) =~= c);
}

/// The destination and source maps of one operation undo each other, keep
/// the layer along the rotation axis, and keep coordinates valid.
pub proof fn lemma_src_dest_inverse(c: Seq<int>, r: Rot)
    requires
        c.len() == 3,
    ensures
        src_of(dest_of(c, r), r) == c,
        dest_of(src_of(c, r), r) == c,
        dest_of(c, r).len() == 3,
        src_of(c, r).len() == 3,
        dest_of(c, r)[axis_index(r.a)] == c[axis_index(r.a)],
        src_of(c, r)[axis_index(r.a)] == c[axis_index(r.a)],
        coord_ok(c) ==> coord_ok(dest_of(c, r)) && coord_ok(src_of(c, r)),
{
    let n = r.n as int;
    lemma_rotate_coord_props(c, r.a, crate::coord::abs_turns(n), turn_dir(n));
    lemma_rotate_coord_props(c, r.a, crate::coord::abs_turns(-n), turn_dir(-n));
    lemma_rotate_vector_spec_inverse(c, r.a, n);
    lemma_rotate_vector_spec_inverse(c, r.a, -n);
    assert(rotate_vector_spec(c, r.a, n)[axis_index(r.a)] == c[axis_index(r.a)]);
    assert(rotate_vector_spec(c, r.a, -n)[axis_index(r.a)] == c[axis_index(r.a)]);
    if n == 0 {
        assert(rotate_vector_spec(c, r.a, 0) == c);
        assert(rotate_vector_spec(c, r.a, -0) == c);
    } else {
        assert(-(-n) == n);
        lemma_rotate_vector_spec_inverse(rotate_vector_spec(c, r.a, -n), r.a, n);
    }
}

/// Applies the rotation operations in `rs`, left to right, to `b` and
/// returns the resulting grid; `b` itself is left untouched. The engine is
/// defined for cubes of extent exactly 3, the domain of the coordinate
/// primitive. Every operation's slice mask must hold one flag per layer; a
/// sequence holding a mask of any other length is rejected whole, before
/// any cell moves.
///
/// Each operation is a scatter over a snapshot of the grid: every cell of
/// the snapshot computes its destination and is written there, so no write
/// of the pass can be read back by a later cell of the same pass.
pub fn rotate<A: Copy>(b: &Grid<A>, rs: Vec<Rot>) -> (res: Result<Grid<A>, GridError>)
    requires
        b.wf(),
        b.extent == 3,
    ensures
        match res {
            Ok(g) => {
                &&& masks_ok(rs@, 3)
                &&& g.wf()
                &&& g.extent == 3
                &&& g.cells@ == apply_ops(b.cells@, rs@)
            },
            Err(e) => !masks_ok(rs@, 3) && e == GridError::MalformedSliceMask,
        },
{
    for t in 0..rs.len()
        invariant
            forall|u: int| 0 <= u < t ==> #[trigger] rs@[u].s@.len() == 3,
    {
        if rs[t].s.len() != 3 {
            return Err(GridError::MalformedSliceMask);
        }
    }
    let mut b2 = b.clone();
    proof {
        assert(rs@.take(0) =~= Seq::<Rot>::empty());
    }
    for op_i in 0..rs.len()
        invariant
            masks_ok(rs@, 3),
            b.wf(),
            b.extent == 3,
            b2.wf(),
            b2.extent == 3,
            b2.cells@ == apply_ops(b.cells@, rs@.take(op_i as int)),
    {
        let r = &rs[op_i];
        let temp = b2.clone();
        let ghost prev = temp.cells@;
        for t in 0..27usize
            invariant
                b2.wf(),
                b2.extent == 3,
                temp.wf(),
                temp.extent == 3,
                temp.cells@ == prev,
                prev.len() == 27,
                prev == apply_ops(b.cells@, rs@.take(op_i as int)),
                op_i < rs@.len(),
                *r == rs@[op_i as int],
                r.s@.len() == 3,
                forall|u: int| 0 <= u < t ==> b2.cells@[#[trigger] flat3(
                    dest_of(unflat3(u), *r),
                )] == prev[u],
        {
            let x = t / 9;
            let y = (t / 3) % 3;
            let z = t % 3;
            let carr = [x, y, z];
            proof {
                lemma_flat_unflat(t as int);
                assert(coord_view(carr) =~= unflat3(t as int));
                lemma_src_dest_inverse(unflat3(t as int), *r);
            }
            let layer = match r.a {
                Axis::X => x,
                Axis::Y => y,
                Axis::Z => z,
            };
            proof {
                assert(layer as int == unflat3(t as int)[axis_index(r.a)]);
            }
            let dvec = if r.s[layer] {
                rotate_vector(carr, r.a, r.n)
            } else {
                carr
            };
            proof {
                assert(coord_view(dvec) == dest_of(unflat3(t as int), *r));
            }
            let val = temp.get(x, y, z);
            proof {
                assert(temp.sidx(x as int, y as int, z as int) == flat3(unflat3(t as int)));
                assert(val == prev[t as int]);
            }
            let ghost cells0 = b2.cells@;
            b2.set(dvec[0], dvec[1], dvec[2], val);
            proof {
                let dt = flat3(dest_of(unflat3(t as int), *r));
                lemma_unflat_flat(dest_of(unflat3(t as int), *r));
                assert(b2.cells@ == cells0.update(dt, val));
                assert forall|u: int| 0 <= u < t + 1 implies b2.cells@[#[trigger] flat3(
                    dest_of(unflat3(u), *r),
                )] == prev[u] by {
                    if u < t {
                        lemma_flat_unflat(u);
                        lemma_src_dest_inverse(unflat3(u), *r);
                        lemma_unflat_flat(dest_of(unflat3(u), *r));
                        if flat3(dest_of(unflat3(u), *r)) == dt {
                            assert(dest_of(unflat3(u), *r) == dest_of(unflat3(t as int), *r));
                            assert(src_of(dest_of(unflat3(u), *r), *r) == unflat3(u));
                            assert(unflat3(u) == unflat3(t as int));
                            assert(flat3(unflat3(u)) == flat3(unflat3(t as int)));
                            assert(false);
                        }
                        assert(b2.cells@[flat3(dest_of(unflat3(u), *r))] == cells0[flat3(
                            dest_of(unflat3(u), *r),
                        )]);
                    } else {
                        assert(b2.cells@[dt] == val);
                    }
                };
            }
        }
        proof {
            assert forall|v: int| 0 <= v < 27 implies b2.cells@[v] == apply_op(prev, *r)[v] by {
                lemma_flat_unflat(v);
                let cs = src_of(unflat3(v), *r);
                lemma_src_dest_inverse(unflat3(v), *r);
                lemma_unflat_flat(cs);
                let u = flat3(cs);
                assert(unflat3(u) == cs);
                assert(dest_of(cs, *r) == unflat3(v));
                assert(flat3(dest_of(unflat3(u), *r)) == v);
                assert(b2.cells@[v] == prev[u]);
            };
            assert(b2.cells@ =~= apply_op(prev, *r));
            assert(rs@.take(op_i as int + 1) =~= rs@.take(op_i as int).push(rs@[op_i as int]));
            lemma_apply_ops_push(b.cells@, rs@.take(op_i as int), rs@[op_i as int]);
        }
    }
    proof {
        assert(rs@.take(rs@.len() as int) =~= rs@);
    }
    Ok(b2)
}

/// Appending one operation to a sequence composes its effect after the
/// sequence's effect.
pub proof fn lemma_apply_ops_push<A>(s: Seq<A>, ops: Seq<Rot>, r: Rot)
    ensures
        apply_ops(s, ops.push(r)) == apply_op(apply_ops(s, ops), r),
    decreases ops.len(),
{
    if ops.len() == 0 {
        assert(ops.push(r)[0] == r);
        assert(ops.push(r).drop_first() =~= Seq::<Rot>::empty());
        assert(apply_ops(s, ops.push(r)) == apply_ops(
            apply_op(s, r),
            Seq::<Rot>::empty(),
        ));
        assert(apply_ops(apply_op(s, r), Seq::<Rot>::empty()) == apply_op(s, r));
        assert(apply_ops(s, ops) == s);
    } else {
        assert(ops.push(r)[0] == ops[0]);
        assert(ops.push(r).drop_first() =~= ops.drop_first().push(r));
        assert(apply_ops(s, ops.push(r)) == apply_ops(
            apply_op(s, ops[0]),
            ops.drop_first().push(r),
        ));
        lemma_apply_ops_push(apply_op(s, ops[0]), ops.drop_first(), r);
        assert(apply_ops(s, ops) == apply_ops(apply_op(s, ops[0]), ops.drop_first()));
    }
}

} // verus!
