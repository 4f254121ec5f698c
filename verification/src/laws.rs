//! The engine's algebraic laws, stated over the same spec functions that the
//! executable functions' contracts use, and proved once for every grid,
//! axis, turn count and mask.

use vstd::prelude::*;

use crate::coord::axis_index;
use crate::coord::lemma_step_period;
use crate::coord::rotate_coord;
use crate::coord::rotate_vector_spec;
use crate::coord::step_coord;
use crate::engine::Rot;
use crate::engine::apply_op;
use crate::engine::apply_ops;
use crate::engine::dest_of;
use crate::engine::flat3;
use crate::engine::lemma_flat_unflat;
use crate::engine::lemma_src_dest_inverse;
use crate::engine::lemma_unflat_flat;
use crate::engine::src_of;
use crate::engine::unflat3;

verus! {

/// A sequence holding one single operation has exactly that operation's
/// effect: the bridge between the engine's contract, which speaks of
/// operation sequences, and the laws below, which speak of one operation.
pub proof fn lemma_single_op<A>(s: Seq<A>, r: Rot)
    ensures
        apply_ops(s, seq![r]) == apply_op(s, r),
{
    assert(seq![r].drop_first() =~= Seq::<Rot>::empty());
    assert(apply_ops(s, seq![r]) == apply_ops(apply_op(s, seq![r][0]), Seq::<Rot>::empty()));
}

/// An operation with a turn count of zero leaves every cell of a 3-cube
/// buffer in place, whatever its axis and its mask.
pub proof fn lemma_identity<A>(s: Seq<A>, r: Rot)
    requires
        s.len() == 27,
        r.n == 0,
    ensures
        apply_op(s, r) == s,
{
    assert forall|t: int| 0 <= t < 27 implies apply_op(s, r)[t] == s[t] by {
        lemma_flat_unflat(t);
        assert(rotate_vector_spec(unflat3(t), r.a, 0) == unflat3(t));
        assert(src_of(unflat3(t), r) == unflat3(t));
    };
    assert(apply_op(s, r) =~= s);
}

/// Four consecutive single quarter-turns about one axis, all with one and
/// the same mask, restore every cell of a 3-cube buffer.
pub proof fn lemma_four_quarter_turns<A>(s: Seq<A>, r: Rot)
    requires
        s.len() == 27,
        r.n == 1,
    ensures
        apply_op(apply_op(apply_op(apply_op(s, r), r), r), r) == s,
{
    let s4 = apply_op(apply_op(apply_op(apply_op(s, r), r), r), r);
    assert forall|t: int| 0 <= t < 27 implies s4[t] == s[t] by {
        lemma_flat_unflat(t);
        let p0 = unflat3(t);
        lemma_src_dest_inverse(p0, r);
        let p1 = src_of(p0, r);
        lemma_unflat_flat(p1);
        lemma_src_dest_inverse(p1, r);
        let p2 = src_of(p1, r);
        lemma_unflat_flat(p2);
        lemma_src_dest_inverse(p2, r);
        let p3 = src_of(p2, r);
        lemma_unflat_flat(p3);
        lemma_src_dest_inverse(p3, r);
        let p4 = src_of(p3, r);
        lemma_unflat_flat(p4);
        if r.s@[p0[axis_index(r.a)]] {
            assert(rotate_coord(p0, r.a, 0, -1) == p0);
            assert(rotate_coord(p1, r.a, 0, -1) == p1);
            assert(rotate_coord(p2, r.a, 0, -1) == p2);
            assert(rotate_coord(p3, r.a, 0, -1) == p3);
            assert(p1 == step_coord(p0, r.a, -1));
            assert(p2 == step_coord(p1, r.a, -1));
            assert(p3 == step_coord(p2, r.a, -1));
            assert(p4 == step_coord(p3, r.a, -1));
            lemma_step_period(p0, r.a, -1);
        }
        assert(p4 == p0);
    };
    assert(s4 =~= s);
}

/// An operation followed by the opposite operation — same axis, same mask,
/// negated turn count — restores every cell of a 3-cube buffer.
pub proof fn lemma_inverse_pairing<A>(s: Seq<A>, r: Rot, rback: Rot)
    requires
        s.len() == 27,
        rback.a == r.a,
        rback.s@ == r.s@,
        rback.n as int == -(r.n as int),
    ensures
        apply_op(apply_op(s, r), rback) == s,
{
    let s2 = apply_op(apply_op(s, r), rback);
    assert forall|t: int| 0 <= t < 27 implies s2[t] == s[t] by {
        lemma_flat_unflat(t);
        let p0 = unflat3(t);
        lemma_src_dest_inverse(p0, rback);
        let p1 = src_of(p0, rback);
        assert(p1 == dest_of(p0, r));
        lemma_src_dest_inverse(p0, r);
        lemma_unflat_flat(p1);
        assert(src_of(p1, r) == p0);
    };
    assert(s2 =~= s);
}

/// Three quarter-turns one way equal one quarter-turn the other way: about
/// one axis, with one and the same mask, turn counts `3` and `-1` produce
/// the same grid, though the engine computes three literal steps for the
/// former.
pub proof fn lemma_three_turns_equal_minus_one<A>(s: Seq<A>, r3: Rot, rm1: Rot)
    requires
        s.len() == 27,
        rm1.a == r3.a,
        rm1.s@ == r3.s@,
        r3.n == 3,
        rm1.n == -1,
    ensures
        apply_op(s, r3) == apply_op(s, rm1),
{
    assert forall|t: int| 0 <= t < 27 implies apply_op(s, r3)[t] == apply_op(s, rm1)[t] by {
        lemma_flat_unflat(t);
        let p = unflat3(t);
        crate::coord::lemma_three_steps_equal_one_back(p, r3.a, -1);
        assert(rotate_vector_spec(p, r3.a, -3) == rotate_coord(p, r3.a, 3, -1));
        assert(rotate_coord(p, r3.a, 0, 1) == p);
        assert(rotate_vector_spec(p, r3.a, 1) == step_coord(p, r3.a, 1));
        assert(src_of(p, r3) == src_of(p, rm1));
    };
    assert(apply_op(s, r3) =~= apply_op(s, rm1));
}

/// A cell whose layer along the rotation axis carries a `false` mask flag is
/// left unchanged by the operation, and every cell's value comes from a cell
/// of its own layer: layers never mix.
pub proof fn lemma_mask_locality<A>(s: Seq<A>, r: Rot, t: int)
    requires
        s.len() == 27,
        0 <= t < 27,
    ensures
        apply_op(s, r)[t] == s[flat3(src_of(unflat3(t), r))],
        src_of(unflat3(t), r)[axis_index(r.a)] == unflat3(t)[axis_index(r.a)],
        !r.s@[unflat3(t)[axis_index(r.a)]] ==> apply_op(s, r)[t] == s[t],
{
    lemma_flat_unflat(t);
    lemma_src_dest_inverse(unflat3(t), r);
}

/// Two equal-length buffers, where each position of the first holds the
/// value of a distinct position of the second, carry the same multiset of
/// values.
pub proof fn lemma_injection_preserves_multiset<A>(q: Seq<A>, s: Seq<A>, p: spec_fn(int) -> int)
    requires
        q.len() == s.len(),
        forall|t: int| 0 <= t < q.len() ==> 0 <= #[trigger] p(t) < s.len(),
        forall|t: int| 0 <= t < q.len() ==> q[t] == s[#[trigger] p(t)],
        forall|t1: int, t2: int|
            #![trigger p(t1), p(t2)]
            0 <= t1 < q.len() && 0 <= t2 < q.len() && p(t1) == p(t2) ==> t1 == t2,
    ensures
        q.to_multiset() == s.to_multiset(),
    decreases q.len(),
{
    broadcast use vstd::seq_lib::group_to_multiset_ensures;
    broadcast use vstd::multiset::group_multiset_axioms;

    if q.len() == 0 {
        assert(q =~= s);
    } else {
        let n = q.len() as int;
        let j = p(n - 1);
        let q2 = q.remove(n - 1);
        let s2 = s.remove(j);
        let p2 = |t: int| if p(t) < j { p(t) } else { p(t) - 1 };
        assert forall|t: int| 0 <= t < q2.len() implies 0 <= #[trigger] p2(t) < s2.len()
            && q2[t] == s2[p2(t)] by {
            assert(p(t) != j);
            assert(q2[t] == q[t]);
            if p(t) < j {
                assert(s2[p2(t)] == s[p(t)]);
            } else {
                assert(s2[p2(t)] == s[p(t)]);
            }
        };
        assert forall|t1: int, t2: int|
            #![trigger p2(t1), p2(t2)]
            0 <= t1 < q2.len() && 0 <= t2 < q2.len() && p2(t1) == p2(t2) implies t1 == t2 by {
            assert(p(t1) != j);
            assert(p(t2) != j);
            assert(p(t1) == p(t2));
        };
        lemma_injection_preserves_multiset(q2, s2, p2);
        assert(q2.to_multiset() == q.to_multiset().remove(q[n - 1]));
        assert(s2.to_multiset() == s.to_multiset().remove(s[j]));
        assert(q[n - 1] == s[j]);
        assert(q.contains(q[n - 1]));
        assert(s.contains(s[j]));
        assert(q.to_multiset().count(q[n - 1]) > 0);
        assert(s.to_multiset().count(s[j]) > 0);
        let x = q[n - 1];
        assert forall|v: A| q.to_multiset().count(v) == s.to_multiset().count(v) by {
            if v == x {
                assert(q.to_multiset().remove(x).count(v) == q.to_multiset().count(v) - 1);
                assert(s.to_multiset().remove(x).count(v) == s.to_multiset().count(v) - 1);
            } else {
                assert(q.to_multiset().remove(x).count(v) == q.to_multiset().count(v));
                assert(s.to_multiset().remove(x).count(v) == s.to_multiset().count(v));
            }
        };
        assert(q.to_multiset() =~= s.to_multiset());
    }
}

/// One rotation operation only permutes the cells of a 3-cube buffer: the
/// multiset of stored values is exactly conserved — no value is created,
/// destroyed or duplicated.
pub proof fn lemma_population_conserved<A>(s: Seq<A>, r: Rot)
    requires
        s.len() == 27,
    ensures
        apply_op(s, r).to_multiset() == s.to_multiset(),
{
    let q = apply_op(s, r);
    let p = |t: int| flat3(src_of(unflat3(t), r));
    assert forall|t: int| 0 <= t < q.len() implies 0 <= #[trigger] p(t) < s.len() && q[t] == s[p(
        t,
    )] by {
        lemma_flat_unflat(t);
        lemma_src_dest_inverse(unflat3(t), r);
        lemma_unflat_flat(src_of(unflat3(t), r));
    };
    assert forall|t1: int, t2: int|
        #![trigger p(t1), p(t2)]
        0 <= t1 < q.len() && 0 <= t2 < q.len() && p(t1) == p(t2) implies t1 == t2 by {
        lemma_flat_unflat(t1);
        lemma_flat_unflat(t2);
        lemma_src_dest_inverse(unflat3(t1), r);
        lemma_src_dest_inverse(unflat3(t2), r);
        lemma_unflat_flat(src_of(unflat3(t1), r));
        lemma_unflat_flat(src_of(unflat3(t2), r));
        assert(src_of(unflat3(t1), r) == src_of(unflat3(t2), r));
        assert(dest_of(src_of(unflat3(t1), r), r) == unflat3(t1));
        assert(unflat3(t1) == unflat3(t2));
        assert(flat3(unflat3(t1)) == flat3(unflat3(t2)));
    };
    lemma_injection_preserves_multiset(q, s, p);
}

/// A whole operation sequence conserves the multiset of cell values.
pub proof fn lemma_population_conserved_ops<A>(s: Seq<A>, rs: Seq<Rot>)
    requires
        s.len() == 27,
    ensures
        apply_ops(s, rs).to_multiset() == s.to_multiset(),
    decreases rs.len(),
{
    if rs.len() > 0 {
        lemma_population_conserved(s, rs[0]);
        lemma_population_conserved_ops(apply_op(s, rs[0]), rs.drop_first());
    }
}

} // verus!


