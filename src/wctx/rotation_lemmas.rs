//! Proofs that each orientation rotation takes its group's reference member
//! to the member it was made for, evaluated member by member.
use vstd::prelude::*;
use crate::wctx::rotation_group::{
    arc_den, arc_entry, arc_spec, comp, cross, dot, edge_of, face_of, half_turn_axis,
    lemma_unit_direction_products, re_vec, rf_vec, rv_vec, skew, vertex_of, RotEdge, RotFace,
    RotVert, RE_ZERO, RF_ZERO, RV_ZERO,
};

verus! {

#[verifier::spinoff_prover]
proof fn lemma_rf_arc_to_plus_z()
    ensures
        face_of(arc_spec((0int, 0int, 1int), (0int, 0int, 1int)).apply_spec((0int, 0int, 1int))) == Some(RotFace::PlusZ),
{
    let a = (0int, 0int, 1int);
    let b = (0int, 0int, 1int);
    lemma_unit_direction_products(a, a);
    lemma_unit_direction_products(a, b);
    assert(dot(a, a) == 1);
    assert(dot(a, b) == 1);
    assert(cross(a, b) == (0int, 0int, 0int));
    assert(dot(a, b) * (dot(a, a) + dot(a, b)) == 2) by (nonlinear_arith)
        requires dot(a, b) == 1, dot(a, a) == 1;
    assert(dot(a, a) * (dot(a, a) + dot(a, b)) == 2) by (nonlinear_arith)
        requires dot(a, b) == 1, dot(a, a) == 1;
    assert((dot(a, a) + dot(a, b)) * skew(cross(a, b), 0, 0) == 0) by (nonlinear_arith)
        requires dot(a, b) == 1, dot(a, a) == 1, skew(cross(a, b), 0, 0) == 0;
    assert(comp(cross(a, b), 0) * comp(cross(a, b), 0) == 0) by (nonlinear_arith)
        requires comp(cross(a, b), 0) == 0, comp(cross(a, b), 0) == 0;
    assert((dot(a, a) + dot(a, b)) * skew(cross(a, b), 0, 1) == 0) by (nonlinear_arith)
        requires dot(a, b) == 1, dot(a, a) == 1, skew(cross(a, b), 0, 1) == 0;
    assert(comp(cross(a, b), 0) * comp(cross(a, b), 1) == 0) by (nonlinear_arith)
        requires comp(cross(a, b), 0) == 0, comp(cross(a, b), 1) == 0;
    assert((dot(a, a) + dot(a, b)) * skew(cross(a, b), 0, 2) == 0) by (nonlinear_arith)
        requires dot(a, b) == 1, dot(a, a) == 1, skew(cross(a, b), 0, 2) == 0;
    assert(comp(cross(a, b), 0) * comp(cross(a, b), 2) == 0) by (nonlinear_arith)
        requires comp(cross(a, b), 0) == 0, comp(cross(a, b), 2) == 0;
    assert((dot(a, a) + dot(a, b)) * skew(cross(a, b), 1, 0) == 0) by (nonlinear_arith)
        requires dot(a, b) == 1, dot(a, a) == 1, skew(cross(a, b), 1, 0) == 0;
    assert(comp(cross(a, b), 1) * comp(cross(a, b), 0) == 0) by (nonlinear_arith)
        requires comp(cross(a, b), 1) == 0, comp(cross(a, b), 0) == 0;
    assert((dot(a, a) + dot(a, b)) * skew(cross(a, b), 1, 1) == 0) by (nonlinear_arith)
        requires dot(a, b) == 1, dot(a, a) == 1, skew(cross(a, b), 1, 1) == 0;
    assert(comp(cross(a, b), 1) * comp(cross(a, b), 1) == 0) by (nonlinear_arith)
        requires comp(cross(a, b), 1) == 0, comp(cross(a, b), 1) == 0;
    assert((dot(a, a) + dot(a, b)) * skew(cross(a, b), 1, 2) == 0) by (nonlinear_arith)
        requires dot(a, b) == 1, dot(a, a) == 1, skew(cross(a, b), 1, 2) == 0;
    assert(comp(cross(a, b), 1) * comp(cross(a, b), 2) == 0) by (nonlinear_arith)
        requires comp(cross(a, b), 1) == 0, comp(cross(a, b), 2) == 0;
    assert((dot(a, a) + dot(a, b)) * skew(cross(a, b), 2, 0) == 0) by (nonlinear_arith)
        requires dot(a, b) == 1, dot(a, a) == 1, skew(cross(a, b), 2, 0) == 0;
    assert(comp(cross(a, b), 2) * comp(cross(a, b), 0) == 0) by (nonlinear_arith)
        requires comp(cross(a, b), 2) == 0, comp(cross(a, b), 0) == 0;
    assert((dot(a, a) + dot(a, b)) * skew(cross(a, b), 2, 1) == 0) by (nonlinear_arith)
        requires dot(a, b) == 1, dot(a, a) == 1, skew(cross(a, b), 2, 1) == 0;
    assert(comp(cross(a, b), 2) * comp(cross(a, b), 1) == 0) by (nonlinear_arith)
        requires comp(cross(a, b), 2) == 0, comp(cross(a, b), 1) == 0;
    assert((dot(a, a) + dot(a, b)) * skew(cross(a, b), 2, 2) == 0) by (nonlinear_arith)
        requires dot(a, b) == 1, dot(a, a) == 1, skew(cross(a, b), 2, 2) == 0;
    assert(comp(cross(a, b), 2) * comp(cross(a, b), 2) == 0) by (nonlinear_arith)
        requires comp(cross(a, b), 2) == 0, comp(cross(a, b), 2) == 0;
    assert(arc_entry(a, b, 0, 0) == 2);
    assert(arc_entry(a, b, 0, 1) == 0);
    assert(arc_entry(a, b, 0, 2) == 0);
    assert(arc_entry(a, b, 1, 0) == 0);
    assert(arc_entry(a, b, 1, 1) == 2);
    assert(arc_entry(a, b, 1, 2) == 0);
    assert(arc_entry(a, b, 2, 0) == 0);
    assert(arc_entry(a, b, 2, 1) == 0);
    assert(arc_entry(a, b, 2, 2) == 2);
    assert(arc_den(a, b) == 2);
    let m = arc_spec(a, b);
    assert(m.row_x@ == (2int, 0int, 0int));
    assert(m.row_y@ == (0int, 2int, 0int));
    assert(m.row_z@ == (0int, 0int, 2int));
    assert(m.apply_spec(a) == (0int, 0int, 2int));
}

#[verifier::spinoff_prover]
proof fn lemma_rf_arc_to_minus_z()
    ensures
        face_of(arc_spec((0int, 0int, 1int), (0int, 0int, -1int)).apply_spec((0int, 0int, 1int))) == Some(RotFace::MinusZ),
{
    let a = (0int, 0int, 1int);
    let b = (0int, 0int, -1int);
    lemma_unit_direction_products(a, a);
    lemma_unit_direction_products(a, b);
    assert(dot(a, a) == 1);
    assert(dot(a, b) == -1);
    assert(cross(a, b) == (0int, 0int, 0int));
    assert(cross((1, 0, 0), a) == (0int, -1int, 0int));
    assert(half_turn_axis(a) == (0int, -1int, 0int));
    lemma_unit_direction_products((1, 0, 0), a);
    lemma_unit_direction_products((0, 1, 0), a);
    assert(2 * comp(half_turn_axis(a), 0) * comp(half_turn_axis(a), 0) == 0) by (nonlinear_arith)
        requires comp(half_turn_axis(a), 0) == 0, comp(half_turn_axis(a), 0) == 0;
    assert(2 * comp(half_turn_axis(a), 0) * comp(half_turn_axis(a), 1) == 0) by (nonlinear_arith)
        requires comp(half_turn_axis(a), 0) == 0, comp(half_turn_axis(a), 1) == -1;
    assert(2 * comp(half_turn_axis(a), 0) * comp(half_turn_axis(a), 2) == 0) by (nonlinear_arith)
        requires comp(half_turn_axis(a), 0) == 0, comp(half_turn_axis(a), 2) == 0;
    assert(2 * comp(half_turn_axis(a), 1) * comp(half_turn_axis(a), 0) == 0) by (nonlinear_arith)
        requires comp(half_turn_axis(a), 1) == -1, comp(half_turn_axis(a), 0) == 0;
    assert(2 * comp(half_turn_axis(a), 1) * comp(half_turn_axis(a), 1) == 2) by (nonlinear_arith)
        requires comp(half_turn_axis(a), 1) == -1, comp(half_turn_axis(a), 1) == -1;
    assert(2 * comp(half_turn_axis(a), 1) * comp(half_turn_axis(a), 2) == 0) by (nonlinear_arith)
        requires comp(half_turn_axis(a), 1) == -1, comp(half_turn_axis(a), 2) == 0;
    assert(2 * comp(half_turn_axis(a), 2) * comp(half_turn_axis(a), 0) == 0) by (nonlinear_arith)
        requires comp(half_turn_axis(a), 2) == 0, comp(half_turn_axis(a), 0) == 0;
    assert(2 * comp(half_turn_axis(a), 2) * comp(half_turn_axis(a), 1) == 0) by (nonlinear_arith)
        requires comp(half_turn_axis(a), 2) == 0, comp(half_turn_axis(a), 1) == -1;
    assert(2 * comp(half_turn_axis(a), 2) * comp(half_turn_axis(a), 2) == 0) by (nonlinear_arith)
        requires comp(half_turn_axis(a), 2) == 0, comp(half_turn_axis(a), 2) == 0;
    assert(dot(half_turn_axis(a), half_turn_axis(a)) == 1) by (nonlinear_arith)
        requires half_turn_axis(a) == (0int, -1int, 0int);
    assert(arc_entry(a, b, 0, 0) == -1);
    assert(arc_entry(a, b, 0, 1) == 0);
    assert(arc_entry(a, b, 0, 2) == 0);
    assert(arc_entry(a, b, 1, 0) == 0);
    assert(arc_entry(a, b, 1, 1) == 1);
    assert(arc_entry(a, b, 1, 2) == 0);
    assert(arc_entry(a, b, 2, 0) == 0);
    assert(arc_entry(a, b, 2, 1) == 0);
    assert(arc_entry(a, b, 2, 2) == -1);
    assert(arc_den(a, b) == 1);
    let m = arc_spec(a, b);
    assert(m.row_x@ == (-1int, 0int, 0int));
    assert(m.row_y@ == (0int, 1int, 0int));
    assert(m.row_z@ == (0int, 0int, -1int));
    assert(m.apply_spec(a) == (0int, 0int, -1int));
}

#[verifier::spinoff_prover]
proof fn lemma_rf_arc_to_plus_y()
    ensures
        face_of(arc_spec((0int, 0int, 1int), (0int, 1int, 0int)).apply_spec((0int, 0int, 1int))) == Some(RotFace::PlusY),
{
    let a = (0int, 0int, 1int);
    let b = (0int, 1int, 0int);
    lemma_unit_direction_products(a, a);
    lemma_unit_direction_products(a, b);
    assert(dot(a, a) == 1);
    assert(dot(a, b) == 0);
    assert(cross(a, b) == (-1int, 0int, 0int));
    assert(dot(a, b) * (dot(a, a) + dot(a, b)) == 0) by (nonlinear_arith)
        requires dot(a, b) == 0, dot(a, a) == 1;
    assert(dot(a, a) * (dot(a, a) + dot(a, b)) == 1) by (nonlinear_arith)
        requires dot(a, b) == 0, dot(a, a) == 1;
    assert((dot(a, a) + dot(a, b)) * skew(cross(a, b), 0, 0) == 0) by (nonlinear_arith)
        requires dot(a, b) == 0, dot(a, a) == 1, skew(cross(a, b), 0, 0) == 0;
    assert(comp(cross(a, b), 0) * comp(cross(a, b), 0) == 1) by (nonlinear_arith)
        requires comp(cross(a, b), 0) == -1, comp(cross(a, b), 0) == -1;
    assert((dot(a, a) + dot(a, b)) * skew(cross(a, b), 0, 1) == 0) by (nonlinear_arith)
        requires dot(a, b) == 0, dot(a, a) == 1, skew(cross(a, b), 0, 1) == 0;
    assert(comp(cross(a, b), 0) * comp(cross(a, b), 1) == 0) by (nonlinear_arith)
        requires comp(cross(a, b), 0) == -1, comp(cross(a, b), 1) == 0;
    assert((dot(a, a) + dot(a, b)) * skew(cross(a, b), 0, 2) == 0) by (nonlinear_arith)
        requires dot(a, b) == 0, dot(a, a) == 1, skew(cross(a, b), 0, 2) == 0;
    assert(comp(cross(a, b), 0) * comp(cross(a, b), 2) == 0) by (nonlinear_arith)
        requires comp(cross(a, b), 0) == -1, comp(cross(a, b), 2) == 0;
    assert((dot(a, a) + dot(a, b)) * skew(cross(a, b), 1, 0) == 0) by (nonlinear_arith)
        requires dot(a, b) == 0, dot(a, a) == 1, skew(cross(a, b), 1, 0) == 0;
    assert(comp(cross(a, b), 1) * comp(cross(a, b), 0) == 0) by (nonlinear_arith)
        requires comp(cross(a, b), 1) == 0, comp(cross(a, b), 0) == -1;
    assert((dot(a, a) + dot(a, b)) * skew(cross(a, b), 1, 1) == 0) by (nonlinear_arith)
        requires dot(a, b) == 0, dot(a, a) == 1, skew(cross(a, b), 1, 1) == 0;
    assert(comp(cross(a, b), 1) * comp(cross(a, b), 1) == 0) by (nonlinear_arith)
        requires comp(cross(a, b), 1) == 0, comp(cross(a, b), 1) == 0;
    assert((dot(a, a) + dot(a, b)) * skew(cross(a, b), 1, 2) == 1) by (nonlinear_arith)
        requires dot(a, b) == 0, dot(a, a) == 1, skew(cross(a, b), 1, 2) == 1;
    assert(comp(cross(a, b), 1) * comp(cross(a, b), 2) == 0) by (nonlinear_arith)
        requires comp(cross(a, b), 1) == 0, comp(cross(a, b), 2) == 0;
    assert((dot(a, a) + dot(a, b)) * skew(cross(a, b), 2, 0) == 0) by (nonlinear_arith)
        requires dot(a, b) == 0, dot(a, a) == 1, skew(cross(a, b), 2, 0) == 0;
    assert(comp(cross(a, b), 2) * comp(cross(a, b), 0) == 0) by (nonlinear_arith)
        requires comp(cross(a, b), 2) == 0, comp(cross(a, b), 0) == -1;
    assert((dot(a, a) + dot(a, b)) * skew(cross(a, b), 2, 1) == -1) by (nonlinear_arith)
        requires dot(a, b) == 0, dot(a, a) == 1, skew(cross(a, b), 2, 1) == -1;
    assert(comp(cross(a, b), 2) * comp(cross(a, b), 1) == 0) by (nonlinear_arith)
        requires comp(cross(a, b), 2) == 0, comp(cross(a, b), 1) == 0;
    assert((dot(a, a) + dot(a, b)) * skew(cross(a, b), 2, 2) == 0) by (nonlinear_arith)
        requires dot(a, b) == 0, dot(a, a) == 1, skew(cross(a, b), 2, 2) == 0;
    assert(comp(cross(a, b), 2) * comp(cross(a, b), 2) == 0) by (nonlinear_arith)
        requires comp(cross(a, b), 2) == 0, comp(cross(a, b), 2) == 0;
    assert(arc_entry(a, b, 0, 0) == 1);
    assert(arc_entry(a, b, 0, 1) == 0);
    assert(arc_entry(a, b, 0, 2) == 0);
    assert(arc_entry(a, b, 1, 0) == 0);
    assert(arc_entry(a, b, 1, 1) == 0);
    assert(arc_entry(a, b, 1, 2) == 1);
    assert(arc_entry(a, b, 2, 0) == 0);
    assert(arc_entry(a, b, 2, 1) == -1);
    assert(arc_entry(a, b, 2, 2) == 0);
    assert(arc_den(a, b) == 1);
    let m = arc_spec(a, b);
    assert(m.row_x@ == (1int, 0int, 0int));
    assert(m.row_y@ == (0int, 0int, 1int));
    assert(m.row_z@ == (0int, -1int, 0int));
    assert(m.apply_spec(a) == (0int, 1int, 0int));
}

#[verifier::spinoff_prover]
proof fn lemma_rf_arc_to_minus_y()
    ensures
        face_of(arc_spec((0int, 0int, 1int), (0int, -1int, 0int)).apply_spec((0int, 0int, 1int))) == Some(RotFace::MinusY),
{
    let a = (0int, 0int, 1int);
    let b = (0int, -1int, 0int);
    lemma_unit_direction_products(a, a);
    lemma_unit_direction_products(a, b);
    assert(dot(a, a) == 1);
    assert(dot(a, b) == 0);
    assert(cross(a, b) == (1int, 0int, 0int));
    assert(dot(a, b) * (dot(a, a) + dot(a, b)) == 0) by (nonlinear_arith)
        requires dot(a, b) == 0, dot(a, a) == 1;
    assert(dot(a, a) * (dot(a, a) + dot(a, b)) == 1) by (nonlinear_arith)
        requires dot(a, b) == 0, dot(a, a) == 1;
    assert((dot(a, a) + dot(a, b)) * skew(cross(a, b), 0, 0) == 0) by (nonlinear_arith)
        requires dot(a, b) == 0, dot(a, a) == 1, skew(cross(a, b), 0, 0) == 0;
    assert(comp(cross(a, b), 0) * comp(cross(a, b), 0) == 1) by (nonlinear_arith)
        requires comp(cross(a, b), 0) == 1, comp(cross(a, b), 0) == 1;
    assert((dot(a, a) + dot(a, b)) * skew(cross(a, b), 0, 1) == 0) by (nonlinear_arith)
        requires dot(a, b) == 0, dot(a, a) == 1, skew(cross(a, b), 0, 1) == 0;
    assert(comp(cross(a, b), 0) * comp(cross(a, b), 1) == 0) by (nonlinear_arith)
        requires comp(cross(a, b), 0) == 1, comp(cross(a, b), 1) == 0;
    assert((dot(a, a) + dot(a, b)) * skew(cross(a, b), 0, 2) == 0) by (nonlinear_arith)
        requires dot(a, b) == 0, dot(a, a) == 1, skew(cross(a, b), 0, 2) == 0;
    assert(comp(cross(a, b), 0) * comp(cross(a, b), 2) == 0) by (nonlinear_arith)
        requires comp(cross(a, b), 0) == 1, comp(cross(a, b), 2) == 0;
    assert((dot(a, a) + dot(a, b)) * skew(cross(a, b), 1, 0) == 0) by (nonlinear_arith)
        requires dot(a, b) == 0, dot(a, a) == 1, skew(cross(a, b), 1, 0) == 0;
    assert(comp(cross(a, b), 1) * comp(cross(a, b), 0) == 0) by (nonlinear_arith)
        requires comp(cross(a, b), 1) == 0, comp(cross(a, b), 0) == 1;
    assert((dot(a, a) + dot(a, b)) * skew(cross(a, b), 1, 1) == 0) by (nonlinear_arith)
        requires dot(a, b) == 0, dot(a, a) == 1, skew(cross(a, b), 1, 1) == 0;
    assert(comp(cross(a, b), 1) * comp(cross(a, b), 1) == 0) by (nonlinear_arith)
        requires comp(cross(a, b), 1) == 0, comp(cross(a, b), 1) == 0;
    assert((dot(a, a) + dot(a, b)) * skew(cross(a, b), 1, 2) == -1) by (nonlinear_arith)
        requires dot(a, b) == 0, dot(a, a) == 1, skew(cross(a, b), 1, 2) == -1;
    assert(comp(cross(a, b), 1) * comp(cross(a, b), 2) == 0) by (nonlinear_arith)
        requires comp(cross(a, b), 1) == 0, comp(cross(a, b), 2) == 0;
    assert((dot(a, a) + dot(a, b)) * skew(cross(a, b), 2, 0) == 0) by (nonlinear_arith)
        requires dot(a, b) == 0, dot(a, a) == 1, skew(cross(a, b), 2, 0) == 0;
    assert(comp(cross(a, b), 2) * comp(cross(a, b), 0) == 0) by (nonlinear_arith)
        requires comp(cross(a, b), 2) == 0, comp(cross(a, b), 0) == 1;
    assert((dot(a, a) + dot(a, b)) * skew(cross(a, b), 2, 1) == 1) by (nonlinear_arith)
        requires dot(a, b) == 0, dot(a, a) == 1, skew(cross(a, b), 2, 1) == 1;
    assert(comp(cross(a, b), 2) * comp(cross(a, b), 1) == 0) by (nonlinear_arith)
        requires comp(cross(a, b), 2) == 0, comp(cross(a, b), 1) == 0;
    assert((dot(a, a) + dot(a, b)) * skew(cross(a, b), 2, 2) == 0) by (nonlinear_arith)
        requires dot(a, b) == 0, dot(a, a) == 1, skew(cross(a, b), 2, 2) == 0;
    assert(comp(cross(a, b), 2) * comp(cross(a, b), 2) == 0) by (nonlinear_arith)
        requires comp(cross(a, b), 2) == 0, comp(cross(a, b), 2) == 0;
    assert(arc_entry(a, b, 0, 0) == 1);
    assert(arc_entry(a, b, 0, 1) == 0);
    assert(arc_entry(a, b, 0, 2) == 0);
    assert(arc_entry(a, b, 1, 0) == 0);
    assert(arc_entry(a, b, 1, 1) == 0);
    assert(arc_entry(a, b, 1, 2) == -1);
    assert(arc_entry(a, b, 2, 0) == 0);
    assert(arc_entry(a, b, 2, 1) == 1);
    assert(arc_entry(a, b, 2, 2) == 0);
    assert(arc_den(a, b) == 1);
    let m = arc_spec(a, b);
    assert(m.row_x@ == (1int, 0int, 0int));
    assert(m.row_y@ == (0int, 0int, -1int));
    assert(m.row_z@ == (0int, 1int, 0int));
    assert(m.apply_spec(a) == (0int, -1int, 0int));
}

#[verifier::spinoff_prover]
proof fn lemma_rf_arc_to_plus_x()
    ensures
        face_of(arc_spec((0int, 0int, 1int), (1int, 0int, 0int)).apply_spec((0int, 0int, 1int))) == Some(RotFace::PlusX),
{
    let a = (0int, 0int, 1int);
    let b = (1int, 0int, 0int);
    lemma_unit_direction_products(a, a);
    lemma_unit_direction_products(a, b);
    assert(dot(a, a) == 1);
    assert(dot(a, b) == 0);
    assert(cross(a, b) == (0int, 1int, 0int));
    assert(dot(a, b) * (dot(a, a) + dot(a, b)) == 0) by (nonlinear_arith)
        requires dot(a, b) == 0, dot(a, a) == 1;
    assert(dot(a, a) * (dot(a, a) + dot(a, b)) == 1) by (nonlinear_arith)
        requires dot(a, b) == 0, dot(a, a) == 1;
    assert((dot(a, a) + dot(a, b)) * skew(cross(a, b), 0, 0) == 0) by (nonlinear_arith)
        requires dot(a, b) == 0, dot(a, a) == 1, skew(cross(a, b), 0, 0) == 0;
    assert(comp(cross(a, b), 0) * comp(cross(a, b), 0) == 0) by (nonlinear_arith)
        requires comp(cross(a, b), 0) == 0, comp(cross(a, b), 0) == 0;
    assert((dot(a, a) + dot(a, b)) * skew(cross(a, b), 0, 1) == 0) by (nonlinear_arith)
        requires dot(a, b) == 0, dot(a, a) == 1, skew(cross(a, b), 0, 1) == 0;
    assert(comp(cross(a, b), 0) * comp(cross(a, b), 1) == 0) by (nonlinear_arith)
        requires comp(cross(a, b), 0) == 0, comp(cross(a, b), 1) == 1;
    assert((dot(a, a) + dot(a, b)) * skew(cross(a, b), 0, 2) == 1) by (nonlinear_arith)
        requires dot(a, b) == 0, dot(a, a) == 1, skew(cross(a, b), 0, 2) == 1;
    assert(comp(cross(a, b), 0) * comp(cross(a, b), 2) == 0) by (nonlinear_arith)
        requires comp(cross(a, b), 0) == 0, comp(cross(a, b), 2) == 0;
    assert((dot(a, a) + dot(a, b)) * skew(cross(a, b), 1, 0) == 0) by (nonlinear_arith)
        requires dot(a, b) == 0, dot(a, a) == 1, skew(cross(a, b), 1, 0) == 0;
    assert(comp(cross(a, b), 1) * comp(cross(a, b), 0) == 0) by (nonlinear_arith)
        requires comp(cross(a, b), 1) == 1, comp(cross(a, b), 0) == 0;
    assert((dot(a, a) + dot(a, b)) * skew(cross(a, b), 1, 1) == 0) by (nonlinear_arith)
        requires dot(a, b) == 0, dot(a, a) == 1, skew(cross(a, b), 1, 1) == 0;
    assert(comp(cross(a, b), 1) * comp(cross(a, b), 1) == 1) by (nonlinear_arith)
        requires comp(cross(a, b), 1) == 1, comp(cross(a, b), 1) == 1;
    assert((dot(a, a) + dot(a, b)) * skew(cross(a, b), 1, 2) == 0) by (nonlinear_arith)
        requires dot(a, b) == 0, dot(a, a) == 1, skew(cross(a, b), 1, 2) == 0;
    assert(comp(cross(a, b), 1) * comp(cross(a, b), 2) == 0) by (nonlinear_arith)
        requires comp(cross(a, b), 1) == 1, comp(cross(a, b), 2) == 0;
    assert((dot(a, a) + dot(a, b)) * skew(cross(a, b), 2, 0) == -1) by (nonlinear_arith)
        requires dot(a, b) == 0, dot(a, a) == 1, skew(cross(a, b), 2, 0) == -1;
    assert(comp(cross(a, b), 2) * comp(cross(a, b), 0) == 0) by (nonlinear_arith)
        requires comp(cross(a, b), 2) == 0, comp(cross(a, b), 0) == 0;
    assert((dot(a, a) + dot(a, b)) * skew(cross(a, b), 2, 1) == 0) by (nonlinear_arith)
        requires dot(a, b) == 0, dot(a, a) == 1, skew(cross(a, b), 2, 1) == 0;
    assert(comp(cross(a, b), 2) * comp(cross(a, b), 1) == 0) by (nonlinear_arith)
        requires comp(cross(a, b), 2) == 0, comp(cross(a, b), 1) == 1;
    assert((dot(a, a) + dot(a, b)) * skew(cross(a, b), 2, 2) == 0) by (nonlinear_arith)
        requires dot(a, b) == 0, dot(a, a) == 1, skew(cross(a, b), 2, 2) == 0;
    assert(comp(cross(a, b), 2) * comp(cross(a, b), 2) == 0) by (nonlinear_arith)
        requires comp(cross(a, b), 2) == 0, comp(cross(a, b), 2) == 0;
    assert(arc_entry(a, b, 0, 0) == 0);
    assert(arc_entry(a, b, 0, 1) == 0);
    assert(arc_entry(a, b, 0, 2) == 1);
    assert(arc_entry(a, b, 1, 0) == 0);
    assert(arc_entry(a, b, 1, 1) == 1);
    assert(arc_entry(a, b, 1, 2) == 0);
    assert(arc_entry(a, b, 2, 0) == -1);
    assert(arc_entry(a, b, 2, 1) == 0);
    assert(arc_entry(a, b, 2, 2) == 0);
    assert(arc_den(a, b) == 1);
    let m = arc_spec(a, b);
    assert(m.row_x@ == (0int, 0int, 1int));
    assert(m.row_y@ == (0int, 1int, 0int));
    assert(m.row_z@ == (-1int, 0int, 0int));
    assert(m.apply_spec(a) == (1int, 0int, 0int));
}

#[verifier::spinoff_prover]
proof fn lemma_rf_arc_to_minus_x()
    ensures
        face_of(arc_spec((0int, 0int, 1int), (-1int, 0int, 0int)).apply_spec((0int, 0int, 1int))) == Some(RotFace::MinusX),
{
    let a = (0int, 0int, 1int);
    let b = (-1int, 0int, 0int);
    lemma_unit_direction_products(a, a);
    lemma_unit_direction_products(a, b);
    assert(dot(a, a) == 1);
    assert(dot(a, b) == 0);
    assert(cross(a, b) == (0int, -1int, 0int));
    assert(dot(a, b) * (dot(a, a) + dot(a, b)) == 0) by (nonlinear_arith)
        requires dot(a, b) == 0, dot(a, a) == 1;
    assert(dot(a, a) * (dot(a, a) + dot(a, b)) == 1) by (nonlinear_arith)
        requires dot(a, b) == 0, dot(a, a) == 1;
    assert((dot(a, a) + dot(a, b)) * skew(cross(a, b), 0, 0) == 0) by (nonlinear_arith)
        requires dot(a, b) == 0, dot(a, a) == 1, skew(cross(a, b), 0, 0) == 0;
    assert(comp(cross(a, b), 0) * comp(cross(a, b), 0) == 0) by (nonlinear_arith)
        requires comp(cross(a, b), 0) == 0, comp(cross(a, b), 0) == 0;
    assert((dot(a, a) + dot(a, b)) * skew(cross(a, b), 0, 1) == 0) by (nonlinear_arith)
        requires dot(a, b) == 0, dot(a, a) == 1, skew(cross(a, b), 0, 1) == 0;
    assert(comp(cross(a, b), 0) * comp(cross(a, b), 1) == 0) by (nonlinear_arith)
        requires comp(cross(a, b), 0) == 0, comp(cross(a, b), 1) == -1;
    assert((dot(a, a) + dot(a, b)) * skew(cross(a, b), 0, 2) == -1) by (nonlinear_arith)
        requires dot(a, b) == 0, dot(a, a) == 1, skew(cross(a, b), 0, 2) == -1;
    assert(comp(cross(a, b), 0) * comp(cross(a, b), 2) == 0) by (nonlinear_arith)
        requires comp(cross(a, b), 0) == 0, comp(cross(a, b), 2) == 0;
    assert((dot(a, a) + dot(a, b)) * skew(cross(a, b), 1, 0) == 0) by (nonlinear_arith)
        requires dot(a, b) == 0, dot(a, a) == 1, skew(cross(a, b), 1, 0) == 0;
    assert(comp(cross(a, b), 1) * comp(cross(a, b), 0) == 0) by (nonlinear_arith)
        requires comp(cross(a, b), 1) == -1, comp(cross(a, b), 0) == 0;
    assert((dot(a, a) + dot(a, b)) * skew(cross(a, b), 1, 1) == 0) by (nonlinear_arith)
        requires dot(a, b) == 0, dot(a, a) == 1, skew(cross(a, b), 1, 1) == 0;
    assert(comp(cross(a, b), 1) * comp(cross(a, b), 1) == 1) by (nonlinear_arith)
        requires comp(cross(a, b), 1) == -1, comp(cross(a, b), 1) == -1;
    assert((dot(a, a) + dot(a, b)) * skew(cross(a, b), 1, 2) == 0) by (nonlinear_arith)
        requires dot(a, b) == 0, dot(a, a) == 1, skew(cross(a, b), 1, 2) == 0;
    assert(comp(cross(a, b), 1) * comp(cross(a, b), 2) == 0) by (nonlinear_arith)
        requires comp(cross(a, b), 1) == -1, comp(cross(a, b), 2) == 0;
    assert((dot(a, a) + dot(a, b)) * skew(cross(a, b), 2, 0) == 1) by (nonlinear_arith)
        requires dot(a, b) == 0, dot(a, a) == 1, skew(cross(a, b), 2, 0) == 1;
    assert(comp(cross(a, b), 2) * comp(cross(a, b), 0) == 0) by (nonlinear_arith)
        requires comp(cross(a, b), 2) == 0, comp(cross(a, b), 0) == 0;
    assert((dot(a, a) + dot(a, b)) * skew(cross(a, b), 2, 1) == 0) by (nonlinear_arith)
        requires dot(a, b) == 0, dot(a, a) == 1, skew(cross(a, b), 2, 1) == 0;
    assert(comp(cross(a, b), 2) * comp(cross(a, b), 1) == 0) by (nonlinear_arith)
        requires comp(cross(a, b), 2) == 0, comp(cross(a, b), 1) == -1;
    assert((dot(a, a) + dot(a, b)) * skew(cross(a, b), 2, 2) == 0) by (nonlinear_arith)
        requires dot(a, b) == 0, dot(a, a) == 1, skew(cross(a, b), 2, 2) == 0;
    assert(comp(cross(a, b), 2) * comp(cross(a, b), 2) == 0) by (nonlinear_arith)
        requires comp(cross(a, b), 2) == 0, comp(cross(a, b), 2) == 0;
    assert(arc_entry(a, b, 0, 0) == 0);
    assert(arc_entry(a, b, 0, 1) == 0);
    assert(arc_entry(a, b, 0, 2) == -1);
    assert(arc_entry(a, b, 1, 0) == 0);
    assert(arc_entry(a, b, 1, 1) == 1);
    assert(arc_entry(a, b, 1, 2) == 0);
    assert(arc_entry(a, b, 2, 0) == 1);
    assert(arc_entry(a, b, 2, 1) == 0);
    assert(arc_entry(a, b, 2, 2) == 0);
    assert(arc_den(a, b) == 1);
    let m = arc_spec(a, b);
    assert(m.row_x@ == (0int, 0int, -1int));
    assert(m.row_y@ == (0int, 1int, 0int));
    assert(m.row_z@ == (1int, 0int, 0int));
    assert(m.apply_spec(a) == (-1int, 0int, 0int));
}

/// The orientation rotation of `x` takes the reference face direction to `x`.
pub proof fn lemma_quat_rf_reaches(x: RotFace)
    ensures
        face_of(arc_spec(rf_vec(RF_ZERO), rf_vec(x)).apply_spec(rf_vec(RF_ZERO))) == Some(x),
{
    assert(rf_vec(RF_ZERO) == (0int, 0int, 1int));
    match x {
        RotFace::PlusZ => {
            assert(rf_vec(x) == (0int, 0int, 1int));
            lemma_rf_arc_to_plus_z();
        },
        RotFace::MinusZ => {
            assert(rf_vec(x) == (0int, 0int, -1int));
            lemma_rf_arc_to_minus_z();
        },
        RotFace::PlusY => {
            assert(rf_vec(x) == (0int, 1int, 0int));
            lemma_rf_arc_to_plus_y();
        },
        RotFace::MinusY => {
            assert(rf_vec(x) == (0int, -1int, 0int));
            lemma_rf_arc_to_minus_y();
        },
        RotFace::PlusX => {
            assert(rf_vec(x) == (1int, 0int, 0int));
            lemma_rf_arc_to_plus_x();
        },
        RotFace::MinusX => {
            assert(rf_vec(x) == (-1int, 0int, 0int));
            lemma_rf_arc_to_minus_x();
        },
    }
}

#[verifier::spinoff_prover]
proof fn lemma_rv_arc_to_xm_ym_zm()
    ensures
        vertex_of(arc_spec((-1int, -1int, -1int), (-1int, -1int, -1int)).apply_spec((-1int, -1int, -1int))) == Some(RotVert::XmYmZm),
{
    let a = (-1int, -1int, -1int);
    let b = (-1int, -1int, -1int);
    lemma_unit_direction_products(a, a);
    lemma_unit_direction_products(a, b);
    assert(dot(a, a) == 3);
    assert(dot(a, b) == 3);
    assert(cross(a, b) == (0int, 0int, 0int));
    assert(dot(a, b) * (dot(a, a) + dot(a, b)) == 18) by (nonlinear_arith)
        requires dot(a, b) == 3, dot(a, a) == 3;
    assert(dot(a, a) * (dot(a, a) + dot(a, b)) == 18) by (nonlinear_arith)
        requires dot(a, b) == 3, dot(a, a) == 3;
    assert((dot(a, a) + dot(a, b)) * skew(cross(a, b), 0, 0) == 0) by (nonlinear_arith)
        requires dot(a, b) == 3, dot(a, a) == 3, skew(cross(a, b), 0, 0) == 0;
    assert(comp(cross(a, b), 0) * comp(cross(a, b), 0) == 0) by (nonlinear_arith)
        requires comp(cross(a, b), 0) == 0, comp(cross(a, b), 0) == 0;
    assert((dot(a, a) + dot(a, b)) * skew(cross(a, b), 0, 1) == 0) by (nonlinear_arith)
        requires dot(a, b) == 3, dot(a, a) == 3, skew(cross(a, b), 0, 1) == 0;
    assert(comp(cross(a, b), 0) * comp(cross(a, b), 1) == 0) by (nonlinear_arith)
        requires comp(cross(a, b), 0) == 0, comp(cross(a, b), 1) == 0;
    assert((dot(a, a) + dot(a, b)) * skew(cross(a, b), 0, 2) == 0) by (nonlinear_arith)
        requires dot(a, b) == 3, dot(a, a) == 3, skew(cross(a, b), 0, 2) == 0;
    assert(comp(cross(a, b), 0) * comp(cross(a, b), 2) == 0) by (nonlinear_arith)
        requires comp(cross(a, b), 0) == 0, comp(cross(a, b), 2) == 0;
    assert((dot(a, a) + dot(a, b)) * skew(cross(a, b), 1, 0) == 0) by (nonlinear_arith)
        requires dot(a, b) == 3, dot(a, a) == 3, skew(cross(a, b), 1, 0) == 0;
    assert(comp(cross(a, b), 1) * comp(cross(a, b), 0) == 0) by (nonlinear_arith)
        requires comp(cross(a, b), 1) == 0, comp(cross(a, b), 0) == 0;
    assert((dot(a, a) + dot(a, b)) * skew(cross(a, b), 1, 1) == 0) by (nonlinear_arith)
        requires dot(a, b) == 3, dot(a, a) == 3, skew(cross(a, b), 1, 1) == 0;
    assert(comp(cross(a, b), 1) * comp(cross(a, b), 1) == 0) by (nonlinear_arith)
        requires comp(cross(a, b), 1) == 0, comp(cross(a, b), 1) == 0;
    assert((dot(a, a) + dot(a, b)) * skew(cross(a, b), 1, 2) == 0) by (nonlinear_arith)
        requires dot(a, b) == 3, dot(a, a) == 3, skew(cross(a, b), 1, 2) == 0;
    assert(comp(cross(a, b), 1) * comp(cross(a, b), 2) == 0) by (nonlinear_arith)
        requires comp(cross(a, b), 1) == 0, comp(cross(a, b), 2) == 0;
    assert((dot(a, a) + dot(a, b)) * skew(cross(a, b), 2, 0) == 0) by (nonlinear_arith)
        requires dot(a, b) == 3, dot(a, a) == 3, skew(cross(a, b), 2, 0) == 0;
    assert(comp(cross(a, b), 2) * comp(cross(a, b), 0) == 0) by (nonlinear_arith)
        requires comp(cross(a, b), 2) == 0, comp(cross(a, b), 0) == 0;
    assert((dot(a, a) + dot(a, b)) * skew(cross(a, b), 2, 1) == 0) by (nonlinear_arith)
        requires dot(a, b) == 3, dot(a, a) == 3, skew(cross(a, b), 2, 1) == 0;
    assert(comp(cross(a, b), 2) * comp(cross(a, b), 1) == 0) by (nonlinear_arith)
        requires comp(cross(a, b), 2) == 0, comp(cross(a, b), 1) == 0;
    assert((dot(a, a) + dot(a, b)) * skew(cross(a, b), 2, 2) == 0) by (nonlinear_arith)
        requires dot(a, b) == 3, dot(a, a) == 3, skew(cross(a, b), 2, 2) == 0;
    assert(comp(cross(a, b), 2) * comp(cross(a, b), 2) == 0) by (nonlinear_arith)
        requires comp(cross(a, b), 2) == 0, comp(cross(a, b), 2) == 0;
    assert(arc_entry(a, b, 0, 0) == 18);
    assert(arc_entry(a, b, 0, 1) == 0);
    assert(arc_entry(a, b, 0, 2) == 0);
    assert(arc_entry(a, b, 1, 0) == 0);
    assert(arc_entry(a, b, 1, 1) == 18);
    assert(arc_entry(a, b, 1, 2) == 0);
    assert(arc_entry(a, b, 2, 0) == 0);
    assert(arc_entry(a, b, 2, 1) == 0);
    assert(arc_entry(a, b, 2, 2) == 18);
    assert(arc_den(a, b) == 18);
    let m = arc_spec(a, b);
    assert(m.row_x@ == (18int, 0int, 0int));
    assert(m.row_y@ == (0int, 18int, 0int));
    assert(m.row_z@ == (0int, 0int, 18int));
    assert(m.apply_spec(a) == (-18int, -18int, -18int));
}

#[verifier::spinoff_prover]
proof fn lemma_rv_arc_to_xm_ym_zp()
    ensures
        vertex_of(arc_spec((-1int, -1int, -1int), (-1int, -1int, 1int)).apply_spec((-1int, -1int, -1int))) == Some(RotVert::XmYmZp),
{
    let a = (-1int, -1int, -1int);
    let b = (-1int, -1int, 1int);
    lemma_unit_direction_products(a, a);
    lemma_unit_direction_products(a, b);
    assert(dot(a, a) == 3);
    assert(dot(a, b) == 1);
    assert(cross(a, b) == (-2int, 2int, 0int));
    assert(dot(a, b) * (dot(a, a) + dot(a, b)) == 4) by (nonlinear_arith)
        requires dot(a, b) == 1, dot(a, a) == 3;
    assert(dot(a, a) * (dot(a, a) + dot(a, b)) == 12) by (nonlinear_arith)
        requires dot(a, b) == 1, dot(a, a) == 3;
    assert((dot(a, a) + dot(a, b)) * skew(cross(a, b), 0, 0) == 0) by (nonlinear_arith)
        requires dot(a, b) == 1, dot(a, a) == 3, skew(cross(a, b), 0, 0) == 0;
    assert(comp(cross(a, b), 0) * comp(cross(a, b), 0) == 4) by (nonlinear_arith)
        requires comp(cross(a, b), 0) == -2, comp(cross(a, b), 0) == -2;
    assert((dot(a, a) + dot(a, b)) * skew(cross(a, b), 0, 1) == 0) by (nonlinear_arith)
        requires dot(a, b) == 1, dot(a, a) == 3, skew(cross(a, b), 0, 1) == 0;
    assert(comp(cross(a, b), 0) * comp(cross(a, b), 1) == -4) by (nonlinear_arith)
        requires comp(cross(a, b), 0) == -2, comp(cross(a, b), 1) == 2;
    assert((dot(a, a) + dot(a, b)) * skew(cross(a, b), 0, 2) == 8) by (nonlinear_arith)
        requires dot(a, b) == 1, dot(a, a) == 3, skew(cross(a, b), 0, 2) == 2;
    assert(comp(cross(a, b), 0) * comp(cross(a, b), 2) == 0) by (nonlinear_arith)
        requires comp(cross(a, b), 0) == -2, comp(cross(a, b), 2) == 0;
    assert((dot(a, a) + dot(a, b)) * skew(cross(a, b), 1, 0) == 0) by (nonlinear_arith)
        requires dot(a, b) == 1, dot(a, a) == 3, skew(cross(a, b), 1, 0) == 0;
    assert(comp(cross(a, b), 1) * comp(cross(a, b), 0) == -4) by (nonlinear_arith)
        requires comp(cross(a, b), 1) == 2, comp(cross(a, b), 0) == -2;
    assert((dot(a, a) + dot(a, b)) * skew(cross(a, b), 1, 1) == 0) by (nonlinear_arith)
        requires dot(a, b) == 1, dot(a, a) == 3, skew(cross(a, b), 1, 1) == 0;
    assert(comp(cross(a, b), 1) * comp(cross(a, b), 1) == 4) by (nonlinear_arith)
        requires comp(cross(a, b), 1) == 2, comp(cross(a, b), 1) == 2;
    assert((dot(a, a) + dot(a, b)) * skew(cross(a, b), 1, 2) == 8) by (nonlinear_arith)
        requires dot(a, b) == 1, dot(a, a) == 3, skew(cross(a, b), 1, 2) == 2;
    assert(comp(cross(a, b), 1) * comp(cross(a, b), 2) == 0) by (nonlinear_arith)
        requires comp(cross(a, b), 1) == 2, comp(cross(a, b), 2) == 0;
    assert((dot(a, a) + dot(a, b)) * skew(cross(a, b), 2, 0) == -8) by (nonlinear_arith)
        requires dot(a, b) == 1, dot(a, a) == 3, skew(cross(a, b), 2, 0) == -2;
    assert(comp(cross(a, b), 2) * comp(cross(a, b), 0) == 0) by (nonlinear_arith)
        requires comp(cross(a, b), 2) == 0, comp(cross(a, b), 0) == -2;
    assert((dot(a, a) + dot(a, b)) * skew(cross(a, b), 2, 1) == -8) by (nonlinear_arith)
        requires dot(a, b) == 1, dot(a, a) == 3, skew(cross(a, b), 2, 1) == -2;
    assert(comp(cross(a, b), 2) * comp(cross(a, b), 1) == 0) by (nonlinear_arith)
        requires comp(cross(a, b), 2) == 0, comp(cross(a, b), 1) == 2;
    assert((dot(a, a) + dot(a, b)) * skew(cross(a, b), 2, 2) == 0) by (nonlinear_arith)
        requires dot(a, b) == 1, dot(a, a) == 3, skew(cross(a, b), 2, 2) == 0;
    assert(comp(cross(a, b), 2) * comp(cross(a, b), 2) == 0) by (nonlinear_arith)
        requires comp(cross(a, b), 2) == 0, comp(cross(a, b), 2) == 0;
    assert(arc_entry(a, b, 0, 0) == 8);
    assert(arc_entry(a, b, 0, 1) == -4);
    assert(arc_entry(a, b, 0, 2) == 8);
    assert(arc_entry(a, b, 1, 0) == -4);
    assert(arc_entry(a, b, 1, 1) == 8);
    assert(arc_entry(a, b, 1, 2) == 8);
    assert(arc_entry(a, b, 2, 0) == -8);
    assert(arc_entry(a, b, 2, 1) == -8);
    assert(arc_entry(a, b, 2, 2) == 4);
    assert(arc_den(a, b) == 12);
    let m = arc_spec(a, b);
    assert(m.row_x@ == (8int, -4int, 8int));
    assert(m.row_y@ == (-4int, 8int, 8int));
    assert(m.row_z@ == (-8int, -8int, 4int));
    assert(m.apply_spec(a) == (-12int, -12int, 12int));
}

#[verifier::spinoff_prover]
proof fn lemma_rv_arc_to_xm_yp_zm()
    ensures
        vertex_of(arc_spec((-1int, -1int, -1int), (-1int, 1int, -1int)).apply_spec((-1int, -1int, -1int))) == Some(RotVert::XmYpZm),
{
    let a = (-1int, -1int, -1int);
    let b = (-1int, 1int, -1int);
    lemma_unit_direction_products(a, a);
    lemma_unit_direction_products(a, b);
    assert(dot(a, a) == 3);
    assert(dot(a, b) == 1);
    assert(cross(a, b) == (2int, 0int, -2int));
    assert(dot(a, b) * (dot(a, a) + dot(a, b)) == 4) by (nonlinear_arith)
        requires dot(a, b) == 1, dot(a, a) == 3;
    assert(dot(a, a) * (dot(a, a) + dot(a, b)) == 12) by (nonlinear_arith)
        requires dot(a, b) == 1, dot(a, a) == 3;
    assert((dot(a, a) + dot(a, b)) * skew(cross(a, b), 0, 0) == 0) by (nonlinear_arith)
        requires dot(a, b) == 1, dot(a, a) == 3, skew(cross(a, b), 0, 0) == 0;
    assert(comp(cross(a, b), 0) * comp(cross(a, b), 0) == 4) by (nonlinear_arith)
        requires comp(cross(a, b), 0) == 2, comp(cross(a, b), 0) == 2;
    assert((dot(a, a) + dot(a, b)) * skew(cross(a, b), 0, 1) == 8) by (nonlinear_arith)
        requires dot(a, b) == 1, dot(a, a) == 3, skew(cross(a, b), 0, 1) == 2;
    assert(comp(cross(a, b), 0) * comp(cross(a, b), 1) == 0) by (nonlinear_arith)
        requires comp(cross(a, b), 0) == 2, comp(cross(a, b), 1) == 0;
    assert((dot(a, a) + dot(a, b)) * skew(cross(a, b), 0, 2) == 0) by (nonlinear_arith)
        requires dot(a, b) == 1, dot(a, a) == 3, skew(cross(a, b), 0, 2) == 0;
    assert(comp(cross(a, b), 0) * comp(cross(a, b), 2) == -4) by (nonlinear_arith)
        requires comp(cross(a, b), 0) == 2, comp(cross(a, b), 2) == -2;
    assert((dot(a, a) + dot(a, b)) * skew(cross(a, b), 1, 0) == -8) by (nonlinear_arith)
        requires dot(a, b) == 1, dot(a, a) == 3, skew(cross(a, b), 1, 0) == -2;
    assert(comp(cross(a, b), 1) * comp(cross(a, b), 0) == 0) by (nonlinear_arith)
        requires comp(cross(a, b), 1) == 0, comp(cross(a, b), 0) == 2;
    assert((dot(a, a) + dot(a, b)) * skew(cross(a, b), 1, 1) == 0) by (nonlinear_arith)
        requires dot(a, b) == 1, dot(a, a) == 3, skew(cross(a, b), 1, 1) == 0;
    assert(comp(cross(a, b), 1) * comp(cross(a, b), 1) == 0) by (nonlinear_arith)
        requires comp(cross(a, b), 1) == 0, comp(cross(a, b), 1) == 0;
    assert((dot(a, a) + dot(a, b)) * skew(cross(a, b), 1, 2) == -8) by (nonlinear_arith)
        requires dot(a, b) == 1, dot(a, a) == 3, skew(cross(a, b), 1, 2) == -2;
    assert(comp(cross(a, b), 1) * comp(cross(a, b), 2) == 0) by (nonlinear_arith)
        requires comp(cross(a, b), 1) == 0, comp(cross(a, b), 2) == -2;
    assert((dot(a, a) + dot(a, b)) * skew(cross(a, b), 2, 0) == 0) by (nonlinear_arith)
        requires dot(a, b) == 1, dot(a, a) == 3, skew(cross(a, b), 2, 0) == 0;
    assert(comp(cross(a, b), 2) * comp(cross(a, b), 0) == -4) by (nonlinear_arith)
        requires comp(cross(a, b), 2) == -2, comp(cross(a, b), 0) == 2;
    assert((dot(a, a) + dot(a, b)) * skew(cross(a, b), 2, 1) == 8) by (nonlinear_arith)
        requires dot(a, b) == 1, dot(a, a) == 3, skew(cross(a, b), 2, 1) == 2;
    assert(comp(cross(a, b), 2) * comp(cross(a, b), 1) == 0) by (nonlinear_arith)
        requires comp(cross(a, b), 2) == -2, comp(cross(a, b), 1) == 0;
    assert((dot(a, a) + dot(a, b)) * skew(cross(a, b), 2, 2) == 0) by (nonlinear_arith)
        requires dot(a, b) == 1, dot(a, a) == 3, skew(cross(a, b), 2, 2) == 0;
    assert(comp(cross(a, b), 2) * comp(cross(a, b), 2) == 4) by (nonlinear_arith)
        requires comp(cross(a, b), 2) == -2, comp(cross(a, b), 2) == -2;
    assert(arc_entry(a, b, 0, 0) == 8);
    assert(arc_entry(a, b, 0, 1) == 8);
    assert(arc_entry(a, b, 0, 2) == -4);
    assert(arc_entry(a, b, 1, 0) == -8);
    assert(arc_entry(a, b, 1, 1) == 4);
    assert(arc_entry(a, b, 1, 2) == -8);
    assert(arc_entry(a, b, 2, 0) == -4);
    assert(arc_entry(a, b, 2, 1) == 8);
    assert(arc_entry(a, b, 2, 2) == 8);
    assert(arc_den(a, b) == 12);
    let m = arc_spec(a, b);
    assert(m.row_x@ == (8int, 8int, -4int));
    assert(m.row_y@ == (-8int, 4int, -8int));
    assert(m.row_z@ == (-4int, 8int, 8int));
    assert(m.apply_spec(a) == (-12int, 12int, -12int));
}

#[verifier::spinoff_prover]
proof fn lemma_rv_arc_to_xm_yp_zp()
    ensures
        vertex_of(arc_spec((-1int, -1int, -1int), (-1int, 1int, 1int)).apply_spec((-1int, -1int, -1int))) == Some(RotVert::XmYpZp),
{
    let a = (-1int, -1int, -1int);
    let b = (-1int, 1int, 1int);
    lemma_unit_direction_products(a, a);
    lemma_unit_direction_products(a, b);
    assert(dot(a, a) == 3);
    assert(dot(a, b) == -1);
    assert(cross(a, b) == (0int, 2int, -2int));
    assert(dot(a, b) * (dot(a, a) + dot(a, b)) == -2) by (nonlinear_arith)
        requires dot(a, b) == -1, dot(a, a) == 3;
    assert(dot(a, a) * (dot(a, a) + dot(a, b)) == 6) by (nonlinear_arith)
        requires dot(a, b) == -1, dot(a, a) == 3;
    assert((dot(a, a) + dot(a, b)) * skew(cross(a, b), 0, 0) == 0) by (nonlinear_arith)
        requires dot(a, b) == -1, dot(a, a) == 3, skew(cross(a, b), 0, 0) == 0;
    assert(comp(cross(a, b), 0) * comp(cross(a, b), 0) == 0) by (nonlinear_arith)
        requires comp(cross(a, b), 0) == 0, comp(cross(a, b), 0) == 0;
    assert((dot(a, a) + dot(a, b)) * skew(cross(a, b), 0, 1) == 4) by (nonlinear_arith)
        requires dot(a, b) == -1, dot(a, a) == 3, skew(cross(a, b), 0, 1) == 2;
    assert(comp(cross(a, b), 0) * comp(cross(a, b), 1) == 0) by (nonlinear_arith)
        requires comp(cross(a, b), 0) == 0, comp(cross(a, b), 1) == 2;
    assert((dot(a, a) + dot(a, b)) * skew(cross(a, b), 0, 2) == 4) by (nonlinear_arith)
        requires dot(a, b) == -1, dot(a, a) == 3, skew(cross(a, b), 0, 2) == 2;
    assert(comp(cross(a, b), 0) * comp(cross(a, b), 2) == 0) by (nonlinear_arith)
        requires comp(cross(a, b), 0) == 0, comp(cross(a, b), 2) == -2;
    assert((dot(a, a) + dot(a, b)) * skew(cross(a, b), 1, 0) == -4) by (nonlinear_arith)
        requires dot(a, b) == -1, dot(a, a) == 3, skew(cross(a, b), 1, 0) == -2;
    assert(comp(cross(a, b), 1) * comp(cross(a, b), 0) == 0) by (nonlinear_arith)
        requires comp(cross(a, b), 1) == 2, comp(cross(a, b), 0) == 0;
    assert((dot(a, a) + dot(a, b)) * skew(cross(a, b), 1, 1) == 0) by (nonlinear_arith)
        requires dot(a, b) == -1, dot(a, a) == 3, skew(cross(a, b), 1, 1) == 0;
    assert(comp(cross(a, b), 1) * comp(cross(a, b), 1) == 4) by (nonlinear_arith)
        requires comp(cross(a, b), 1) == 2, comp(cross(a, b), 1) == 2;
    assert((dot(a, a) + dot(a, b)) * skew(cross(a, b), 1, 2) == 0) by (nonlinear_arith)
        requires dot(a, b) == -1, dot(a, a) == 3, skew(cross(a, b), 1, 2) == 0;
    assert(comp(cross(a, b), 1) * comp(cross(a, b), 2) == -4) by (nonlinear_arith)
        requires comp(cross(a, b), 1) == 2, comp(cross(a, b), 2) == -2;
    assert((dot(a, a) + dot(a, b)) * skew(cross(a, b), 2, 0) == -4) by (nonlinear_arith)
        requires dot(a, b) == -1, dot(a, a) == 3, skew(cross(a, b), 2, 0) == -2;
    assert(comp(cross(a, b), 2) * comp(cross(a, b), 0) == 0) by (nonlinear_arith)
        requires comp(cross(a, b), 2) == -2, comp(cross(a, b), 0) == 0;
    assert((dot(a, a) + dot(a, b)) * skew(cross(a, b), 2, 1) == 0) by (nonlinear_arith)
        requires dot(a, b) == -1, dot(a, a) == 3, skew(cross(a, b), 2, 1) == 0;
    assert(comp(cross(a, b), 2) * comp(cross(a, b), 1) == -4) by (nonlinear_arith)
        requires comp(cross(a, b), 2) == -2, comp(cross(a, b), 1) == 2;
    assert((dot(a, a) + dot(a, b)) * skew(cross(a, b), 2, 2) == 0) by (nonlinear_arith)
        requires dot(a, b) == -1, dot(a, a) == 3, skew(cross(a, b), 2, 2) == 0;
    assert(comp(cross(a, b), 2) * comp(cross(a, b), 2) == 4) by (nonlinear_arith)
        requires comp(cross(a, b), 2) == -2, comp(cross(a, b), 2) == -2;
    assert(arc_entry(a, b, 0, 0) == -2);
    assert(arc_entry(a, b, 0, 1) == 4);
    assert(arc_entry(a, b, 0, 2) == 4);
    assert(arc_entry(a, b, 1, 0) == -4);
    assert(arc_entry(a, b, 1, 1) == 2);
    assert(arc_entry(a, b, 1, 2) == -4);
    assert(arc_entry(a, b, 2, 0) == -4);
    assert(arc_entry(a, b, 2, 1) == -4);
    assert(arc_entry(a, b, 2, 2) == 2);
    assert(arc_den(a, b) == 6);
    let m = arc_spec(a, b);
    assert(m.row_x@ == (-2int, 4int, 4int));
    assert(m.row_y@ == (-4int, 2int, -4int));
    assert(m.row_z@ == (-4int, -4int, 2int));
    assert(m.apply_spec(a) == (-6int, 6int, 6int));
}

#[verifier::spinoff_prover]
proof fn lemma_rv_arc_to_xp_ym_zm()
    ensures
        vertex_of(arc_spec((-1int, -1int, -1int), (1int, -1int, -1int)).apply_spec((-1int, -1int, -1int))) == Some(RotVert::XpYmZm),
{
    let a = (-1int, -1int, -1int);
    let b = (1int, -1int, -1int);
    lemma_unit_direction_products(a, a);
    lemma_unit_direction_products(a, b);
    assert(dot(a, a) == 3);
    assert(dot(a, b) == 1);
    assert(cross(a, b) == (0int, -2int, 2int));
    assert(dot(a, b) * (dot(a, a) + dot(a, b)) == 4) by (nonlinear_arith)
        requires dot(a, b) == 1, dot(a, a) == 3;
    assert(dot(a, a) * (dot(a, a) + dot(a, b)) == 12) by (nonlinear_arith)
        requires dot(a, b) == 1, dot(a, a) == 3;
    assert((dot(a, a) + dot(a, b)) * skew(cross(a, b), 0, 0) == 0) by (nonlinear_arith)
        requires dot(a, b) == 1, dot(a, a) == 3, skew(cross(a, b), 0, 0) == 0;
    assert(comp(cross(a, b), 0) * comp(cross(a, b), 0) == 0) by (nonlinear_arith)
        requires comp(cross(a, b), 0) == 0, comp(cross(a, b), 0) == 0;
    assert((dot(a, a) + dot(a, b)) * skew(cross(a, b), 0, 1) == -8) by (nonlinear_arith)
        requires dot(a, b) == 1, dot(a, a) == 3, skew(cross(a, b), 0, 1) == -2;
    assert(comp(cross(a, b), 0) * comp(cross(a, b), 1) == 0) by (nonlinear_arith)
        requires comp(cross(a, b), 0) == 0, comp(cross(a, b), 1) == -2;
    assert((dot(a, a) + dot(a, b)) * skew(cross(a, b), 0, 2) == -8) by (nonlinear_arith)
        requires dot(a, b) == 1, dot(a, a) == 3, skew(cross(a, b), 0, 2) == -2;
    assert(comp(cross(a, b), 0) * comp(cross(a, b), 2) == 0) by (nonlinear_arith)
        requires comp(cross(a, b), 0) == 0, comp(cross(a, b), 2) == 2;
    assert((dot(a, a) + dot(a, b)) * skew(cross(a, b), 1, 0) == 8) by (nonlinear_arith)
        requires dot(a, b) == 1, dot(a, a) == 3, skew(cross(a, b), 1, 0) == 2;
    assert(comp(cross(a, b), 1) * comp(cross(a, b), 0) == 0) by (nonlinear_arith)
        requires comp(cross(a, b), 1) == -2, comp(cross(a, b), 0) == 0;
    assert((dot(a, a) + dot(a, b)) * skew(cross(a, b), 1, 1) == 0) by (nonlinear_arith)
        requires dot(a, b) == 1, dot(a, a) == 3, skew(cross(a, b), 1, 1) == 0;
    assert(comp(cross(a, b), 1) * comp(cross(a, b), 1) == 4) by (nonlinear_arith)
        requires comp(cross(a, b), 1) == -2, comp(cross(a, b), 1) == -2;
    assert((dot(a, a) + dot(a, b)) * skew(cross(a, b), 1, 2) == 0) by (nonlinear_arith)
        requires dot(a, b) == 1, dot(a, a) == 3, skew(cross(a, b), 1, 2) == 0;
    assert(comp(cross(a, b), 1) * comp(cross(a, b), 2) == -4) by (nonlinear_arith)
        requires comp(cross(a, b), 1) == -2, comp(cross(a, b), 2) == 2;
    assert((dot(a, a) + dot(a, b)) * skew(cross(a, b), 2, 0) == 8) by (nonlinear_arith)
        requires dot(a, b) == 1, dot(a, a) == 3, skew(cross(a, b), 2, 0) == 2;
    assert(comp(cross(a, b), 2) * comp(cross(a, b), 0) == 0) by (nonlinear_arith)
        requires comp(cross(a, b), 2) == 2, comp(cross(a, b), 0) == 0;
    assert((dot(a, a) + dot(a, b)) * skew(cross(a, b), 2, 1) == 0) by (nonlinear_arith)
        requires dot(a, b) == 1, dot(a, a) == 3, skew(cross(a, b), 2, 1) == 0;
    assert(comp(cross(a, b), 2) * comp(cross(a, b), 1) == -4) by (nonlinear_arith)
        requires comp(cross(a, b), 2) == 2, comp(cross(a, b), 1) == -2;
    assert((dot(a, a) + dot(a, b)) * skew(cross(a, b), 2, 2) == 0) by (nonlinear_arith)
        requires dot(a, b) == 1, dot(a, a) == 3, skew(cross(a, b), 2, 2) == 0;
    assert(comp(cross(a, b), 2) * comp(cross(a, b), 2) == 4) by (nonlinear_arith)
        requires comp(cross(a, b), 2) == 2, comp(cross(a, b), 2) == 2;
    assert(arc_entry(a, b, 0, 0) == 4);
    assert(arc_entry(a, b, 0, 1) == -8);
    assert(arc_entry(a, b, 0, 2) == -8);
    assert(arc_entry(a, b, 1, 0) == 8);
    assert(arc_entry(a, b, 1, 1) == 8);
    assert(arc_entry(a, b, 1, 2) == -4);
    assert(arc_entry(a, b, 2, 0) == 8);
    assert(arc_entry(a, b, 2, 1) == -4);
    assert(arc_entry(a, b, 2, 2) == 8);
    assert(arc_den(a, b) == 12);
    let m = arc_spec(a, b);
    assert(m.row_x@ == (4int, -8int, -8int));
    assert(m.row_y@ == (8int, 8int, -4int));
    assert(m.row_z@ == (8int, -4int, 8int));
    assert(m.apply_spec(a) == (12int, -12int, -12int));
}

#[verifier::spinoff_prover]
proof fn lemma_rv_arc_to_xp_ym_zp()
    ensures
        vertex_of(arc_spec((-1int, -1int, -1int), (1int, -1int, 1int)).apply_spec((-1int, -1int, -1int))) == Some(RotVert::XpYmZp),
{
    let a = (-1int, -1int, -1int);
    let b = (1int, -1int, 1int);
    lemma_unit_direction_products(a, a);
    lemma_unit_direction_products(a, b);
    assert(dot(a, a) == 3);
    assert(dot(a, b) == -1);
    assert(cross(a, b) == (-2int, 0int, 2int));
    assert(dot(a, b) * (dot(a, a) + dot(a, b)) == -2) by (nonlinear_arith)
        requires dot(a, b) == -1, dot(a, a) == 3;
    assert(dot(a, a) * (dot(a, a) + dot(a, b)) == 6) by (nonlinear_arith)
        requires dot(a, b) == -1, dot(a, a) == 3;
    assert((dot(a, a) + dot(a, b)) * skew(cross(a, b), 0, 0) == 0) by (nonlinear_arith)
        requires dot(a, b) == -1, dot(a, a) == 3, skew(cross(a, b), 0, 0) == 0;
    assert(comp(cross(a, b), 0) * comp(cross(a, b), 0) == 4) by (nonlinear_arith)
        requires comp(cross(a, b), 0) == -2, comp(cross(a, b), 0) == -2;
    assert((dot(a, a) + dot(a, b)) * skew(cross(a, b), 0, 1) == -4) by (nonlinear_arith)
        requires dot(a, b) == -1, dot(a, a) == 3, skew(cross(a, b), 0, 1) == -2;
    assert(comp(cross(a, b), 0) * comp(cross(a, b), 1) == 0) by (nonlinear_arith)
        requires comp(cross(a, b), 0) == -2, comp(cross(a, b), 1) == 0;
    assert((dot(a, a) + dot(a, b)) * skew(cross(a, b), 0, 2) == 0) by (nonlinear_arith)
        requires dot(a, b) == -1, dot(a, a) == 3, skew(cross(a, b), 0, 2) == 0;
    assert(comp(cross(a, b), 0) * comp(cross(a, b), 2) == -4) by (nonlinear_arith)
        requires comp(cross(a, b), 0) == -2, comp(cross(a, b), 2) == 2;
    assert((dot(a, a) + dot(a, b)) * skew(cross(a, b), 1, 0) == 4) by (nonlinear_arith)
        requires dot(a, b) == -1, dot(a, a) == 3, skew(cross(a, b), 1, 0) == 2;
    assert(comp(cross(a, b), 1) * comp(cross(a, b), 0) == 0) by (nonlinear_arith)
        requires comp(cross(a, b), 1) == 0, comp(cross(a, b), 0) == -2;
    assert((dot(a, a) + dot(a, b)) * skew(cross(a, b), 1, 1) == 0) by (nonlinear_arith)
        requires dot(a, b) == -1, dot(a, a) == 3, skew(cross(a, b), 1, 1) == 0;
    assert(comp(cross(a, b), 1) * comp(cross(a, b), 1) == 0) by (nonlinear_arith)
        requires comp(cross(a, b), 1) == 0, comp(cross(a, b), 1) == 0;
    assert((dot(a, a) + dot(a, b)) * skew(cross(a, b), 1, 2) == 4) by (nonlinear_arith)
        requires dot(a, b) == -1, dot(a, a) == 3, skew(cross(a, b), 1, 2) == 2;
    assert(comp(cross(a, b), 1) * comp(cross(a, b), 2) == 0) by (nonlinear_arith)
        requires comp(cross(a, b), 1) == 0, comp(cross(a, b), 2) == 2;
    assert((dot(a, a) + dot(a, b)) * skew(cross(a, b), 2, 0) == 0) by (nonlinear_arith)
        requires dot(a, b) == -1, dot(a, a) == 3, skew(cross(a, b), 2, 0) == 0;
    assert(comp(cross(a, b), 2) * comp(cross(a, b), 0) == -4) by (nonlinear_arith)
        requires comp(cross(a, b), 2) == 2, comp(cross(a, b), 0) == -2;
    assert((dot(a, a) + dot(a, b)) * skew(cross(a, b), 2, 1) == -4) by (nonlinear_arith)
        requires dot(a, b) == -1, dot(a, a) == 3, skew(cross(a, b), 2, 1) == -2;
    assert(comp(cross(a, b), 2) * comp(cross(a, b), 1) == 0) by (nonlinear_arith)
        requires comp(cross(a, b), 2) == 2, comp(cross(a, b), 1) == 0;
    assert((dot(a, a) + dot(a, b)) * skew(cross(a, b), 2, 2) == 0) by (nonlinear_arith)
        requires dot(a, b) == -1, dot(a, a) == 3, skew(cross(a, b), 2, 2) == 0;
    assert(comp(cross(a, b), 2) * comp(cross(a, b), 2) == 4) by (nonlinear_arith)
        requires comp(cross(a, b), 2) == 2, comp(cross(a, b), 2) == 2;
    assert(arc_entry(a, b, 0, 0) == 2);
    assert(arc_entry(a, b, 0, 1) == -4);
    assert(arc_entry(a, b, 0, 2) == -4);
    assert(arc_entry(a, b, 1, 0) == 4);
    assert(arc_entry(a, b, 1, 1) == -2);
    assert(arc_entry(a, b, 1, 2) == 4);
    assert(arc_entry(a, b, 2, 0) == -4);
    assert(arc_entry(a, b, 2, 1) == -4);
    assert(arc_entry(a, b, 2, 2) == 2);
    assert(arc_den(a, b) == 6);
    let m = arc_spec(a, b);
    assert(m.row_x@ == (2int, -4int, -4int));
    assert(m.row_y@ == (4int, -2int, 4int));
    assert(m.row_z@ == (-4int, -4int, 2int));
    assert(m.apply_spec(a) == (6int, -6int, 6int));
}

#[verifier::spinoff_prover]
proof fn lemma_rv_arc_to_xp_yp_zm()
    ensures
        vertex_of(arc_spec((-1int, -1int, -1int), (1int, 1int, -1int)).apply_spec((-1int, -1int, -1int))) == Some(RotVert::XpYpZm),
{
    let a = (-1int, -1int, -1int);
    let b = (1int, 1int, -1int);
    lemma_unit_direction_products(a, a);
    lemma_unit_direction_products(a, b);
    assert(dot(a, a) == 3);
    assert(dot(a, b) == -1);
    assert(cross(a, b) == (2int, -2int, 0int));
    assert(dot(a, b) * (dot(a, a) + dot(a, b)) == -2) by (nonlinear_arith)
        requires dot(a, b) == -1, dot(a, a) == 3;
    assert(dot(a, a) * (dot(a, a) + dot(a, b)) == 6) by (nonlinear_arith)
        requires dot(a, b) == -1, dot(a, a) == 3;
    assert((dot(a, a) + dot(a, b)) * skew(cross(a, b), 0, 0) == 0) by (nonlinear_arith)
        requires dot(a, b) == -1, dot(a, a) == 3, skew(cross(a, b), 0, 0) == 0;
    assert(comp(cross(a, b), 0) * comp(cross(a, b), 0) == 4) by (nonlinear_arith)
        requires comp(cross(a, b), 0) == 2, comp(cross(a, b), 0) == 2;
    assert((dot(a, a) + dot(a, b)) * skew(cross(a, b), 0, 1) == 0) by (nonlinear_arith)
        requires dot(a, b) == -1, dot(a, a) == 3, skew(cross(a, b), 0, 1) == 0;
    assert(comp(cross(a, b), 0) * comp(cross(a, b), 1) == -4) by (nonlinear_arith)
        requires comp(cross(a, b), 0) == 2, comp(cross(a, b), 1) == -2;
    assert((dot(a, a) + dot(a, b)) * skew(cross(a, b), 0, 2) == -4) by (nonlinear_arith)
        requires dot(a, b) == -1, dot(a, a) == 3, skew(cross(a, b), 0, 2) == -2;
    assert(comp(cross(a, b), 0) * comp(cross(a, b), 2) == 0) by (nonlinear_arith)
        requires comp(cross(a, b), 0) == 2, comp(cross(a, b), 2) == 0;
    assert((dot(a, a) + dot(a, b)) * skew(cross(a, b), 1, 0) == 0) by (nonlinear_arith)
        requires dot(a, b) == -1, dot(a, a) == 3, skew(cross(a, b), 1, 0) == 0;
    assert(comp(cross(a, b), 1) * comp(cross(a, b), 0) == -4) by (nonlinear_arith)
        requires comp(cross(a, b), 1) == -2, comp(cross(a, b), 0) == 2;
    assert((dot(a, a) + dot(a, b)) * skew(cross(a, b), 1, 1) == 0) by (nonlinear_arith)
        requires dot(a, b) == -1, dot(a, a) == 3, skew(cross(a, b), 1, 1) == 0;
    assert(comp(cross(a, b), 1) * comp(cross(a, b), 1) == 4) by (nonlinear_arith)
        requires comp(cross(a, b), 1) == -2, comp(cross(a, b), 1) == -2;
    assert((dot(a, a) + dot(a, b)) * skew(cross(a, b), 1, 2) == -4) by (nonlinear_arith)
        requires dot(a, b) == -1, dot(a, a) == 3, skew(cross(a, b), 1, 2) == -2;
    assert(comp(cross(a, b), 1) * comp(cross(a, b), 2) == 0) by (nonlinear_arith)
        requires comp(cross(a, b), 1) == -2, comp(cross(a, b), 2) == 0;
    assert((dot(a, a) + dot(a, b)) * skew(cross(a, b), 2, 0) == 4) by (nonlinear_arith)
        requires dot(a, b) == -1, dot(a, a) == 3, skew(cross(a, b), 2, 0) == 2;
    assert(comp(cross(a, b), 2) * comp(cross(a, b), 0) == 0) by (nonlinear_arith)
        requires comp(cross(a, b), 2) == 0, comp(cross(a, b), 0) == 2;
    assert((dot(a, a) + dot(a, b)) * skew(cross(a, b), 2, 1) == 4) by (nonlinear_arith)
        requires dot(a, b) == -1, dot(a, a) == 3, skew(cross(a, b), 2, 1) == 2;
    assert(comp(cross(a, b), 2) * comp(cross(a, b), 1) == 0) by (nonlinear_arith)
        requires comp(cross(a, b), 2) == 0, comp(cross(a, b), 1) == -2;
    assert((dot(a, a) + dot(a, b)) * skew(cross(a, b), 2, 2) == 0) by (nonlinear_arith)
        requires dot(a, b) == -1, dot(a, a) == 3, skew(cross(a, b), 2, 2) == 0;
    assert(comp(cross(a, b), 2) * comp(cross(a, b), 2) == 0) by (nonlinear_arith)
        requires comp(cross(a, b), 2) == 0, comp(cross(a, b), 2) == 0;
    assert(arc_entry(a, b, 0, 0) == 2);
    assert(arc_entry(a, b, 0, 1) == -4);
    assert(arc_entry(a, b, 0, 2) == -4);
    assert(arc_entry(a, b, 1, 0) == -4);
    assert(arc_entry(a, b, 1, 1) == 2);
    assert(arc_entry(a, b, 1, 2) == -4);
    assert(arc_entry(a, b, 2, 0) == 4);
    assert(arc_entry(a, b, 2, 1) == 4);
    assert(arc_entry(a, b, 2, 2) == -2);
    assert(arc_den(a, b) == 6);
    let m = arc_spec(a, b);
    assert(m.row_x@ == (2int, -4int, -4int));
    assert(m.row_y@ == (-4int, 2int, -4int));
    assert(m.row_z@ == (4int, 4int, -2int));
    assert(m.apply_spec(a) == (6int, 6int, -6int));
}

#[verifier::spinoff_prover]
proof fn lemma_rv_arc_to_xp_yp_zp()
    ensures
        vertex_of(arc_spec((-1int, -1int, -1int), (1int, 1int, 1int)).apply_spec((-1int, -1int, -1int))) == Some(RotVert::XpYpZp),
{
    let a = (-1int, -1int, -1int);
    let b = (1int, 1int, 1int);
    lemma_unit_direction_products(a, a);
    lemma_unit_direction_products(a, b);
    assert(dot(a, a) == 3);
    assert(dot(a, b) == -3);
    assert(cross(a, b) == (0int, 0int, 0int));
    assert(cross((1, 0, 0), a) == (0int, 1int, -1int));
    assert(half_turn_axis(a) == (0int, 1int, -1int));
    lemma_unit_direction_products((1, 0, 0), a);
    lemma_unit_direction_products((0, 1, 0), a);
    assert(2 * comp(half_turn_axis(a), 0) * comp(half_turn_axis(a), 0) == 0) by (nonlinear_arith)
        requires comp(half_turn_axis(a), 0) == 0, comp(half_turn_axis(a), 0) == 0;
    assert(2 * comp(half_turn_axis(a), 0) * comp(half_turn_axis(a), 1) == 0) by (nonlinear_arith)
        requires comp(half_turn_axis(a), 0) == 0, comp(half_turn_axis(a), 1) == 1;
    assert(2 * comp(half_turn_axis(a), 0) * comp(half_turn_axis(a), 2) == 0) by (nonlinear_arith)
        requires comp(half_turn_axis(a), 0) == 0, comp(half_turn_axis(a), 2) == -1;
    assert(2 * comp(half_turn_axis(a), 1) * comp(half_turn_axis(a), 0) == 0) by (nonlinear_arith)
        requires comp(half_turn_axis(a), 1) == 1, comp(half_turn_axis(a), 0) == 0;
    assert(2 * comp(half_turn_axis(a), 1) * comp(half_turn_axis(a), 1) == 2) by (nonlinear_arith)
        requires comp(half_turn_axis(a), 1) == 1, comp(half_turn_axis(a), 1) == 1;
    assert(2 * comp(half_turn_axis(a), 1) * comp(half_turn_axis(a), 2) == -2) by (nonlinear_arith)
        requires comp(half_turn_axis(a), 1) == 1, comp(half_turn_axis(a), 2) == -1;
    assert(2 * comp(half_turn_axis(a), 2) * comp(half_turn_axis(a), 0) == 0) by (nonlinear_arith)
        requires comp(half_turn_axis(a), 2) == -1, comp(half_turn_axis(a), 0) == 0;
    assert(2 * comp(half_turn_axis(a), 2) * comp(half_turn_axis(a), 1) == -2) by (nonlinear_arith)
        requires comp(half_turn_axis(a), 2) == -1, comp(half_turn_axis(a), 1) == 1;
    assert(2 * comp(half_turn_axis(a), 2) * comp(half_turn_axis(a), 2) == 2) by (nonlinear_arith)
        requires comp(half_turn_axis(a), 2) == -1, comp(half_turn_axis(a), 2) == -1;
    assert(dot(half_turn_axis(a), half_turn_axis(a)) == 2) by (nonlinear_arith)
        requires half_turn_axis(a) == (0int, 1int, -1int);
    assert(arc_entry(a, b, 0, 0) == -2);
    assert(arc_entry(a, b, 0, 1) == 0);
    assert(arc_entry(a, b, 0, 2) == 0);
    assert(arc_entry(a, b, 1, 0) == 0);
    assert(arc_entry(a, b, 1, 1) == 0);
    assert(arc_entry(a, b, 1, 2) == -2);
    assert(arc_entry(a, b, 2, 0) == 0);
    assert(arc_entry(a, b, 2, 1) == -2);
    assert(arc_entry(a, b, 2, 2) == 0);
    assert(arc_den(a, b) == 2);
    let m = arc_spec(a, b);
    assert(m.row_x@ == (-2int, 0int, 0int));
    assert(m.row_y@ == (0int, 0int, -2int));
    assert(m.row_z@ == (0int, -2int, 0int));
    assert(m.apply_spec(a) == (2int, 2int, 2int));
}

/// The orientation rotation of `x` takes the reference vertex direction to `x`.
pub proof fn lemma_quat_rv_reaches(x: RotVert)
    ensures
        vertex_of(arc_spec(rv_vec(RV_ZERO), rv_vec(x)).apply_spec(rv_vec(RV_ZERO))) == Some(x),
{
    assert(rv_vec(RV_ZERO) == (-1int, -1int, -1int));
    match x {
        RotVert::XmYmZm => {
            assert(rv_vec(x) == (-1int, -1int, -1int));
            lemma_rv_arc_to_xm_ym_zm();
        },
        RotVert::XmYmZp => {
            assert(rv_vec(x) == (-1int, -1int, 1int));
            lemma_rv_arc_to_xm_ym_zp();
        },
        RotVert::XmYpZm => {
            assert(rv_vec(x) == (-1int, 1int, -1int));
            lemma_rv_arc_to_xm_yp_zm();
        },
        RotVert::XmYpZp => {
            assert(rv_vec(x) == (-1int, 1int, 1int));
            lemma_rv_arc_to_xm_yp_zp();
        },
        RotVert::XpYmZm => {
            assert(rv_vec(x) == (1int, -1int, -1int));
            lemma_rv_arc_to_xp_ym_zm();
        },
        RotVert::XpYmZp => {
            assert(rv_vec(x) == (1int, -1int, 1int));
            lemma_rv_arc_to_xp_ym_zp();
        },
        RotVert::XpYpZm => {
            assert(rv_vec(x) == (1int, 1int, -1int));
            lemma_rv_arc_to_xp_yp_zm();
        },
        RotVert::XpYpZp => {
            assert(rv_vec(x) == (1int, 1int, 1int));
            lemma_rv_arc_to_xp_yp_zp();
        },
    }
}

#[verifier::spinoff_prover]
proof fn lemma_re_arc_to_top_zm()
    ensures
        edge_of(arc_spec((0int, -1int, -1int), (0int, 1int, -1int)).apply_spec((0int, -1int, -1int))) == Some(RotEdge::TopZm),
{
    let a = (0int, -1int, -1int);
    let b = (0int, 1int, -1int);
    lemma_unit_direction_products(a, a);
    lemma_unit_direction_products(a, b);
    assert(dot(a, a) == 2);
    assert(dot(a, b) == 0);
    assert(cross(a, b) == (2int, 0int, 0int));
    assert(dot(a, b) * (dot(a, a) + dot(a, b)) == 0) by (nonlinear_arith)
        requires dot(a, b) == 0, dot(a, a) == 2;
    assert(dot(a, a) * (dot(a, a) + dot(a, b)) == 4) by (nonlinear_arith)
        requires dot(a, b) == 0, dot(a, a) == 2;
    assert((dot(a, a) + dot(a, b)) * skew(cross(a, b), 0, 0) == 0) by (nonlinear_arith)
        requires dot(a, b) == 0, dot(a, a) == 2, skew(cross(a, b), 0, 0) == 0;
    assert(comp(cross(a, b), 0) * comp(cross(a, b), 0) == 4) by (nonlinear_arith)
        requires comp(cross(a, b), 0) == 2, comp(cross(a, b), 0) == 2;
    assert((dot(a, a) + dot(a, b)) * skew(cross(a, b), 0, 1) == 0) by (nonlinear_arith)
        requires dot(a, b) == 0, dot(a, a) == 2, skew(cross(a, b), 0, 1) == 0;
    assert(comp(cross(a, b), 0) * comp(cross(a, b), 1) == 0) by (nonlinear_arith)
        requires comp(cross(a, b), 0) == 2, comp(cross(a, b), 1) == 0;
    assert((dot(a, a) + dot(a, b)) * skew(cross(a, b), 0, 2) == 0) by (nonlinear_arith)
        requires dot(a, b) == 0, dot(a, a) == 2, skew(cross(a, b), 0, 2) == 0;
    assert(comp(cross(a, b), 0) * comp(cross(a, b), 2) == 0) by (nonlinear_arith)
        requires comp(cross(a, b), 0) == 2, comp(cross(a, b), 2) == 0;
    assert((dot(a, a) + dot(a, b)) * skew(cross(a, b), 1, 0) == 0) by (nonlinear_arith)
        requires dot(a, b) == 0, dot(a, a) == 2, skew(cross(a, b), 1, 0) == 0;
    assert(comp(cross(a, b), 1) * comp(cross(a, b), 0) == 0) by (nonlinear_arith)
        requires comp(cross(a, b), 1) == 0, comp(cross(a, b), 0) == 2;
    assert((dot(a, a) + dot(a, b)) * skew(cross(a, b), 1, 1) == 0) by (nonlinear_arith)
        requires dot(a, b) == 0, dot(a, a) == 2, skew(cross(a, b), 1, 1) == 0;
    assert(comp(cross(a, b), 1) * comp(cross(a, b), 1) == 0) by (nonlinear_arith)
        requires comp(cross(a, b), 1) == 0, comp(cross(a, b), 1) == 0;
    assert((dot(a, a) + dot(a, b)) * skew(cross(a, b), 1, 2) == -4) by (nonlinear_arith)
        requires dot(a, b) == 0, dot(a, a) == 2, skew(cross(a, b), 1, 2) == -2;
    assert(comp(cross(a, b), 1) * comp(cross(a, b), 2) == 0) by (nonlinear_arith)
        requires comp(cross(a, b), 1) == 0, comp(cross(a, b), 2) == 0;
    assert((dot(a, a) + dot(a, b)) * skew(cross(a, b), 2, 0) == 0) by (nonlinear_arith)
        requires dot(a, b) == 0, dot(a, a) == 2, skew(cross(a, b), 2, 0) == 0;
    assert(comp(cross(a, b), 2) * comp(cross(a, b), 0) == 0) by (nonlinear_arith)
        requires comp(cross(a, b), 2) == 0, comp(cross(a, b), 0) == 2;
    assert((dot(a, a) + dot(a, b)) * skew(cross(a, b), 2, 1) == 4) by (nonlinear_arith)
        requires dot(a, b) == 0, dot(a, a) == 2, skew(cross(a, b), 2, 1) == 2;
    assert(comp(cross(a, b), 2) * comp(cross(a, b), 1) == 0) by (nonlinear_arith)
        requires comp(cross(a, b), 2) == 0, comp(cross(a, b), 1) == 0;
    assert((dot(a, a) + dot(a, b)) * skew(cross(a, b), 2, 2) == 0) by (nonlinear_arith)
        requires dot(a, b) == 0, dot(a, a) == 2, skew(cross(a, b), 2, 2) == 0;
    assert(comp(cross(a, b), 2) * comp(cross(a, b), 2) == 0) by (nonlinear_arith)
        requires comp(cross(a, b), 2) == 0, comp(cross(a, b), 2) == 0;
    assert(arc_entry(a, b, 0, 0) == 4);
    assert(arc_entry(a, b, 0, 1) == 0);
    assert(arc_entry(a, b, 0, 2) == 0);
    assert(arc_entry(a, b, 1, 0) == 0);
    assert(arc_entry(a, b, 1, 1) == 0);
    assert(arc_entry(a, b, 1, 2) == -4);
    assert(arc_entry(a, b, 2, 0) == 0);
    assert(arc_entry(a, b, 2, 1) == 4);
    assert(arc_entry(a, b, 2, 2) == 0);
    assert(arc_den(a, b) == 4);
    let m = arc_spec(a, b);
    assert(m.row_x@ == (4int, 0int, 0int));
    assert(m.row_y@ == (0int, 0int, -4int));
    assert(m.row_z@ == (0int, 4int, 0int));
    assert(m.apply_spec(a) == (0int, 4int, -4int));
}

#[verifier::spinoff_prover]
proof fn lemma_re_arc_to_top_zp()
    ensures
        edge_of(arc_spec((0int, -1int, -1int), (0int, 1int, 1int)).apply_spec((0int, -1int, -1int))) == Some(RotEdge::TopZp),
{
    let a = (0int, -1int, -1int);
    let b = (0int, 1int, 1int);
    lemma_unit_direction_products(a, a);
    lemma_unit_direction_products(a, b);
    assert(dot(a, a) == 2);
    assert(dot(a, b) == -2);
    assert(cross(a, b) == (0int, 0int, 0int));
    assert(cross((1, 0, 0), a) == (0int, 1int, -1int));
    assert(half_turn_axis(a) == (0int, 1int, -1int));
    lemma_unit_direction_products((1, 0, 0), a);
    lemma_unit_direction_products((0, 1, 0), a);
    assert(2 * comp(half_turn_axis(a), 0) * comp(half_turn_axis(a), 0) == 0) by (nonlinear_arith)
        requires comp(half_turn_axis(a), 0) == 0, comp(half_turn_axis(a), 0) == 0;
    assert(2 * comp(half_turn_axis(a), 0) * comp(half_turn_axis(a), 1) == 0) by (nonlinear_arith)
        requires comp(half_turn_axis(a), 0) == 0, comp(half_turn_axis(a), 1) == 1;
    assert(2 * comp(half_turn_axis(a), 0) * comp(half_turn_axis(a), 2) == 0) by (nonlinear_arith)
        requires comp(half_turn_axis(a), 0) == 0, comp(half_turn_axis(a), 2) == -1;
    assert(2 * comp(half_turn_axis(a), 1) * comp(half_turn_axis(a), 0) == 0) by (nonlinear_arith)
        requires comp(half_turn_axis(a), 1) == 1, comp(half_turn_axis(a), 0) == 0;
    assert(2 * comp(half_turn_axis(a), 1) * comp(half_turn_axis(a), 1) == 2) by (nonlinear_arith)
        requires comp(half_turn_axis(a), 1) == 1, comp(half_turn_axis(a), 1) == 1;
    assert(2 * comp(half_turn_axis(a), 1) * comp(half_turn_axis(a), 2) == -2) by (nonlinear_arith)
        requires comp(half_turn_axis(a), 1) == 1, comp(half_turn_axis(a), 2) == -1;
    assert(2 * comp(half_turn_axis(a), 2) * comp(half_turn_axis(a), 0) == 0) by (nonlinear_arith)
        requires comp(half_turn_axis(a), 2) == -1, comp(half_turn_axis(a), 0) == 0;
    assert(2 * comp(half_turn_axis(a), 2) * comp(half_turn_axis(a), 1) == -2) by (nonlinear_arith)
        requires comp(half_turn_axis(a), 2) == -1, comp(half_turn_axis(a), 1) == 1;
    assert(2 * comp(half_turn_axis(a), 2) * comp(half_turn_axis(a), 2) == 2) by (nonlinear_arith)
        requires comp(half_turn_axis(a), 2) == -1, comp(half_turn_axis(a), 2) == -1;
    assert(dot(half_turn_axis(a), half_turn_axis(a)) == 2) by (nonlinear_arith)
        requires half_turn_axis(a) == (0int, 1int, -1int);
    assert(arc_entry(a, b, 0, 0) == -2);
    assert(arc_entry(a, b, 0, 1) == 0);
    assert(arc_entry(a, b, 0, 2) == 0);
    assert(arc_entry(a, b, 1, 0) == 0);
    assert(arc_entry(a, b, 1, 1) == 0);
    assert(arc_entry(a, b, 1, 2) == -2);
    assert(arc_entry(a, b, 2, 0) == 0);
    assert(arc_entry(a, b, 2, 1) == -2);
    assert(arc_entry(a, b, 2, 2) == 0);
    assert(arc_den(a, b) == 2);
    let m = arc_spec(a, b);
    assert(m.row_x@ == (-2int, 0int, 0int));
    assert(m.row_y@ == (0int, 0int, -2int));
    assert(m.row_z@ == (0int, -2int, 0int));
    assert(m.apply_spec(a) == (0int, 2int, 2int));
}

#[verifier::spinoff_prover]
proof fn lemma_re_arc_to_top_xm()
    ensures
        edge_of(arc_spec((0int, -1int, -1int), (-1int, 1int, 0int)).apply_spec((0int, -1int, -1int))) == Some(RotEdge::TopXm),
{
    let a = (0int, -1int, -1int);
    let b = (-1int, 1int, 0int);
    lemma_unit_direction_products(a, a);
    lemma_unit_direction_products(a, b);
    assert(dot(a, a) == 2);
    assert(dot(a, b) == -1);
    assert(cross(a, b) == (1int, 1int, -1int));
    assert(dot(a, b) * (dot(a, a) + dot(a, b)) == -1) by (nonlinear_arith)
        requires dot(a, b) == -1, dot(a, a) == 2;
    assert(dot(a, a) * (dot(a, a) + dot(a, b)) == 2) by (nonlinear_arith)
        requires dot(a, b) == -1, dot(a, a) == 2;
    assert((dot(a, a) + dot(a, b)) * skew(cross(a, b), 0, 0) == 0) by (nonlinear_arith)
        requires dot(a, b) == -1, dot(a, a) == 2, skew(cross(a, b), 0, 0) == 0;
    assert(comp(cross(a, b), 0) * comp(cross(a, b), 0) == 1) by (nonlinear_arith)
        requires comp(cross(a, b), 0) == 1, comp(cross(a, b), 0) == 1;
    assert((dot(a, a) + dot(a, b)) * skew(cross(a, b), 0, 1) == 1) by (nonlinear_arith)
        requires dot(a, b) == -1, dot(a, a) == 2, skew(cross(a, b), 0, 1) == 1;
    assert(comp(cross(a, b), 0) * comp(cross(a, b), 1) == 1) by (nonlinear_arith)
        requires comp(cross(a, b), 0) == 1, comp(cross(a, b), 1) == 1;
    assert((dot(a, a) + dot(a, b)) * skew(cross(a, b), 0, 2) == 1) by (nonlinear_arith)
        requires dot(a, b) == -1, dot(a, a) == 2, skew(cross(a, b), 0, 2) == 1;
    assert(comp(cross(a, b), 0) * comp(cross(a, b), 2) == -1) by (nonlinear_arith)
        requires comp(cross(a, b), 0) == 1, comp(cross(a, b), 2) == -1;
    assert((dot(a, a) + dot(a, b)) * skew(cross(a, b), 1, 0) == -1) by (nonlinear_arith)
        requires dot(a, b) == -1, dot(a, a) == 2, skew(cross(a, b), 1, 0) == -1;
    assert(comp(cross(a, b), 1) * comp(cross(a, b), 0) == 1) by (nonlinear_arith)
        requires comp(cross(a, b), 1) == 1, comp(cross(a, b), 0) == 1;
    assert((dot(a, a) + dot(a, b)) * skew(cross(a, b), 1, 1) == 0) by (nonlinear_arith)
        requires dot(a, b) == -1, dot(a, a) == 2, skew(cross(a, b), 1, 1) == 0;
    assert(comp(cross(a, b), 1) * comp(cross(a, b), 1) == 1) by (nonlinear_arith)
        requires comp(cross(a, b), 1) == 1, comp(cross(a, b), 1) == 1;
    assert((dot(a, a) + dot(a, b)) * skew(cross(a, b), 1, 2) == -1) by (nonlinear_arith)
        requires dot(a, b) == -1, dot(a, a) == 2, skew(cross(a, b), 1, 2) == -1;
    assert(comp(cross(a, b), 1) * comp(cross(a, b), 2) == -1) by (nonlinear_arith)
        requires comp(cross(a, b), 1) == 1, comp(cross(a, b), 2) == -1;
    assert((dot(a, a) + dot(a, b)) * skew(cross(a, b), 2, 0) == -1) by (nonlinear_arith)
        requires dot(a, b) == -1, dot(a, a) == 2, skew(cross(a, b), 2, 0) == -1;
    assert(comp(cross(a, b), 2) * comp(cross(a, b), 0) == -1) by (nonlinear_arith)
        requires comp(cross(a, b), 2) == -1, comp(cross(a, b), 0) == 1;
    assert((dot(a, a) + dot(a, b)) * skew(cross(a, b), 2, 1) == 1) by (nonlinear_arith)
        requires dot(a, b) == -1, dot(a, a) == 2, skew(cross(a, b), 2, 1) == 1;
    assert(comp(cross(a, b), 2) * comp(cross(a, b), 1) == -1) by (nonlinear_arith)
        requires comp(cross(a, b), 2) == -1, comp(cross(a, b), 1) == 1;
    assert((dot(a, a) + dot(a, b)) * skew(cross(a, b), 2, 2) == 0) by (nonlinear_arith)
        requires dot(a, b) == -1, dot(a, a) == 2, skew(cross(a, b), 2, 2) == 0;
    assert(comp(cross(a, b), 2) * comp(cross(a, b), 2) == 1) by (nonlinear_arith)
        requires comp(cross(a, b), 2) == -1, comp(cross(a, b), 2) == -1;
    assert(arc_entry(a, b, 0, 0) == 0);
    assert(arc_entry(a, b, 0, 1) == 2);
    assert(arc_entry(a, b, 0, 2) == 0);
    assert(arc_entry(a, b, 1, 0) == 0);
    assert(arc_entry(a, b, 1, 1) == 0);
    assert(arc_entry(a, b, 1, 2) == -2);
    assert(arc_entry(a, b, 2, 0) == -2);
    assert(arc_entry(a, b, 2, 1) == 0);
    assert(arc_entry(a, b, 2, 2) == 0);
    assert(arc_den(a, b) == 2);
    let m = arc_spec(a, b);
    assert(m.row_x@ == (0int, 2int, 0int));
    assert(m.row_y@ == (0int, 0int, -2int));
    assert(m.row_z@ == (-2int, 0int, 0int));
    assert(m.apply_spec(a) == (-2int, 2int, 0int));
}

#[verifier::spinoff_prover]
proof fn lemma_re_arc_to_top_xp()
    ensures
        edge_of(arc_spec((0int, -1int, -1int), (1int, 1int, 0int)).apply_spec((0int, -1int, -1int))) == Some(RotEdge::TopXp),
{
    let a = (0int, -1int, -1int);
    let b = (1int, 1int, 0int);
    lemma_unit_direction_products(a, a);
    lemma_unit_direction_products(a, b);
    assert(dot(a, a) == 2);
    assert(dot(a, b) == -1);
    assert(cross(a, b) == (1int, -1int, 1int));
    assert(dot(a, b) * (dot(a, a) + dot(a, b)) == -1) by (nonlinear_arith)
        requires dot(a, b) == -1, dot(a, a) == 2;
    assert(dot(a, a) * (dot(a, a) + dot(a, b)) == 2) by (nonlinear_arith)
        requires dot(a, b) == -1, dot(a, a) == 2;
    assert((dot(a, a) + dot(a, b)) * skew(cross(a, b), 0, 0) == 0) by (nonlinear_arith)
        requires dot(a, b) == -1, dot(a, a) == 2, skew(cross(a, b), 0, 0) == 0;
    assert(comp(cross(a, b), 0) * comp(cross(a, b), 0) == 1) by (nonlinear_arith)
        requires comp(cross(a, b), 0) == 1, comp(cross(a, b), 0) == 1;
    assert((dot(a, a) + dot(a, b)) * skew(cross(a, b), 0, 1) == -1) by (nonlinear_arith)
        requires dot(a, b) == -1, dot(a, a) == 2, skew(cross(a, b), 0, 1) == -1;
    assert(comp(cross(a, b), 0) * comp(cross(a, b), 1) == -1) by (nonlinear_arith)
        requires comp(cross(a, b), 0) == 1, comp(cross(a, b), 1) == -1;
    assert((dot(a, a) + dot(a, b)) * skew(cross(a, b), 0, 2) == -1) by (nonlinear_arith)
        requires dot(a, b) == -1, dot(a, a) == 2, skew(cross(a, b), 0, 2) == -1;
    assert(comp(cross(a, b), 0) * comp(cross(a, b), 2) == 1) by (nonlinear_arith)
        requires comp(cross(a, b), 0) == 1, comp(cross(a, b), 2) == 1;
    assert((dot(a, a) + dot(a, b)) * skew(cross(a, b), 1, 0) == 1) by (nonlinear_arith)
        requires dot(a, b) == -1, dot(a, a) == 2, skew(cross(a, b), 1, 0) == 1;
    assert(comp(cross(a, b), 1) * comp(cross(a, b), 0) == -1) by (nonlinear_arith)
        requires comp(cross(a, b), 1) == -1, comp(cross(a, b), 0) == 1;
    assert((dot(a, a) + dot(a, b)) * skew(cross(a, b), 1, 1) == 0) by (nonlinear_arith)
        requires dot(a, b) == -1, dot(a, a) == 2, skew(cross(a, b), 1, 1) == 0;
    assert(comp(cross(a, b), 1) * comp(cross(a, b), 1) == 1) by (nonlinear_arith)
        requires comp(cross(a, b), 1) == -1, comp(cross(a, b), 1) == -1;
    assert((dot(a, a) + dot(a, b)) * skew(cross(a, b), 1, 2) == -1) by (nonlinear_arith)
        requires dot(a, b) == -1, dot(a, a) == 2, skew(cross(a, b), 1, 2) == -1;
    assert(comp(cross(a, b), 1) * comp(cross(a, b), 2) == -1) by (nonlinear_arith)
        requires comp(cross(a, b), 1) == -1, comp(cross(a, b), 2) == 1;
    assert((dot(a, a) + dot(a, b)) * skew(cross(a, b), 2, 0) == 1) by (nonlinear_arith)
        requires dot(a, b) == -1, dot(a, a) == 2, skew(cross(a, b), 2, 0) == 1;
    assert(comp(cross(a, b), 2) * comp(cross(a, b), 0) == 1) by (nonlinear_arith)
        requires comp(cross(a, b), 2) == 1, comp(cross(a, b), 0) == 1;
    assert((dot(a, a) + dot(a, b)) * skew(cross(a, b), 2, 1) == 1) by (nonlinear_arith)
        requires dot(a, b) == -1, dot(a, a) == 2, skew(cross(a, b), 2, 1) == 1;
    assert(comp(cross(a, b), 2) * comp(cross(a, b), 1) == -1) by (nonlinear_arith)
        requires comp(cross(a, b), 2) == 1, comp(cross(a, b), 1) == -1;
    assert((dot(a, a) + dot(a, b)) * skew(cross(a, b), 2, 2) == 0) by (nonlinear_arith)
        requires dot(a, b) == -1, dot(a, a) == 2, skew(cross(a, b), 2, 2) == 0;
    assert(comp(cross(a, b), 2) * comp(cross(a, b), 2) == 1) by (nonlinear_arith)
        requires comp(cross(a, b), 2) == 1, comp(cross(a, b), 2) == 1;
    assert(arc_entry(a, b, 0, 0) == 0);
    assert(arc_entry(a, b, 0, 1) == -2);
    assert(arc_entry(a, b, 0, 2) == 0);
    assert(arc_entry(a, b, 1, 0) == 0);
    assert(arc_entry(a, b, 1, 1) == 0);
    assert(arc_entry(a, b, 1, 2) == -2);
    assert(arc_entry(a, b, 2, 0) == 2);
    assert(arc_entry(a, b, 2, 1) == 0);
    assert(arc_entry(a, b, 2, 2) == 0);
    assert(arc_den(a, b) == 2);
    let m = arc_spec(a, b);
    assert(m.row_x@ == (0int, -2int, 0int));
    assert(m.row_y@ == (0int, 0int, -2int));
    assert(m.row_z@ == (2int, 0int, 0int));
    assert(m.apply_spec(a) == (2int, 2int, 0int));
}

#[verifier::spinoff_prover]
proof fn lemma_re_arc_to_mid_zm_xm()
    ensures
        edge_of(arc_spec((0int, -1int, -1int), (-1int, 0int, -1int)).apply_spec((0int, -1int, -1int))) == Some(RotEdge::MidZmXm),
{
    let a = (0int, -1int, -1int);
    let b = (-1int, 0int, -1int);
    lemma_unit_direction_products(a, a);
    lemma_unit_direction_products(a, b);
    assert(dot(a, a) == 2);
    assert(dot(a, b) == 1);
    assert(cross(a, b) == (1int, 1int, -1int));
    assert(dot(a, b) * (dot(a, a) + dot(a, b)) == 3) by (nonlinear_arith)
        requires dot(a, b) == 1, dot(a, a) == 2;
    assert(dot(a, a) * (dot(a, a) + dot(a, b)) == 6) by (nonlinear_arith)
        requires dot(a, b) == 1, dot(a, a) == 2;
    assert((dot(a, a) + dot(a, b)) * skew(cross(a, b), 0, 0) == 0) by (nonlinear_arith)
        requires dot(a, b) == 1, dot(a, a) == 2, skew(cross(a, b), 0, 0) == 0;
    assert(comp(cross(a, b), 0) * comp(cross(a, b), 0) == 1) by (nonlinear_arith)
        requires comp(cross(a, b), 0) == 1, comp(cross(a, b), 0) == 1;
    assert((dot(a, a) + dot(a, b)) * skew(cross(a, b), 0, 1) == 3) by (nonlinear_arith)
        requires dot(a, b) == 1, dot(a, a) == 2, skew(cross(a, b), 0, 1) == 1;
    assert(comp(cross(a, b), 0) * comp(cross(a, b), 1) == 1) by (nonlinear_arith)
        requires comp(cross(a, b), 0) == 1, comp(cross(a, b), 1) == 1;
    assert((dot(a, a) + dot(a, b)) * skew(cross(a, b), 0, 2) == 3) by (nonlinear_arith)
        requires dot(a, b) == 1, dot(a, a) == 2, skew(cross(a, b), 0, 2) == 1;
    assert(comp(cross(a, b), 0) * comp(cross(a, b), 2) == -1) by (nonlinear_arith)
        requires comp(cross(a, b), 0) == 1, comp(cross(a, b), 2) == -1;
    assert((dot(a, a) + dot(a, b)) * skew(cross(a, b), 1, 0) == -3) by (nonlinear_arith)
        requires dot(a, b) == 1, dot(a, a) == 2, skew(cross(a, b), 1, 0) == -1;
    assert(comp(cross(a, b), 1) * comp(cross(a, b), 0) == 1) by (nonlinear_arith)
        requires comp(cross(a, b), 1) == 1, comp(cross(a, b), 0) == 1;
    assert((dot(a, a) + dot(a, b)) * skew(cross(a, b), 1, 1) == 0) by (nonlinear_arith)
        requires dot(a, b) == 1, dot(a, a) == 2, skew(cross(a, b), 1, 1) == 0;
    assert(comp(cross(a, b), 1) * comp(cross(a, b), 1) == 1) by (nonlinear_arith)
        requires comp(cross(a, b), 1) == 1, comp(cross(a, b), 1) == 1;
    assert((dot(a, a) + dot(a, b)) * skew(cross(a, b), 1, 2) == -3) by (nonlinear_arith)
        requires dot(a, b) == 1, dot(a, a) == 2, skew(cross(a, b), 1, 2) == -1;
    assert(comp(cross(a, b), 1) * comp(cross(a, b), 2) == -1) by (nonlinear_arith)
        requires comp(cross(a, b), 1) == 1, comp(cross(a, b), 2) == -1;
    assert((dot(a, a) + dot(a, b)) * skew(cross(a, b), 2, 0) == -3) by (nonlinear_arith)
        requires dot(a, b) == 1, dot(a, a) == 2, skew(cross(a, b), 2, 0) == -1;
    assert(comp(cross(a, b), 2) * comp(cross(a, b), 0) == -1) by (nonlinear_arith)
        requires comp(cross(a, b), 2) == -1, comp(cross(a, b), 0) == 1;
    assert((dot(a, a) + dot(a, b)) * skew(cross(a, b), 2, 1) == 3) by (nonlinear_arith)
        requires dot(a, b) == 1, dot(a, a) == 2, skew(cross(a, b), 2, 1) == 1;
    assert(comp(cross(a, b), 2) * comp(cross(a, b), 1) == -1) by (nonlinear_arith)
        requires comp(cross(a, b), 2) == -1, comp(cross(a, b), 1) == 1;
    assert((dot(a, a) + dot(a, b)) * skew(cross(a, b), 2, 2) == 0) by (nonlinear_arith)
        requires dot(a, b) == 1, dot(a, a) == 2, skew(cross(a, b), 2, 2) == 0;
    assert(comp(cross(a, b), 2) * comp(cross(a, b), 2) == 1) by (nonlinear_arith)
        requires comp(cross(a, b), 2) == -1, comp(cross(a, b), 2) == -1;
    assert(arc_entry(a, b, 0, 0) == 4);
    assert(arc_entry(a, b, 0, 1) == 4);
    assert(arc_entry(a, b, 0, 2) == 2);
    assert(arc_entry(a, b, 1, 0) == -2);
    assert(arc_entry(a, b, 1, 1) == 4);
    assert(arc_entry(a, b, 1, 2) == -4);
    assert(arc_entry(a, b, 2, 0) == -4);
    assert(arc_entry(a, b, 2, 1) == 2);
    assert(arc_entry(a, b, 2, 2) == 4);
    assert(arc_den(a, b) == 6);
    let m = arc_spec(a, b);
    assert(m.row_x@ == (4int, 4int, 2int));
    assert(m.row_y@ == (-2int, 4int, -4int));
    assert(m.row_z@ == (-4int, 2int, 4int));
    assert(m.apply_spec(a) == (-6int, 0int, -6int));
}

#[verifier::spinoff_prover]
proof fn lemma_re_arc_to_mid_zp_xp()
    ensures
        edge_of(arc_spec((0int, -1int, -1int), (1int, 0int, 1int)).apply_spec((0int, -1int, -1int))) == Some(RotEdge::MidZpXp),
{
    let a = (0int, -1int, -1int);
    let b = (1int, 0int, 1int);
    lemma_unit_direction_products(a, a);
    lemma_unit_direction_products(a, b);
    assert(dot(a, a) == 2);
    assert(dot(a, b) == -1);
    assert(cross(a, b) == (-1int, -1int, 1int));
    assert(dot(a, b) * (dot(a, a) + dot(a, b)) == -1) by (nonlinear_arith)
        requires dot(a, b) == -1, dot(a, a) == 2;
    assert(dot(a, a) * (dot(a, a) + dot(a, b)) == 2) by (nonlinear_arith)
        requires dot(a, b) == -1, dot(a, a) == 2;
    assert((dot(a, a) + dot(a, b)) * skew(cross(a, b), 0, 0) == 0) by (nonlinear_arith)
        requires dot(a, b) == -1, dot(a, a) == 2, skew(cross(a, b), 0, 0) == 0;
    assert(comp(cross(a, b), 0) * comp(cross(a, b), 0) == 1) by (nonlinear_arith)
        requires comp(cross(a, b), 0) == -1, comp(cross(a, b), 0) == -1;
    assert((dot(a, a) + dot(a, b)) * skew(cross(a, b), 0, 1) == -1) by (nonlinear_arith)
        requires dot(a, b) == -1, dot(a, a) == 2, skew(cross(a, b), 0, 1) == -1;
    assert(comp(cross(a, b), 0) * comp(cross(a, b), 1) == 1) by (nonlinear_arith)
        requires comp(cross(a, b), 0) == -1, comp(cross(a, b), 1) == -1;
    assert((dot(a, a) + dot(a, b)) * skew(cross(a, b), 0, 2) == -1) by (nonlinear_arith)
        requires dot(a, b) == -1, dot(a, a) == 2, skew(cross(a, b), 0, 2) == -1;
    assert(comp(cross(a, b), 0) * comp(cross(a, b), 2) == -1) by (nonlinear_arith)
        requires comp(cross(a, b), 0) == -1, comp(cross(a, b), 2) == 1;
    assert((dot(a, a) + dot(a, b)) * skew(cross(a, b), 1, 0) == 1) by (nonlinear_arith)
        requires dot(a, b) == -1, dot(a, a) == 2, skew(cross(a, b), 1, 0) == 1;
    assert(comp(cross(a, b), 1) * comp(cross(a, b), 0) == 1) by (nonlinear_arith)
        requires comp(cross(a, b), 1) == -1, comp(cross(a, b), 0) == -1;
    assert((dot(a, a) + dot(a, b)) * skew(cross(a, b), 1, 1) == 0) by (nonlinear_arith)
        requires dot(a, b) == -1, dot(a, a) == 2, skew(cross(a, b), 1, 1) == 0;
    assert(comp(cross(a, b), 1) * comp(cross(a, b), 1) == 1) by (nonlinear_arith)
        requires comp(cross(a, b), 1) == -1, comp(cross(a, b), 1) == -1;
    assert((dot(a, a) + dot(a, b)) * skew(cross(a, b), 1, 2) == 1) by (nonlinear_arith)
        requires dot(a, b) == -1, dot(a, a) == 2, skew(cross(a, b), 1, 2) == 1;
    assert(comp(cross(a, b), 1) * comp(cross(a, b), 2) == -1) by (nonlinear_arith)
        requires comp(cross(a, b), 1) == -1, comp(cross(a, b), 2) == 1;
    assert((dot(a, a) + dot(a, b)) * skew(cross(a, b), 2, 0) == 1) by (nonlinear_arith)
        requires dot(a, b) == -1, dot(a, a) == 2, skew(cross(a, b), 2, 0) == 1;
    assert(comp(cross(a, b), 2) * comp(cross(a, b), 0) == -1) by (nonlinear_arith)
        requires comp(cross(a, b), 2) == 1, comp(cross(a, b), 0) == -1;
    assert((dot(a, a) + dot(a, b)) * skew(cross(a, b), 2, 1) == -1) by (nonlinear_arith)
        requires dot(a, b) == -1, dot(a, a) == 2, skew(cross(a, b), 2, 1) == -1;
    assert(comp(cross(a, b), 2) * comp(cross(a, b), 1) == -1) by (nonlinear_arith)
        requires comp(cross(a, b), 2) == 1, comp(cross(a, b), 1) == -1;
    assert((dot(a, a) + dot(a, b)) * skew(cross(a, b), 2, 2) == 0) by (nonlinear_arith)
        requires dot(a, b) == -1, dot(a, a) == 2, skew(cross(a, b), 2, 2) == 0;
    assert(comp(cross(a, b), 2) * comp(cross(a, b), 2) == 1) by (nonlinear_arith)
        requires comp(cross(a, b), 2) == 1, comp(cross(a, b), 2) == 1;
    assert(arc_entry(a, b, 0, 0) == 0);
    assert(arc_entry(a, b, 0, 1) == 0);
    assert(arc_entry(a, b, 0, 2) == -2);
    assert(arc_entry(a, b, 1, 0) == 2);
    assert(arc_entry(a, b, 1, 1) == 0);
    assert(arc_entry(a, b, 1, 2) == 0);
    assert(arc_entry(a, b, 2, 0) == 0);
    assert(arc_entry(a, b, 2, 1) == -2);
    assert(arc_entry(a, b, 2, 2) == 0);
    assert(arc_den(a, b) == 2);
    let m = arc_spec(a, b);
    assert(m.row_x@ == (0int, 0int, -2int));
    assert(m.row_y@ == (2int, 0int, 0int));
    assert(m.row_z@ == (0int, -2int, 0int));
    assert(m.apply_spec(a) == (2int, 0int, 2int));
}

#[verifier::spinoff_prover]
proof fn lemma_re_arc_to_mid_zp_xm()
    ensures
        edge_of(arc_spec((0int, -1int, -1int), (1int, 0int, -1int)).apply_spec((0int, -1int, -1int))) == Some(RotEdge::MidZpXm),
{
    let a = (0int, -1int, -1int);
    let b = (1int, 0int, -1int);
    lemma_unit_direction_products(a, a);
    lemma_unit_direction_products(a, b);
    assert(dot(a, a) == 2);
    assert(dot(a, b) == 1);
    assert(cross(a, b) == (1int, -1int, 1int));
    assert(dot(a, b) * (dot(a, a) + dot(a, b)) == 3) by (nonlinear_arith)
        requires dot(a, b) == 1, dot(a, a) == 2;
    assert(dot(a, a) * (dot(a, a) + dot(a, b)) == 6) by (nonlinear_arith)
        requires dot(a, b) == 1, dot(a, a) == 2;
    assert((dot(a, a) + dot(a, b)) * skew(cross(a, b), 0, 0) == 0) by (nonlinear_arith)
        requires dot(a, b) == 1, dot(a, a) == 2, skew(cross(a, b), 0, 0) == 0;
    assert(comp(cross(a, b), 0) * comp(cross(a, b), 0) == 1) by (nonlinear_arith)
        requires comp(cross(a, b), 0) == 1, comp(cross(a, b), 0) == 1;
    assert((dot(a, a) + dot(a, b)) * skew(cross(a, b), 0, 1) == -3) by (nonlinear_arith)
        requires dot(a, b) == 1, dot(a, a) == 2, skew(cross(a, b), 0, 1) == -1;
    assert(comp(cross(a, b), 0) * comp(cross(a, b), 1) == -1) by (nonlinear_arith)
        requires comp(cross(a, b), 0) == 1, comp(cross(a, b), 1) == -1;
    assert((dot(a, a) + dot(a, b)) * skew(cross(a, b), 0, 2) == -3) by (nonlinear_arith)
        requires dot(a, b) == 1, dot(a, a) == 2, skew(cross(a, b), 0, 2) == -1;
    assert(comp(cross(a, b), 0) * comp(cross(a, b), 2) == 1) by (nonlinear_arith)
        requires comp(cross(a, b), 0) == 1, comp(cross(a, b), 2) == 1;
    assert((dot(a, a) + dot(a, b)) * skew(cross(a, b), 1, 0) == 3) by (nonlinear_arith)
        requires dot(a, b) == 1, dot(a, a) == 2, skew(cross(a, b), 1, 0) == 1;
    assert(comp(cross(a, b), 1) * comp(cross(a, b), 0) == -1) by (nonlinear_arith)
        requires comp(cross(a, b), 1) == -1, comp(cross(a, b), 0) == 1;
    assert((dot(a, a) + dot(a, b)) * skew(cross(a, b), 1, 1) == 0) by (nonlinear_arith)
        requires dot(a, b) == 1, dot(a, a) == 2, skew(cross(a, b), 1, 1) == 0;
    assert(comp(cross(a, b), 1) * comp(cross(a, b), 1) == 1) by (nonlinear_arith)
        requires comp(cross(a, b), 1) == -1, comp(cross(a, b), 1) == -1;
    assert((dot(a, a) + dot(a, b)) * skew(cross(a, b), 1, 2) == -3) by (nonlinear_arith)
        requires dot(a, b) == 1, dot(a, a) == 2, skew(cross(a, b), 1, 2) == -1;
    assert(comp(cross(a, b), 1) * comp(cross(a, b), 2) == -1) by (nonlinear_arith)
        requires comp(cross(a, b), 1) == -1, comp(cross(a, b), 2) == 1;
    assert((dot(a, a) + dot(a, b)) * skew(cross(a, b), 2, 0) == 3) by (nonlinear_arith)
        requires dot(a, b) == 1, dot(a, a) == 2, skew(cross(a, b), 2, 0) == 1;
    assert(comp(cross(a, b), 2) * comp(cross(a, b), 0) == 1) by (nonlinear_arith)
        requires comp(cross(a, b), 2) == 1, comp(cross(a, b), 0) == 1;
    assert((dot(a, a) + dot(a, b)) * skew(cross(a, b), 2, 1) == 3) by (nonlinear_arith)
        requires dot(a, b) == 1, dot(a, a) == 2, skew(cross(a, b), 2, 1) == 1;
    assert(comp(cross(a, b), 2) * comp(cross(a, b), 1) == -1) by (nonlinear_arith)
        requires comp(cross(a, b), 2) == 1, comp(cross(a, b), 1) == -1;
    assert((dot(a, a) + dot(a, b)) * skew(cross(a, b), 2, 2) == 0) by (nonlinear_arith)
        requires dot(a, b) == 1, dot(a, a) == 2, skew(cross(a, b), 2, 2) == 0;
    assert(comp(cross(a, b), 2) * comp(cross(a, b), 2) == 1) by (nonlinear_arith)
        requires comp(cross(a, b), 2) == 1, comp(cross(a, b), 2) == 1;
    assert(arc_entry(a, b, 0, 0) == 4);
    assert(arc_entry(a, b, 0, 1) == -4);
    assert(arc_entry(a, b, 0, 2) == -2);
    assert(arc_entry(a, b, 1, 0) == 2);
    assert(arc_entry(a, b, 1, 1) == 4);
    assert(arc_entry(a, b, 1, 2) == -4);
    assert(arc_entry(a, b, 2, 0) == 4);
    assert(arc_entry(a, b, 2, 1) == 2);
    assert(arc_entry(a, b, 2, 2) == 4);
    assert(arc_den(a, b) == 6);
    let m = arc_spec(a, b);
    assert(m.row_x@ == (4int, -4int, -2int));
    assert(m.row_y@ == (2int, 4int, -4int));
    assert(m.row_z@ == (4int, 2int, 4int));
    assert(m.apply_spec(a) == (6int, 0int, -6int));
}

#[verifier::spinoff_prover]
proof fn lemma_re_arc_to_mid_zm_xp()
    ensures
        edge_of(arc_spec((0int, -1int, -1int), (-1int, 0int, 1int)).apply_spec((0int, -1int, -1int))) == Some(RotEdge::MidZmXp),
{
    let a = (0int, -1int, -1int);
    let b = (-1int, 0int, 1int);
    lemma_unit_direction_products(a, a);
    lemma_unit_direction_products(a, b);
    assert(dot(a, a) == 2);
    assert(dot(a, b) == -1);
    assert(cross(a, b) == (-1int, 1int, -1int));
    assert(dot(a, b) * (dot(a, a) + dot(a, b)) == -1) by (nonlinear_arith)
        requires dot(a, b) == -1, dot(a, a) == 2;
    assert(dot(a, a) * (dot(a, a) + dot(a, b)) == 2) by (nonlinear_arith)
        requires dot(a, b) == -1, dot(a, a) == 2;
    assert((dot(a, a) + dot(a, b)) * skew(cross(a, b), 0, 0) == 0) by (nonlinear_arith)
        requires dot(a, b) == -1, dot(a, a) == 2, skew(cross(a, b), 0, 0) == 0;
    assert(comp(cross(a, b), 0) * comp(cross(a, b), 0) == 1) by (nonlinear_arith)
        requires comp(cross(a, b), 0) == -1, comp(cross(a, b), 0) == -1;
    assert((dot(a, a) + dot(a, b)) * skew(cross(a, b), 0, 1) == 1) by (nonlinear_arith)
        requires dot(a, b) == -1, dot(a, a) == 2, skew(cross(a, b), 0, 1) == 1;
    assert(comp(cross(a, b), 0) * comp(cross(a, b), 1) == -1) by (nonlinear_arith)
        requires comp(cross(a, b), 0) == -1, comp(cross(a, b), 1) == 1;
    assert((dot(a, a) + dot(a, b)) * skew(cross(a, b), 0, 2) == 1) by (nonlinear_arith)
        requires dot(a, b) == -1, dot(a, a) == 2, skew(cross(a, b), 0, 2) == 1;
    assert(comp(cross(a, b), 0) * comp(cross(a, b), 2) == 1) by (nonlinear_arith)
        requires comp(cross(a, b), 0) == -1, comp(cross(a, b), 2) == -1;
    assert((dot(a, a) + dot(a, b)) * skew(cross(a, b), 1, 0) == -1) by (nonlinear_arith)
        requires dot(a, b) == -1, dot(a, a) == 2, skew(cross(a, b), 1, 0) == -1;
    assert(comp(cross(a, b), 1) * comp(cross(a, b), 0) == -1) by (nonlinear_arith)
        requires comp(cross(a, b), 1) == 1, comp(cross(a, b), 0) == -1;
    assert((dot(a, a) + dot(a, b)) * skew(cross(a, b), 1, 1) == 0) by (nonlinear_arith)
        requires dot(a, b) == -1, dot(a, a) == 2, skew(cross(a, b), 1, 1) == 0;
    assert(comp(cross(a, b), 1) * comp(cross(a, b), 1) == 1) by (nonlinear_arith)
        requires comp(cross(a, b), 1) == 1, comp(cross(a, b), 1) == 1;
    assert((dot(a, a) + dot(a, b)) * skew(cross(a, b), 1, 2) == 1) by (nonlinear_arith)
        requires dot(a, b) == -1, dot(a, a) == 2, skew(cross(a, b), 1, 2) == 1;
    assert(comp(cross(a, b), 1) * comp(cross(a, b), 2) == -1) by (nonlinear_arith)
        requires comp(cross(a, b), 1) == 1, comp(cross(a, b), 2) == -1;
    assert((dot(a, a) + dot(a, b)) * skew(cross(a, b), 2, 0) == -1) by (nonlinear_arith)
        requires dot(a, b) == -1, dot(a, a) == 2, skew(cross(a, b), 2, 0) == -1;
    assert(comp(cross(a, b), 2) * comp(cross(a, b), 0) == 1) by (nonlinear_arith)
        requires comp(cross(a, b), 2) == -1, comp(cross(a, b), 0) == -1;
    assert((dot(a, a) + dot(a, b)) * skew(cross(a, b), 2, 1) == -1) by (nonlinear_arith)
        requires dot(a, b) == -1, dot(a, a) == 2, skew(cross(a, b), 2, 1) == -1;
    assert(comp(cross(a, b), 2) * comp(cross(a, b), 1) == -1) by (nonlinear_arith)
        requires comp(cross(a, b), 2) == -1, comp(cross(a, b), 1) == 1;
    assert((dot(a, a) + dot(a, b)) * skew(cross(a, b), 2, 2) == 0) by (nonlinear_arith)
        requires dot(a, b) == -1, dot(a, a) == 2, skew(cross(a, b), 2, 2) == 0;
    assert(comp(cross(a, b), 2) * comp(cross(a, b), 2) == 1) by (nonlinear_arith)
        requires comp(cross(a, b), 2) == -1, comp(cross(a, b), 2) == -1;
    assert(arc_entry(a, b, 0, 0) == 0);
    assert(arc_entry(a, b, 0, 1) == 0);
    assert(arc_entry(a, b, 0, 2) == 2);
    assert(arc_entry(a, b, 1, 0) == -2);
    assert(arc_entry(a, b, 1, 1) == 0);
    assert(arc_entry(a, b, 1, 2) == 0);
    assert(arc_entry(a, b, 2, 0) == 0);
    assert(arc_entry(a, b, 2, 1) == -2);
    assert(arc_entry(a, b, 2, 2) == 0);
    assert(arc_den(a, b) == 2);
    let m = arc_spec(a, b);
    assert(m.row_x@ == (0int, 0int, 2int));
    assert(m.row_y@ == (-2int, 0int, 0int));
    assert(m.row_z@ == (0int, -2int, 0int));
    assert(m.apply_spec(a) == (-2int, 0int, 2int));
}

#[verifier::spinoff_prover]
proof fn lemma_re_arc_to_low_zm()
    ensures
        edge_of(arc_spec((0int, -1int, -1int), (0int, -1int, -1int)).apply_spec((0int, -1int, -1int))) == Some(RotEdge::LowZm),
{
    let a = (0int, -1int, -1int);
    let b = (0int, -1int, -1int);
    lemma_unit_direction_products(a, a);
    lemma_unit_direction_products(a, b);
    assert(dot(a, a) == 2);
    assert(dot(a, b) == 2);
    assert(cross(a, b) == (0int, 0int, 0int));
    assert(dot(a, b) * (dot(a, a) + dot(a, b)) == 8) by (nonlinear_arith)
        requires dot(a, b) == 2, dot(a, a) == 2;
    assert(dot(a, a) * (dot(a, a) + dot(a, b)) == 8) by (nonlinear_arith)
        requires dot(a, b) == 2, dot(a, a) == 2;
    assert((dot(a, a) + dot(a, b)) * skew(cross(a, b), 0, 0) == 0) by (nonlinear_arith)
        requires dot(a, b) == 2, dot(a, a) == 2, skew(cross(a, b), 0, 0) == 0;
    assert(comp(cross(a, b), 0) * comp(cross(a, b), 0) == 0) by (nonlinear_arith)
        requires comp(cross(a, b), 0) == 0, comp(cross(a, b), 0) == 0;
    assert((dot(a, a) + dot(a, b)) * skew(cross(a, b), 0, 1) == 0) by (nonlinear_arith)
        requires dot(a, b) == 2, dot(a, a) == 2, skew(cross(a, b), 0, 1) == 0;
    assert(comp(cross(a, b), 0) * comp(cross(a, b), 1) == 0) by (nonlinear_arith)
        requires comp(cross(a, b), 0) == 0, comp(cross(a, b), 1) == 0;
    assert((dot(a, a) + dot(a, b)) * skew(cross(a, b), 0, 2) == 0) by (nonlinear_arith)
        requires dot(a, b) == 2, dot(a, a) == 2, skew(cross(a, b), 0, 2) == 0;
    assert(comp(cross(a, b), 0) * comp(cross(a, b), 2) == 0) by (nonlinear_arith)
        requires comp(cross(a, b), 0) == 0, comp(cross(a, b), 2) == 0;
    assert((dot(a, a) + dot(a, b)) * skew(cross(a, b), 1, 0) == 0) by (nonlinear_arith)
        requires dot(a, b) == 2, dot(a, a) == 2, skew(cross(a, b), 1, 0) == 0;
    assert(comp(cross(a, b), 1) * comp(cross(a, b), 0) == 0) by (nonlinear_arith)
        requires comp(cross(a, b), 1) == 0, comp(cross(a, b), 0) == 0;
    assert((dot(a, a) + dot(a, b)) * skew(cross(a, b), 1, 1) == 0) by (nonlinear_arith)
        requires dot(a, b) == 2, dot(a, a) == 2, skew(cross(a, b), 1, 1) == 0;
    assert(comp(cross(a, b), 1) * comp(cross(a, b), 1) == 0) by (nonlinear_arith)
        requires comp(cross(a, b), 1) == 0, comp(cross(a, b), 1) == 0;
    assert((dot(a, a) + dot(a, b)) * skew(cross(a, b), 1, 2) == 0) by (nonlinear_arith)
        requires dot(a, b) == 2, dot(a, a) == 2, skew(cross(a, b), 1, 2) == 0;
    assert(comp(cross(a, b), 1) * comp(cross(a, b), 2) == 0) by (nonlinear_arith)
        requires comp(cross(a, b), 1) == 0, comp(cross(a, b), 2) == 0;
    assert((dot(a, a) + dot(a, b)) * skew(cross(a, b), 2, 0) == 0) by (nonlinear_arith)
        requires dot(a, b) == 2, dot(a, a) == 2, skew(cross(a, b), 2, 0) == 0;
    assert(comp(cross(a, b), 2) * comp(cross(a, b), 0) == 0) by (nonlinear_arith)
        requires comp(cross(a, b), 2) == 0, comp(cross(a, b), 0) == 0;
    assert((dot(a, a) + dot(a, b)) * skew(cross(a, b), 2, 1) == 0) by (nonlinear_arith)
        requires dot(a, b) == 2, dot(a, a) == 2, skew(cross(a, b), 2, 1) == 0;
    assert(comp(cross(a, b), 2) * comp(cross(a, b), 1) == 0) by (nonlinear_arith)
        requires comp(cross(a, b), 2) == 0, comp(cross(a, b), 1) == 0;
    assert((dot(a, a) + dot(a, b)) * skew(cross(a, b), 2, 2) == 0) by (nonlinear_arith)
        requires dot(a, b) == 2, dot(a, a) == 2, skew(cross(a, b), 2, 2) == 0;
    assert(comp(cross(a, b), 2) * comp(cross(a, b), 2) == 0) by (nonlinear_arith)
        requires comp(cross(a, b), 2) == 0, comp(cross(a, b), 2) == 0;
    assert(arc_entry(a, b, 0, 0) == 8);
    assert(arc_entry(a, b, 0, 1) == 0);
    assert(arc_entry(a, b, 0, 2) == 0);
    assert(arc_entry(a, b, 1, 0) == 0);
    assert(arc_entry(a, b, 1, 1) == 8);
    assert(arc_entry(a, b, 1, 2) == 0);
    assert(arc_entry(a, b, 2, 0) == 0);
    assert(arc_entry(a, b, 2, 1) == 0);
    assert(arc_entry(a, b, 2, 2) == 8);
    assert(arc_den(a, b) == 8);
    let m = arc_spec(a, b);
    assert(m.row_x@ == (8int, 0int, 0int));
    assert(m.row_y@ == (0int, 8int, 0int));
    assert(m.row_z@ == (0int, 0int, 8int));
    assert(m.apply_spec(a) == (0int, -8int, -8int));
}

#[verifier::spinoff_prover]
proof fn lemma_re_arc_to_low_zp()
    ensures
        edge_of(arc_spec((0int, -1int, -1int), (0int, -1int, 1int)).apply_spec((0int, -1int, -1int))) == Some(RotEdge::LowZp),
{
    let a = (0int, -1int, -1int);
    let b = (0int, -1int, 1int);
    lemma_unit_direction_products(a, a);
    lemma_unit_direction_products(a, b);
    assert(dot(a, a) == 2);
    assert(dot(a, b) == 0);
    assert(cross(a, b) == (-2int, 0int, 0int));
    assert(dot(a, b) * (dot(a, a) + dot(a, b)) == 0) by (nonlinear_arith)
        requires dot(a, b) == 0, dot(a, a) == 2;
    assert(dot(a, a) * (dot(a, a) + dot(a, b)) == 4) by (nonlinear_arith)
        requires dot(a, b) == 0, dot(a, a) == 2;
    assert((dot(a, a) + dot(a, b)) * skew(cross(a, b), 0, 0) == 0) by (nonlinear_arith)
        requires dot(a, b) == 0, dot(a, a) == 2, skew(cross(a, b), 0, 0) == 0;
    assert(comp(cross(a, b), 0) * comp(cross(a, b), 0) == 4) by (nonlinear_arith)
        requires comp(cross(a, b), 0) == -2, comp(cross(a, b), 0) == -2;
    assert((dot(a, a) + dot(a, b)) * skew(cross(a, b), 0, 1) == 0) by (nonlinear_arith)
        requires dot(a, b) == 0, dot(a, a) == 2, skew(cross(a, b), 0, 1) == 0;
    assert(comp(cross(a, b), 0) * comp(cross(a, b), 1) == 0) by (nonlinear_arith)
        requires comp(cross(a, b), 0) == -2, comp(cross(a, b), 1) == 0;
    assert((dot(a, a) + dot(a, b)) * skew(cross(a, b), 0, 2) == 0) by (nonlinear_arith)
        requires dot(a, b) == 0, dot(a, a) == 2, skew(cross(a, b), 0, 2) == 0;
    assert(comp(cross(a, b), 0) * comp(cross(a, b), 2) == 0) by (nonlinear_arith)
        requires comp(cross(a, b), 0) == -2, comp(cross(a, b), 2) == 0;
    assert((dot(a, a) + dot(a, b)) * skew(cross(a, b), 1, 0) == 0) by (nonlinear_arith)
        requires dot(a, b) == 0, dot(a, a) == 2, skew(cross(a, b), 1, 0) == 0;
    assert(comp(cross(a, b), 1) * comp(cross(a, b), 0) == 0) by (nonlinear_arith)
        requires comp(cross(a, b), 1) == 0, comp(cross(a, b), 0) == -2;
    assert((dot(a, a) + dot(a, b)) * skew(cross(a, b), 1, 1) == 0) by (nonlinear_arith)
        requires dot(a, b) == 0, dot(a, a) == 2, skew(cross(a, b), 1, 1) == 0;
    assert(comp(cross(a, b), 1) * comp(cross(a, b), 1) == 0) by (nonlinear_arith)
        requires comp(cross(a, b), 1) == 0, comp(cross(a, b), 1) == 0;
    assert((dot(a, a) + dot(a, b)) * skew(cross(a, b), 1, 2) == 4) by (nonlinear_arith)
        requires dot(a, b) == 0, dot(a, a) == 2, skew(cross(a, b), 1, 2) == 2;
    assert(comp(cross(a, b), 1) * comp(cross(a, b), 2) == 0) by (nonlinear_arith)
        requires comp(cross(a, b), 1) == 0, comp(cross(a, b), 2) == 0;
    assert((dot(a, a) + dot(a, b)) * skew(cross(a, b), 2, 0) == 0) by (nonlinear_arith)
        requires dot(a, b) == 0, dot(a, a) == 2, skew(cross(a, b), 2, 0) == 0;
    assert(comp(cross(a, b), 2) * comp(cross(a, b), 0) == 0) by (nonlinear_arith)
        requires comp(cross(a, b), 2) == 0, comp(cross(a, b), 0) == -2;
    assert((dot(a, a) + dot(a, b)) * skew(cross(a, b), 2, 1) == -4) by (nonlinear_arith)
        requires dot(a, b) == 0, dot(a, a) == 2, skew(cross(a, b), 2, 1) == -2;
    assert(comp(cross(a, b), 2) * comp(cross(a, b), 1) == 0) by (nonlinear_arith)
        requires comp(cross(a, b), 2) == 0, comp(cross(a, b), 1) == 0;
    assert((dot(a, a) + dot(a, b)) * skew(cross(a, b), 2, 2) == 0) by (nonlinear_arith)
        requires dot(a, b) == 0, dot(a, a) == 2, skew(cross(a, b), 2, 2) == 0;
    assert(comp(cross(a, b), 2) * comp(cross(a, b), 2) == 0) by (nonlinear_arith)
        requires comp(cross(a, b), 2) == 0, comp(cross(a, b), 2) == 0;
    assert(arc_entry(a, b, 0, 0) == 4);
    assert(arc_entry(a, b, 0, 1) == 0);
    assert(arc_entry(a, b, 0, 2) == 0);
    assert(arc_entry(a, b, 1, 0) == 0);
    assert(arc_entry(a, b, 1, 1) == 0);
    assert(arc_entry(a, b, 1, 2) == 4);
    assert(arc_entry(a, b, 2, 0) == 0);
    assert(arc_entry(a, b, 2, 1) == -4);
    assert(arc_entry(a, b, 2, 2) == 0);
    assert(arc_den(a, b) == 4);
    let m = arc_spec(a, b);
    assert(m.row_x@ == (4int, 0int, 0int));
    assert(m.row_y@ == (0int, 0int, 4int));
    assert(m.row_z@ == (0int, -4int, 0int));
    assert(m.apply_spec(a) == (0int, -4int, 4int));
}

#[verifier::spinoff_prover]
proof fn lemma_re_arc_to_low_xm()
    ensures
        edge_of(arc_spec((0int, -1int, -1int), (-1int, -1int, 0int)).apply_spec((0int, -1int, -1int))) == Some(RotEdge::LowXm),
{
    let a = (0int, -1int, -1int);
    let b = (-1int, -1int, 0int);
    lemma_unit_direction_products(a, a);
    lemma_unit_direction_products(a, b);
    assert(dot(a, a) == 2);
    assert(dot(a, b) == 1);
    assert(cross(a, b) == (-1int, 1int, -1int));
    assert(dot(a, b) * (dot(a, a) + dot(a, b)) == 3) by (nonlinear_arith)
        requires dot(a, b) == 1, dot(a, a) == 2;
    assert(dot(a, a) * (dot(a, a) + dot(a, b)) == 6) by (nonlinear_arith)
        requires dot(a, b) == 1, dot(a, a) == 2;
    assert((dot(a, a) + dot(a, b)) * skew(cross(a, b), 0, 0) == 0) by (nonlinear_arith)
        requires dot(a, b) == 1, dot(a, a) == 2, skew(cross(a, b), 0, 0) == 0;
    assert(comp(cross(a, b), 0) * comp(cross(a, b), 0) == 1) by (nonlinear_arith)
        requires comp(cross(a, b), 0) == -1, comp(cross(a, b), 0) == -1;
    assert((dot(a, a) + dot(a, b)) * skew(cross(a, b), 0, 1) == 3) by (nonlinear_arith)
        requires dot(a, b) == 1, dot(a, a) == 2, skew(cross(a, b), 0, 1) == 1;
    assert(comp(cross(a, b), 0) * comp(cross(a, b), 1) == -1) by (nonlinear_arith)
        requires comp(cross(a, b), 0) == -1, comp(cross(a, b), 1) == 1;
    assert((dot(a, a) + dot(a, b)) * skew(cross(a, b), 0, 2) == 3) by (nonlinear_arith)
        requires dot(a, b) == 1, dot(a, a) == 2, skew(cross(a, b), 0, 2) == 1;
    assert(comp(cross(a, b), 0) * comp(cross(a, b), 2) == 1) by (nonlinear_arith)
        requires comp(cross(a, b), 0) == -1, comp(cross(a, b), 2) == -1;
    assert((dot(a, a) + dot(a, b)) * skew(cross(a, b), 1, 0) == -3) by (nonlinear_arith)
        requires dot(a, b) == 1, dot(a, a) == 2, skew(cross(a, b), 1, 0) == -1;
    assert(comp(cross(a, b), 1) * comp(cross(a, b), 0) == -1) by (nonlinear_arith)
        requires comp(cross(a, b), 1) == 1, comp(cross(a, b), 0) == -1;
    assert((dot(a, a) + dot(a, b)) * skew(cross(a, b), 1, 1) == 0) by (nonlinear_arith)
        requires dot(a, b) == 1, dot(a, a) == 2, skew(cross(a, b), 1, 1) == 0;
    assert(comp(cross(a, b), 1) * comp(cross(a, b), 1) == 1) by (nonlinear_arith)
        requires comp(cross(a, b), 1) == 1, comp(cross(a, b), 1) == 1;
    assert((dot(a, a) + dot(a, b)) * skew(cross(a, b), 1, 2) == 3) by (nonlinear_arith)
        requires dot(a, b) == 1, dot(a, a) == 2, skew(cross(a, b), 1, 2) == 1;
    assert(comp(cross(a, b), 1) * comp(cross(a, b), 2) == -1) by (nonlinear_arith)
        requires comp(cross(a, b), 1) == 1, comp(cross(a, b), 2) == -1;
    assert((dot(a, a) + dot(a, b)) * skew(cross(a, b), 2, 0) == -3) by (nonlinear_arith)
        requires dot(a, b) == 1, dot(a, a) == 2, skew(cross(a, b), 2, 0) == -1;
    assert(comp(cross(a, b), 2) * comp(cross(a, b), 0) == 1) by (nonlinear_arith)
        requires comp(cross(a, b), 2) == -1, comp(cross(a, b), 0) == -1;
    assert((dot(a, a) + dot(a, b)) * skew(cross(a, b), 2, 1) == -3) by (nonlinear_arith)
        requires dot(a, b) == 1, dot(a, a) == 2, skew(cross(a, b), 2, 1) == -1;
    assert(comp(cross(a, b), 2) * comp(cross(a, b), 1) == -1) by (nonlinear_arith)
        requires comp(cross(a, b), 2) == -1, comp(cross(a, b), 1) == 1;
    assert((dot(a, a) + dot(a, b)) * skew(cross(a, b), 2, 2) == 0) by (nonlinear_arith)
        requires dot(a, b) == 1, dot(a, a) == 2, skew(cross(a, b), 2, 2) == 0;
    assert(comp(cross(a, b), 2) * comp(cross(a, b), 2) == 1) by (nonlinear_arith)
        requires comp(cross(a, b), 2) == -1, comp(cross(a, b), 2) == -1;
    assert(arc_entry(a, b, 0, 0) == 4);
    assert(arc_entry(a, b, 0, 1) == 2);
    assert(arc_entry(a, b, 0, 2) == 4);
    assert(arc_entry(a, b, 1, 0) == -4);
    assert(arc_entry(a, b, 1, 1) == 4);
    assert(arc_entry(a, b, 1, 2) == 2);
    assert(arc_entry(a, b, 2, 0) == -2);
    assert(arc_entry(a, b, 2, 1) == -4);
    assert(arc_entry(a, b, 2, 2) == 4);
    assert(arc_den(a, b) == 6);
    let m = arc_spec(a, b);
    assert(m.row_x@ == (4int, 2int, 4int));
    assert(m.row_y@ == (-4int, 4int, 2int));
    assert(m.row_z@ == (-2int, -4int, 4int));
    assert(m.apply_spec(a) == (-6int, -6int, 0int));
}

#[verifier::spinoff_prover]
proof fn lemma_re_arc_to_low_xp()
    ensures
        edge_of(arc_spec((0int, -1int, -1int), (1int, -1int, 0int)).apply_spec((0int, -1int, -1int))) == Some(RotEdge::LowXp),
{
    let a = (0int, -1int, -1int);
    let b = (1int, -1int, 0int);
    lemma_unit_direction_products(a, a);
    lemma_unit_direction_products(a, b);
    assert(dot(a, a) == 2);
    assert(dot(a, b) == 1);
    assert(cross(a, b) == (-1int, -1int, 1int));
    assert(dot(a, b) * (dot(a, a) + dot(a, b)) == 3) by (nonlinear_arith)
        requires dot(a, b) == 1, dot(a, a) == 2;
    assert(dot(a, a) * (dot(a, a) + dot(a, b)) == 6) by (nonlinear_arith)
        requires dot(a, b) == 1, dot(a, a) == 2;
    assert((dot(a, a) + dot(a, b)) * skew(cross(a, b), 0, 0) == 0) by (nonlinear_arith)
        requires dot(a, b) == 1, dot(a, a) == 2, skew(cross(a, b), 0, 0) == 0;
    assert(comp(cross(a, b), 0) * comp(cross(a, b), 0) == 1) by (nonlinear_arith)
        requires comp(cross(a, b), 0) == -1, comp(cross(a, b), 0) == -1;
    assert((dot(a, a) + dot(a, b)) * skew(cross(a, b), 0, 1) == -3) by (nonlinear_arith)
        requires dot(a, b) == 1, dot(a, a) == 2, skew(cross(a, b), 0, 1) == -1;
    assert(comp(cross(a, b), 0) * comp(cross(a, b), 1) == 1) by (nonlinear_arith)
        requires comp(cross(a, b), 0) == -1, comp(cross(a, b), 1) == -1;
    assert((dot(a, a) + dot(a, b)) * skew(cross(a, b), 0, 2) == -3) by (nonlinear_arith)
        requires dot(a, b) == 1, dot(a, a) == 2, skew(cross(a, b), 0, 2) == -1;
    assert(comp(cross(a, b), 0) * comp(cross(a, b), 2) == -1) by (nonlinear_arith)
        requires comp(cross(a, b), 0) == -1, comp(cross(a, b), 2) == 1;
    assert((dot(a, a) + dot(a, b)) * skew(cross(a, b), 1, 0) == 3) by (nonlinear_arith)
        requires dot(a, b) == 1, dot(a, a) == 2, skew(cross(a, b), 1, 0) == 1;
    assert(comp(cross(a, b), 1) * comp(cross(a, b), 0) == 1) by (nonlinear_arith)
        requires comp(cross(a, b), 1) == -1, comp(cross(a, b), 0) == -1;
    assert((dot(a, a) + dot(a, b)) * skew(cross(a, b), 1, 1) == 0) by (nonlinear_arith)
        requires dot(a, b) == 1, dot(a, a) == 2, skew(cross(a, b), 1, 1) == 0;
    assert(comp(cross(a, b), 1) * comp(cross(a, b), 1) == 1) by (nonlinear_arith)
        requires comp(cross(a, b), 1) == -1, comp(cross(a, b), 1) == -1;
    assert((dot(a, a) + dot(a, b)) * skew(cross(a, b), 1, 2) == 3) by (nonlinear_arith)
        requires dot(a, b) == 1, dot(a, a) == 2, skew(cross(a, b), 1, 2) == 1;
    assert(comp(cross(a, b), 1) * comp(cross(a, b), 2) == -1) by (nonlinear_arith)
        requires comp(cross(a, b), 1) == -1, comp(cross(a, b), 2) == 1;
    assert((dot(a, a) + dot(a, b)) * skew(cross(a, b), 2, 0) == 3) by (nonlinear_arith)
        requires dot(a, b) == 1, dot(a, a) == 2, skew(cross(a, b), 2, 0) == 1;
    assert(comp(cross(a, b), 2) * comp(cross(a, b), 0) == -1) by (nonlinear_arith)
        requires comp(cross(a, b), 2) == 1, comp(cross(a, b), 0) == -1;
    assert((dot(a, a) + dot(a, b)) * skew(cross(a, b), 2, 1) == -3) by (nonlinear_arith)
        requires dot(a, b) == 1, dot(a, a) == 2, skew(cross(a, b), 2, 1) == -1;
    assert(comp(cross(a, b), 2) * comp(cross(a, b), 1) == -1) by (nonlinear_arith)
        requires comp(cross(a, b), 2) == 1, comp(cross(a, b), 1) == -1;
    assert((dot(a, a) + dot(a, b)) * skew(cross(a, b), 2, 2) == 0) by (nonlinear_arith)
        requires dot(a, b) == 1, dot(a, a) == 2, skew(cross(a, b), 2, 2) == 0;
    assert(comp(cross(a, b), 2) * comp(cross(a, b), 2) == 1) by (nonlinear_arith)
        requires comp(cross(a, b), 2) == 1, comp(cross(a, b), 2) == 1;
    assert(arc_entry(a, b, 0, 0) == 4);
    assert(arc_entry(a, b, 0, 1) == -2);
    assert(arc_entry(a, b, 0, 2) == -4);
    assert(arc_entry(a, b, 1, 0) == 4);
    assert(arc_entry(a, b, 1, 1) == 4);
    assert(arc_entry(a, b, 1, 2) == 2);
    assert(arc_entry(a, b, 2, 0) == 2);
    assert(arc_entry(a, b, 2, 1) == -4);
    assert(arc_entry(a, b, 2, 2) == 4);
    assert(arc_den(a, b) == 6);
    let m = arc_spec(a, b);
    assert(m.row_x@ == (4int, -2int, -4int));
    assert(m.row_y@ == (4int, 4int, 2int));
    assert(m.row_z@ == (2int, -4int, 4int));
    assert(m.apply_spec(a) == (6int, -6int, 0int));
}

/// The orientation rotation of `x` takes the reference edge direction to `x`.
pub proof fn lemma_quat_re_reaches(x: RotEdge)
    ensures
        edge_of(arc_spec(re_vec(RE_ZERO), re_vec(x)).apply_spec(re_vec(RE_ZERO))) == Some(x),
{
    assert(re_vec(RE_ZERO) == (0int, -1int, -1int));
    match x {
        RotEdge::TopZm => {
            assert(re_vec(x) == (0int, 1int, -1int));
            lemma_re_arc_to_top_zm();
        },
        RotEdge::TopZp => {
            assert(re_vec(x) == (0int, 1int, 1int));
            lemma_re_arc_to_top_zp();
        },
        RotEdge::TopXm => {
            assert(re_vec(x) == (-1int, 1int, 0int));
            lemma_re_arc_to_top_xm();
        },
        RotEdge::TopXp => {
            assert(re_vec(x) == (1int, 1int, 0int));
            lemma_re_arc_to_top_xp();
        },
        RotEdge::MidZmXm => {
            assert(re_vec(x) == (-1int, 0int, -1int));
            lemma_re_arc_to_mid_zm_xm();
        },
        RotEdge::MidZpXp => {
            assert(re_vec(x) == (1int, 0int, 1int));
            lemma_re_arc_to_mid_zp_xp();
        },
        RotEdge::MidZpXm => {
            assert(re_vec(x) == (1int, 0int, -1int));
            lemma_re_arc_to_mid_zp_xm();
        },
        RotEdge::MidZmXp => {
            assert(re_vec(x) == (-1int, 0int, 1int));
            lemma_re_arc_to_mid_zm_xp();
        },
        RotEdge::LowZm => {
            assert(re_vec(x) == (0int, -1int, -1int));
            lemma_re_arc_to_low_zm();
        },
        RotEdge::LowZp => {
            assert(re_vec(x) == (0int, -1int, 1int));
            lemma_re_arc_to_low_zp();
        },
        RotEdge::LowXm => {
            assert(re_vec(x) == (-1int, -1int, 0int));
            lemma_re_arc_to_low_xm();
        },
        RotEdge::LowXp => {
            assert(re_vec(x) == (1int, -1int, 0int));
            lemma_re_arc_to_low_xp();
        },
    }
}

} // verus!
