use sgr_cubes::wctx::rotation_group::{
    generate_quat_from_re, generate_quat_from_rf, generate_quat_from_rv, num_to_re, num_to_rf,
    num_to_rv, re_to_num, re_to_vector, reverse_re, reverse_rf, reverse_rv, rf_to_num,
    rf_to_vector, rotate_re, rotate_rf, rotate_rv, rv_to_num, rv_to_vector, vector_to_re,
    vector_to_rf, vector_to_rv, IVec3, RotEdge, RotFace, RotVert, Rotation, RE_ZERO, RF_ZERO,
    RV_ZERO,
};

fn all_faces() -> Vec<RotFace> {
    (0..6).map(|n| num_to_rf(n).unwrap()).collect()
}

fn all_verts() -> Vec<RotVert> {
    (0..8).map(|n| num_to_rv(n).unwrap()).collect()
}

fn all_edges() -> Vec<RotEdge> {
    (0..12).map(|n| num_to_re(n).unwrap()).collect()
}

#[test]
fn reverse_twice_is_identity() {
    for x in all_faces() {
        assert_eq!(reverse_rf(reverse_rf(x)), x);
        assert_ne!(reverse_rf(x), x);
    }
    for x in all_verts() {
        assert_eq!(reverse_rv(reverse_rv(x)), x);
        assert_ne!(reverse_rv(x), x);
    }
    for x in all_edges() {
        assert_eq!(reverse_re(reverse_re(x)), x);
        assert_ne!(reverse_re(x), x);
    }
}

#[test]
fn reverse_negates_vector() {
    let v = rf_to_vector(RotFace::PlusX);
    let w = rf_to_vector(reverse_rf(RotFace::PlusX));
    assert_eq!(w, IVec3 { x: -v.x, y: -v.y, z: -v.z });
    assert_eq!(reverse_re(RotEdge::LowZm), RotEdge::TopZp);
    assert_eq!(reverse_rv(RotVert::XmYpZm), RotVert::XpYmZp);
}

#[test]
fn vector_round_trip() {
    for x in all_faces() {
        assert_eq!(vector_to_rf(rf_to_vector(x)), Some(x));
    }
    for x in all_verts() {
        assert_eq!(vector_to_rv(rv_to_vector(x)), Some(x));
    }
    for x in all_edges() {
        assert_eq!(vector_to_re(re_to_vector(x)), Some(x));
    }
}

#[test]
fn rotate_by_identity_keeps_member() {
    let id = Rotation::identity();
    for x in all_faces() {
        assert_eq!(rotate_rf(x, &id), Some(x));
    }
    for x in all_verts() {
        assert_eq!(rotate_rv(x, &id), Some(x));
    }
    for x in all_edges() {
        assert_eq!(rotate_re(x, &id), Some(x));
    }
}

#[test]
fn index_round_trip() {
    for n in 0..6u8 {
        assert_eq!(rf_to_num(num_to_rf(n).unwrap()), n);
    }
    for n in 0..8u8 {
        assert_eq!(rv_to_num(num_to_rv(n).unwrap()), n);
    }
    for n in 0..12u8 {
        assert_eq!(re_to_num(num_to_re(n).unwrap()), n);
    }
    assert_eq!(num_to_rf(6), None);
    assert_eq!(num_to_rv(8), None);
    assert_eq!(num_to_re(12), None);
    assert_eq!(num_to_re(255), None);
}

#[test]
fn index_assignment() {
    assert_eq!(num_to_rf(0), Some(RotFace::PlusZ));
    assert_eq!(num_to_rf(3), Some(RotFace::MinusY));
    assert_eq!(num_to_rf(5), Some(RotFace::MinusX));
    assert_eq!(num_to_rv(0), Some(RotVert::XmYmZm));
    assert_eq!(num_to_rv(6), Some(RotVert::XpYpZm));
    assert_eq!(num_to_re(0), Some(RotEdge::LowZm));
    assert_eq!(num_to_re(4), Some(RotEdge::MidZmXm));
    assert_eq!(num_to_re(11), Some(RotEdge::TopXp));
}

#[test]
fn unnormalised_vectors_are_matched() {
    assert_eq!(vector_to_rf(IVec3 { x: 0, y: -7, z: 0 }), Some(RotFace::MinusY));
    assert_eq!(vector_to_rv(IVec3 { x: 3, y: -3, z: 3 }), Some(RotVert::XpYmZp));
    assert_eq!(vector_to_re(IVec3 { x: 2, y: -2, z: 0 }), Some(RotEdge::LowXp));
    assert_eq!(vector_to_re(IVec3 { x: -5, y: 0, z: 5 }), Some(RotEdge::MidZmXp));
}

#[test]
fn off_axis_vectors_are_rejected() {
    assert_eq!(vector_to_rf(IVec3 { x: 0, y: 0, z: 0 }), None);
    assert_eq!(vector_to_rf(IVec3 { x: 1, y: 1, z: 0 }), None);
    assert_eq!(vector_to_rv(IVec3 { x: 1, y: 1, z: 2 }), None);
    assert_eq!(vector_to_rv(IVec3 { x: 1, y: 0, z: 1 }), None);
    assert_eq!(vector_to_re(IVec3 { x: 1, y: 2, z: 0 }), None);
    assert_eq!(vector_to_re(IVec3 { x: 1, y: 1, z: 1 }), None);
    assert_eq!(vector_to_re(IVec3 { x: i64::MIN, y: i64::MAX, z: 0 }), None);
}

#[test]
fn orientation_rotation_reaches_member() {
    for x in all_faces() {
        assert_eq!(rotate_rf(RF_ZERO, &generate_quat_from_rf(x)), Some(x));
    }
    for x in all_verts() {
        assert_eq!(rotate_rv(RV_ZERO, &generate_quat_from_rv(x)), Some(x));
    }
    for x in all_edges() {
        assert_eq!(rotate_re(RE_ZERO, &generate_quat_from_re(x)), Some(x));
    }
}

#[test]
fn face_quaternion_values() {
    let q = generate_quat_from_rf(RotFace::PlusZ);
    assert_eq!(q.apply(IVec3 { x: 1, y: 2, z: 3 }), IVec3 { x: q.den, y: 2 * q.den, z: 3 * q.den });
    // A quarter turn about x takes +Z to +Y.
    let q = generate_quat_from_rf(RotFace::PlusY);
    assert_eq!(q.den, 1);
    assert_eq!(q.apply(IVec3 { x: 0, y: 0, z: 1 }), IVec3 { x: 0, y: 1, z: 0 });
    assert_eq!(q.apply(IVec3 { x: 0, y: 1, z: 0 }), IVec3 { x: 0, y: 0, z: -1 });
    assert_eq!(q.apply(IVec3 { x: 1, y: 0, z: 0 }), IVec3 { x: 1, y: 0, z: 0 });
    // The opposite member is a half turn about y.
    let q = generate_quat_from_rf(RotFace::MinusZ);
    assert_eq!(q.apply(IVec3 { x: 1, y: 1, z: 1 }), IVec3 { x: -q.den, y: q.den, z: -q.den });
}

#[test]
fn vertex_quaternion_is_exact_shortest_arc() {
    // From (-1,-1,-1) to (-1,-1,1): rotation by acos(1/3) about (-1,1,0).
    let q = generate_quat_from_rv(RotVert::XmYmZp);
    assert_eq!(q.den, 12);
    assert_eq!(q.row_x, IVec3 { x: 8, y: -4, z: 8 });
    assert_eq!(q.row_y, IVec3 { x: -4, y: 8, z: 8 });
    assert_eq!(q.row_z, IVec3 { x: -8, y: -8, z: 4 });
    let axis = q.apply(IVec3 { x: -1, y: 1, z: 0 });
    assert_eq!(axis, IVec3 { x: -12, y: 12, z: 0 });
    // A face direction does not land on an axis under it.
    assert_eq!(rotate_rf(RotFace::PlusX, &q), None);
}

#[test]
fn inverse_undoes_rotation() {
    for x in all_edges() {
        let q = generate_quat_from_re(x);
        let v = IVec3 { x: 3, y: -5, z: 7 };
        let w = q.apply(v);
        let back = q.apply_inverse(w);
        let d2 = q.den * q.den;
        assert_eq!(back, IVec3 { x: 3 * d2, y: -5 * d2, z: 7 * d2 });
    }
}
