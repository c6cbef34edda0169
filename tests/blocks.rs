use sgr_cubes::wctx::block::{
    make_corner_shape, make_cube_shape, make_slope_shape, BlockDrawContext, BlockRegistry,
    BlockShape, BlockShapeRegistry, FaceDef, FaceVertex, MeshVertex,
};
use sgr_cubes::wctx::rotation_group::{num_to_rf, IVec3, RotFace, RotType};

fn all_faces() -> Vec<RotFace> {
    (0..6).map(|n| num_to_rf(n).unwrap()).collect()
}

#[test]
fn registry_starts_with_air() {
    let reg = BlockRegistry::new();
    assert_eq!(reg.get_num_blocks(), 1);
    let air = reg.get(0).unwrap();
    assert_eq!(air.pretty_name, "Air");
    assert!(air.transparent);
    assert_eq!(air.shape_id, 0);
    assert_eq!(air.textures, vec![0]);
    assert!(reg.get(1).is_none());
}

#[test]
fn registry_add_assigns_dense_ids() {
    let mut reg = BlockRegistry::new();
    let a = reg.add(0, "Stone".to_string(), vec![3], false);
    let b = reg.add(1, "Glass".to_string(), vec![4, 5], true);
    assert_eq!((a, b), (1, 2));
    assert_eq!(reg.get_num_blocks(), 3);
    let glass = reg.get(2).unwrap();
    assert_eq!(glass.registry_id, 2);
    assert_eq!(glass.shape_id, 1);
    assert_eq!(glass.textures, vec![4, 5]);
    assert!(glass.transparent);
    assert!(reg.get(3).is_none());
}

#[test]
fn shape_registry_add_and_get() {
    let mut shapes = BlockShapeRegistry::new();
    assert!(shapes.get(0).is_none());
    assert_eq!(shapes.add(make_cube_shape()), 0);
    assert_eq!(shapes.add(make_slope_shape()), 1);
    assert_eq!(shapes.get(1).unwrap().faces.len(), 5);
    assert!(shapes.get(2).is_none());
}

#[test]
fn made_shapes() {
    let cube = make_cube_shape();
    assert_eq!(cube.faces.len(), 6);
    assert_eq!(cube.obstructs, [true; 6]);
    assert_eq!(cube.rot_group, RotType::Static);
    let slope = make_slope_shape();
    assert_eq!(slope.obstructs, [false, true, false, true, false, false]);
    assert_eq!(slope.rot_group, RotType::RotEdge);
    let corner = make_corner_shape();
    assert_eq!(corner.faces.len(), 4);
    assert_eq!(corner.obstructs, [false; 6]);
    assert_eq!(corner.rot_group, RotType::RotVert);
}

#[test]
fn static_shape_obstructs_by_table() {
    let mut shape = make_cube_shape();
    shape.obstructs = [true, false, true, false, false, true];
    for exparam in 0..=255u8 {
        for dir in all_faces() {
            let expected = shape.obstructs[sgr_cubes::wctx::rotation_group::rf_to_num(dir) as usize];
            assert_eq!(shape.does_obstruct(exparam, dir), expected);
        }
    }
}

#[test]
fn slope_obstruction_follows_orientation() {
    let slope = make_slope_shape();
    // Orientation 0: the reference frame.
    assert!(slope.does_obstruct(0, RotFace::MinusZ));
    assert!(slope.does_obstruct(0, RotFace::MinusY));
    assert!(!slope.does_obstruct(0, RotFace::PlusZ));
    assert!(!slope.does_obstruct(0, RotFace::PlusY));
    assert!(!slope.does_obstruct(0, RotFace::PlusX));
    // Orientation 1: a quarter turn about x takes -Z to -Y and -Y to +Z.
    assert!(slope.does_obstruct(1, RotFace::MinusY));
    assert!(slope.does_obstruct(1, RotFace::PlusZ));
    assert!(!slope.does_obstruct(1, RotFace::MinusZ));
    assert!(!slope.does_obstruct(1, RotFace::PlusY));
}

#[test]
fn orientation_acceptance() {
    let slope = make_slope_shape();
    assert!(slope.orientation(0).is_some());
    assert!(slope.orientation(11).is_some());
    assert!(slope.orientation(12).is_none());
    assert!(slope.orientation(15).is_none());
    assert!(slope.orientation(16).is_some());
    let corner = make_corner_shape();
    for e in 0..=255u8 {
        assert!(corner.orientation(e).is_some());
    }
    let facing = BlockShape { faces: Vec::new(), obstructs: [false; 6], rot_group: RotType::RotFace };
    assert!(facing.orientation(5).is_some());
    assert!(facing.orientation(6).is_none());
    assert!(facing.orientation(7).is_none());
    assert!(facing.orientation(8).is_some());
}

fn stone_registry() -> BlockRegistry {
    let mut reg = BlockRegistry::new();
    reg.add(0, "Stone".to_string(), vec![7, 8], false);
    reg
}

#[test]
fn cube_emits_all_faces_when_open() {
    let reg = stone_registry();
    let cube = make_cube_shape();
    let mut verts = Vec::new();
    let mut inds = Vec::new();
    cube.generate_draw_buffers(&mut verts, &mut inds, reg.get(1).unwrap(), 0, BlockDrawContext::default(), (0, 0, 0), (0, 0, 0));
    assert_eq!(verts.len(), 24);
    assert_eq!(inds.len(), 36);
    assert_eq!(verts[0], MeshVertex { pos: IVec3 { x: 0, y: 2, z: 0 }, scale: 2, u: 0, v: 0, array_index: 7 });
    assert_eq!(verts[1], MeshVertex { pos: IVec3 { x: 2, y: 2, z: 0 }, scale: 2, u: 2, v: 0, array_index: 7 });
    // Faces past the first take the last texture.
    assert_eq!(verts[4].array_index, 8);
    assert_eq!(verts[23].array_index, 8);
    assert_eq!(&inds[0..6], &[0, 2, 1, 1, 2, 3]);
    assert_eq!(&inds[6..12], &[4, 5, 6, 5, 7, 6]);
}

#[test]
fn cube_vertices_are_placed_in_world() {
    let reg = stone_registry();
    let cube = make_cube_shape();
    let mut verts = Vec::new();
    let mut inds = Vec::new();
    cube.generate_draw_buffers(&mut verts, &mut inds, reg.get(1).unwrap(), 0, BlockDrawContext::default(), (16, 0, 32), (1, 2, 3));
    // World cell (17, 2, 35): the +Y face's first corner is (17, 3, 35).
    assert_eq!(verts[0].pos, IVec3 { x: 34, y: 6, z: 70 });
    assert_eq!(verts[0].scale, 2);
}

#[test]
fn cube_emits_nothing_when_enclosed() {
    let reg = stone_registry();
    let cube = make_cube_shape();
    let mut verts = Vec::new();
    let mut inds = Vec::new();
    let bdc = BlockDrawContext { obstructions: [true; 6] };
    cube.generate_draw_buffers(&mut verts, &mut inds, reg.get(1).unwrap(), 0, bdc, (0, 0, 0), (0, 0, 0));
    assert!(verts.is_empty());
    assert!(inds.is_empty());
}

#[test]
fn cube_hides_only_obstructed_side() {
    let reg = stone_registry();
    let cube = make_cube_shape();
    let mut verts = Vec::new();
    let mut inds = Vec::new();
    // Index 4 is +X.
    let bdc = BlockDrawContext { obstructions: [false, false, false, false, true, false] };
    cube.generate_draw_buffers(&mut verts, &mut inds, reg.get(1).unwrap(), 0, bdc, (0, 0, 0), (0, 0, 0));
    assert_eq!(verts.len(), 20);
    assert_eq!(inds.len(), 30);
    // No vertex lies on the plane x = 1 on all four corners of a face: the
    // +X face is the only one whose corners all have x = 1.
    assert_eq!(verts.iter().filter(|v| v.pos.x == 2).count(), 8);
}

#[test]
fn slope_emits_five_faces() {
    let mut reg = BlockRegistry::new();
    reg.add(1, "Ramp".to_string(), vec![5], false);
    let slope = make_slope_shape();
    let mut verts = Vec::new();
    let mut inds = Vec::new();
    slope.generate_draw_buffers(&mut verts, &mut inds, reg.get(1).unwrap(), 0, BlockDrawContext::default(), (0, 0, 0), (0, 0, 0));
    assert_eq!(verts.len(), 4 + 4 + 3 + 3 + 4);
    assert_eq!(inds.len(), 6 + 6 + 3 + 3 + 6);
}

#[test]
fn rotated_slope_hides_by_rotated_side() {
    let mut reg = BlockRegistry::new();
    reg.add(1, "Ramp".to_string(), vec![5], false);
    let slope = make_slope_shape();
    let mut verts = Vec::new();
    let mut inds = Vec::new();
    // Orientation 1 turns the shape's -Z face to -Y; an obstruction at -Y
    // (index 3) hides that face only.
    let bdc = BlockDrawContext { obstructions: [false, false, false, true, false, false] };
    slope.generate_draw_buffers(&mut verts, &mut inds, reg.get(1).unwrap(), 1, bdc, (0, 0, 0), (0, 0, 0));
    assert_eq!(verts.len(), 4 + 3 + 3 + 4);
    // Denominator 4 for this orientation: positions are over 8.
    assert!(verts.iter().all(|v| v.scale == 8));
}

#[test]
fn indices_wrap_at_sixteen_bits() {
    let reg = stone_registry();
    let cube = make_cube_shape();
    let filler = MeshVertex { pos: IVec3 { x: 0, y: 0, z: 0 }, scale: 2, u: 0, v: 0, array_index: 0 };
    let mut verts = vec![filler; 65535];
    let mut inds = Vec::new();
    cube.generate_draw_buffers(&mut verts, &mut inds, reg.get(1).unwrap(), 0, BlockDrawContext::default(), (0, 0, 0), (0, 0, 0));
    assert_eq!(&inds[0..6], &[65535, 1, 0, 0, 1, 2]);
}

#[test]
fn custom_face_shape() {
    let face = FaceDef {
        obstructed_by: Some(RotFace::PlusZ),
        vertices: vec![
            FaceVertex { pos: IVec3 { x: 0, y: 0, z: 1 }, u: 0, v: 0 },
            FaceVertex { pos: IVec3 { x: 1, y: 0, z: 1 }, u: 2, v: 0 },
            FaceVertex { pos: IVec3 { x: 0, y: 1, z: 1 }, u: 0, v: 2 },
        ],
        indices: vec![0, 1, 2],
    };
    let shape = BlockShape { faces: vec![face], obstructs: [false; 6], rot_group: RotType::RotFace };
    let reg = stone_registry();
    // Orientation 2 points the shape's +Z at +Y; obstruction at +Y (index 2) hides the face.
    let mut verts = Vec::new();
    let mut inds = Vec::new();
    let bdc = BlockDrawContext { obstructions: [false, false, true, false, false, false] };
    shape.generate_draw_buffers(&mut verts, &mut inds, reg.get(1).unwrap(), 2, bdc, (0, 0, 0), (0, 0, 0));
    assert!(verts.is_empty());
    let bdc = BlockDrawContext { obstructions: [true, false, false, false, false, false] };
    shape.generate_draw_buffers(&mut verts, &mut inds, reg.get(1).unwrap(), 2, bdc, (0, 0, 0), (0, 0, 0));
    assert_eq!(verts.len(), 3);
    // (0, 0, 1) turns to (0, 1, 0): centre (1, 1, 1) in half units plus that.
    assert_eq!(verts[0].pos, IVec3 { x: 1, y: 2, z: 1 });
}
