use sgr_cubes::block::{dir_to_vector, reverse_dir, BlockRegistry, Direction};
use sgr_cubes::chunk::{is_in_bounds, BlockInstance, CHUNK_SIZE};
use sgr_cubes::wctx::rotation_group::IVec3;

#[test]
fn directions_reverse_and_point() {
    let all = [Direction::PlusY, Direction::MinusY, Direction::PlusX, Direction::MinusX, Direction::PlusZ, Direction::MinusZ];
    for d in all.iter() {
        assert_eq!(reverse_dir(&reverse_dir(d)), *d);
        let v = dir_to_vector(d);
        let w = dir_to_vector(&reverse_dir(d));
        assert_eq!(w, IVec3 { x: -v.x, y: -v.y, z: -v.z });
    }
    assert_eq!(dir_to_vector(&Direction::MinusY), IVec3 { x: 0, y: -1, z: 0 });
}

#[test]
fn borrowed_name_registry() {
    let name = String::from("Dirt");
    let mut reg = BlockRegistry::new();
    assert_eq!(reg.get(0).unwrap().pretty_name, "Air");
    let id = reg.add(3, &name, vec![9, 10]);
    assert_eq!(id, 1);
    let b = reg.get(1).unwrap();
    assert_eq!(b.pretty_name, "Dirt");
    assert_eq!(b.shape_id, 3);
    assert_eq!(b.registry_id, 1);
    assert!(reg.get(2).is_none());
}

#[test]
fn bounds_of_a_chunk() {
    assert!(is_in_bounds((0, 0, 0)));
    assert!(is_in_bounds((CHUNK_SIZE - 1, CHUNK_SIZE - 1, CHUNK_SIZE - 1)));
    assert!(!is_in_bounds((CHUNK_SIZE, 0, 0)));
    assert!(!is_in_bounds((0, 0, 99)));
    let bi = BlockInstance { blockdef: 1, exparam: 2, light: 3 };
    assert_eq!(bi, bi.clone());
}
