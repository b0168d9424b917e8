use cubes::coord::Coord;
use cubes::grid::Cubes;

fn to_f32(verts: &[Coord<i64>]) -> Vec<Coord<f32>> {
    verts
        .iter()
        .map(|c| Coord {
            x: c.x as f32,
            y: c.y as f32,
            z: c.z as f32,
        })
        .collect()
}

#[test]
fn cube_to_vertices() {
    let cubes = Cubes::new_list(vec![
        Coord { x: -3, y: 0, z: 0 },
        Coord { x: -2, y: 0, z: 0 },
        Coord { x: -2, y: 1, z: 0 },
        Coord { x: -1, y: 0, z: 0 },
        Coord { x: -1, y: 0, z: 1 },
        Coord { x: -1, y: 1, z: 1 },
    ])
    .unwrap();
    let (verts, indicies) = cubes.to_vertices(384, 312);
    assert_eq!(
        (to_f32(&verts), indicies),
        (vec![
            Coord { x: 0., y: 0., z: 0. },//1.
            Coord { x: 0., y: 0., z: 1. },//1.
            Coord { x: 0., y: 1., z: 1. },//1.
            Coord { x: 0., y: 1., z: 0. },//1.
            Coord { x: 1., y: 1., z: 0. },//1.
            Coord { x: 1., y: 1., z: 1. },//1.
            Coord { x: 1., y: 0., z: 1. },//1.
            Coord { x: 1., y: 0., z: 0. },//1.
            Coord { x: 0.+1., y: 0., z: 0. },//2.
            Coord { x: 0.+1., y: 0., z: 1. },//2.
            Coord { x: 0.+1., y: 1., z: 1. },//2.
            Coord { x: 0.+1., y: 1., z: 0. },//2.
            Coord { x: 1.+1., y: 1., z: 0. },//2.
            Coord { x: 1.+1., y: 1., z: 1. },//2.
            Coord { x: 1.+1., y: 0., z: 1. },//2.
            Coord { x: 1.+1., y: 0., z: 0. },//2.
            Coord { x: 0.+2., y: 0., z: 0. },//4.
            Coord { x: 0.+2., y: 0., z: 1. },//4.
            Coord { x: 0.+2., y: 1., z: 1. },//4.
            Coord { x: 0.+2., y: 1., z: 0. },//4.
            Coord { x: 1.+2., y: 1., z: 0. },//4.
            Coord { x: 1.+2., y: 1., z: 1. },//4.
            Coord { x: 1.+2., y: 0., z: 1. },//4.
            Coord { x: 1.+2., y: 0., z: 0. },//4.
            Coord { x: 0.+2., y: 0., z: 0.+1. },//5.
            Coord { x: 0.+2., y: 0., z: 1.+1. },//5.
            Coord { x: 0.+2., y: 1., z: 1.+1. },//5.
            Coord { x: 0.+2., y: 1., z: 0.+1. },//5.
            Coord { x: 1.+2., y: 1., z: 0.+1. },//5.
            Coord { x: 1.+2., y: 1., z: 1.+1. },//5.
            Coord { x: 1.+2., y: 0., z: 1.+1. },//5.
            Coord { x: 1.+2., y: 0., z: 0.+1. },//5.
            Coord { x: 0.+1., y: 0.+1., z: 0. },//3.
            Coord { x: 0.+1., y: 0.+1., z: 1. },//3.
            Coord { x: 0.+1., y: 1.+1., z: 1. },//3.
            Coord { x: 0.+1., y: 1.+1., z: 0. },//3.
            Coord { x: 1.+1., y: 1.+1., z: 0. },//3.
            Coord { x: 1.+1., y: 1.+1., z: 1. },//3.
            Coord { x: 1.+1., y: 0.+1., z: 1. },//3.
            Coord { x: 1.+1., y: 0.+1., z: 0. },//3.
            Coord { x: 0.+2., y: 0.+1., z: 0.+1. },//6.
            Coord { x: 0.+2., y: 0.+1., z: 1.+1. },//6.
            Coord { x: 0.+2., y: 1.+1., z: 1.+1. },//6.
            Coord { x: 0.+2., y: 1.+1., z: 0.+1. },//6.
            Coord { x: 1.+2., y: 1.+1., z: 0.+1. },//6.
            Coord { x: 1.+2., y: 1.+1., z: 1.+1. },//6.
            Coord { x: 1.+2., y: 0.+1., z: 1.+1. },//6.
            Coord { x: 1.+2., y: 0.+1., z: 0.+1. },//6.
        ],vec![
            0, 1, 2, 0, 2, 3, //1
            //4, 5, 6, 4, 6, 7, //1
            0, 3, 4, 0, 4, 7, //1
            1, 6, 5, 1, 5, 2, //1
            2, 4, 3, 2, 5, 4, //1
            0, 6, 1, 0, 7, 6, //1
            //0+8, 1+8, 2+8, 0+8, 2+8, 3+8, //2
            //4+8, 5+8, 6+8, 4+8, 6+8, 7+8, //2
            0+8, 3+8, 4+8, 0+8, 4+8, 7+8, //2
            1+8, 6+8, 5+8, 1+8, 5+8, 2+8, //2
            //2+8, 4+8, 3+8, 2+8, 5+8, 4+8, //2
            0+8, 6+8, 1+8, 0+8, 7+8, 6+8, //2
            //0+16, 1+16, 2+16, 0+16, 2+16, 3+16, //3
            4+16, 5+16, 6+16, 4+16, 6+16, 7+16, //3
            0+16, 3+16, 4+16, 0+16, 4+16, 7+16, //3
            //1+16, 6+16, 5+16, 1+16, 5+16, 2+16, //3
            2+16, 4+16, 3+16, 2+16, 5+16, 4+16, //3
            0+16, 6+16, 1+16, 0+16, 7+16, 6+16, //3
            0+24, 1+24, 2+24, 0+24, 2+24, 3+24, //4
            4+24, 5+24, 6+24, 4+24, 6+24, 7+24, //4
            //0+24, 3+24, 4+24, 0+24, 4+24, 7+24, //4
            1+24, 6+24, 5+24, 1+24, 5+24, 2+24, //4
            //2+24, 4+24, 3+24, 2+24, 5+24, 4+24, //4
            0+24, 6+24, 1+24, 0+24, 7+24, 6+24, //4
            0+32, 1+32, 2+32, 0+32, 2+32, 3+32, //5
            4+32, 5+32, 6+32, 4+32, 6+32, 7+32, //5
            0+32, 3+32, 4+32, 0+32, 4+32, 7+32, //5
            1+32, 6+32, 5+32, 1+32, 5+32, 2+32, //5
            2+32, 4+32, 3+32, 2+32, 5+32, 4+32, //5
            //0+32, 6+32, 1+32, 0+32, 7+32, 6+32, //5
            0+40, 1+40, 2+40, 0+40, 2+40, 3+40, //6
            4+40, 5+40, 6+40, 4+40, 6+40, 7+40, //6
            0+40, 3+40, 4+40, 0+40, 4+40, 7+40, //6
            1+40, 6+40, 5+40, 1+40, 5+40, 2+40, //6
            2+40, 4+40, 3+40, 2+40, 5+40, 4+40, //6
            //0+40, 6+40, 1+40, 0+40, 7+40, 6+40, //6
        ])
    );
}

#[test]
fn isolated_cube_emits_all_faces() {
    let g = Cubes::new_list(vec![Coord { x: 5, y: 7, z: 9 }]).unwrap();
    let (verts, idx) = g.to_vertices(8, 36);
    assert_eq!(verts.len(), 8);
    assert_eq!(idx.len(), 36);
    assert!(idx.iter().all(|&i| (i as usize) < verts.len()));
}

#[test]
fn adjacent_cubes_suppress_shared_face() {
    for pair in [
        [Coord { x: 0, y: 0, z: 0 }, Coord { x: 1, y: 0, z: 0 }],
        [Coord { x: 0, y: 0, z: 0 }, Coord { x: 0, y: 1, z: 0 }],
        [Coord { x: 0, y: 0, z: 0 }, Coord { x: 0, y: 0, z: 1 }],
    ] {
        let g = Cubes::new_list(pair.to_vec()).unwrap();
        let (verts, idx) = g.to_vertices(16, 60);
        assert_eq!(verts.len(), 16);
        assert_eq!(idx.len(), 60);
    }
}

#[test]
fn empty_grid_yields_empty_mesh() {
    let g = Cubes::new();
    let (verts, idx) = g.to_vertices(384, 312);
    assert!(verts.is_empty());
    assert!(idx.is_empty());
}

#[test]
fn logically_empty_grid_yields_empty_mesh() {
    let mut g = Cubes::new_list(vec![Coord { x: 0, y: 0, z: 0 }]).unwrap();
    g.pop();
    let (verts, idx) = g.to_vertices(0, 0);
    assert!(verts.is_empty());
    assert!(idx.is_empty());
}

#[test]
fn to_vertices_is_deterministic() {
    let g = Cubes::new_list(vec![
        Coord { x: -3, y: 0, z: 0 },
        Coord { x: -2, y: 0, z: 0 },
        Coord { x: -2, y: 1, z: 0 },
        Coord { x: -1, y: 0, z: 0 },
        Coord { x: -1, y: 0, z: 1 },
        Coord { x: -1, y: 1, z: 1 },
    ])
    .unwrap();
    let first = g.to_vertices(384, 312);
    let second = g.to_vertices(0, 0);
    assert_eq!(first, second);
}

#[test]
fn index_count_is_a_multiple_of_six() {
    let g = Cubes::new_list(vec![
        Coord { x: 0, y: 0, z: 0 },
        Coord { x: 2, y: 2, z: 2 },
        Coord { x: 1, y: 1, z: 1 },
    ])
    .unwrap();
    let (verts, idx) = g.to_vertices(0, 0);
    assert_eq!(idx.len() % 6, 0);
    assert_eq!(verts.len(), 24);
}

#[test]
fn mesh_updates_after_removal() {
    let mut g = Cubes::new_list(vec![
        Coord { x: 0, y: 0, z: 0 },
        Coord { x: 1, y: 0, z: 0 },
    ])
    .unwrap();
    let (_, idx_before) = g.to_vertices(0, 0);
    assert_eq!(idx_before.len(), 60);
    assert!(g.remove(1, 0, 0));
    let (verts, idx) = g.to_vertices(0, 0);
    assert_eq!(verts.len(), 8);
    assert_eq!(idx.len(), 36);
}
