use cubes::coord::Coord;
use cubes::grid::Cubes;

#[test]
fn cube_new_list() {
    assert_eq!(
        Cubes::new_list(vec![
            Coord { x: -5, y: -3, z: -2 },
            Coord { x: -2, y: -3, z: 2 },
            Coord { x: -3, y: -1, z: 0 },
            Coord { x: -4, y: -2, z: -1 },
            Coord { x: 0, y: 0, z: -2 },
            Coord { x: -1, y: -1, z: 1 },
        ])
        .unwrap(),
        Cubes {
            positions: vec![
                1, 0, 0, 0, 0, 0, //z:-2,y:-3
                0, 0, 0, 0, 0, 0, //z:-1,y:-3
                0, 0, 0, 0, 0, 0, //z:0,y:-3
                0, 0, 0, 0, 0, 0, //z:1,y:-3
                0, 0, 0, 1, 0, 0, //z:2,y:-3
                0, 0, 0, 0, 0, 0, //z:-2,y:-2
                0, 1, 0, 0, 0, 0, //z:-1,y:-2
                0, 0, 0, 0, 0, 0, //z:0,y:-2
                0, 0, 0, 0, 0, 0, //z:1,y:-2
                0, 0, 0, 0, 0, 0, //z:2,y:-2
                0, 0, 0, 0, 0, 0, //z:-2,y:-1
                0, 0, 0, 0, 0, 0, //z:-1,y:-1
                0, 0, 1, 0, 0, 0, //z:0,y:-1
                0, 0, 0, 0, 1, 0, //z:1,y:-1
                0, 0, 0, 0, 0, 0, //z:2,y:-1
                0, 0, 0, 0, 0, 1, //z:-2,y:0
                0, 0, 0, 0, 0, 0, //z:-1,y:0
                0, 0, 0, 0, 0, 0, //z:0,y:0
                0, 0, 0, 0, 0, 0, //z:1,y:0
                0, 0, 0, 0, 0, 0, //z:2,y:0
            ],
            start_x: -5,
            len_x: 6,
            start_y: -3,
            len_y: 4,
            start_z: -2,
            len_z: 5,
        }
    )
}

#[test]
fn cube_remove() {
    assert!(Cubes::new_list(vec![
        Coord { x: -5, y: -3, z: -2 },
        Coord { x: -2, y: -3, z: 2 },
        Coord { x: -3, y: -1, z: 0 },
        Coord { x: -4, y: -2, z: -1 },
        Coord { x: 0, y: 0, z: -2 },
        Coord { x: -1, y: -1, z: 1 },
    ])
    .unwrap()
    .remove(2, 2, 2))
}

#[test]
fn new_list_empty_input_is_none() {
    assert!(Cubes::new_list(vec![]).is_none());
}

#[test]
fn new_list_single_coordinate() {
    let g = Cubes::new_list(vec![Coord { x: 7, y: -9, z: 11 }]).unwrap();
    assert_eq!(g.start_x, 7);
    assert_eq!(g.start_y, -9);
    assert_eq!(g.start_z, 11);
    assert_eq!(g.len_x, 1);
    assert_eq!(g.len_y, 1);
    assert_eq!(g.len_z, 1);
    assert_eq!(g.positions, vec![1]);
}

#[test]
fn new_list_duplicates_occupy_once() {
    let g = Cubes::new_list(vec![
        Coord { x: 3, y: 4, z: 5 },
        Coord { x: 3, y: 4, z: 5 },
        Coord { x: 4, y: 4, z: 5 },
    ])
    .unwrap();
    assert_eq!(g.len_x, 2);
    assert_eq!(g.len_y, 1);
    assert_eq!(g.len_z, 1);
    assert_eq!(g.positions, vec![1, 1]);
}

#[test]
fn remove_round_trip_reports_once() {
    let mut g = Cubes::new_list(vec![
        Coord { x: 0, y: 0, z: 0 },
        Coord { x: 2, y: 1, z: 1 },
    ])
    .unwrap();
    // First removal of an occupied cell reports true, the second false.
    assert!(g.remove(0, 0, 0));
    assert!(!g.remove(0, 0, 0));
    // An always-empty cell reports false from the start.
    assert!(!g.remove(1, 1, 1));
    // The other occupied cell is untouched by all of the above.
    assert!(g.remove(2, 1, 1));
    assert!(!g.remove(2, 1, 1));
}

#[test]
fn try_remove_checks_bounds() {
    let mut g = Cubes::new_list(vec![Coord { x: 0, y: 0, z: 0 }]).unwrap();
    assert_eq!(g.try_remove(1, 0, 0), None);
    assert_eq!(g.try_remove(0, 0, 0), Some(true));
    assert_eq!(g.try_remove(0, 0, 0), Some(false));
    let mut e = Cubes::new();
    assert_eq!(e.try_remove(0, 0, 0), None);
}

#[test]
fn pop_clears_highest_flat_index() {
    let mut g = Cubes::new_list(vec![
        Coord { x: 0, y: 0, z: 0 },
        Coord { x: 1, y: 0, z: 0 },
        Coord { x: 0, y: 1, z: 0 },
    ])
    .unwrap();
    // Extent 2x2x1; occupied flat indices are 0, 1 and 2 (the y = 1 cell).
    assert_eq!(g.pop(), Some(()));
    assert_eq!(g.positions, vec![1, 1, 0, 0]);
    assert_eq!(g.pop(), Some(()));
    assert_eq!(g.positions, vec![1, 0, 0, 0]);
    assert_eq!(g.pop(), Some(()));
    assert_eq!(g.positions, vec![0, 0, 0, 0]);
    assert_eq!(g.pop(), None);
    assert_eq!(g.positions, vec![0, 0, 0, 0]);
}

#[test]
fn pop_on_empty_grid_is_none() {
    let mut g = Cubes::new();
    assert_eq!(g.pop(), None);
    let mut d = Cubes::default();
    assert_eq!(d.pop(), None);
}

#[test]
fn edits_keep_footprint_fixed() {
    let mut g = Cubes::new_list(vec![
        Coord { x: -1, y: 0, z: 0 },
        Coord { x: 1, y: 0, z: 0 },
    ])
    .unwrap();
    g.pop();
    g.remove(0, 0, 0);
    assert_eq!((g.len_x, g.len_y, g.len_z), (3, 1, 1));
    assert_eq!((g.start_x, g.start_y, g.start_z), (-1, 0, 0));
    assert_eq!(g.positions.len(), 3);
}
