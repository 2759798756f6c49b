use gol_core::index::GridPoint2D;
use gol_core::predefined::{
    conway_2d_and_gate_00, conway_2d_and_gate_01, conway_2d_and_gate_10, conway_2d_and_gate_11,
    conway_2d_eater, conway_2d_glider, conway_2d_glider_gun, conway_2d_glider_gun_with_eater,
    conway_2d_tetris,
};
use std::collections::HashSet;

fn set_of(v: &Vec<GridPoint2D<i32>>) -> HashSet<(i32, i32)> {
    v.iter().map(|p| (p.x, p.y)).collect()
}

fn moved(v: &Vec<GridPoint2D<i32>>, flip: bool, dx: i32, dy: i32) -> HashSet<(i32, i32)> {
    v.iter()
        .map(|p| (if flip { dx - p.x } else { p.x + dx }, p.y + dy))
        .collect()
}

#[test]
fn small_patterns() {
    let tetris = conway_2d_tetris();
    assert_eq!(tetris.len(), 4);
    assert_eq!(
        set_of(&tetris),
        [(0, 0), (0, 1), (1, 0), (-1, 0)].into_iter().collect()
    );
    let glider = conway_2d_glider();
    assert_eq!(glider.len(), 5);
    assert_eq!(
        set_of(&glider),
        [(-1, 0), (1, 0), (1, 1), (0, -1), (1, -1)].into_iter().collect()
    );
    let eater = conway_2d_eater();
    assert_eq!(eater.len(), 7);
    assert!(eater.contains(&GridPoint2D { x: 3, y: -3 }));
}

#[test]
fn glider_gun_cells() {
    let gun = conway_2d_glider_gun();
    assert_eq!(gun.len(), 36);
    assert_eq!(set_of(&gun).len(), 36);
    assert!(gun.contains(&GridPoint2D { x: -17, y: 0 }));
    assert!(gun.contains(&GridPoint2D { x: 18, y: 3 }));
    assert!(gun.contains(&GridPoint2D { x: 7, y: 5 }));
    assert!(!gun.contains(&GridPoint2D { x: 0, y: 1 }));
}

#[test]
fn composite_patterns() {
    let gun = conway_2d_glider_gun();
    let eater = conway_2d_eater();

    let with_eater = conway_2d_glider_gun_with_eater();
    let mut expected = moved(&gun, false, -5, 10);
    expected.extend(moved(&eater, false, 20, -13));
    assert_eq!(set_of(&with_eater), expected);
    assert_eq!(with_eater.len(), 43);

    let gate_11 = conway_2d_and_gate_11();
    let mut expected_11 = moved(&gun, false, -12, 24);
    expected_11.extend(moved(&gun, false, -27, 6));
    expected_11.extend(moved(&gun, true, 38, 23));
    assert_eq!(set_of(&gate_11), expected_11);
    assert_eq!(gate_11.len(), expected_11.len());

    let gate_01 = conway_2d_and_gate_01();
    let mut expected_01 = expected_11.clone();
    expected_01.extend(moved(&eater, false, -4, 18));
    assert_eq!(set_of(&gate_01), expected_01);

    let gate_10 = conway_2d_and_gate_10();
    let mut expected_10 = expected_11.clone();
    expected_10.extend(moved(&eater, false, -19, 0));
    assert_eq!(set_of(&gate_10), expected_10);

    let gate_00 = conway_2d_and_gate_00();
    let mut expected_00 = expected_01.clone();
    expected_00.extend(expected_10.iter().cloned());
    assert_eq!(set_of(&gate_00), expected_00);
    assert_eq!(gate_00.len(), expected_00.len());
}
