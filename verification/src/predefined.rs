//! Starting patterns for Conway's Game of Life on a 2D grid: still lifes,
//! spaceships, a glider gun and logic gates built from guns and eaters.
//!
//! Each pattern is a set of live cells, held in a vector without repeats.

use crate::index::GridPoint2D;
use vstd::prelude::*;

verus! {

/// The cell at `(x, y)`.
pub open spec fn cell(x: int, y: int) -> GridPoint2D<i32> {
    GridPoint2D { x: x as i32, y: y as i32 }
}

/// Every cell of `s` lies within `b` of the origin on both axes.
pub open spec fn bounded(s: Set<GridPoint2D<i32>>, b: int) -> bool {
    forall|p: GridPoint2D<i32>| s.contains(p) ==> -b <= p.x <= b && -b <= p.y <= b
}

/// Where `p` lands when it is mirrored across the y axis (if `flip`) and
/// then moved by `(dx, dy)`.
pub open spec fn place(p: GridPoint2D<i32>, flip: bool, dx: int, dy: int) -> GridPoint2D<i32> {
    GridPoint2D {
        x: (if flip { -p.x + dx } else { p.x + dx }) as i32,
        y: (p.y + dy) as i32,
    }
}

/// The cells of `s`, each mirrored (if `flip`) and moved by `(dx, dy)`.
pub open spec fn placed(s: Set<GridPoint2D<i32>>, flip: bool, dx: int, dy: int) -> Set<
    GridPoint2D<i32>,
> {
    s.map(|p: GridPoint2D<i32>| place(p, flip, dx, dy))
}

/// Adds `p` to the cells in `v`, unless it is there already.
fn insert_point(v: &mut Vec<GridPoint2D<i32>>, p: GridPoint2D<i32>)
    requires
        old(v)@.no_duplicates(),
    ensures
        final(v)@.no_duplicates(),
        final(v)@.to_set() == old(v)@.to_set().insert(p),
{
    let mut i: usize = 0;
    let mut found = false;
    while i < v.len()
        invariant
            0 <= i <= v@.len(),
            found <==> exists|j: int| 0 <= j < i && v@[j] == p,
        decreases v.len() - i,
    {
        if v[i] == p {
            found = true;
        }
        i = i + 1;
    }
    if found {
        assert(v@.to_set().contains(p));
        assert(v@.to_set() =~= v@.to_set().insert(p));
    } else {
        proof {
            v@.lemma_push_to_set_commute(p);
        }
        v.push(p);
    }
}

/// Adds the cells of `other` to those in `v`.
fn insert_points(v: &mut Vec<GridPoint2D<i32>>, other: &Vec<GridPoint2D<i32>>)
    requires
        old(v)@.no_duplicates(),
    ensures
        final(v)@.no_duplicates(),
        final(v)@.to_set() == old(v)@.to_set() + other@.to_set(),
{
    let mut i: usize = 0;
    while i < other.len()
        invariant
            0 <= i <= other@.len(),
            v@.no_duplicates(),
            v@.to_set() == old(v)@.to_set() + other@.take(i as int).to_set(),
        decreases other.len() - i,
    {
        proof {
            assert(other@.take(i + 1) == other@.take(i as int).push(other@[i as int]));
            other@.take(i as int).lemma_push_to_set_commute(other@[i as int]);
        }
        insert_point(v, other[i]);
        assert(v@.to_set() =~= old(v)@.to_set() + other@.take(i + 1).to_set());
        i = i + 1;
    }
    assert(other@.take(other@.len() as int) == other@);
}

/// The cells of `v`, each mirrored across the y axis (if `flip`) and moved
/// by `(dx, dy)`.
fn place_points(v: &Vec<GridPoint2D<i32>>, flip: bool, dx: i32, dy: i32) -> (r: Vec<
    GridPoint2D<i32>,
>)
    requires
        v@.no_duplicates(),
        bounded(v@.to_set(), 1000),
        -1000 <= dx <= 1000,
        -1000 <= dy <= 1000,
    ensures
        r@.no_duplicates(),
        r@.to_set() == placed(v@.to_set(), flip, dx as int, dy as int),
{
    let ghost f = |p: GridPoint2D<i32>| place(p, flip, dx as int, dy as int);
    let mut r: Vec<GridPoint2D<i32>> = Vec::new();
    let mut i: usize = 0;
    while i < v.len()
        invariant
            0 <= i <= v@.len(),
            v@.no_duplicates(),
            bounded(v@.to_set(), 1000),
            -1000 <= dx <= 1000,
            -1000 <= dy <= 1000,
            f == (|p: GridPoint2D<i32>| place(p, flip, dx as int, dy as int)),
            r@ == v@.take(i as int).map_values(f),
        decreases v.len() - i,
    {
        let p = v[i];
        assert(v@.to_set().contains(p));
        let x = if flip {
            dx - p.x
        } else {
            p.x + dx
        };
        let q = GridPoint2D { x, y: p.y + dy };
        r.push(q);
        assert(r@ =~= v@.take(i + 1).map_values(f));
        i = i + 1;
    }
    assert(v@.take(v@.len() as int) == v@);
    proof {
        v@.lemma_to_set_map_commutes(f);
        assert forall|a: int, b: int| 0 <= a < b < r@.len() implies r@[a] != r@[b] by {
            assert(v@[a] != v@[b]);
            assert(v@.to_set().contains(v@[a]));
            assert(v@.to_set().contains(v@[b]));
        }
    }
    r
}

/// The tetromino: a cell with three of its four orthogonal neighbours.
pub open spec fn tetris_cells() -> Set<GridPoint2D<i32>> {
    set![
        cell(0, 0),
        cell(0, 1),
        cell(1, 0),
        cell(-1, 0),
    ]
}

/// The glider, the smallest spaceship.
pub open spec fn glider_cells() -> Set<GridPoint2D<i32>> {
    set![
        cell(-1, 0),
        cell(1, 0),
        cell(1, 1),
        cell(0, -1),
        cell(1, -1),
    ]
}

/// Gosper's glider gun, which emits a glider every thirty generations.
pub open spec fn glider_gun_cells() -> Set<GridPoint2D<i32>> {
    set![
        cell(-17, 0),
        cell(-16, 0),
        cell(-17, 1),
        cell(-16, 1),
        cell(18, 2),
        cell(17, 2),
        cell(18, 3),
        cell(17, 3),
        cell(0, 0),
        cell(-1, 0),
        cell(-1, 1),
        cell(-1, -1),
        cell(-2, 2),
        cell(-2, -2),
        cell(-3, 0),
        cell(-4, 3),
        cell(-4, -3),
        cell(-5, 3),
        cell(-5, -3),
        cell(-6, 2),
        cell(-6, -2),
        cell(-7, 0),
        cell(-7, 1),
        cell(-7, -1),
        cell(3, 1),
        cell(3, 2),
        cell(3, 3),
        cell(4, 1),
        cell(4, 2),
        cell(4, 3),
        cell(5, 0),
        cell(5, 4),
        cell(7, -1),
        cell(7, 0),
        cell(7, 4),
        cell(7, 5),
    ]
}

/// The eater, a still life that destroys the gliders that hit it; its origin
/// is its top left cell.
pub open spec fn eater_cells() -> Set<GridPoint2D<i32>> {
    set![
        cell(0, 0),
        cell(0, -1),
        cell(1, 0),
        cell(2, -1),
        cell(2, -2),
        cell(2, -3),
        cell(3, -3),
    ]
}

/// The tetromino: a cell with three of its four orthogonal neighbours.
pub fn conway_2d_tetris() -> (r: Vec<GridPoint2D<i32>>)
    ensures
        r@.no_duplicates(),
        r@.to_set() == tetris_cells(),
{
    let mut r: Vec<GridPoint2D<i32>> = Vec::new();
    insert_point(&mut r, GridPoint2D { x: 0, y: 0 });
    insert_point(&mut r, GridPoint2D { x: 0, y: 1 });
    insert_point(&mut r, GridPoint2D { x: 1, y: 0 });
    insert_point(&mut r, GridPoint2D { x: -1, y: 0 });
    assert(r@.to_set() =~= tetris_cells());
    r
}

/// The glider, the smallest spaceship.
pub fn conway_2d_glider() -> (r: Vec<GridPoint2D<i32>>)
    ensures
        r@.no_duplicates(),
        r@.to_set() == glider_cells(),
{
    let mut r: Vec<GridPoint2D<i32>> = Vec::new();
    insert_point(&mut r, GridPoint2D { x: -1, y: 0 });
    insert_point(&mut r, GridPoint2D { x: 1, y: 0 });
    insert_point(&mut r, GridPoint2D { x: 1, y: 1 });
    insert_point(&mut r, GridPoint2D { x: 0, y: -1 });
    insert_point(&mut r, GridPoint2D { x: 1, y: -1 });
    assert(r@.to_set() =~= glider_cells());
    r
}

/// Gosper's glider gun, which emits a glider every thirty generations.
pub fn conway_2d_glider_gun() -> (r: Vec<GridPoint2D<i32>>)
    ensures
        r@.no_duplicates(),
        r@.to_set() == glider_gun_cells(),
{
    let mut r: Vec<GridPoint2D<i32>> = Vec::new();
    insert_point(&mut r, GridPoint2D { x: -17, y: 0 });
    insert_point(&mut r, GridPoint2D { x: -16, y: 0 });
    insert_point(&mut r, GridPoint2D { x: -17, y: 1 });
    insert_point(&mut r, GridPoint2D { x: -16, y: 1 });
    insert_point(&mut r, GridPoint2D { x: 18, y: 2 });
    insert_point(&mut r, GridPoint2D { x: 17, y: 2 });
    insert_point(&mut r, GridPoint2D { x: 18, y: 3 });
    insert_point(&mut r, GridPoint2D { x: 17, y: 3 });
    insert_point(&mut r, GridPoint2D { x: 0, y: 0 });
    insert_point(&mut r, GridPoint2D { x: -1, y: 0 });
    insert_point(&mut r, GridPoint2D { x: -1, y: 1 });
    insert_point(&mut r, GridPoint2D { x: -1, y: -1 });
    insert_point(&mut r, GridPoint2D { x: -2, y: 2 });
    insert_point(&mut r, GridPoint2D { x: -2, y: -2 });
    insert_point(&mut r, GridPoint2D { x: -3, y: 0 });
    insert_point(&mut r, GridPoint2D { x: -4, y: 3 });
    insert_point(&mut r, GridPoint2D { x: -4, y: -3 });
    insert_point(&mut r, GridPoint2D { x: -5, y: 3 });
    insert_point(&mut r, GridPoint2D { x: -5, y: -3 });
    insert_point(&mut r, GridPoint2D { x: -6, y: 2 });
    insert_point(&mut r, GridPoint2D { x: -6, y: -2 });
    insert_point(&mut r, GridPoint2D { x: -7, y: 0 });
    insert_point(&mut r, GridPoint2D { x: -7, y: 1 });
    insert_point(&mut r, GridPoint2D { x: -7, y: -1 });
    insert_point(&mut r, GridPoint2D { x: 3, y: 1 });
    insert_point(&mut r, GridPoint2D { x: 3, y: 2 });
    insert_point(&mut r, GridPoint2D { x: 3, y: 3 });
    insert_point(&mut r, GridPoint2D { x: 4, y: 1 });
    insert_point(&mut r, GridPoint2D { x: 4, y: 2 });
    insert_point(&mut r, GridPoint2D { x: 4, y: 3 });
    insert_point(&mut r, GridPoint2D { x: 5, y: 0 });
    insert_point(&mut r, GridPoint2D { x: 5, y: 4 });
    insert_point(&mut r, GridPoint2D { x: 7, y: -1 });
    insert_point(&mut r, GridPoint2D { x: 7, y: 0 });
    insert_point(&mut r, GridPoint2D { x: 7, y: 4 });
    insert_point(&mut r, GridPoint2D { x: 7, y: 5 });
    assert(r@.to_set() =~= glider_gun_cells());
    r
}

/// The eater, a still life that destroys the gliders that hit it; its origin
/// is its top left cell.
pub fn conway_2d_eater() -> (r: Vec<GridPoint2D<i32>>)
    ensures
        r@.no_duplicates(),
        r@.to_set() == eater_cells(),
{
    let mut r: Vec<GridPoint2D<i32>> = Vec::new();
    insert_point(&mut r, GridPoint2D { x: 0, y: 0 });
    insert_point(&mut r, GridPoint2D { x: 0, y: -1 });
    insert_point(&mut r, GridPoint2D { x: 1, y: 0 });
    insert_point(&mut r, GridPoint2D { x: 2, y: -1 });
    insert_point(&mut r, GridPoint2D { x: 2, y: -2 });
    insert_point(&mut r, GridPoint2D { x: 2, y: -3 });
    insert_point(&mut r, GridPoint2D { x: 3, y: -3 });
    assert(r@.to_set() =~= eater_cells());
    r
}

/// Gosper's gun with an eater placed to destroy the gliders it emits.
pub open spec fn glider_gun_with_eater_cells() -> Set<GridPoint2D<i32>> {
    placed(glider_gun_cells(), false, -5, 10) + placed(eater_cells(), false, 20, -13)
}

/// An AND gate with both inputs on: two guns feed the inputs and a
/// mirrored gun crosses them.
pub open spec fn and_gate_11_cells() -> Set<GridPoint2D<i32>> {
    placed(glider_gun_cells(), false, -12, 24) + placed(glider_gun_cells(), false, -27, 6)
        + placed(glider_gun_cells(), true, 38, 23)
}

/// The AND gate with its first input off: an eater blocks the upper gun.
pub open spec fn and_gate_01_cells() -> Set<GridPoint2D<i32>> {
    and_gate_11_cells() + placed(eater_cells(), false, -4, 18)
}

/// The AND gate with its second input off: an eater blocks the lower gun.
pub open spec fn and_gate_10_cells() -> Set<GridPoint2D<i32>> {
    and_gate_11_cells() + placed(eater_cells(), false, -19, 0)
}

/// The AND gate with both inputs off.
pub open spec fn and_gate_00_cells() -> Set<GridPoint2D<i32>> {
    and_gate_01_cells() + and_gate_10_cells()
}

proof fn lemma_base_patterns_bounded()
    ensures
        bounded(glider_gun_cells(), 1000),
        bounded(eater_cells(), 1000),
{
}

/// Gosper's gun with an eater placed to destroy the gliders it emits.
pub fn conway_2d_glider_gun_with_eater() -> (r: Vec<GridPoint2D<i32>>)
    ensures
        r@.no_duplicates(),
        r@.to_set() == glider_gun_with_eater_cells(),
{
    let gun = conway_2d_glider_gun();
    let eater = conway_2d_eater();
    proof {
        lemma_base_patterns_bounded();
    }
    let mut r = place_points(&gun, false, -5, 10);
    let eater_placed = place_points(&eater, false, 20, -13);
    insert_points(&mut r, &eater_placed);
    r
}

/// An AND gate with both inputs on.
pub fn conway_2d_and_gate_11() -> (r: Vec<GridPoint2D<i32>>)
    ensures
        r@.no_duplicates(),
        r@.to_set() == and_gate_11_cells(),
{
    let gun = conway_2d_glider_gun();
    proof {
        lemma_base_patterns_bounded();
    }
    let gun_right = place_points(&gun, true, 38, 23);
    let mut r = place_points(&gun, false, -12, 24);
    let gun_bottom = place_points(&gun, false, -27, 6);
    insert_points(&mut r, &gun_bottom);
    insert_points(&mut r, &gun_right);
    r
}

/// The AND gate with its first input off.
pub fn conway_2d_and_gate_01() -> (r: Vec<GridPoint2D<i32>>)
    ensures
        r@.no_duplicates(),
        r@.to_set() == and_gate_01_cells(),
{
    let mut r = conway_2d_and_gate_11();
    let eater = conway_2d_eater();
    proof {
        lemma_base_patterns_bounded();
    }
    let eater_placed = place_points(&eater, false, -4, 18);
    insert_points(&mut r, &eater_placed);
    r
}

/// The AND gate with its second input off.
pub fn conway_2d_and_gate_10() -> (r: Vec<GridPoint2D<i32>>)
    ensures
        r@.no_duplicates(),
        r@.to_set() == and_gate_10_cells(),
{
    let mut r = conway_2d_and_gate_11();
    let eater = conway_2d_eater();
    proof {
        lemma_base_patterns_bounded();
    }
    let eater_placed = place_points(&eater, false, -19, 0);
    insert_points(&mut r, &eater_placed);
    r
}

/// The AND gate with both inputs off.
pub fn conway_2d_and_gate_00() -> (r: Vec<GridPoint2D<i32>>)
    ensures
        r@.no_duplicates(),
        r@.to_set() == and_gate_00_cells(),
{
    let mut r = conway_2d_and_gate_01();
    let other = conway_2d_and_gate_10();
    insert_points(&mut r, &other);
    r
}

} // verus!
