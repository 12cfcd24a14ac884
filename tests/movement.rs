use rixel::cell::CellPosition;
use rixel::matrix::CodeMatrix;
use rixel::menu::{ButtonInteraction, ButtonLook, LayoutsMenu, MenuResponse};
use rixel::movement::{Actions, Direction, Movement, Shifts};

fn layout(rows: Vec<Vec<i8>>) -> Actions {
    Actions::new(CodeMatrix::from_rows(&rows).expect("rectangular layout"))
}

fn coords(ps: &[CellPosition]) -> Vec<(u32, u32)> {
    ps.iter().map(|p| (p.x, p.y)).collect()
}

#[test]
fn two_by_two_layout_shifts() {
    // Wall at (0, 1).
    let a = layout(vec![vec![1, 0], vec![1, 1]]);
    assert_eq!(a.get_shifts(0, 0), Shifts { top: 0, left: 0, bottom: 0, right: 1 });
    assert_eq!(a.get_shifts(1, 0), Shifts { top: 0, left: 1, bottom: 1, right: 0 });
    assert_eq!(a.get_shifts(1, 1), Shifts { top: 1, left: 0, bottom: 0, right: 0 });
    assert_eq!(a.get_shifts(0, 1), Shifts { top: 1, left: 0, bottom: 0, right: 1 });
    assert_eq!(coords(&a.get_walls()), vec![(0, 1)]);
    assert!(a.get_objectives().is_empty());
}

#[test]
fn border_is_always_blocked() {
    let a = layout(vec![vec![1; 4]; 3]);
    for y in 0..4u8 {
        assert_eq!(a.get_shifts(0, y).left, 0);
        assert_eq!(a.get_shifts(2, y).right, 0);
    }
    for x in 0..3u8 {
        assert_eq!(a.get_shifts(x, 0).top, 0);
        assert_eq!(a.get_shifts(x, 3).bottom, 0);
    }
    assert_eq!(a.get_shifts(1, 1), Shifts { top: 1, left: 1, bottom: 1, right: 1 });
}

#[test]
fn single_cell_layout_is_closed() {
    let a = layout(vec![vec![1]]);
    assert_eq!(a.get_shifts(0, 0), Shifts::new(0, 0, 0, 0));
}

#[test]
fn every_approach_into_a_wall_is_blocked() {
    let a = layout(vec![vec![1, 1, 1], vec![1, 0, 1], vec![1, 1, 1]]);
    assert_eq!(a.get_shifts(0, 1).right, 0);
    assert_eq!(a.get_shifts(2, 1).left, 0);
    assert_eq!(a.get_shifts(1, 0).bottom, 0);
    assert_eq!(a.get_shifts(1, 2).top, 0);
    // Free neighbours of a free cell are open.
    assert_eq!(a.get_shifts(0, 0), Shifts { top: 0, left: 0, bottom: 1, right: 1 });
    assert_eq!(a.get_shifts(2, 2), Shifts { top: 1, left: 1, bottom: 0, right: 0 });
}

#[test]
fn objectives_are_free_to_enter() {
    let a = layout(vec![vec![1, 2], vec![0, 2]]);
    assert_eq!(a.get_shifts(0, 0), Shifts { top: 0, left: 0, bottom: 1, right: 0 });
    // (1, 0) is a wall, (0, 1) an objective.
    assert_eq!(a.get_shifts(1, 1), Shifts { top: 0, left: 1, bottom: 0, right: 0 });
}

#[test]
fn walls_and_objectives_in_scan_order() {
    let a = layout(vec![vec![0, 1, 2], vec![2, 0, 0], vec![1, 1, 0]]);
    assert_eq!(coords(&a.get_walls()), vec![(0, 0), (1, 1), (1, 2), (2, 2)]);
    assert_eq!(coords(&a.get_objectives()), vec![(0, 2), (1, 0)]);
    assert_eq!(a.indices_of(1), vec![(0, 1), (2, 0), (2, 1)]);
    assert!(a.indices_of(5).is_empty());
}

#[test]
fn extraction_covers_each_cell_once() {
    let a = layout(vec![vec![0, 0], vec![0, 0]]);
    assert_eq!(coords(&a.get_walls()), vec![(0, 0), (0, 1), (1, 0), (1, 1)]);
}

#[test]
fn ragged_rows_are_refused() {
    assert!(CodeMatrix::from_rows(&vec![vec![1, 1], vec![1]]).is_none());
    assert!(CodeMatrix::from_rows(&vec![vec![1], vec![1, 0]]).is_none());
    assert!(CodeMatrix::from_rows(&vec![vec![1, 0], vec![1, 1]]).is_some());
}

#[test]
fn empty_layout_has_no_cells() {
    let a = layout(vec![]);
    assert!(a.get_walls().is_empty());
    assert!(a.get_objectives().is_empty());
}

#[test]
fn movement_follows_the_mask() {
    let a = layout(vec![vec![1, 0], vec![1, 1]]);
    let mut p = CellPosition::new(0, 0);
    Movement::new(Direction::RIGHT).apply(&a, &mut p);
    assert_eq!(p, CellPosition::new(1, 0));
    Movement::new(Direction::BOTTOM).apply(&a, &mut p);
    assert_eq!(p, CellPosition::new(1, 1));
    Movement::new(Direction::TOP).apply(&a, &mut p);
    assert_eq!(p, CellPosition::new(1, 0));
    Movement::new(Direction::LEFT).apply(&a, &mut p);
    assert_eq!(p, CellPosition::new(0, 0));
}

#[test]
fn blocked_command_keeps_position() {
    let a = layout(vec![vec![1, 0], vec![1, 1]]);
    let mut p = CellPosition::new(1, 1);
    Movement::new(Direction::LEFT).apply(&a, &mut p);
    assert_eq!(p, CellPosition::new(1, 1));
    let mut q = CellPosition::new(0, 0);
    for d in [Direction::TOP, Direction::LEFT, Direction::BOTTOM] {
        Movement::new(d).apply(&a, &mut q);
        assert_eq!(q, CellPosition::new(0, 0));
    }
}

#[test]
fn movement_keeps_its_direction() {
    assert_eq!(Movement::new(Direction::BOTTOM).direction(), Direction::BOTTOM);
}

#[test]
fn marks_place_walls_then_objectives() {
    let a = Actions::with_marks(3, 2, &vec![(0, 0), (2, 1), (1, 1)], &vec![(1, 1), (0, 1)]);
    assert_eq!(coords(&a.get_walls()), vec![(0, 0), (2, 1)]);
    assert_eq!(coords(&a.get_objectives()), vec![(0, 1), (1, 1)]);
    assert_eq!(a.indices_of(1), vec![(1, 0), (2, 0)]);
    assert_eq!(a.get_shifts(1, 0), Shifts { top: 0, left: 0, bottom: 1, right: 1 });
}

#[test]
fn random_layout_has_the_requested_shape() {
    let a = Actions::empty(6, 5);
    let mut total = a.get_walls().len() + a.get_objectives().len() + a.indices_of(1).len();
    assert_eq!(total, 30);
    for p in a.get_walls().iter().chain(a.get_objectives().iter()) {
        assert!(p.x < 6 && p.y < 5);
    }
    assert!(a.get_objectives().len() >= 1 && a.get_objectives().len() <= 3);
    total = a.get_walls().len();
    assert!(total <= 3);
}

#[test]
fn small_random_layout_is_all_free() {
    let a = Actions::empty(3, 3);
    assert_eq!(a.indices_of(1).len(), 9);
    let b = Actions::empty(0, 0);
    assert!(b.get_walls().is_empty());
}

#[test]
fn menu_opens_layout_only_on_click() {
    let m = LayoutsMenu;
    assert_eq!(
        m.respond(ButtonInteraction::Clicked),
        MenuResponse { look: ButtonLook::Pressed, open_layout: true }
    );
    assert_eq!(
        m.respond(ButtonInteraction::Hovered),
        MenuResponse { look: ButtonLook::Hovered, open_layout: false }
    );
    assert_eq!(
        m.respond(ButtonInteraction::Idle),
        MenuResponse { look: ButtonLook::Normal, open_layout: false }
    );
}

#[test]
fn movement_beyond_cell_255() {
    let mut rows = vec![vec![1i8; 2]; 300];
    rows[291][0] = 0;
    let a = layout(rows);
    let mut p = CellPosition::new(290, 0);
    Movement::new(Direction::RIGHT).apply(&a, &mut p);
    assert_eq!(p, CellPosition::new(290, 0));
    Movement::new(Direction::BOTTOM).apply(&a, &mut p);
    assert_eq!(p, CellPosition::new(290, 1));
    Movement::new(Direction::RIGHT).apply(&a, &mut p);
    assert_eq!(p, CellPosition::new(291, 1));
    let mut q = CellPosition::new(299, 1);
    Movement::new(Direction::RIGHT).apply(&a, &mut q);
    assert_eq!(q, CellPosition::new(299, 1));
    Movement::new(Direction::LEFT).apply(&a, &mut q);
    assert_eq!(q, CellPosition::new(298, 1));
}

#[test]
fn scans_partition_the_layout() {
    let a = layout(vec![vec![0, 1, 2, 1], vec![2, 0, 0, 1], vec![1, 1, 0, 2]]);
    let walls = a.indices_of(0);
    let free = a.indices_of(1);
    let objectives = a.indices_of(2);
    assert_eq!(walls.len(), 4);
    assert_eq!(free.len(), 5);
    assert_eq!(objectives.len(), 3);
    assert_eq!(walls.len() + free.len() + objectives.len(), 12);
    let mut all: Vec<(usize, usize)> = walls.iter().chain(free.iter()).chain(objectives.iter()).cloned().collect();
    all.sort();
    all.dedup();
    assert_eq!(all.len(), 12);
}
