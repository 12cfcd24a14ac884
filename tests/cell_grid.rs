use bevy::ecs::entity::Entity;
use rixel::cell::CellPosition;
use rixel::grid::{Grid, GridConfig};

fn config(width: u32, height: u32) -> GridConfig {
    GridConfig { grid_width: width, grid_height: height, window_width: 1000, window_height: 1000 }
}

#[test]
fn to_index_is_row_major() {
    let c = config(4, 3);
    assert_eq!(CellPosition::new(0, 0).to_index(&c), 0);
    assert_eq!(CellPosition::new(3, 0).to_index(&c), 3);
    assert_eq!(CellPosition::new(0, 1).to_index(&c), 4);
    assert_eq!(CellPosition::new(2, 2).to_index(&c), 10);
}

#[test]
fn to_index_is_unique_in_range_and_decodes() {
    let c = config(5, 3);
    let mut seen = vec![false; 15];
    for y in 0..3u32 {
        for x in 0..5u32 {
            let i = CellPosition::new(x, y).to_index(&c);
            assert!(i < 15);
            assert!(!seen[i]);
            seen[i] = true;
            assert_eq!(((i % 5) as u32, (i / 5) as u32), (x, y));
        }
    }
    assert!(seen.iter().all(|s| *s));
}

#[test]
fn within_map_bounds_matches_extent() {
    let c = config(4, 3);
    assert!(CellPosition::new(0, 0).within_map_bounds(&c));
    assert!(CellPosition::new(3, 2).within_map_bounds(&c));
    assert!(!CellPosition::new(4, 0).within_map_bounds(&c));
    assert!(!CellPosition::new(0, 3).within_map_bounds(&c));
    assert!(!CellPosition::new(u32::MAX, u32::MAX).within_map_bounds(&c));
}

#[test]
fn grid_keeps_its_config() {
    let g = Grid::empty(config(4, 3));
    let c = g.config();
    assert_eq!((c.grid_width, c.grid_height, c.window_width), (4, 3, 1000));
}

#[test]
fn to_index_beyond_u32_range() {
    let c = config(u32::MAX, 4);
    assert_eq!(CellPosition::new(5, 3).to_index(&c), 3 * (u32::MAX as usize) + 5);
}

#[test]
fn count_is_width_times_height() {
    assert_eq!(config(4, 3).count(), 12);
    assert_eq!(config(1, 1).count(), 1);
}

#[test]
fn empty_grid_has_one_empty_slot_per_cell() {
    let g = Grid::empty(config(4, 3));
    assert_eq!(g.iter().count(), 12);
    assert!(g.iter().all(|s| s.is_none()));
    for y in 0..3 {
        for x in 0..4 {
            assert_eq!(g.get(&CellPosition::new(x, y)), None);
        }
    }
}

#[test]
fn set_then_get_and_remove_then_get() {
    let mut g = Grid::empty(config(4, 3));
    let p = CellPosition::new(2, 1);
    let h = Entity::from_raw(7);
    g.set(&p, h);
    assert_eq!(g.get(&p), Some(h));
    assert_eq!(g.get(&CellPosition::new(1, 2)), None);
    g.remove(&p);
    assert_eq!(g.get(&p), None);
}

#[test]
fn set_leaves_other_cells_alone() {
    let mut g = Grid::empty(config(3, 3));
    for y in 0..3u32 {
        for x in 0..3u32 {
            g.set(&CellPosition::new(x, y), Entity::from_raw(y * 3 + x));
        }
    }
    g.set(&CellPosition::new(1, 1), Entity::from_raw(100));
    for y in 0..3u32 {
        for x in 0..3u32 {
            let want = if (x, y) == (1, 1) { 100 } else { y * 3 + x };
            assert_eq!(g.get(&CellPosition::new(x, y)), Some(Entity::from_raw(want)));
        }
    }
}

#[test]
fn iter_walks_slots_in_row_major_order() {
    let mut g = Grid::empty(config(3, 2));
    g.set(&CellPosition::new(1, 0), Entity::from_raw(1));
    g.set(&CellPosition::new(0, 1), Entity::from_raw(3));
    let slots: Vec<Option<Entity>> = g.iter().cloned().collect();
    assert_eq!(
        slots,
        vec![None, Some(Entity::from_raw(1)), None, Some(Entity::from_raw(3)), None, None]
    );
}

#[test]
fn checked_forms_agree_inside_the_extent() {
    let mut g = Grid::empty(config(4, 3));
    let p = CellPosition::new(3, 2);
    let h = Entity::from_raw(9);
    g.checked_set(&p, h);
    assert_eq!(g.checked_get(&p), Some(h));
    assert_eq!(g.get(&p), Some(h));
    g.checked_remove(&p);
    assert_eq!(g.checked_get(&p), None);
    assert_eq!(g.get(&p), None);
}

#[test]
fn checked_forms_ignore_positions_outside_the_extent() {
    let mut g = Grid::empty(config(4, 3));
    let inside = CellPosition::new(0, 0);
    g.set(&inside, Entity::from_raw(5));
    let before: Vec<Option<Entity>> = g.iter().cloned().collect();
    for p in [CellPosition::new(4, 0), CellPosition::new(0, 3), CellPosition::new(9, 9)] {
        assert_eq!(g.checked_get(&p), None);
        g.checked_set(&p, Entity::from_raw(1));
        g.checked_remove(&p);
        let after: Vec<Option<Entity>> = g.iter().cloned().collect();
        assert_eq!(after, before);
    }
    assert_eq!(g.get(&inside), Some(Entity::from_raw(5)));
}
