use minesweeper_core::difficulty::Difficulty;
use minesweeper_core::grid::{Grid, ResizeResult};
use minesweeper_core::grid_size::GridSize;
use minesweeper_core::tile::{Tile, TileArena, TileHandle, TileSize};

#[test]
fn index_of_is_row_major() {
    let s = GridSize::new(8, 8);
    assert_eq!(s.columns(), 8);
    assert_eq!(s.rows(), 8);
    assert_eq!(s.capacity(), 64);
    assert_eq!(s.index_of(0, 0), 0);
    assert_eq!(s.index_of(3, 3), 27);
    assert_eq!(s.index_of(7, 7), 63);
}

#[test]
fn index_of_unique_and_in_range() {
    let s = GridSize::new(8, 8);
    let mut hit = vec![false; s.capacity()];
    for col in 0..s.columns() {
        for row in 0..s.rows() {
            let i = s.index_of(col, row);
            assert!(i < s.capacity());
            assert!(!hit[i], "two cells share index {}", i);
            hit[i] = true;
        }
    }
}

#[test]
fn difficulty_presets() {
    let b = Difficulty::Beginner;
    assert_eq!(b.size(), GridSize::new(8, 8));
    assert_eq!(b.mines(), 10);

    let i = Difficulty::Intermediate;
    assert_eq!(i.size(), GridSize::new(16, 16));
    assert_eq!(i.mines(), 40);

    let e = Difficulty::Expert;
    assert_eq!(e.size(), GridSize::new(32, 16));
    assert_eq!(e.mines(), 100);

    let c = Difficulty::Custom { size: GridSize::new(5, 4), mines: 99 };
    assert_eq!(c.size(), GridSize::new(5, 4));
    assert_eq!(c.mines(), 99);
}

#[test]
fn difficulty_default_and_change() {
    let mut d = Difficulty::default();
    assert_eq!(d, Difficulty::Beginner);
    d.change(Difficulty::Expert);
    assert_eq!(d, Difficulty::Expert);
}

#[test]
fn tile_index_order_is_stable() {
    // bit-exact order: an external contract for any rendering layer
    assert_eq!(Tile::Default.index(), 0);
    assert_eq!(Tile::Flagged.index(), 1);
    assert_eq!(Tile::Mine.index(), 2);
    assert_eq!(Tile::Boom.index(), 3);
    let all = Tile::all();
    assert_eq!(all.len(), 4);
    for (i, t) in all.iter().enumerate() {
        assert_eq!(t.index(), i);
    }
}

#[test]
fn tile_change_overwrites_any_state() {
    let mut t = Tile::Boom;
    t.change(Tile::Default);
    assert_eq!(t, Tile::Default);
    t.change(Tile::Mine);
    assert_eq!(t, Tile::Mine);
    t.change(Tile::Flagged);
    assert_eq!(t, Tile::Flagged);
}

#[test]
fn tile_size_default_is_24() {
    let ts = TileSize::default();
    assert_eq!(ts, TileSize::new(24));
    assert_eq!(ts.x, 24);
    assert_eq!(ts.y, 24);
}

#[test]
fn new_grid_is_empty() {
    let g = Grid::new(GridSize::new(4, 3), TileSize::new(24));
    assert_eq!(g.capacity(), 12);
    for col in 0..4 {
        for row in 0..3 {
            assert_eq!(g.get_tile(col, row), None);
        }
    }
}

#[test]
fn grid_width_and_height() {
    let g = Grid::new(GridSize::new(8, 8), TileSize::new(24));
    assert_eq!(g.width(), 192);
    assert_eq!(g.height(), 192);
    let g2 = Grid::new(GridSize::new(32, 16), TileSize::new(10));
    assert_eq!(g2.width(), 320);
    assert_eq!(g2.height(), 160);
}

#[test]
fn resize_equal_capacity_is_nochange() {
    let mut g = Grid::new(GridSize::new(16, 16), TileSize::new(24));
    let r = g.resize(GridSize::new(16, 16));
    assert!(matches!(r, ResizeResult::NoChange));
}

#[test]
fn resize_transposed_equal_capacity_is_nochange_but_size_updates() {
    // only the capacities are compared, so a transposed size reports
    // NoChange even though the shape changed; the size is updated anyway
    let mut g = Grid::new(GridSize::new(4, 2), TileSize::new(24));
    let r = g.resize(GridSize::new(2, 4));
    assert!(matches!(r, ResizeResult::NoChange));
    assert_eq!(g.size(), GridSize::new(2, 4));
}

#[test]
fn resize_grow_reports_net_new_slots() {
    let mut g = Grid::new(GridSize::new(8, 8), TileSize::new(24));
    let r = g.resize(GridSize::new(16, 16));
    match r {
        ResizeResult::Grow(n) => assert_eq!(n, 192),
        _ => panic!("expected a grow"),
    }
    assert_eq!(g.capacity(), 256);
}

#[test]
fn resize_twice_same_size_is_nochange() {
    // idempotence at fixed capacity: the second call reports NoChange
    let mut g = Grid::new(GridSize::new(8, 8), TileSize::new(24));
    let first = g.resize(GridSize::new(16, 16));
    assert!(matches!(first, ResizeResult::Grow(_)));
    let second = g.resize(GridSize::new(16, 16));
    assert!(matches!(second, ResizeResult::NoChange));

    let mut g2 = Grid::new(GridSize::new(16, 16), TileSize::new(24));
    let down = g2.resize(GridSize::new(8, 8));
    assert!(matches!(down, ResizeResult::Shrink(_)));
    let again = g2.resize(GridSize::new(8, 8));
    assert!(matches!(again, ResizeResult::NoChange));
}

#[test]
fn resize_shrink_returns_populated_removed_slots() {
    let mut g = Grid::new(GridSize::new(2, 3), TileSize::new(24));
    // populate (0,1) -> slot 2, (1,2) -> slot 5; shrink keeps slots 0 and 1
    g.insert(0, 1, TileHandle { id: 7 });
    g.insert(1, 2, TileHandle { id: 9 });
    g.insert(1, 0, TileHandle { id: 4 });  // slot 1, kept
    let r = g.resize(GridSize::new(2, 1));
    match r {
        ResizeResult::Shrink(removed) => {
            assert_eq!(removed, vec![TileHandle { id: 7 }, TileHandle { id: 9 }]);
        }
        _ => panic!("expected a shrink"),
    }
    assert_eq!(g.capacity(), 2);
    assert_eq!(g.get_tile(1, 0), Some(TileHandle { id: 4 }));
}

#[test]
fn shrink_then_grow_restores_capacity_not_contents() {
    let mut g = Grid::new(GridSize::new(2, 2), TileSize::new(24));
    for col in 0..2 {
        for row in 0..2 {
            g.insert(col, row, TileHandle { id: col + 2 * row });
        }
    }
    let _ = g.resize(GridSize::new(2, 1));
    let _ = g.resize(GridSize::new(2, 2));
    assert_eq!(g.capacity(), 4);
    // the kept prefix survives, the regrown slots start empty
    assert_eq!(g.get_tile(0, 0), Some(TileHandle { id: 0 }));
    assert_eq!(g.get_tile(1, 0), Some(TileHandle { id: 1 }));
    assert_eq!(g.get_tile(0, 1), None);
    assert_eq!(g.get_tile(1, 1), None);
}

#[test]
fn get_tile_bounds_checked() {
    let mut g = Grid::new(GridSize::new(4, 3), TileSize::new(24));
    g.insert(3, 2, TileHandle { id: 11 });
    assert_eq!(g.get_tile(3, 2), Some(TileHandle { id: 11 }));
    assert_eq!(g.get_tile(4, 0), None);
    assert_eq!(g.get_tile(0, 3), None);
}

#[test]
fn get_tile_xy_rejects_negative_coordinates() {
    let mut g = Grid::new(GridSize::new(8, 8), TileSize::new(24));
    g.insert(0, 0, TileHandle { id: 1 });
    assert_eq!(g.get_tile_xy(-1, 5), None);
    assert_eq!(g.get_tile_xy(5, -1), None);
    assert_eq!(g.get_tile_xy(-100, -100), None);
}

#[test]
fn get_tile_xy_rejects_coordinates_beyond_extent() {
    let mut g = Grid::new(GridSize::new(8, 8), TileSize::new(24));
    for col in 0..8 {
        for row in 0..8 {
            g.insert(col, row, TileHandle { id: col + 8 * row });
        }
    }
    // width() == height() == 192
    assert_eq!(g.get_tile_xy(192, 0), None);
    assert_eq!(g.get_tile_xy(0, 192), None);
    assert_eq!(g.get_tile_xy(1000, 1000), None);
    // the last in-range pixel still hits the last cell
    assert_eq!(g.get_tile_xy(191, 191), Some(TileHandle { id: 63 }));
}

#[test]
fn get_tile_xy_floor_divides() {
    let mut g = Grid::new(GridSize::new(8, 8), TileSize::new(24));
    g.insert(3, 3, TileHandle { id: 33 });
    // every pixel of cell (3,3): 72..=95 on both axes
    assert_eq!(g.get_tile_xy(84, 84), Some(TileHandle { id: 33 }));
    assert_eq!(g.get_tile_xy(72, 95), Some(TileHandle { id: 33 }));
    // the neighbouring unpopulated cell misses
    assert_eq!(g.get_tile_xy(96, 84), None);
}

#[test]
fn arena_spawn_get_change_despawn() {
    let mut a = TileArena::new();
    assert_eq!(a.len(), 0);
    let h = a.spawn();
    assert_eq!(h, TileHandle { id: 0 });
    assert_eq!(a.get(h), Some(Tile::Default));
    a.change(h, Tile::Mine);
    assert_eq!(a.get(h), Some(Tile::Mine));
    let h2 = a.spawn();
    assert_eq!(h2, TileHandle { id: 1 });
    a.despawn(h);
    assert_eq!(a.get(h), None);
    assert_eq!(a.get(h2), Some(Tile::Default));
    // handles are never reissued: the arena only grows
    let h3 = a.spawn();
    assert_eq!(h3, TileHandle { id: 2 });
    assert_eq!(a.get(TileHandle { id: 99 }), None);
}
