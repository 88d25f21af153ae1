use minesweeper_core::difficulty::Difficulty;
use minesweeper_core::game::{ClickButton, Game};
use minesweeper_core::grid_size::GridSize;
use minesweeper_core::state_machine::{GameEvent, GameState};
use minesweeper_core::tile::{Tile, TileArena, TileHandle, TileSize};

/// A game taken through setup into `Run` at the default difficulty.
fn running_game() -> Game {
    let mut g = Game::new(TileSize::new(24));
    g.assets_ready();
    let removed = g.update_grid();
    assert!(removed.is_empty());
    assert_eq!(g.state, GameState::Run);
    g
}

/// The tile state shown at cell `(col, row)`.
fn tile_at(g: &Game, col: usize, row: usize) -> Option<Tile> {
    g.grid.get_tile(col, row).and_then(|h| g.tiles.get(h))
}

/// How many tiles of the arena are placed or detonated mines.
fn mine_or_boom_count(tiles: &TileArena) -> usize {
    let mut count: usize = 0;
    for id in 0..tiles.len() {
        match tiles.get(TileHandle { id }) {
            Some(Tile::Mine) | Some(Tile::Boom) => count += 1,
            _ => {}
        }
    }
    count
}

#[test]
fn transitions_fire_only_on_their_triggers() {
    let all_states = [GameState::Setup, GameState::Start, GameState::Run, GameState::Over];
    let all_events = [
        GameEvent::AssetsReady,
        GameEvent::BoardReady,
        GameEvent::LosingClick,
        GameEvent::DifficultyChange,
    ];
    for s in all_states {
        for e in all_events {
            let n = s.next(e);
            let expected = match (s, e) {
                (GameState::Setup, GameEvent::AssetsReady) => GameState::Start,
                (GameState::Start, GameEvent::BoardReady) => GameState::Run,
                (GameState::Run, GameEvent::LosingClick) => GameState::Over,
                (GameState::Run, GameEvent::DifficultyChange) => GameState::Start,
                (GameState::Over, GameEvent::DifficultyChange) => GameState::Start,
                _ => s,
            };
            assert_eq!(n, expected);
        }
    }
}

#[test]
fn setup_advances_only_on_assets_ready() {
    let mut g = Game::new(TileSize::new(24));
    assert_eq!(g.state, GameState::Setup);
    // a difficulty change in Setup replaces the value but does not advance
    g.change_difficulty(Difficulty::Intermediate);
    assert_eq!(g.state, GameState::Setup);
    assert_eq!(g.difficulty, Difficulty::Intermediate);
    g.assets_ready();
    assert_eq!(g.state, GameState::Start);
}

#[test]
fn difficulty_keys_choose_the_presets() {
    let mut g = running_game();
    assert!(g.handle_difficulty_key(3));
    assert_eq!(g.difficulty, Difficulty::Expert);
    assert_eq!(g.state, GameState::Start);
    let _ = g.update_grid();
    assert!(g.handle_difficulty_key(2));
    assert_eq!(g.difficulty, Difficulty::Intermediate);
    let _ = g.update_grid();
    assert!(g.handle_difficulty_key(1));
    assert_eq!(g.difficulty, Difficulty::Beginner);
    let _ = g.update_grid();
    // an unbound key changes nothing
    assert!(!g.handle_difficulty_key(7));
    assert_eq!(g.difficulty, Difficulty::Beginner);
    assert_eq!(g.state, GameState::Run);
}

#[test]
fn beginner_loss_scenario() {
    // Beginner (8x8, 10 mines) -> Start -> Run; a primary click at the
    // pixel center of cell (3,3) detonates it and ends the game; the
    // reveal then shows exactly 10 mines, cell (3,3) among them
    let mut g = running_game();
    assert_eq!(g.difficulty, Difficulty::Beginner);
    assert_eq!(g.grid.size(), GridSize::new(8, 8));

    let changed = g.handle_grid_click(ClickButton::Primary, 84, 84);
    assert_eq!(changed, g.grid.get_tile(3, 3));
    assert!(changed.is_some());
    assert_eq!(g.state, GameState::Over);
    assert_eq!(tile_at(&g, 3, 3), Some(Tile::Boom));

    g.reveal_mines();
    assert_eq!(mine_or_boom_count(&g.tiles), 10);
    assert_eq!(tile_at(&g, 3, 3), Some(Tile::Boom));
}

#[test]
fn secondary_click_toggles_flag() {
    // flagging an untouched tile and flagging it again returns it to Default
    let mut g = running_game();
    let changed = g.handle_grid_click(ClickButton::Secondary, 84, 84);
    assert!(changed.is_some());
    assert_eq!(tile_at(&g, 3, 3), Some(Tile::Flagged));
    assert_eq!(g.state, GameState::Run);
    let changed = g.handle_grid_click(ClickButton::Secondary, 84, 84);
    assert!(changed.is_some());
    assert_eq!(tile_at(&g, 3, 3), Some(Tile::Default));
    assert_eq!(g.state, GameState::Run);
}

#[test]
fn secondary_click_leaves_other_states_alone() {
    let mut g = running_game();
    // force a detonated tile, then a secondary click on it is a no-op
    let h = g.grid.get_tile(2, 2).unwrap();
    g.tiles.change(h, Tile::Boom);
    let changed = g.handle_grid_click(ClickButton::Secondary, 60, 60);
    assert_eq!(changed, None);
    assert_eq!(tile_at(&g, 2, 2), Some(Tile::Boom));
}

#[test]
fn clicks_outside_the_board_are_ignored() {
    let mut g = running_game();
    assert_eq!(g.handle_grid_click(ClickButton::Primary, -5, 10), None);
    assert_eq!(g.handle_grid_click(ClickButton::Primary, 10, -5), None);
    assert_eq!(g.handle_grid_click(ClickButton::Primary, 192, 0), None);
    assert_eq!(g.handle_grid_click(ClickButton::Secondary, 0, 500), None);
    assert_eq!(g.state, GameState::Run);
    for col in 0..8 {
        for row in 0..8 {
            assert_eq!(tile_at(&g, col, row), Some(Tile::Default));
        }
    }
}

#[test]
fn switching_to_expert_mid_run_rebuilds() {
    // switching from Beginner to Expert mid-Run rebuilds to 32x16 and
    // returns to Run with every tile Default
    let mut g = running_game();
    let _ = g.handle_grid_click(ClickButton::Secondary, 84, 84);
    g.change_difficulty(Difficulty::Expert);
    assert_eq!(g.state, GameState::Start);
    let removed = g.update_grid();
    assert!(removed.is_empty());
    assert_eq!(g.state, GameState::Run);
    assert_eq!(g.grid.size(), GridSize::new(32, 16));
    for col in 0..32 {
        for row in 0..16 {
            assert_eq!(tile_at(&g, col, row), Some(Tile::Default));
        }
    }
}

#[test]
fn switching_down_retires_removed_tiles() {
    let mut g = running_game();
    g.change_difficulty(Difficulty::Expert);
    let _ = g.update_grid();
    g.change_difficulty(Difficulty::Beginner);
    assert_eq!(g.state, GameState::Start);
    let removed = g.update_grid();
    // 512 cells down to 64: the dropped populated slots come back
    assert_eq!(removed.len(), 448);
    for h in removed {
        assert_eq!(g.tiles.get(h), None);
    }
    assert_eq!(g.state, GameState::Run);
    assert_eq!(g.grid.size(), GridSize::new(8, 8));
}

#[test]
fn game_over_recovers_via_difficulty_change_only() {
    let mut g = running_game();
    let _ = g.handle_grid_click(ClickButton::Primary, 0, 0);
    assert_eq!(g.state, GameState::Over);
    g.reveal_mines();
    assert_eq!(g.state, GameState::Over);
    g.change_difficulty(Difficulty::Beginner);
    assert_eq!(g.state, GameState::Start);
    let _ = g.update_grid();
    assert_eq!(g.state, GameState::Run);
    assert_eq!(mine_or_boom_count(&g.tiles), 0);
}

#[test]
fn reveal_counts_mines_exactly() {
    // k pre-existing Mine/Boom tiles and m wanted: afterwards the count of
    // Mine/Boom tiles is min(m, total) whenever k <= m
    let mut a = TileArena::new();
    let mut handles = Vec::new();
    for _ in 0..10 {
        handles.push(a.spawn());
    }
    a.change(handles[1], Tile::Mine);
    a.change(handles[4], Tile::Boom);
    a.change(handles[7], Tile::Mine);
    a.change(handles[8], Tile::Flagged);

    a.reveal_mines(5);
    assert_eq!(mine_or_boom_count(&a), 5);
    // every pre-existing Boom stays Boom, every pre-existing Mine detonates
    assert_eq!(a.get(handles[1]), Some(Tile::Boom));
    assert_eq!(a.get(handles[4]), Some(Tile::Boom));
    assert_eq!(a.get(handles[7]), Some(Tile::Boom));
}

#[test]
fn reveal_caps_at_the_number_of_tiles() {
    let mut a = TileArena::new();
    for _ in 0..6 {
        a.spawn();
    }
    a.reveal_mines(100);
    assert_eq!(mine_or_boom_count(&a), 6);
}

#[test]
fn reveal_with_surplus_of_existing_mines_adds_none() {
    // more mines on the board than wanted: the pass adds none and the
    // count stays at the pre-existing number
    let mut a = TileArena::new();
    let mut handles = Vec::new();
    for _ in 0..8 {
        handles.push(a.spawn());
    }
    for k in 0..4 {
        a.change(handles[k], Tile::Mine);
    }
    a.reveal_mines(2);
    assert_eq!(mine_or_boom_count(&a), 4);
    for k in 0..4 {
        assert_eq!(a.get(handles[k]), Some(Tile::Boom));
    }
    for k in 4..8 {
        assert_eq!(a.get(handles[k]), Some(Tile::Default));
    }
}

#[test]
fn reveal_on_an_empty_arena_is_a_no_op() {
    let mut a = TileArena::new();
    a.reveal_mines(10);
    assert_eq!(a.len(), 0);
    assert_eq!(mine_or_boom_count(&a), 0);
}

#[test]
fn reveal_never_touches_dead_slots() {
    let mut a = TileArena::new();
    let h0 = a.spawn();
    let h1 = a.spawn();
    let h2 = a.spawn();
    a.despawn(h1);
    a.reveal_mines(3);
    // only the two live tiles can become mines
    assert_eq!(a.get(h1), None);
    assert_eq!(mine_or_boom_count(&a), 2);
    assert_eq!(a.get(h0), Some(Tile::Mine));
    assert_eq!(a.get(h2), Some(Tile::Mine));
}

#[test]
fn primary_click_detonates_even_a_flagged_tile() {
    let mut g = running_game();
    let _ = g.handle_grid_click(ClickButton::Secondary, 84, 84);
    assert_eq!(tile_at(&g, 3, 3), Some(Tile::Flagged));
    let changed = g.handle_grid_click(ClickButton::Primary, 84, 84);
    assert!(changed.is_some());
    assert_eq!(tile_at(&g, 3, 3), Some(Tile::Boom));
    assert_eq!(g.state, GameState::Over);
}
