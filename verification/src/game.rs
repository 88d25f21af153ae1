use vstd::prelude::*;

use crate::difficulty::Difficulty;
use crate::grid::{handles_injective, lemma_collect_live_no_dup, lemma_collect_live_sound};
use crate::grid::{Grid, ResizeResult};
use crate::grid_size::lemma_index_of_in_range;
use crate::reveal_engine::{count_live, count_mine_or_boom, reveal_relates};
use crate::state_machine::{GameEvent, GameState};
use crate::tile::{Tile, TileArena, TileHandle, TileSize};

use vstd::arithmetic::div_mod::{
    lemma_div_pos_is_pos, lemma_fundamental_div_mod, lemma_mod_bound,
};

verus! {

/// Some handle in `removed` has the id `id`.
pub open spec fn retired(removed: Seq<TileHandle>, id: int) -> bool {
    exists|k: int| 0 <= k < removed.len() && (#[trigger] removed[k]).id == id
}

/// Which mouse button a click came from, already decoded by the input
/// layer.
#[derive(Clone, Copy, Debug, PartialEq, Eq, Structural)]
pub enum ClickButton {
    Primary,
    Secondary,
}

/// The whole game in one explicit context object: the control state, the
/// active difficulty, the board, and the arena that owns the tiles. The
/// caller owns it and threads it through every operation; there are no
/// hidden process-wide singletons.
pub struct Game {
    pub state: GameState,
    pub difficulty: Difficulty,
    pub grid: Grid,
    pub tiles: TileArena,
}

impl Game {
    /// The board references only live tiles, no two slots share a tile, and
    /// the parts are themselves well formed.
    pub open spec fn wf(self) -> bool {
        &&& self.grid.wf()
        &&& self.difficulty.wf()
        &&& (forall|i: int|
            0 <= i < self.grid.tiles@.len() && self.grid.tiles@[i] is Some
                ==> self.tiles.is_live(#[trigger] self.grid.tiles@[i]->Some_0))
        &&& handles_injective(self.grid.tiles@)
    }

    /// The tile state shown at board slot `i`, or `None` for an empty slot.
    pub open spec fn board_tile(self, i: int) -> Option<Tile> {
        match self.grid.tiles@[i] {
            Some(h) => if h.id < self.tiles@.len() {
                self.tiles@[h.id as int]
            } else {
                None
            },
            None => None,
        }
    }

    /// A fresh game: in `Setup`, at the default difficulty, with an empty
    /// board of that difficulty's size awaiting the assets.
    pub fn new(tile_size: TileSize) -> (g: Game)
        requires
            tile_size.wf(),
        ensures
            g.wf(),
            g.state == GameState::Setup,
            g.difficulty == Difficulty::Beginner,
            g.grid.grid_size == Difficulty::Beginner.spec_size(),
            g.grid.tile_size == tile_size,
            forall|i: int| 0 <= i < g.grid.tiles@.len() ==> g.grid.tiles@[i] is None,
            g.tiles@ =~= Seq::<Option<Tile>>::empty(),
    {
        let difficulty = Difficulty::default();
        let grid = Grid::new(difficulty.size(), tile_size);
        Game { state: GameState::Setup, difficulty, grid, tiles: TileArena::new() }
    }

    /// The outside loader's "assets ready" signal. On leaving `Setup` the
    /// game components are set up: the board is recreated at the active
    /// difficulty's size, all slots empty. In any other state this is a
    /// no-op.
    pub fn assets_ready(&mut self)
        requires
            old(self).wf(),
        ensures
            final(self).wf(),
            final(self).state == old(self).state.spec_next(GameEvent::AssetsReady),
            final(self).difficulty == old(self).difficulty,
            final(self).tiles == old(self).tiles,
            old(self).state == GameState::Setup ==> {
                &&& final(self).grid.grid_size == old(self).difficulty.spec_size()
                &&& final(self).grid.tile_size == old(self).grid.tile_size
                &&& forall|i: int|
                    0 <= i < final(self).grid.tiles@.len() ==> final(self).grid.tiles@[i] is None
            },
            old(self).state != GameState::Setup ==> final(self).grid == old(self).grid,
    {
        if self.state == GameState::Setup {
            self.grid = Grid::new(self.difficulty.size(), self.grid.tile_size);
        }
        self.state = self.state.next(GameEvent::AssetsReady);
    }

    /// The `Start` entry action: adopt the active difficulty's size, retire
    /// the tiles a shrink removed, then walk every cell of the new size,
    /// resetting kept tiles to `Default` and spawning a fresh tile into
    /// every empty slot. The automatic transition to `Run` follows. The
    /// retired handles are returned so the presentation layer can drop
    /// their sprites.
    pub fn update_grid(&mut self) -> (removed: Vec<TileHandle>)
        requires
            old(self).wf(),
            old(self).state == GameState::Start,
        ensures
            final(self).wf(),
            final(self).state == GameState::Run,
            final(self).difficulty == old(self).difficulty,
            final(self).grid.grid_size == old(self).difficulty.spec_size(),
            final(self).grid.tile_size == old(self).grid.tile_size,
            forall|i: int|
                0 <= i < final(self).grid.tiles@.len() ==> final(self).grid.tiles@[i] is Some
                    && final(self).board_tile(i) == Some(Tile::Default),
            forall|k: int|
                0 <= k < removed@.len() ==> !final(self).tiles.is_live(#[trigger] removed@[k]),
            removed@ == (if old(self).difficulty.spec_size().spec_capacity() < old(
                self,
            ).grid.tiles@.len() {
                crate::grid::collect_live(
                    old(self).grid.tiles@.skip(old(self).difficulty.spec_size().spec_capacity()),
                )
            } else {
                Seq::<TileHandle>::empty()
            }),
            forall|id: int|
                0 <= id < old(self).tiles@.len() && old(self).tiles@[id] is Some && !retired(
                    removed@,
                    id,
                ) ==> final(self).tiles@[id] is Some,
    {
        let new_size = self.difficulty.size();
        let ghost pre = self.grid.tiles@;
        let ghost ncap = new_size.spec_capacity();
        let r = self.grid.resize(new_size);

        let mut removed: Vec<TileHandle> = Vec::new();
        match r {
            ResizeResult::Shrink(handles) => {
                removed = handles;
                proof {
                    let dropped = pre.skip(ncap);
                    assert(handles_injective(dropped)) by {
                        assert forall|i: int, j: int|
                            0 <= i < j < dropped.len() && dropped[i] is Some
                                && dropped[j] is Some implies dropped[i] != dropped[j] by {
                            assert(dropped[i] == pre[ncap + i] && dropped[j] == pre[ncap + j]);
                        }
                    }
                    lemma_collect_live_no_dup(dropped);
                    lemma_collect_live_sound(dropped);
                    // each removed handle is a populated dropped slot's, so
                    // it is live and no kept slot holds it
                    assert forall|p: int| 0 <= p < removed@.len() implies self.tiles.is_live(
                        #[trigger] removed@[p],
                    ) && (forall|i: int|
                        0 <= i < self.grid.tiles@.len() && self.grid.tiles@[i] is Some
                            ==> (#[trigger] self.grid.tiles@[i])->Some_0 != removed@[p]) by {
                        let ik = choose|ik: int|
                            0 <= ik < dropped.len() && dropped[ik] == Some(removed@[p]);
                        assert(pre[ncap + ik] == Some(removed@[p]));
                        assert(old(self).tiles.is_live(removed@[p]));
                        assert forall|i: int|
                            0 <= i < self.grid.tiles@.len() && self.grid.tiles@[i]
                                is Some implies (#[trigger] self.grid.tiles@[i])->Some_0
                            != removed@[p] by {
                            assert(self.grid.tiles@[i] == pre[i]);
                            assert(pre[i] != pre[ncap + ik]);
                        }
                    }
                }
                let ghost grid_after = self.grid;
                let mut k: usize = 0;
                while k < removed.len()
                    invariant
                        self.grid == grid_after,
                        self.state == old(self).state,
                        self.difficulty == old(self).difficulty,
                        k <= removed@.len(),
                        removed@.no_duplicates(),
                        forall|p: int|
                            k <= p < removed@.len() ==> self.tiles.is_live(#[trigger] removed@[p]),
                        forall|p: int|
                            0 <= p < k ==> (#[trigger] removed@[p]).id < self.tiles@.len()
                                && self.tiles@[removed@[p].id as int] is None,
                        self.tiles@.len() == old(self).tiles@.len(),
                        forall|id: int|
                            0 <= id < self.tiles@.len() && !retired(removed@, id)
                                ==> self.tiles@[id] == old(self).tiles@[id],
                        forall|i: int|
                            0 <= i < self.grid.tiles@.len() && self.grid.tiles@[i] is Some
                                ==> self.tiles.is_live(#[trigger] self.grid.tiles@[i]->Some_0),
                        forall|p: int, i: int|
                            0 <= p < removed@.len() && 0 <= i < self.grid.tiles@.len()
                                && self.grid.tiles@[i] is Some ==> (
                            #[trigger] self.grid.tiles@[i])->Some_0 != #[trigger] removed@[p],
                    decreases removed@.len() - k,
                {
                    let h = removed[k];
                    self.tiles.despawn(h);
                    k = k + 1;
                }
            },
            _ => {},
        }

        // after a grow or an equal-capacity resize every populated slot is a
        // kept prefix slot, so liveness and distinctness carry over
        proof {
            assert forall|i: int|
                0 <= i < self.grid.tiles@.len() && self.grid.tiles@[i] is Some implies {
                &&& self.tiles.is_live(#[trigger] self.grid.tiles@[i]->Some_0)
                &&& (forall|j: int|
                    0 <= j < i && self.grid.tiles@[j] is Some ==> (
                    #[trigger] self.grid.tiles@[j]) != self.grid.tiles@[i])
            } by {
                if i < pre.len() {
                    assert(self.grid.tiles@[i] == pre[i]);
                }
                assert forall|j: int|
                    0 <= j < i && self.grid.tiles@[j] is Some implies (
                #[trigger] self.grid.tiles@[j]) != self.grid.tiles@[i] by {
                    assert(self.grid.tiles@[j] == pre[j] && self.grid.tiles@[i] == pre[i]);
                }
            }
        }

        // rebuild: walk every cell, reset kept tiles, spawn into empty slots
        let cap = self.grid.capacity();
        let cols = self.grid.size().columns();
        let ghost mid_removed = removed@;
        let mut idx: usize = 0;
        while idx < cap
            invariant
                self.grid.wf(),
                self.grid.grid_size == old(self).difficulty.spec_size(),
                self.grid.tile_size == old(self).grid.tile_size,
                self.state == old(self).state,
                self.difficulty == old(self).difficulty,
                cap == self.grid.grid_size.spec_capacity(),
                cols == self.grid.grid_size.columns,
                self.grid.tiles@.len() == cap,
                idx <= cap,
                removed@ == mid_removed,
                forall|i: int|
                    0 <= i < idx ==> (#[trigger] self.grid.tiles@[i]) is Some
                        && self.tiles@[self.grid.tiles@[i]->Some_0.id as int] == Some(
                        Tile::Default,
                    ),
                forall|i: int|
                    0 <= i < self.grid.tiles@.len() && self.grid.tiles@[i] is Some
                        ==> self.tiles.is_live(#[trigger] self.grid.tiles@[i]->Some_0),
                handles_injective(self.grid.tiles@),
                forall|k: int|
                    0 <= k < removed@.len() ==> (#[trigger] removed@[k]).id < self.tiles@.len()
                        && self.tiles@[removed@[k].id as int] is None,
                old(self).tiles@.len() <= self.tiles@.len(),
                forall|id: int|
                    0 <= id < old(self).tiles@.len() && old(self).tiles@[id] is Some && !retired(
                        removed@,
                        id,
                    ) ==> self.tiles@[id] is Some,
            decreases cap - idx,
        {
            let col = idx % cols;
            let row = idx / cols;
            proof {
                lemma_mod_bound(idx as int, cols as int);
                lemma_div_pos_is_pos(idx as int, cols as int);
                lemma_fundamental_div_mod(idx as int, cols as int);
                assert(col as int == (idx as int) % (cols as int));
                assert(row as int == (idx as int) / (cols as int));
                assert((cols as int) * (row as int) == (row as int) * (cols as int))
                    by (nonlinear_arith);
                let rows = self.grid.grid_size.rows as int;
                assert(row < rows) by (nonlinear_arith)
                    requires
                        idx as int == (cols as int) * (row as int) + (col as int),
                        0 <= col as int,
                        0 <= row as int,
                        (idx as int) < (cols as int) * rows,
                        0 < cols as int,
                ;
                assert(self.grid.grid_size.spec_index_of(col as int, row as int) == idx as int);
            }
            match self.grid.get_tile(col, row) {
                Some(h) => {
                    self.tiles.change(h, Tile::Default);
                },
                None => {
                    let h = self.tiles.spawn();
                    self.grid.insert(col, row, h);
                },
            }
            idx = idx + 1;
        }

        self.state = self.state.next(GameEvent::BoardReady);
        removed
    }

    /// Route a click at board pixel `(x, y)`.
    ///
    /// A primary click on a resolved tile detonates it — there is no
    /// adjacency reveal — and fires the losing transition. A secondary
    /// click toggles an untouched tile to flagged and back, and leaves any
    /// other state alone. A click that resolves to no tile is silently
    /// ignored. The changed tile, if any, is returned so the presentation
    /// layer can redraw it.
    pub fn handle_grid_click(&mut self, button: ClickButton, x: i64, y: i64) -> (changed: Option<
        TileHandle,
    >)
        requires
            old(self).wf(),
            old(self).state == GameState::Run,
        ensures
            final(self).wf(),
            final(self).grid == old(self).grid,
            final(self).difficulty == old(self).difficulty,
            ({
                let target = old(self).grid.spec_get_tile_xy(x as int, y as int);
                match target {
                    None => *final(self) == *old(self) && changed is None,
                    Some(h) => match button {
                        ClickButton::Primary => {
                            &&& changed == Some(h)
                            &&& final(self).tiles@ == old(self).tiles@.update(
                                h.id as int,
                                Some(Tile::Boom),
                            )
                            &&& final(self).state == GameState::Over
                        },
                        ClickButton::Secondary => {
                            &&& final(self).state == GameState::Run
                            &&& (if old(self).tiles@[h.id as int] == Some(Tile::Default) {
                                changed == Some(h) && final(self).tiles@ == old(self).tiles@.update(
                                    h.id as int,
                                    Some(Tile::Flagged),
                                )
                            } else if old(self).tiles@[h.id as int] == Some(Tile::Flagged) {
                                changed == Some(h) && final(self).tiles@ == old(self).tiles@.update(
                                    h.id as int,
                                    Some(Tile::Default),
                                )
                            } else {
                                changed is None && final(self).tiles@ == old(self).tiles@
                            })
                        },
                    },
                }
            }),
    {
        proof {
            if self.grid.spec_get_tile_xy(x as int, y as int) is Some {
                let tsx = self.grid.tile_size.x as int;
                let tsy = self.grid.tile_size.y as int;
                lemma_div_pos_is_pos(x as int, tsx);
                lemma_div_pos_is_pos(y as int, tsy);
                lemma_index_of_in_range(
                    self.grid.grid_size,
                    (x as int) / tsx,
                    (y as int) / tsy,
                );
            }
        }
        let target = self.grid.get_tile_xy(x, y);
        match target {
            None => None,
            Some(h) => match button {
                ClickButton::Primary => {
                    self.tiles.change(h, Tile::Boom);
                    self.state = self.state.next(GameEvent::LosingClick);
                    Some(h)
                },
                ClickButton::Secondary => {
                    match self.tiles.get(h) {
                        Some(Tile::Default) => {
                            self.tiles.change(h, Tile::Flagged);
                            Some(h)
                        },
                        Some(Tile::Flagged) => {
                            self.tiles.change(h, Tile::Default);
                            Some(h)
                        },
                        _ => None,
                    }
                },
            },
        }
    }

    /// The `Over` entry action: run the reveal pass over the whole tile
    /// collection with the active difficulty's mine count.
    pub fn reveal_mines(&mut self)
        requires
            old(self).wf(),
            old(self).state == GameState::Over,
        ensures
            final(self).wf(),
            final(self).state == old(self).state,
            final(self).grid == old(self).grid,
            final(self).difficulty == old(self).difficulty,
            reveal_relates(
                old(self).tiles@,
                final(self).tiles@,
                old(self).difficulty.spec_mines() as int,
            ),
            count_mine_or_boom(old(self).tiles@) <= old(self).difficulty.spec_mines()
                ==> count_mine_or_boom(final(self).tiles@) == (if old(self).difficulty.spec_mines()
                <= count_live(old(self).tiles@) {
                old(self).difficulty.spec_mines() as int
            } else {
                count_live(old(self).tiles@)
            }),
    {
        let m = self.difficulty.mines();
        self.tiles.reveal_mines(m);
    }

    /// Replace the active difficulty wholesale and fire the difficulty
    /// change trigger: from `Run` or `Over` the game goes back to `Start`
    /// for a rebuild; `Setup` waits for its assets regardless.
    pub fn change_difficulty(&mut self, new_difficulty: Difficulty)
        requires
            old(self).wf(),
            new_difficulty.wf(),
        ensures
            final(self).wf(),
            final(self).difficulty == new_difficulty,
            final(self).state == old(self).state.spec_next(GameEvent::DifficultyChange),
            final(self).grid == old(self).grid,
            final(self).tiles == old(self).tiles,
    {
        self.difficulty.change(new_difficulty);
        self.state = self.state.next(GameEvent::DifficultyChange);
    }

    /// The preset a difficulty-select key chooses, in order: key 1 is
    /// `Beginner`, key 2 `Intermediate`, key 3 `Expert`.
    pub open spec fn spec_key_difficulty(key: u8) -> Option<Difficulty> {
        match key {
            1u8 => Some(Difficulty::Beginner),
            2u8 => Some(Difficulty::Intermediate),
            3u8 => Some(Difficulty::Expert),
            _ => None,
        }
    }

    /// Route a difficulty-select key press: a recognized key replaces the
    /// active difficulty with its preset and fires the difficulty change
    /// trigger; any other key does nothing.
    pub fn handle_difficulty_key(&mut self, key: u8) -> (recognized: bool)
        requires
            old(self).wf(),
        ensures
            final(self).wf(),
            final(self).grid == old(self).grid,
            final(self).tiles == old(self).tiles,
            match Game::spec_key_difficulty(key) {
                Some(d) => recognized && final(self).difficulty == d && final(self).state == old(
                    self,
                ).state.spec_next(GameEvent::DifficultyChange),
                None => !recognized && *final(self) == *old(self),
            },
    {
        let chosen = match key {
            1 => Some(Difficulty::Beginner),
            2 => Some(Difficulty::Intermediate),
            3 => Some(Difficulty::Expert),
            _ => None,
        };
        match chosen {
            Some(d) => {
                self.change_difficulty(d);
                true
            },
            None => false,
        }
    }
}

} // verus!
