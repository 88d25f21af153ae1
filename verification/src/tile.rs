use vstd::prelude::*;

verus! {

/// The state of one board cell.
///
/// `Default` is untouched, `Flagged` is marked by the player, `Mine` is a
/// revealed (placed) mine, and `Boom` is the detonated mine that ends the
/// game. A tile does not know its position; that is implied by its slot in
/// the grid.
#[derive(Clone, Copy, Debug, PartialEq, Eq, Hash, Structural)]
pub enum Tile {
    Default,
    Flagged,
    Mine,
    Boom,
}

impl Tile {
    /// The sprite-sheet index of each state. The order is an external
    /// contract for any rendering layer: `Default` 0, `Flagged` 1, `Mine` 2,
    /// `Boom` 3.
    pub open spec fn spec_sprite_index(self) -> int {
        match self {
            Tile::Default => 0,
            Tile::Flagged => 1,
            Tile::Mine => 2,
            Tile::Boom => 3,
        }
    }

    /// Every state, in sprite-sheet order.
    pub fn all() -> (r: [Tile; 4])
        ensures
            r@ == seq![Tile::Default, Tile::Flagged, Tile::Mine, Tile::Boom],
            forall|i: int| 0 <= i < 4 ==> #[trigger] r@[i].spec_sprite_index() == i,
    {
        let r = [Tile::Default, Tile::Flagged, Tile::Mine, Tile::Boom];
        proof {
            assert(r@ =~= seq![Tile::Default, Tile::Flagged, Tile::Mine, Tile::Boom]);
        }
        r
    }

    pub fn index(&self) -> (r: usize)
        ensures
            r == self.spec_sprite_index(),
    {
        match self {
            Tile::Default => 0,
            Tile::Flagged => 1,
            Tile::Mine => 2,
            Tile::Boom => 3,
        }
    }

    /// Overwrite the state. Any state may become any other: the reveal
    /// pass, the input router and the rebuild pass all rely on being able
    /// to force an arbitrary state.
    pub fn change(&mut self, new_state: Tile)
        ensures
            *final(self) == new_state,
    {
        *self = new_state;
    }
}

/// Pixel dimensions of one cell, used only for the pixel-to-cell lookup.
#[derive(Clone, Copy, Debug, PartialEq, Eq, Structural)]
pub struct TileSize {
    pub x: usize,
    pub y: usize,
}

impl TileSize {
    /// Both extents are at least one pixel, so the lookup's division is defined.
    pub open spec fn wf(self) -> bool {
        1 <= self.x && 1 <= self.y
    }

    pub fn new(size: usize) -> (r: TileSize)
        requires
            1 <= size,
        ensures
            r == (TileSize { x: size, y: size }),
    {
        TileSize { x: size, y: size }
    }
}

impl Default for TileSize {
    /// The standard cell is 24 by 24 pixels.
    fn default() -> (r: TileSize)
        ensures
            r == (TileSize { x: 24, y: 24 }),
    {
        TileSize::new(24)
    }
}

/// A stable reference to a tile owned by a `TileArena`. Handles are never
/// reissued: a despawned slot stays retired, so a stale handle can only miss.
#[derive(Clone, Copy, Debug, PartialEq, Eq, Structural)]
pub struct TileHandle {
    pub id: usize,
}

/// The owner of all tile states. The grid stores handles into this arena;
/// `spawn` hands out a fresh handle and `despawn` retires one when a shrink
/// resize removes its slot.
pub struct TileArena {
    pub slots: Vec<Option<Tile>>,
}

impl View for TileArena {
    type V = Seq<Option<Tile>>;

    open spec fn view(&self) -> Seq<Option<Tile>> {
        self.slots@
    }
}

impl TileArena {
    /// A handle is live while its slot still holds a tile.
    pub open spec fn is_live(self, h: TileHandle) -> bool {
        h.id < self@.len() && self@[h.id as int] is Some
    }

    pub fn new() -> (r: TileArena)
        ensures
            r@ =~= Seq::<Option<Tile>>::empty(),
    {
        TileArena { slots: Vec::new() }
    }

    pub fn len(&self) -> (r: usize)
        ensures
            r == self@.len(),
    {
        self.slots.len()
    }

    /// Create a tile in the `Default` state and hand out its handle.
    pub fn spawn(&mut self) -> (h: TileHandle)
        ensures
            final(self)@ == old(self)@.push(Some(Tile::Default)),
            h.id == old(self)@.len(),
            final(self).is_live(h),
    {
        let h = TileHandle { id: self.slots.len() };
        self.slots.push(Some(Tile::Default));
        h
    }

    /// Retire a live tile; its handle will never be valid again.
    pub fn despawn(&mut self, h: TileHandle)
        requires
            old(self).is_live(h),
        ensures
            final(self)@ == old(self)@.update(h.id as int, None),
    {
        self.slots[h.id] = None;
    }

    /// The state of the tile behind `h`, or `None` for a stale handle.
    pub fn get(&self, h: TileHandle) -> (r: Option<Tile>)
        ensures
            r == (if h.id < self@.len() {
                self@[h.id as int]
            } else {
                None::<Tile>
            }),
    {
        if h.id < self.slots.len() {
            self.slots[h.id]
        } else {
            None
        }
    }

    /// Overwrite the state of the live tile behind `h`.
    pub fn change(&mut self, h: TileHandle, new_state: Tile)
        requires
            old(self).is_live(h),
        ensures
            final(self)@ == old(self)@.update(h.id as int, Some(new_state)),
    {
        self.slots[h.id] = Some(new_state);
    }
}

} // verus!
