use vstd::prelude::*;

use crate::grid_size::GridSize;
use crate::tile::{TileHandle, TileSize};

use vstd::arithmetic::div_mod::{lemma_div_is_ordered, lemma_div_multiples_vanish};

verus! {

/// What a `resize` did: nothing (capacities matched), grew by a net number
/// of empty slots, or shrank and handed back the handles of the removed
/// populated slots so the caller can retire them.
pub enum ResizeResult {
    NoChange,
    Grow(usize),
    Shrink(Vec<TileHandle>),
}

/// The slot table after a resize to `want` slots: a shrink truncates, a
/// grow appends empty slots, an equal capacity leaves it as it is.
pub open spec fn spec_resize_slots(slots: Seq<Option<TileHandle>>, want: int) -> Seq<
    Option<TileHandle>,
> {
    if want <= slots.len() {
        slots.take(want)
    } else {
        slots + Seq::new((want - slots.len()) as nat, |i: int| None::<TileHandle>)
    }
}

/// The handles of the populated slots of `s`, in slot order.
pub open spec fn collect_live(s: Seq<Option<TileHandle>>) -> Seq<TileHandle>
    decreases s.len(),
{
    if s.len() == 0 {
        Seq::empty()
    } else {
        collect_live(s.drop_last()) + (if s.last() is Some {
            seq![s.last()->Some_0]
        } else {
            Seq::<TileHandle>::empty()
        })
    }
}

/// No two populated slots of `s` hold the same handle.
pub open spec fn handles_injective(s: Seq<Option<TileHandle>>) -> bool {
    forall|i: int, j: int|
        0 <= i < j < s.len() && s[i] is Some && s[j] is Some ==> s[i] != s[j]
}

/// Every collected handle comes from some populated slot of `s`.
pub proof fn lemma_collect_live_sound(s: Seq<Option<TileHandle>>)
    ensures
        forall|k: int|
            0 <= k < collect_live(s).len() ==> exists|i: int|
                0 <= i < s.len() && s[i] == Some(#[trigger] collect_live(s)[k]),
    decreases s.len(),
{
    if s.len() > 0 {
        let dl = s.drop_last();
        lemma_collect_live_sound(dl);
        assert forall|k: int| 0 <= k < collect_live(s).len() implies exists|i: int|
            0 <= i < s.len() && s[i] == Some(#[trigger] collect_live(s)[k]) by {
            if k < collect_live(dl).len() {
                assert(collect_live(s)[k] == collect_live(dl)[k]);
                let i = choose|i: int| 0 <= i < dl.len() && dl[i] == Some(collect_live(dl)[k]);
                assert(s[i] == Some(collect_live(s)[k]));
            } else {
                assert(s.last() is Some);
                assert(collect_live(s)[k] == s.last()->Some_0);
                assert(s[s.len() - 1] == Some(collect_live(s)[k]));
            }
        }
    }
}

/// When the populated slots hold pairwise distinct handles, the collected
/// sequence has no duplicates.
pub proof fn lemma_collect_live_no_dup(s: Seq<Option<TileHandle>>)
    requires
        handles_injective(s),
    ensures
        collect_live(s).no_duplicates(),
    decreases s.len(),
{
    if s.len() > 0 {
        let dl = s.drop_last();
        assert(handles_injective(dl)) by {
            assert forall|i: int, j: int|
                0 <= i < j < dl.len() && dl[i] is Some && dl[j] is Some implies dl[i] != dl[j] by {
                assert(dl[i] == s[i] && dl[j] == s[j]);
            }
        }
        lemma_collect_live_no_dup(dl);
        lemma_collect_live_sound(dl);
        let c = collect_live(s);
        assert forall|p: int, q: int| 0 <= p < q < c.len() implies c[p] != c[q] by {
            if q < collect_live(dl).len() {
                assert(c[p] == collect_live(dl)[p] && c[q] == collect_live(dl)[q]);
            } else {
                // q names the handle of the last slot; p comes from an earlier slot
                assert(s.last() is Some);
                assert(c[q] == s.last()->Some_0);
                assert(c[p] == collect_live(dl)[p]);
                let i = choose|i: int| 0 <= i < dl.len() && dl[i] == Some(collect_live(dl)[p]);
                assert(s[i] == Some(c[p]));
                assert(s[i] != s[s.len() - 1]);
            }
        }
    }
}

/// The board: its size in cells, the pixel size of one cell, and a dense
/// slot table of tile handles addressed row-major through `GridSize`.
pub struct Grid {
    pub grid_size: GridSize,
    pub tile_size: TileSize,
    pub tiles: Vec<Option<TileHandle>>,
}

impl Grid {
    /// The slot table always holds exactly `capacity()` slots.
    pub open spec fn wf(self) -> bool {
        &&& self.grid_size.wf()
        &&& self.tile_size.wf()
        &&& self.tiles@.len() == self.grid_size.spec_capacity()
    }

    /// A fresh board: every slot empty.
    pub fn new(grid_size: GridSize, tile_size: TileSize) -> (r: Grid)
        requires
            grid_size.wf(),
            tile_size.wf(),
        ensures
            r.wf(),
            r.grid_size == grid_size,
            r.tile_size == tile_size,
            forall|i: int| 0 <= i < r.tiles@.len() ==> r.tiles@[i] is None,
    {
        let cap = grid_size.capacity();
        let mut tiles: Vec<Option<TileHandle>> = Vec::new();
        while tiles.len() < cap
            invariant
                tiles@.len() <= cap,
                forall|i: int| 0 <= i < tiles@.len() ==> tiles@[i] is None,
            decreases cap - tiles@.len(),
        {
            tiles.push(None);
        }
        Grid { grid_size, tile_size, tiles }
    }

    pub fn capacity(&self) -> (r: usize)
        requires
            self.grid_size.wf(),
        ensures
            r == self.grid_size.spec_capacity(),
    {
        self.grid_size.capacity()
    }

    pub fn size(&self) -> (r: GridSize)
        ensures
            r == self.grid_size,
    {
        self.grid_size
    }

    /// The board's pixel width.
    pub fn width(&self) -> (r: usize)
        requires
            self.grid_size.columns * self.tile_size.x <= usize::MAX,
        ensures
            r == self.grid_size.columns * self.tile_size.x,
    {
        self.grid_size.columns * self.tile_size.x
    }

    /// The board's pixel height.
    pub fn height(&self) -> (r: usize)
        requires
            self.grid_size.rows * self.tile_size.y <= usize::MAX,
        ensures
            r == self.grid_size.rows * self.tile_size.y,
    {
        self.grid_size.rows * self.tile_size.y
    }

    /// Adopt `grid_size` and bring the slot table to its capacity.
    ///
    /// Only the capacities are compared: a size with the same cell count but
    /// another column/row split reports `NoChange` even though the row-major
    /// meaning of every slot changed, so callers must treat any resize that
    /// changes `columns` as requiring a full rebuild.
    pub fn resize(&mut self, grid_size: GridSize) -> (r: ResizeResult)
        requires
            old(self).wf(),
            grid_size.wf(),
        ensures
            final(self).wf(),
            final(self).grid_size == grid_size,
            final(self).tile_size == old(self).tile_size,
            final(self).tiles@ == spec_resize_slots(
                old(self).tiles@,
                grid_size.spec_capacity(),
            ),
            (r is NoChange) <==> old(self).grid_size.spec_capacity()
                == grid_size.spec_capacity(),
            old(self).grid_size.spec_capacity() < grid_size.spec_capacity() ==> r
                == ResizeResult::Grow(
                (grid_size.spec_capacity() - old(self).grid_size.spec_capacity()) as usize,
            ),
            old(self).grid_size.spec_capacity() > grid_size.spec_capacity() ==> (r matches
                ResizeResult::Shrink(removed) && removed@ == collect_live(
                old(self).tiles@.skip(grid_size.spec_capacity()),
            )),
    {
        let have = self.grid_size.capacity();
        let want = grid_size.capacity();
        self.grid_size = grid_size;

        if have == want {
            proof {
                assert(self.tiles@ =~= spec_resize_slots(self.tiles@, want as int));
            }
            return ResizeResult::NoChange;
        }
        if have < want {
            let ghost pre = self.tiles@;
            while self.tiles.len() < want
                invariant
                    self.grid_size == grid_size,
                    self.tile_size == old(self).tile_size,
                    pre.len() < want,
                    pre.len() <= self.tiles@.len() <= want,
                    self.tiles@.take(pre.len() as int) == pre,
                    forall|i: int| pre.len() <= i < self.tiles@.len() ==> self.tiles@[i] is None,
                decreases want - self.tiles@.len(),
            {
                self.tiles.push(None);
                proof {
                    assert(self.tiles@.take(pre.len() as int) =~= pre);
                }
            }
            proof {
                assert(self.tiles@ =~= spec_resize_slots(pre, want as int));
            }
            return ResizeResult::Grow(want - have);
        }

        // shrink: collect the populated slots beyond the new capacity,
        // then truncate
        let ghost pre = self.tiles@;
        let mut removed: Vec<TileHandle> = Vec::new();
        let mut i: usize = want;
        while i < have
            invariant
                self.grid_size == grid_size,
                self.tile_size == old(self).tile_size,
                want <= i <= have,
                have == pre.len(),
                self.tiles@ == pre,
                removed@ == collect_live(pre.skip(want as int).take(i - want)),
            decreases have - i,
        {
            let ghost before = pre.skip(want as int).take(i - want);
            let ghost after = pre.skip(want as int).take(i + 1 - want);
            match self.tiles[i] {
                Some(h) => {
                    removed.push(h);
                }
                None => {},
            }
            proof {
                assert(after.drop_last() =~= before);
                assert(after.last() == pre[i as int]);
            }
            i = i + 1;
        }
        self.tiles.truncate(want);
        proof {
            assert(pre.skip(want as int).take((have - want) as int) =~= pre.skip(want as int));
            assert(self.tiles@ =~= spec_resize_slots(pre, want as int));
        }
        ResizeResult::Shrink(removed)
    }

    /// Put `handle` in the slot of the cell `(col, row)`, overwriting
    /// whatever was there. Out-of-range cells are a caller bug.
    pub fn insert(&mut self, col: usize, row: usize, handle: TileHandle)
        requires
            old(self).wf(),
            col < old(self).grid_size.columns,
            row < old(self).grid_size.rows,
        ensures
            final(self).wf(),
            final(self).grid_size == old(self).grid_size,
            final(self).tile_size == old(self).tile_size,
            final(self).tiles@ == old(self).tiles@.update(
                old(self).grid_size.spec_index_of(col as int, row as int),
                Some(handle),
            ),
    {
        let index = self.grid_size.index_of(col, row);
        self.tiles[index] = Some(handle);
    }

    /// The handle at the cell `(col, row)`, if the cell is in range and its
    /// slot is populated.
    pub open spec fn spec_get_tile(self, col: int, row: int) -> Option<TileHandle> {
        if 0 <= col < self.grid_size.columns && 0 <= row < self.grid_size.rows {
            let index = self.grid_size.spec_index_of(col, row);
            if index < self.tiles@.len() {
                self.tiles@[index]
            } else {
                None
            }
        } else {
            None
        }
    }

    pub fn get_tile(&self, col: usize, row: usize) -> (r: Option<TileHandle>)
        requires
            self.wf(),
        ensures
            r == self.spec_get_tile(col as int, row as int),
    {
        if col >= self.grid_size.columns || row >= self.grid_size.rows {
            return None;
        }
        let index = self.grid_size.index_of(col, row);
        if index >= self.tiles.len() {
            return None;
        }
        self.tiles[index]
    }

    /// The handle under the pixel `(x, y)`, in the board's own coordinates.
    /// Negative coordinates miss; otherwise each coordinate is divided by
    /// the cell's pixel extent (rounding down) and the cell looked up. There
    /// is no clamping: a pixel beyond the board's extent misses too.
    pub open spec fn spec_get_tile_xy(self, x: int, y: int) -> Option<TileHandle> {
        if x < 0 || y < 0 {
            None
        } else {
            self.spec_get_tile(x / (self.tile_size.x as int), y / (self.tile_size.y as int))
        }
    }

    pub fn get_tile_xy(&self, x: i64, y: i64) -> (r: Option<TileHandle>)
        requires
            self.wf(),
        ensures
            r == self.spec_get_tile_xy(x as int, y as int),
            x < 0 || y < 0 ==> r is None,
            x >= self.grid_size.columns * self.tile_size.x ==> r is None,
            y >= self.grid_size.rows * self.tile_size.y ==> r is None,
    {
        if x < 0 || y < 0 {
            return None;
        }
        // divide in u64: a coordinate can exceed what a 32-bit usize holds,
        // but such a quotient is off the board anyway
        let col = (x as u64) / (self.tile_size.x as u64);
        let row = (y as u64) / (self.tile_size.y as u64);
        proof {
            lemma_beyond_extent_misses(
                x as int,
                self.grid_size.columns as int,
                self.tile_size.x as int,
            );
            lemma_beyond_extent_misses(
                y as int,
                self.grid_size.rows as int,
                self.tile_size.y as int,
            );
        }
        if col >= self.grid_size.columns as u64 || row >= self.grid_size.rows as u64 {
            return None;
        }
        self.get_tile(col as usize, row as usize)
    }
}

/// A well-formed size holds at least one cell.
pub proof fn lemma_capacity_at_least_one(s: GridSize)
    requires
        s.wf(),
    ensures
        1 <= s.spec_capacity(),
{
    assert((s.columns as int) * (s.rows as int) >= 1) by (nonlinear_arith)
        requires
            1 <= s.columns as int,
            1 <= s.rows as int,
    ;
}

/// Resize is idempotent at a fixed capacity: one resize to `s` brings the
/// slot count to `s.capacity()`, so an immediately repeated resize to `s`
/// compares equal capacities — which `resize` reports as `NoChange` — and
/// leaves the slot table unchanged.
pub proof fn lemma_resize_idempotent(slots: Seq<Option<TileHandle>>, s: GridSize)
    requires
        s.wf(),
    ensures
        ({
            let once = spec_resize_slots(slots, s.spec_capacity());
            &&& once.len() == s.spec_capacity()
            &&& spec_resize_slots(once, s.spec_capacity()) == once
        }),
{
    lemma_capacity_at_least_one(s);
    let cap = s.spec_capacity();
    let once = spec_resize_slots(slots, cap);
    assert(spec_resize_slots(once, cap) =~= once);
}

/// A shrink followed by the symmetric grow restores the slot count, and the
/// slots below the small capacity keep their contents, but the regrown tail
/// starts empty: the contents the shrink dropped are not restored.
pub proof fn lemma_shrink_then_grow(
    slots: Seq<Option<TileHandle>>,
    small: GridSize,
    big: GridSize,
)
    requires
        small.wf(),
        big.wf(),
        slots.len() == big.spec_capacity(),
        small.spec_capacity() < big.spec_capacity(),
    ensures
        ({
            let shrunk = spec_resize_slots(slots, small.spec_capacity());
            let regrown = spec_resize_slots(shrunk, big.spec_capacity());
            &&& regrown.len() == big.spec_capacity()
            &&& forall|i: int| 0 <= i < small.spec_capacity() ==> regrown[i] == slots[i]
            &&& forall|i: int|
                small.spec_capacity() <= i < big.spec_capacity() ==> regrown[i] is None
        }),
{
    lemma_capacity_at_least_one(small);
    let shrunk = spec_resize_slots(slots, small.spec_capacity());
    assert(shrunk.len() == small.spec_capacity());
}

/// A coordinate at or beyond `cells * extent` lands at or beyond cell
/// `cells` once divided by `extent`.
proof fn lemma_beyond_extent_misses(x: int, cells: int, extent: int)
    requires
        0 <= x,
        0 < extent,
        0 <= cells,
    ensures
        x >= cells * extent ==> x / extent >= cells,
{
    if x >= cells * extent {
        lemma_div_multiples_vanish(cells, extent);
        lemma_div_is_ordered(cells * extent, x, extent);
        assert(cells * extent == extent * cells) by (nonlinear_arith);
    }
}

} // verus!
