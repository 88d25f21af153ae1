use vstd::prelude::*;

use crate::tile::{Tile, TileArena};

use rand::seq::SliceRandom;

verus! {

/// The slot holds a placed or a detonated mine.
pub open spec fn slot_mine_or_boom(t: Option<Tile>) -> bool {
    t == Some(Tile::Mine) || t == Some(Tile::Boom)
}

/// How many slots of `s` hold a placed or detonated mine.
pub open spec fn count_mine_or_boom(s: Seq<Option<Tile>>) -> int
    decreases s.len(),
{
    if s.len() == 0 {
        0
    } else {
        count_mine_or_boom(s.drop_last()) + if slot_mine_or_boom(s.last()) {
            1int
        } else {
            0int
        }
    }
}

/// How many slots of `s` hold a tile at all.
pub open spec fn count_live(s: Seq<Option<Tile>>) -> int
    decreases s.len(),
{
    if s.len() == 0 {
        0
    } else {
        count_live(s.drop_last()) + if s.last() is Some {
            1int
        } else {
            0int
        }
    }
}

/// Both counts are bounded by the length, and mines are live slots.
pub proof fn lemma_counts_bounds(s: Seq<Option<Tile>>)
    ensures
        0 <= count_mine_or_boom(s) <= count_live(s) <= s.len(),
    decreases s.len(),
{
    if s.len() > 0 {
        lemma_counts_bounds(s.drop_last());
    }
}

/// Extending a prefix by one slot extends both counts by that slot's kind.
pub proof fn lemma_counts_take_step(s: Seq<Option<Tile>>, j: int)
    requires
        0 <= j < s.len(),
    ensures
        count_mine_or_boom(s.take(j + 1)) == count_mine_or_boom(s.take(j))
            + (if slot_mine_or_boom(s[j]) {
            1int
        } else {
            0int
        }),
        count_live(s.take(j + 1)) == count_live(s.take(j)) + (if s[j] is Some {
            1int
        } else {
            0int
        }),
{
    let a = s.take(j + 1);
    assert(a.drop_last() =~= s.take(j));
    assert(a.last() == s[j]);
}

/// Overwriting one slot moves the mine count by the difference of the old
/// and the new slot's kind.
pub proof fn lemma_count_mine_or_boom_update(s: Seq<Option<Tile>>, i: int, v: Option<Tile>)
    requires
        0 <= i < s.len(),
    ensures
        count_mine_or_boom(s.update(i, v)) == count_mine_or_boom(s) - (if slot_mine_or_boom(
            s[i],
        ) {
            1int
        } else {
            0int
        }) + (if slot_mine_or_boom(v) {
            1int
        } else {
            0int
        }),
    decreases s.len(),
{
    let u = s.update(i, v);
    if i == s.len() - 1 {
        assert(u.drop_last() =~= s.drop_last());
        assert(u.last() == v);
    } else {
        assert(u.drop_last() =~= s.drop_last().update(i, v));
        assert(u.last() == s.last());
        lemma_count_mine_or_boom_update(s.drop_last(), i, v);
        assert(s.drop_last()[i] == s[i]);
    }
}

/// `i` is not among the first `j` selected indices.
pub open spec fn not_selected(sel: Seq<usize>, j: int, i: int) -> bool {
    forall|p: int| 0 <= p < j ==> (#[trigger] sel[p]) as int != i
}

/// What one reveal pass does to the tile slots, with `mines` the active
/// difficulty's mine count: slot population is unchanged; every tile that
/// already was a placed or detonated mine shows as detonated; every other
/// tile either keeps its state or becomes a placed mine; and the number of
/// `Mine`/`Boom` tiles afterwards is the old count `k`, plus as many fresh
/// mines as are wanted (`mines - k`) and available (`live - k`).
pub open spec fn reveal_relates(
    pre: Seq<Option<Tile>>,
    post: Seq<Option<Tile>>,
    mines: int,
) -> bool {
    &&& post.len() == pre.len()
    &&& (forall|i: int| 0 <= i < pre.len() ==> ((post[i] is Some) <==> (pre[i] is Some)))
    &&& (forall|i: int|
        0 <= i < pre.len() && slot_mine_or_boom(#[trigger] pre[i]) ==> post[i] == Some(Tile::Boom))
    &&& (forall|i: int|
        0 <= i < pre.len() && !slot_mine_or_boom(#[trigger] pre[i]) ==> (post[i] == pre[i]
            || post[i] == Some(Tile::Mine)))
    &&& count_mine_or_boom(post) == ({
        let k = count_mine_or_boom(pre);
        let live = count_live(pre);
        if mines <= k {
            k
        } else if mines <= live {
            mines
        } else {
            live
        }
    })
}

/// Relies on rand's `SliceRandom::shuffle` with `rand::thread_rng`: it
/// permutes the slice in place, so the multiset of elements is unchanged.
/// The order it leaves is random; nothing more is assumed of it.
#[verifier::external_body]
fn shuffle_indices(v: &mut Vec<usize>)
    ensures
        final(v)@.to_multiset() == old(v)@.to_multiset(),
{
    v.shuffle(&mut rand::thread_rng());
}

impl TileArena {
    /// The end-of-game pass that fixes the final mine placement.
    ///
    /// Every tile that already is a mine counts against the wanted total
    /// and shows as detonated; the remaining tiles are candidates, of which
    /// a uniformly random selection of the still-wanted number becomes
    /// placed mines. When fewer candidates exist than are wanted, all of
    /// them are taken and fewer mines show: that is accepted behaviour, not
    /// an error.
    pub fn reveal_mines(&mut self, mines: usize)
        ensures
            reveal_relates(old(self)@, final(self)@, mines as int),
            count_mine_or_boom(old(self)@) <= mines ==> count_mine_or_boom(final(self)@) == (
            if mines <= count_live(old(self)@) {
                mines as int
            } else {
                count_live(old(self)@)
            }),
    {
        proof {
            lemma_counts_bounds(self.slots@);
        }
        let ghost s0 = self.slots@;
        let n = self.slots.len();
        let mut seen: usize = 0;
        let mut candidates: Vec<usize> = Vec::new();
        let mut i: usize = 0;

        // scan: count the mines already on the board, detonate the placed
        // ones, and gather every other live slot as a candidate
        while i < n
            invariant
                self.slots@.len() == n,
                s0.len() == n,
                i <= n,
                seen <= i,
                seen == count_mine_or_boom(s0.take(i as int)),
                candidates@.len() == count_live(s0.take(i as int)) - count_mine_or_boom(
                    s0.take(i as int),
                ),
                count_mine_or_boom(self.slots@) == count_mine_or_boom(s0),
                forall|j: int| i <= j < n ==> self.slots@[j] == s0[j],
                forall|j: int|
                    0 <= j < i ==> self.slots@[j] == (if s0[j] == Some(Tile::Mine) {
                        Some(Tile::Boom)
                    } else {
                        s0[j]
                    }),
                forall|k: int|
                    0 <= k < candidates@.len() ==> (#[trigger] candidates@[k]) < i && s0[
                        candidates@[k] as int
                    ] is Some && !slot_mine_or_boom(s0[candidates@[k] as int]),
                forall|k1: int, k2: int|
                    0 <= k1 < k2 < candidates@.len() ==> candidates@[k1] < candidates@[k2],
            decreases n - i,
        {
            proof {
                lemma_counts_take_step(s0, i as int);
                lemma_counts_bounds(s0.take(i as int));
            }
            match self.slots[i] {
                Some(Tile::Boom) => {
                    seen = seen + 1;
                }
                Some(Tile::Mine) => {
                    seen = seen + 1;
                    let ghost pre = self.slots@;
                    self.slots[i] = Some(Tile::Boom);
                    proof {
                        lemma_count_mine_or_boom_update(pre, i as int, Some(Tile::Boom));
                    }
                }
                Some(_) => {
                    candidates.push(i);
                }
                None => {},
            }
            i = i + 1;
        }
        proof {
            assert(s0.take(n as int) =~= s0);
        }
        let ghost mid = self.slots@;
        let ghost cand0 = candidates@;

        // a uniform permutation, so that taking a prefix is a uniform
        // selection
        shuffle_indices(&mut candidates);
        proof {
            cand0.to_multiset_ensures();
            candidates@.to_multiset_ensures();
            assert(cand0.no_duplicates()) by {
                assert forall|k1: int, k2: int|
                    0 <= k1 < cand0.len() && 0 <= k2 < cand0.len() && k1 != k2 implies cand0[k1]
                    != cand0[k2] by {
                    if k1 < k2 {
                        assert(cand0[k1] < cand0[k2]);
                    } else {
                        assert(cand0[k2] < cand0[k1]);
                    }
                }
            }
            cand0.lemma_multiset_has_no_duplicates();
            candidates@.lemma_multiset_has_no_duplicates_conv();
            assert forall|k: int| 0 <= k < candidates@.len() implies {
                let x = #[trigger] candidates@[k];
                &&& (x as int) < n
                &&& mid[x as int] is Some
                &&& !slot_mine_or_boom(mid[x as int])
            } by {
                let x = candidates@[k];
                assert(candidates@.contains(x));
                assert(cand0.to_multiset().count(x) > 0);
                assert(cand0.contains(x));
                let k0 = choose|k0: int| 0 <= k0 < cand0.len() && cand0[k0] == x;
                assert(!slot_mine_or_boom(s0[x as int]));
                assert(mid[x as int] == s0[x as int]);
            }
        }

        // how many mines are still wanted; a surplus of pre-existing mines
        // means none
        let want = if mines > seen {
            mines - seen
        } else {
            0
        };
        let ghost shuffled = candidates@;
        candidates.truncate(want);
        proof {
            assert(candidates@.no_duplicates()) by {
                if want <= shuffled.len() {
                    assert forall|k1: int, k2: int|
                        0 <= k1 < candidates@.len() && 0 <= k2 < candidates@.len() && k1
                            != k2 implies candidates@[k1] != candidates@[k2] by {
                        assert(candidates@[k1] == shuffled[k1]);
                        assert(candidates@[k2] == shuffled[k2]);
                    }
                }
            }
        }

        // place the selected mines
        let ghost sel = candidates@;
        let mut j: usize = 0;
        while j < candidates.len()
            invariant
                candidates@ == sel,
                self.slots@.len() == n,
                mid.len() == n,
                j <= sel.len(),
                sel.no_duplicates(),
                forall|k: int|
                    0 <= k < sel.len() ==> ((#[trigger] sel[k]) as int) < n && mid[sel[k] as int]
                        is Some && !slot_mine_or_boom(mid[sel[k] as int]),
                forall|p: int| 0 <= p < j ==> self.slots@[(#[trigger] sel[p]) as int] == Some(
                    Tile::Mine,
                ),
                forall|i2: int|
                    0 <= i2 < n && not_selected(sel, j as int, i2) ==> self.slots@[i2] == mid[i2],
                count_mine_or_boom(self.slots@) == count_mine_or_boom(mid) + j,
            decreases candidates@.len() - j,
        {
            let idx = candidates[j];
            proof {
                assert(not_selected(sel, j as int, idx as int)) by {
                    assert forall|p: int| 0 <= p < j implies (#[trigger] sel[p]) as int
                        != idx as int by {
                        assert(sel[p] != sel[j as int]);
                    }
                }
                assert(self.slots@[idx as int] == mid[idx as int]);
            }
            let ghost pre = self.slots@;
            self.slots[idx] = Some(Tile::Mine);
            proof {
                lemma_count_mine_or_boom_update(pre, idx as int, Some(Tile::Mine));
                assert forall|i2: int|
                    0 <= i2 < n && not_selected(sel, j as int + 1, i2) implies self.slots@[i2]
                    == mid[i2] by {
                    assert(sel[j as int] as int != i2);
                    assert(not_selected(sel, j as int, i2));
                }
            }
            j = j + 1;
        }

        // every slot is now either untouched or a fresh mine
        proof {
            assert forall|i2: int| 0 <= i2 < n implies (self.slots@[i2] == mid[i2]
                || self.slots@[i2] == Some(Tile::Mine)) by {
                if not_selected(sel, sel.len() as int, i2) {
                } else {
                    let p = choose|p: int| 0 <= p < sel.len() && sel[p] as int == i2;
                    assert(self.slots@[sel[p] as int] == Some(Tile::Mine));
                }
            }
        }
    }
}

} // verus!
