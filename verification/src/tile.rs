use vstd::prelude::*;
use vstd::seq_lib::group_to_multiset_ensures;

verus! {

/// Tile width in pixels.
pub const TILE_WIDTH: u16 = 4;

/// Tile height in pixels.
pub const TILE_HEIGHT: u16 = 4;

/// One line-to-tile-row intersection: the tile column it falls in and the
/// index of the line it came from.
#[derive(Clone, Copy, Debug)]
pub struct Tile {
    /// The tile x-coordinate.
    pub x: u16,
    /// The index of the line that belongs to this tile into the line buffer.
    pub line_idx: u32,
}

impl core::cmp::PartialEq for Tile {
    /// Tiles compare by column alone: the order of the lines within one
    /// column does not matter to coverage.
    fn eq(&self, other: &Self) -> (r: bool) {
        self.x == other.x
    }
}

impl vstd::std_specs::cmp::PartialEqSpecImpl for Tile {
    open spec fn obeys_eq_spec() -> bool {
        true
    }

    open spec fn eq_spec(&self, other: &Self) -> bool {
        self.x == other.x
    }
}

impl core::cmp::Eq for Tile {

}

impl core::cmp::PartialOrd for Tile {
    /// Tiles order by column alone.
    fn partial_cmp(&self, other: &Self) -> (r: Option<core::cmp::Ordering>) {
        if self.x < other.x {
            Some(core::cmp::Ordering::Less)
        } else if self.x == other.x {
            Some(core::cmp::Ordering::Equal)
        } else {
            Some(core::cmp::Ordering::Greater)
        }
    }
}

impl vstd::std_specs::cmp::PartialOrdSpecImpl for Tile {
    open spec fn obeys_partial_cmp_spec() -> bool {
        true
    }

    open spec fn partial_cmp_spec(&self, other: &Self) -> Option<core::cmp::Ordering> {
        if self.x < other.x {
            Some(core::cmp::Ordering::Less)
        } else if self.x == other.x {
            Some(core::cmp::Ordering::Equal)
        } else {
            Some(core::cmp::Ordering::Greater)
        }
    }
}

/// Tiles in non-decreasing column order: what the strip generator's
/// left-to-right sweep requires of a row.
pub open spec fn tiles_sorted(tiles: Seq<Tile>) -> bool {
    forall|i: int, j: int|
        0 <= i < j < tiles.len() ==> (#[trigger] tiles[i]).x <= (#[trigger] tiles[j]).x
}

/// Sort a tile row by column, keeping exactly the same tiles.
///
/// The sort is by column alone; tiles of equal column may end in any order,
/// which is sound because coverage within one tile column does not depend on
/// the order its lines are visited in.
pub fn sort_tiles(tiles: &mut Vec<Tile>)
    ensures
        tiles_sorted(final(tiles)@),
        final(tiles)@.to_multiset() == old(tiles)@.to_multiset(),
        final(tiles)@.len() == old(tiles)@.len(),
{
    let n = tiles.len();
    let mut i: usize = 1;
    while i < n
        invariant
            1 <= i,
            i <= n || n == 0,
            tiles@.len() == n,
            tiles@.to_multiset() == old(tiles)@.to_multiset(),
            forall|a: int, b: int|
                0 <= a < b < i ==> (#[trigger] tiles@[a]).x <= (#[trigger] tiles@[b]).x,
        decreases n - i,
    {
        let ghost pre = tiles@;
        let t = tiles.remove(i);
        let mut j: usize = i;
        while j > 0 && tiles[j - 1].x > t.x
            invariant
                j <= i,
                i < n,
                tiles@.len() == n - 1,
                tiles@ == pre.remove(i as int),
                forall|k: int| j <= k < i ==> (#[trigger] tiles@[k]).x > t.x,
            decreases j,
        {
            j -= 1;
        }
        tiles.insert(j, t);
        proof {
            broadcast use group_to_multiset_ensures;

            assert(pre.remove(i as int).insert(j as int, t).to_multiset() =~= pre.to_multiset());
            assert forall|a: int, b: int|
                0 <= a < b < i + 1 implies (#[trigger] tiles@[a]).x <= (#[trigger] tiles@[b]).x by {
                if b < j {
                } else if b == j {
                    assert(tiles@[a] == pre[a]);
                    assert(pre[j - 1].x <= t.x);
                } else if a == j {
                    assert(tiles@[b] == pre.remove(i as int)[b - 1]);
                } else if a < j {
                    assert(tiles@[a] == pre[a]);
                    assert(tiles@[b] == pre.remove(i as int)[b - 1]);
                } else {
                    assert(tiles@[a] == pre.remove(i as int)[a - 1]);
                    assert(tiles@[b] == pre.remove(i as int)[b - 1]);
                }
            }
        }
        i += 1;
    }
}

/// Append one tile per column of `[x0, x1)`, all referring to line
/// `line_idx`: the tiler's emission step for one line within one tile row.
pub fn push_row_tiles(tiles: &mut Vec<Tile>, x0: u16, x1: u16, line_idx: u32)
    requires
        x0 <= x1,
    ensures
        final(tiles)@ == old(tiles)@ + Seq::new(
            (x1 - x0) as nat,
            |k: int| Tile { x: (x0 + k) as u16, line_idx },
        ),
{
    let ghost tiles0 = tiles@;
    let mut x: u16 = x0;
    while x < x1
        invariant
            x0 <= x <= x1,
            tiles@ == tiles0 + Seq::new((x - x0) as nat, |k: int| Tile { x: (x0 + k) as u16, line_idx }),
        decreases x1 - x,
    {
        tiles.push(Tile { x, line_idx });
        proof {
            assert(tiles@ =~= tiles0 + Seq::new(
                (x + 1 - x0) as nat,
                |k: int| Tile { x: (x0 + k) as u16, line_idx },
            ));
        }
        x += 1;
    }
    proof {
        assert(tiles@ =~= tiles0 + Seq::new(
            (x1 - x0) as nat,
            |k: int| Tile { x: (x0 + k) as u16, line_idx },
        ));
    }
}

} // verus!
