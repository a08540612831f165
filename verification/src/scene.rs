use vstd::prelude::*;

use crate::color::PremulRgba8;
use crate::strip::strip_precedes;
use crate::strip::strip_wf;
use crate::strip::strips_wf;
use crate::strip::lemma_strips_wf_grow;
use crate::strip::Strip;
use crate::wide_tile::command_wf;
use crate::wide_tile::wide_tile_columns;
use crate::wide_tile::wide_tile_rows;
use crate::wide_tile::wide_tiles_wf;
use crate::wide_tile::Command;
use crate::wide_tile::WideTile;
use crate::widen::generate_wide_tile_commands;
use crate::widen::widen_commands;

verus! {

/// The scene context: canvas size, the wide tile grid with its command
/// lists, the alpha mask pool, the strips of the path being processed, and
/// the state of the strip under construction.
///
/// The strip fields mirror the strip generator's sweep: while `strip_open`
/// holds, a strip is growing at row `strip_y` from tile column `strip_x`,
/// `strip_cols` tile columns of mask bytes have been emitted for it, its
/// mask bytes start at `strip_alpha`, and `strip_coverage` is the coverage
/// at its left edge.
pub struct Scene {
    pub width: u16,
    pub height: u16,
    pub wide_tiles: Vec<WideTile>,
    pub alpha_masks: Vec<u8>,
    pub strips: Vec<Strip>,
    pub strip_y: u16,
    pub strip_x: u16,
    pub strip_cols: u16,
    pub strip_alpha: u32,
    pub strip_coverage: [u8; 4],
    pub strip_open: bool,
}

/// The mathematical state of a scene.
pub struct SceneView {
    pub width: u16,
    pub height: u16,
    pub commands: Seq<Seq<Command>>,
    pub alphas: Seq<u8>,
    pub strips: Seq<Strip>,
    pub strip_y: u16,
    pub strip_x: u16,
    pub strip_cols: u16,
    pub strip_alpha: u32,
    pub strip_coverage: [u8; 4],
    pub strip_open: bool,
}

impl View for Scene {
    type V = SceneView;

    open spec fn view(&self) -> SceneView {
        SceneView {
            width: self.width,
            height: self.height,
            commands: self.wide_tiles@.map_values(|wt: WideTile| wt.commands@),
            alphas: self.alpha_masks@,
            strips: self.strips@,
            strip_y: self.strip_y,
            strip_x: self.strip_x,
            strip_cols: self.strip_cols,
            strip_alpha: self.strip_alpha,
            strip_coverage: self.strip_coverage,
            strip_open: self.strip_open,
        }
    }
}


/// Law: every byte of the alpha mask pool lies in `[0, 255]`: coverage is
/// stored as single bytes.
pub proof fn lemma_alpha_bytes_bounded(alphas: Seq<u8>)
    ensures
        forall|i: int| 0 <= i < alphas.len() ==> 0 <= #[trigger] alphas[i] <= 255,
{
}

/// A borrow of the generated draw commands: the wide tiles with their
/// per-wide-tile command lists, and the alpha mask pool their `Sample`
/// commands index into.
pub struct Commands<'c> {
    pub wide_tiles: &'c Vec<WideTile>,
    pub alpha_masks: &'c Vec<u8>,
}

/// A scene state after `clear`: every wide tile's command list empty, the
/// alpha mask pool and the strips empty, no strip under construction, and
/// the canvas as it was.
pub open spec fn cleared(v: SceneView) -> SceneView {
    SceneView {
        commands: Seq::new(v.commands.len(), |i: int| Seq::<Command>::empty()),
        alphas: Seq::<u8>::empty(),
        strips: Seq::<Strip>::empty(),
        strip_open: false,
        ..v
    }
}

/// Law: clearing a scene twice produces exactly the state clearing it once
/// produces.
pub proof fn lemma_clear_idempotent(v: SceneView)
    ensures
        cleared(cleared(v)) == cleared(v),
{
    assert(cleared(cleared(v)).commands =~~= cleared(v).commands);
}

impl Scene {
    /// The strip under construction may follow the strips already emitted:
    /// its mask bytes start where the pool ends, its tile interval stays in
    /// range, and it comes after the last emitted strip in `(y, x)` order.
    pub open spec fn builder_wf(self) -> bool {
        &&& self.strip_alpha + self.strip_cols * 16 == self.alpha_masks@.len()
        &&& self.strip_x + self.strip_cols <= 65535
        &&& (self.strips@.len() > 0 ==> (self.strips@.last().y < self.strip_y || (
        self.strips@.last().y == self.strip_y && self.strips@.last().x + self.strips@.last().width
            < self.strip_x)))
        &&& (self.strips@.len() > 0 ==> self.strip_alpha == self.strips@.last().alpha_idx
            + self.strips@.last().width * 16)
    }

    /// A well-formed scene: a non-empty canvas, the wide tile grid of the
    /// canvas size with well-formed commands, an alpha pool addressable by
    /// `u32`, well-formed strips, and a consistent strip under construction.
    pub open spec fn wf(self) -> bool {
        &&& self.width >= 1
        &&& self.height >= 1
        &&& self.wide_tiles@.len() == wide_tile_columns(self.width as int) * wide_tile_rows(
            self.height as int,
        )
        &&& wide_tiles_wf(self.wide_tiles@, self.alpha_masks@.len() as int)
        &&& self.alpha_masks@.len() <= 0xffff_ffff
        &&& strips_wf(self.strips@, self.alpha_masks@.len() as int)
        &&& (self.strip_open ==> self.builder_wf())
        &&& (!self.strip_open && self.strips@.len() > 0 ==> self.alpha_masks@.len()
            == self.strips@.last().alpha_idx + self.strips@.last().width * 16)
    }

    /// Create a new scene with the given pixel width and height,
    /// pre-allocating one wide tile per 128x4-pixel region, each with an
    /// empty command list.
    pub fn new(width: u16, height: u16) -> (s: Scene)
        requires
            width >= 1,
            height >= 1,
        ensures
            s.wf(),
            s.width == width,
            s.height == height,
            s.wide_tiles@.len() == wide_tile_columns(width as int) * wide_tile_rows(height as int),
            forall|w: int|
                0 <= w < s.wide_tiles@.len() ==> (#[trigger] s.wide_tiles@[w]).commands@
                    == Seq::<Command>::empty(),
            s.alpha_masks@ == Seq::<u8>::empty(),
            s.strips@ == Seq::<Strip>::empty(),
            !s.strip_open,
    {
        let columns: u16 = ((width as u32 + 127) / 128) as u16;
        let rows: u16 = ((height as u32 + 3) / 4) as u16;
        proof {
            assert(columns as int * rows as int <= 513 * 16384) by (nonlinear_arith)
                requires
                    columns <= 513,
                    rows <= 16384,
            ;
        }
        let total: usize = columns as usize * rows as usize;
        let mut wide_tiles: Vec<WideTile> = Vec::new();
        let mut k: usize = 0;
        while k < total
            invariant
                k <= total,
                wide_tiles@.len() == k,
                forall|w: int|
                    0 <= w < k ==> (#[trigger] wide_tiles@[w]).commands@ == Seq::<Command>::empty(),
            decreases total - k,
        {
            wide_tiles.push(WideTile { commands: Vec::new() });
            k += 1;
        }
        Scene {
            width,
            height,
            wide_tiles,
            alpha_masks: Vec::new(),
            strips: Vec::new(),
            strip_y: 0,
            strip_x: 0,
            strip_cols: 0,
            strip_alpha: 0,
            strip_coverage: [0u8; 4],
            strip_open: false,
        }
    }

    /// Get the generated draw commands.
    pub fn commands(&self) -> (c: Commands<'_>)
        ensures
            c.wide_tiles@ == self.wide_tiles@,
            c.alpha_masks@ == self.alpha_masks@,
    {
        Commands { wide_tiles: &self.wide_tiles, alpha_masks: &self.alpha_masks }
    }

    /// The size of the scene canvas in pixels, as `(width, height)`.
    pub fn size(&self) -> (r: (u16, u16))
        ensures
            r == (self.width, self.height),
    {
        (self.width, self.height)
    }

    /// Clear the scene and start again: empties every wide tile's command
    /// list, the alpha mask pool, and the strips, and closes any strip under
    /// construction. Buffer capacities are retained for reuse.
    pub fn clear(&mut self)
        requires
            old(self).wf(),
        ensures
            final(self).wf(),
            final(self)@ == cleared(old(self)@),
    {
        let n = self.wide_tiles.len();
        let mut k: usize = 0;
        while k < n
            invariant
                k <= n,
                self.wide_tiles@.len() == n,
                self.width == old(self).width,
                self.height == old(self).height,
                self.alpha_masks@ == old(self).alpha_masks@,
                self.strips@ == old(self).strips@,
                self.strip_y == old(self).strip_y,
                self.strip_x == old(self).strip_x,
                self.strip_cols == old(self).strip_cols,
                self.strip_alpha == old(self).strip_alpha,
                self.strip_coverage == old(self).strip_coverage,
                self.strip_open == old(self).strip_open,
                forall|w: int|
                    0 <= w < k ==> (#[trigger] self.wide_tiles@[w]).commands@
                        == Seq::<Command>::empty(),
                forall|w: int| k <= w < n ==> self.wide_tiles@[w] == old(self).wide_tiles@[w],
            decreases n - k,
        {
            let wt = &mut self.wide_tiles[k];
            wt.commands.clear();
            k += 1;
        }
        self.alpha_masks.clear();
        self.strips.clear();
        self.strip_open = false;
        proof {
            assert(self@.commands =~~= cleared(old(self)@).commands);
            assert(self@ == cleared(old(self)@));
        }
    }

    /// Start a new path: the strips of the previous path are discarded; the
    /// alpha pool and the wide tile commands accumulate.
    pub fn begin_path(&mut self)
        requires
            old(self).wf(),
            !old(self).strip_open,
        ensures
            final(self).wf(),
            final(self).strips@ == Seq::<Strip>::empty(),
            *final(self) == (Scene { strips: final(self).strips, ..*old(self) }),
    {
        self.strips.clear();
    }

    /// Open the first strip of a tile row at column `x`, with the coverage
    /// the row carries in from geometry left of the viewport.
    ///
    /// Rows must be visited top to bottom and strips left to right: the new
    /// strip must come after the last emitted strip in `(y, x)` order.
    pub fn begin_row(&mut self, y: u16, x: u16, pixel_coverage: [u8; 4])
        requires
            old(self).wf(),
            !old(self).strip_open,
            old(self).strips@.len() > 0 ==> (old(self).strips@.last().y < y || (old(
                self,
            ).strips@.last().y == y && old(self).strips@.last().x + old(self).strips@.last().width
                < x)),
        ensures
            final(self).wf(),
            final(self).strip_open,
            final(self).strip_y == y,
            final(self).strip_x == x,
            final(self).strip_cols == 0,
            final(self).strip_alpha == old(self).alpha_masks@.len(),
            final(self).strip_coverage == pixel_coverage,
            *final(self) == (Scene {
                strip_y: y,
                strip_x: x,
                strip_cols: 0,
                strip_alpha: final(self).strip_alpha,
                strip_coverage: pixel_coverage,
                strip_open: true,
                ..*old(self)
            }),
    {
        self.strip_y = y;
        self.strip_x = x;
        self.strip_cols = 0;
        self.strip_alpha = self.alpha_masks.len() as u32;
        self.strip_coverage = pixel_coverage;
        self.strip_open = true;
    }

    /// Emit the 16 mask bytes of one tile column (column-major: four bytes
    /// per pixel column) and extend the open strip by one tile.
    pub fn push_column(&mut self, column: &[u8; 16])
        requires
            old(self).wf(),
            old(self).strip_open,
            old(self).alpha_masks@.len() + 16 <= 0xffff_ffff,
            old(self).strip_x + old(self).strip_cols <= 65534,
        ensures
            final(self).wf(),
            final(self).strip_open,
            final(self).alpha_masks@ == old(self).alpha_masks@ + column@,
            final(self).strip_cols == old(self).strip_cols + 1,
            *final(self) == (Scene {
                alpha_masks: final(self).alpha_masks,
                strip_cols: final(self).strip_cols,
                ..*old(self)
            }),
    {
        let mut k: usize = 0;
        while k < 16
            invariant
                k <= 16,
                self.alpha_masks@ == old(self).alpha_masks@ + column@.take(k as int),
                self.width == old(self).width,
                self.height == old(self).height,
                self.wide_tiles == old(self).wide_tiles,
                self.strips == old(self).strips,
                self.strip_y == old(self).strip_y,
                self.strip_x == old(self).strip_x,
                self.strip_cols == old(self).strip_cols,
                self.strip_alpha == old(self).strip_alpha,
                self.strip_coverage == old(self).strip_coverage,
                self.strip_open == old(self).strip_open,
            decreases 16 - k,
        {
            self.alpha_masks.push(column[k]);
            proof {
                assert(self.alpha_masks@ =~= old(self).alpha_masks@ + column@.take(k + 1));
            }
            k += 1;
        }
        proof {
            assert(column@.take(16) =~= column@);
        }
        self.strip_cols = self.strip_cols + 1;
        proof {
            lemma_strips_wf_grow(
                self.strips@,
                old(self).alpha_masks@.len() as int,
                self.alpha_masks@.len() as int,
            );
            crate::wide_tile::lemma_wide_tiles_wf_grow(
                self.wide_tiles@,
                old(self).alpha_masks@.len() as int,
                self.alpha_masks@.len() as int,
            );
        }
    }

    /// Close the open strip and open the next one of the same row at column
    /// `next_x`, with the coverage accumulated at the gap between them. The
    /// gap must be at least one tile wide.
    pub fn break_strip(&mut self, next_x: u16, pixel_coverage: [u8; 4])
        requires
            old(self).wf(),
            old(self).strip_open,
            old(self).strip_cols >= 1,
            old(self).strip_x + old(self).strip_cols < next_x,
        ensures
            final(self).wf(),
            final(self).strip_open,
            final(self).strips@ == old(self).strips@.push(
                Strip {
                    x: old(self).strip_x,
                    y: old(self).strip_y,
                    width: old(self).strip_cols,
                    pixel_coverage: old(self).strip_coverage,
                    alpha_idx: old(self).strip_alpha,
                },
            ),
            final(self).strip_x == next_x,
            final(self).strip_cols == 0,
            final(self).strip_alpha == old(self).alpha_masks@.len(),
            final(self).strip_coverage == pixel_coverage,
            *final(self) == (Scene {
                strips: final(self).strips,
                strip_x: next_x,
                strip_cols: 0,
                strip_alpha: final(self).strip_alpha,
                strip_coverage: pixel_coverage,
                ..*old(self)
            }),
    {
        let strip = Strip {
            x: self.strip_x,
            y: self.strip_y,
            width: self.strip_cols,
            pixel_coverage: self.strip_coverage,
            alpha_idx: self.strip_alpha,
        };
        self.strips.push(strip);
        self.strip_x = next_x;
        self.strip_cols = 0;
        self.strip_alpha = self.alpha_masks.len() as u32;
        self.strip_coverage = pixel_coverage;
        proof {
            lemma_push_strip_wf(*old(self), self.strips@, strip);
        }
    }

    /// Close the open strip at the end of its row.
    pub fn end_row(&mut self)
        requires
            old(self).wf(),
            old(self).strip_open,
            old(self).strip_cols >= 1,
        ensures
            final(self).wf(),
            !final(self).strip_open,
            final(self).strips@ == old(self).strips@.push(
                Strip {
                    x: old(self).strip_x,
                    y: old(self).strip_y,
                    width: old(self).strip_cols,
                    pixel_coverage: old(self).strip_coverage,
                    alpha_idx: old(self).strip_alpha,
                },
            ),
            *final(self) == (Scene {
                strips: final(self).strips,
                strip_open: false,
                ..*old(self)
            }),
    {
        let strip = Strip {
            x: self.strip_x,
            y: self.strip_y,
            width: self.strip_cols,
            pixel_coverage: self.strip_coverage,
            alpha_idx: self.strip_alpha,
        };
        self.strips.push(strip);
        self.strip_open = false;
        proof {
            lemma_push_strip_wf(*old(self), self.strips@, strip);
        }
    }

    /// Compile the strips of the current path into wide tile commands, with
    /// the given premultiplied solid color.
    pub fn widen(&mut self, color: PremulRgba8)
        requires
            old(self).wf(),
            !old(self).strip_open,
            color.premultiplied(),
        ensures
            final(self).wf(),
            final(self).wide_tiles@.len() == old(self).wide_tiles@.len(),
            forall|w: int|
                0 <= w < old(self).wide_tiles@.len() ==> (
                #[trigger] final(self).wide_tiles@[w]).commands@
                    == old(self).wide_tiles@[w].commands@ + widen_commands(
                    old(self).strips@,
                    0,
                    0,
                    w,
                    wide_tile_columns(old(self).width as int),
                    wide_tile_rows(old(self).height as int),
                    old(self).alpha_masks@,
                    color,
                ),
            *final(self) == (Scene { wide_tiles: final(self).wide_tiles, ..*old(self) }),
    {
        proof {
            let columns = wide_tile_columns(self.width as int);
            let rows = wide_tile_rows(self.height as int);
            assert(self.wide_tiles@.len() as int / columns == rows) by (nonlinear_arith)
                requires
                    self.wide_tiles@.len() == columns * rows,
                    columns >= 1,
                    rows >= 0,
            ;
        }
        generate_wide_tile_commands(
            self.width,
            &mut self.wide_tiles,
            &self.strips,
            &self.alpha_masks,
            color,
        );
    }
}

/// Pushing the strip under construction keeps the strip list well-formed:
/// it follows the last strip in order and its mask bytes follow the last
/// strip's window exactly.
proof fn lemma_push_strip_wf(pre: Scene, strips2: Seq<Strip>, strip: Strip)
    requires
        pre.wf(),
        pre.strip_open,
        pre.strip_cols >= 1,
        strip == (Strip {
            x: pre.strip_x,
            y: pre.strip_y,
            width: pre.strip_cols,
            pixel_coverage: pre.strip_coverage,
            alpha_idx: pre.strip_alpha,
        }),
        strips2 == pre.strips@.push(strip),
    ensures
        strips_wf(strips2, pre.alpha_masks@.len() as int),
        pre.alpha_masks@.len() == strips2.last().alpha_idx + strips2.last().width * 16,
{
    let s = strips2;
    let p = pre.strips@;
    assert forall|i: int| 0 <= i < s.len() - 1 implies strip_precedes(
        #[trigger] s[i],
        s[i + 1],
    ) by {
        if i < p.len() - 1 {
            assert(strip_precedes(p[i], p[i + 1]));
        }
    }
    assert forall|i: int|
        0 <= i < s.len() - 1 implies (#[trigger] s[i + 1]).alpha_idx == s[i].alpha_idx + s[i].width
        * 16 by {
        if i < p.len() - 1 {
            assert(p[i + 1].alpha_idx == p[i].alpha_idx + p[i].width * 16);
        }
    }
    assert forall|i: int| 0 <= i < s.len() implies strip_wf(
        #[trigger] s[i],
        pre.alpha_masks@.len() as int,
    ) by {
        if i < p.len() {
            assert(strip_wf(p[i], pre.alpha_masks@.len() as int));
        }
    }
}

} // verus!
