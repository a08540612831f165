use vstd::prelude::*;

use crate::color::mul_alpha;
use crate::color::mul_alpha_spec;
use crate::color::over;
use crate::color::over_spec;
use crate::color::transparent_color;
use crate::color::PremulRgba8;

verus! {

/// Number of tiles per wide tile.
pub const WIDE_TILE_WIDTH_TILES: u16 = 32;

/// Number of pixels per wide tile row.
pub const WIDE_TILE_WIDTH_PX: u16 = 128;

/// Pixels in one wide tile scratch buffer: `WIDE_TILE_WIDTH_PX` columns of
/// `TILE_HEIGHT` rows.
pub const WIDE_TILE_PX: usize = 512;

/// A fill sampling from an alpha mask.
#[derive(Clone, Copy, Debug)]
pub struct Sample {
    /// The offset within the wide tile, in tiles.
    pub x: u16,
    /// The width of the area to be filled, in tiles.
    pub width: u16,
    pub color: PremulRgba8,
    /// The index into the global alpha mask, encoding the pixel coverage of
    /// the area to be filled.
    pub alpha_idx: u32,
}

/// A fill between two strips sampling from an alpha mask column.
#[derive(Clone, Copy, Debug)]
pub struct SparseSample {
    pub x: u16,
    pub width: u16,
    pub color: PremulRgba8,
    /// One coverage byte per pixel row, applied to every pixel column of the
    /// spanned tiles.
    pub alpha_mask: [u8; 4],
}

/// An opaque fill between two strips.
#[derive(Clone, Copy, Debug)]
pub struct SparseFill {
    pub x: u16,
    pub width: u16,
    pub color: PremulRgba8,
}

/// Draw commands of one wide tile.
#[derive(Clone, Copy, Debug)]
pub enum Command {
    /// A fill sampling from an alpha mask.
    Sample(Sample),
    /// A fill between two strips sampling from an alpha mask column.
    SparseSample(SparseSample),
    /// An opaque fill between two strips.
    SparseFill(SparseFill),
    /// Reserved for clipping; never rasterized.
    PushClip(()),
    /// Reserved for clipping; never rasterized.
    PopClip(()),
}

/// A wide tile: a 128x4-pixel screen region holding an ordered command list.
#[derive(Clone, Debug)]
pub struct WideTile {
    pub commands: Vec<Command>,
}

/// Number of wide tiles per canvas row, for a canvas `width` pixels wide.
pub open spec fn wide_tile_columns(width: int) -> int {
    (width + 127) / 128
}

/// Number of wide tile rows, for a canvas `height` pixels high.
pub open spec fn wide_tile_rows(height: int) -> int {
    (height + 3) / 4
}

/// A command a fine rasterizer can execute without running out of bounds:
/// its tile span lies within the wide tile, its color is premultiplied, and
/// a `Sample` owns `width` tiles of 16 bytes each in the alpha mask pool.
pub open spec fn command_wf(cmd: Command, alpha_len: int) -> bool {
    match cmd {
        Command::Sample(s) => s.x + s.width <= 32 && s.color.premultiplied() && s.alpha_idx
            + s.width * 16 <= alpha_len,
        Command::SparseSample(s) => s.x + s.width <= 32 && s.color.premultiplied(),
        Command::SparseFill(s) => s.x + s.width <= 32 && s.color.premultiplied(),
        Command::PushClip(_) => true,
        Command::PopClip(_) => true,
    }
}

/// Every command of every wide tile is well-formed against an alpha pool of
/// `alpha_len` bytes.
pub open spec fn wide_tiles_wf(tiles: Seq<WideTile>, alpha_len: int) -> bool {
    forall|w: int, j: int|
        0 <= w < tiles.len() && 0 <= j < tiles[w].commands@.len() ==> command_wf(
            #[trigger] tiles[w].commands@[j],
            alpha_len,
        )
}

/// Pixel `i` of a wide tile scratch buffer after a `Sample` command: inside
/// the spanned pixel columns, the command's color scaled by the mask byte of
/// that pixel is composited over the previous value. Mask bytes are laid out
/// column-major: byte `c * 4 + y` is pixel column `c`, row `y` of the span.
pub open spec fn sample_pixel(
    scratch: Seq<PremulRgba8>,
    s: Sample,
    alphas: Seq<u8>,
    i: int,
) -> PremulRgba8 {
    let y = i / 128;
    let px = i % 128;
    if s.x * 4 <= px < (s.x + s.width) * 4 {
        let a = alphas[s.alpha_idx + (px - s.x * 4) * 4 + y];
        over_spec(scratch[i], mul_alpha_spec(s.color, a))
    } else {
        scratch[i]
    }
}

/// Pixel `i` after a `SparseSample` command: inside the span, the color
/// scaled by the per-row coverage byte is composited over the previous value.
pub open spec fn sparse_sample_pixel(
    scratch: Seq<PremulRgba8>,
    s: SparseSample,
    i: int,
) -> PremulRgba8 {
    let y = i / 128;
    let px = i % 128;
    if s.x * 4 <= px < (s.x + s.width) * 4 {
        over_spec(scratch[i], mul_alpha_spec(s.color, s.alpha_mask[y]))
    } else {
        scratch[i]
    }
}

/// Pixel `i` after a `SparseFill` command: inside the span, an opaque color
/// replaces the previous value and any other color is composited over it.
pub open spec fn sparse_fill_pixel(
    scratch: Seq<PremulRgba8>,
    s: SparseFill,
    i: int,
) -> PremulRgba8 {
    let px = i % 128;
    if s.x * 4 <= px < (s.x + s.width) * 4 {
        if s.color.a == 255 {
            s.color
        } else {
            over_spec(scratch[i], s.color)
        }
    } else {
        scratch[i]
    }
}

/// The scratch buffer after one command.
pub open spec fn apply_command(
    scratch: Seq<PremulRgba8>,
    cmd: Command,
    alphas: Seq<u8>,
) -> Seq<PremulRgba8> {
    match cmd {
        Command::Sample(s) => Seq::new(512, |i: int| sample_pixel(scratch, s, alphas, i)),
        Command::SparseSample(s) => Seq::new(512, |i: int| sparse_sample_pixel(scratch, s, i)),
        Command::SparseFill(s) => Seq::new(512, |i: int| sparse_fill_pixel(scratch, s, i)),
        Command::PushClip(_) => scratch,
        Command::PopClip(_) => scratch,
    }
}

/// The scratch buffer after an ordered command list.
pub open spec fn apply_commands(
    scratch: Seq<PremulRgba8>,
    cmds: Seq<Command>,
    alphas: Seq<u8>,
) -> Seq<PremulRgba8>
    decreases cmds.len(),
{
    if cmds.len() == 0 {
        scratch
    } else {
        apply_command(apply_commands(scratch, cmds.drop_last(), alphas), cmds.last(), alphas)
    }
}

/// The 128x4 pixel block a wide tile's command list paints, starting from
/// transparent black.
pub open spec fn wide_tile_pixels(wt: WideTile, alphas: Seq<u8>) -> Seq<PremulRgba8> {
    apply_commands(Seq::new(512, |i: int| transparent_color()), wt.commands@, alphas)
}

/// The final value of the image pixel at column `px`, row `py`: the
/// corresponding pixel of the wide tile that covers it.
pub open spec fn rasterized_pixel(
    px: int,
    py: int,
    width: int,
    tiles: Seq<WideTile>,
    alphas: Seq<u8>,
) -> PremulRgba8 {
    let wt = (py / 4) * wide_tile_columns(width) + px / 128;
    wide_tile_pixels(tiles[wt], alphas)[(py % 4) * 128 + (px % 128)]
}

/// All pixels of a scratch buffer are premultiplied.
pub open spec fn all_premultiplied(s: Seq<PremulRgba8>) -> bool {
    forall|i: int| 0 <= i < s.len() ==> (#[trigger] s[i]).premultiplied()
}


/// Which pixels of the canvas have already received their final value while
/// the rasterizer stands at wide tile row `wty`, wide tile column `wtx`,
/// scratch row `y`, scratch column `x`: all pixels of earlier wide tile rows,
/// of earlier wide tiles in this row, of already copied scratch rows of this
/// wide tile, and of the already copied columns of the current scratch row.
spec fn pixel_done(px: int, py: int, wty: int, wtx: int, y: int, x: int) -> bool {
    py / 4 < wty || (py / 4 == wty && px / 128 < wtx) || (py / 4 == wty && px / 128 == wtx && py
        < wty * 4 + y) || (py / 4 == wty && px / 128 == wtx && py == wty * 4 + y && px < wtx * 128
        + x)
}

/// Execute one `Sample` command on a wide tile scratch buffer.
#[verifier::loop_isolation(false)]
fn apply_sample_cmd(scratch: &mut Vec<PremulRgba8>, s: &Sample, alphas: &Vec<u8>)
    requires
        old(scratch)@.len() == 512,
        all_premultiplied(old(scratch)@),
        s.x + s.width <= 32,
        s.color.premultiplied(),
        s.alpha_idx + s.width * 16 <= alphas@.len(),
    ensures
        final(scratch)@ == apply_command(old(scratch)@, Command::Sample(*s), alphas@),
        all_premultiplied(final(scratch)@),
{
    let ghost scratch0 = scratch@;
    let alpha_len: usize = alphas.len();
    let mut y: u16 = 0;
    while y < 4
        invariant
            scratch@.len() == 512,
            all_premultiplied(scratch@),
            y <= 4,
            forall|i: int|
                0 <= i < 512 ==> scratch@[i] == (if i / 128 < y {
                    sample_pixel(scratch0, *s, alphas@, i)
                } else {
                    scratch0[i]
                }),
        decreases 4 - y,
    {
        let mut x: u16 = 0;
        let row_base: usize = y as usize * 128;
        while x < s.width * 4
            invariant
                scratch@.len() == 512,
                all_premultiplied(scratch@),
                y < 4,
                x <= s.width * 4,
                forall|i: int|
                    0 <= i < 512 ==> scratch@[i] == (if i / 128 < y || (i / 128 == y && s.x * 4
                        <= i % 128 < s.x * 4 + x) {
                        sample_pixel(scratch0, *s, alphas@, i)
                    } else {
                        scratch0[i]
                    }),
            decreases s.width * 4 - x,
        {
            proof {
                assert(x * 4 + y < s.width * 16) by (nonlinear_arith)
                    requires
                        x < s.width * 4,
                        y < 4,
                ;
            }
            let idx: usize = row_base + (s.x * 4 + x) as usize;
            let alpha_idx: usize = s.alpha_idx as usize + x as usize * 4 + y as usize;
            let composite_color = mul_alpha(s.color, alphas[alpha_idx]);
            let blended = over(scratch[idx], composite_color);
            scratch.set(idx, blended);
            x += 1;
        }
        y += 1;
    }
    proof {
        assert(scratch@ =~= apply_command(scratch0, Command::Sample(*s), alphas@));
    }
}

/// Execute one `SparseSample` command on a wide tile scratch buffer.
#[verifier::loop_isolation(false)]
fn apply_sparse_sample_cmd(scratch: &mut Vec<PremulRgba8>, s: &SparseSample)
    requires
        old(scratch)@.len() == 512,
        all_premultiplied(old(scratch)@),
        s.x + s.width <= 32,
        s.color.premultiplied(),
    ensures
        final(scratch)@ == apply_command(
            old(scratch)@,
            Command::SparseSample(*s),
            Seq::<u8>::empty(),
        ),
        all_premultiplied(final(scratch)@),
{
    let ghost scratch0 = scratch@;
    let mut y: u16 = 0;
    while y < 4
        invariant
            scratch@.len() == 512,
            all_premultiplied(scratch@),
            y <= 4,
            forall|i: int|
                0 <= i < 512 ==> scratch@[i] == (if i / 128 < y {
                    sparse_sample_pixel(scratch0, *s, i)
                } else {
                    scratch0[i]
                }),
        decreases 4 - y,
    {
        let composite_color = mul_alpha(s.color, s.alpha_mask[y as usize]);
        let mut x: u16 = 0;
        let row_base: usize = y as usize * 128;
        while x < s.width * 4
            invariant
                scratch@.len() == 512,
                all_premultiplied(scratch@),
                y < 4,
                x <= s.width * 4,
                composite_color == mul_alpha_spec(s.color, s.alpha_mask[y as int]),
                composite_color.premultiplied(),
                forall|i: int|
                    0 <= i < 512 ==> scratch@[i] == (if i / 128 < y || (i / 128 == y && s.x * 4
                        <= i % 128 < s.x * 4 + x) {
                        sparse_sample_pixel(scratch0, *s, i)
                    } else {
                        scratch0[i]
                    }),
            decreases s.width * 4 - x,
        {
            let idx: usize = row_base + (s.x * 4 + x) as usize;
            let blended = over(scratch[idx], composite_color);
            scratch.set(idx, blended);
            x += 1;
        }
        y += 1;
    }
    proof {
        assert(scratch@ =~= apply_command(scratch0, Command::SparseSample(*s), Seq::<u8>::empty()));
    }
}

/// Execute one `SparseFill` command on a wide tile scratch buffer.
#[verifier::loop_isolation(false)]
fn apply_sparse_fill_cmd(scratch: &mut Vec<PremulRgba8>, s: &SparseFill)
    requires
        old(scratch)@.len() == 512,
        all_premultiplied(old(scratch)@),
        s.x + s.width <= 32,
        s.color.premultiplied(),
    ensures
        final(scratch)@ == apply_command(
            old(scratch)@,
            Command::SparseFill(*s),
            Seq::<u8>::empty(),
        ),
        all_premultiplied(final(scratch)@),
{
    let ghost scratch0 = scratch@;
    let opaque = s.color.a == 255;
    let mut y: u16 = 0;
    while y < 4
        invariant
            scratch@.len() == 512,
            all_premultiplied(scratch@),
            y <= 4,
            forall|i: int|
                0 <= i < 512 ==> scratch@[i] == (if i / 128 < y {
                    sparse_fill_pixel(scratch0, *s, i)
                } else {
                    scratch0[i]
                }),
        decreases 4 - y,
    {
        let mut x: u16 = 0;
        let row_base: usize = y as usize * 128;
        while x < s.width * 4
            invariant
                scratch@.len() == 512,
                all_premultiplied(scratch@),
                y < 4,
                x <= s.width * 4,
                forall|i: int|
                    0 <= i < 512 ==> scratch@[i] == (if i / 128 < y || (i / 128 == y && s.x * 4
                        <= i % 128 < s.x * 4 + x) {
                        sparse_fill_pixel(scratch0, *s, i)
                    } else {
                        scratch0[i]
                    }),
            decreases s.width * 4 - x,
        {
            let idx: usize = row_base + (s.x * 4 + x) as usize;
            if opaque {
                scratch.set(idx, s.color);
            } else {
                let blended = over(scratch[idx], s.color);
                scratch.set(idx, blended);
            }
            x += 1;
        }
        y += 1;
    }
    proof {
        assert(scratch@ =~= apply_command(scratch0, Command::SparseFill(*s), Seq::<u8>::empty()));
    }
}

/// A sparse command reads no alpha mask byte: the pool it is applied against
/// does not matter.
proof fn lemma_apply_command_no_alphas(scratch: Seq<PremulRgba8>, cmd: Command, alphas: Seq<u8>)
    requires
        !(cmd is Sample),
    ensures
        apply_command(scratch, cmd, alphas) == apply_command(scratch, cmd, Seq::<u8>::empty()),
{
}

/// Paint one wide tile into a fresh 128x4 scratch buffer.
fn rasterize_wide_tile(wt: &WideTile, alphas: &Vec<u8>) -> (scratch: Vec<PremulRgba8>)
    requires
        forall|j: int|
            0 <= j < wt.commands@.len() ==> command_wf(
                #[trigger] wt.commands@[j],
                alphas@.len() as int,
            ),
    ensures
        scratch@ == wide_tile_pixels(*wt, alphas@),
        scratch@.len() == 512,
        all_premultiplied(scratch@),
{
    let mut scratch: Vec<PremulRgba8> = Vec::new();
    let mut k: usize = 0;
    while k < 512
        invariant
            scratch@.len() == k,
            k <= 512,
            forall|i: int| 0 <= i < k ==> scratch@[i] == transparent_color(),
        decreases 512 - k,
    {
        scratch.push(PremulRgba8::transparent());
        k += 1;
    }
    let ghost scratch0 = scratch@;
    proof {
        assert(scratch0 =~= Seq::new(512, |i: int| transparent_color()));
    }

    let mut j: usize = 0;
    while j < wt.commands.len()
        invariant
            j <= wt.commands@.len(),
            forall|jj: int|
                0 <= jj < wt.commands@.len() ==> command_wf(
                    #[trigger] wt.commands@[jj],
                    alphas@.len() as int,
                ),
            scratch@ == apply_commands(scratch0, wt.commands@.take(j as int), alphas@),
            scratch@.len() == 512,
            all_premultiplied(scratch@),
            scratch0 == Seq::new(512, |i: int| transparent_color()),
        decreases wt.commands@.len() - j,
    {
        let ghost pre = scratch@;
        let cmd = wt.commands[j];
        match cmd {
            Command::Sample(s) => {
                apply_sample_cmd(&mut scratch, &s, alphas);
            },
            Command::SparseSample(s) => {
                apply_sparse_sample_cmd(&mut scratch, &s);
                proof {
                    lemma_apply_command_no_alphas(pre, wt.commands@[j as int], alphas@);
                }
            },
            Command::SparseFill(s) => {
                apply_sparse_fill_cmd(&mut scratch, &s);
                proof {
                    lemma_apply_command_no_alphas(pre, wt.commands@[j as int], alphas@);
                }
            },
            Command::PushClip(_) => {
            },
            Command::PopClip(_) => {
            },
        }
        proof {
            assert(wt.commands@.take(j + 1).drop_last() =~= wt.commands@.take(j as int));
            assert(wt.commands@.take(j + 1).last() == wt.commands@[j as int]);
        }
        j += 1;
    }
    proof {
        assert(wt.commands@.take(wt.commands@.len() as int) =~= wt.commands@);
    }
    scratch
}

/// CPU rasterization of draw commands to a pixel buffer.
///
/// Walks the wide tile grid in row-major order, paints each wide tile's
/// command list into a scratch buffer, and copies the scratch into the
/// output image, clipping at the right and bottom canvas edges.
#[verifier::loop_isolation(false)]
pub fn cpu_rasterize(
    width: u16,
    height: u16,
    img: &mut Vec<PremulRgba8>,
    alpha_masks: &Vec<u8>,
    wide_tiles: &Vec<WideTile>,
)
    requires
        old(img)@.len() == width as int * height as int,
        wide_tiles@.len() == wide_tile_columns(width as int) * wide_tile_rows(height as int),
        wide_tiles_wf(wide_tiles@, alpha_masks@.len() as int),
    ensures
        final(img)@.len() == width as int * height as int,
        forall|px: int, py: int|
            0 <= px < width as int && 0 <= py < height as int ==> final(img)@[py * width as int
                + px] == rasterized_pixel(px, py, width as int, wide_tiles@, alpha_masks@),
{
    if width == 0 || height == 0 {
        return ;
    }
    let total: usize = img.len();
    let n_tiles: usize = wide_tiles.len();
    let wide_tile_rows_n: usize = (height as usize + 3) / 4;
    let wide_tile_columns_n: usize = (width as usize + 127) / 128;

    let mut wide_tile_idx: usize = 0;
    let mut wide_tile_y: usize = 0;
    while wide_tile_y < wide_tile_rows_n
        invariant
            wide_tile_y <= wide_tile_rows_n,
            wide_tile_idx == wide_tile_y * wide_tile_columns_n,
            img@.len() == total,
            forall|px: int, py: int|
                0 <= px < width as int && 0 <= py < height as int && pixel_done(
                    px,
                    py,
                    wide_tile_y as int,
                    0,
                    0,
                    0,
                ) ==> img@[py * width as int + px] == #[trigger] rasterized_pixel(
                    px,
                    py,
                    width as int,
                    wide_tiles@,
                    alpha_masks@,
                ),
        decreases wide_tile_rows_n - wide_tile_y,
    {
        let mut wide_tile_x: usize = 0;
        while wide_tile_x < wide_tile_columns_n
            invariant
                wide_tile_x <= wide_tile_columns_n,
                wide_tile_idx == wide_tile_y * wide_tile_columns_n + wide_tile_x,
                img@.len() == total,
                forall|px: int, py: int|
                    0 <= px < width as int && 0 <= py < height as int && pixel_done(
                        px,
                        py,
                        wide_tile_y as int,
                        wide_tile_x as int,
                        0,
                        0,
                    ) ==> img@[py * width as int + px] == #[trigger] rasterized_pixel(
                        px,
                        py,
                        width as int,
                        wide_tiles@,
                        alpha_masks@,
                    ),
            decreases wide_tile_columns_n - wide_tile_x,
        {
            proof {
                assert(wide_tile_idx < n_tiles) by (nonlinear_arith)
                    requires
                        wide_tile_idx == wide_tile_y * wide_tile_columns_n + wide_tile_x,
                        wide_tile_y < wide_tile_rows_n,
                        wide_tile_x < wide_tile_columns_n,
                        n_tiles == wide_tile_columns_n * wide_tile_rows_n,
                ;
            }
            let scratch = rasterize_wide_tile(&wide_tiles[wide_tile_idx], alpha_masks);

            let mut y: usize = 0;
            while y < 4
                invariant
                    y <= 4,
                    img@.len() == total,
                    forall|px: int, py: int|
                        0 <= px < width as int && 0 <= py < height as int && pixel_done(
                            px,
                            py,
                            wide_tile_y as int,
                            wide_tile_x as int,
                            y as int,
                            0,
                        ) ==> img@[py * width as int + px] == #[trigger] rasterized_pixel(
                            px,
                            py,
                            width as int,
                            wide_tiles@,
                            alpha_masks@,
                        ),
                decreases 4 - y,
            {
                let img_y: usize = wide_tile_y * 4 + y;
                if img_y >= height as usize {
                    y += 1;
                    continue ;
                }
                let mut x: usize = 0;
                while x < 128
                    invariant
                        x <= 128,
                        y < 4,
                        img_y == wide_tile_y * 4 + y,
                        img_y < height,
                        img@.len() == total,
                        forall|px: int, py: int|
                            0 <= px < width as int && 0 <= py < height as int && pixel_done(
                                px,
                                py,
                                wide_tile_y as int,
                                wide_tile_x as int,
                                y as int,
                                x as int,
                            ) ==> img@[py * width as int + px] == #[trigger] rasterized_pixel(
                                px,
                                py,
                                width as int,
                                wide_tiles@,
                                alpha_masks@,
                            ),
                    decreases 128 - x,
                {
                    let img_x: usize = wide_tile_x * 128 + x;
                    if img_x >= width as usize {
                        x += 1;
                        continue ;
                    }
                    proof {
                        assert(img_y as int * width as int + img_x < total as int)
                            by (nonlinear_arith)
                            requires
                                0 <= img_y < height as int,
                                0 <= img_x < width as int,
                                total as int == width as int * height as int,
                        ;
                    }
                    let img_idx: usize = img_y * (width as usize) + img_x;
                    let ghost pre = img@;
                    img.set(img_idx, scratch[y * 128 + x]);
                    proof {
                        assert forall|px: int, py: int|
                            0 <= px < width as int && 0 <= py < height as int && pixel_done(
                                px,
                                py,
                                wide_tile_y as int,
                                wide_tile_x as int,
                                y as int,
                                x as int + 1,
                            ) implies img@[py * width as int + px] == #[trigger] rasterized_pixel(
                            px,
                            py,
                            width as int,
                            wide_tiles@,
                            alpha_masks@,
                        ) by {
                            if py * width as int + px == img_idx as int {
                                assert(px == img_x as int && py == img_y as int)
                                    by (nonlinear_arith)
                                    requires
                                        py * width as int + px == img_y as int * width as int
                                            + img_x as int,
                                        0 <= px < width as int,
                                        0 <= img_x < width as int,
                                        0 <= py,
                                        0 <= img_y,
                                ;
                                assert(img@[py * width as int + px] == scratch@[y * 128 + x]);
                            } else {
                                assert(0 <= py * width as int + px < total as int)
                                    by (nonlinear_arith)
                                    requires
                                        0 <= px < width as int,
                                        0 <= py < height as int,
                                        total as int == width as int * height as int,
                                ;
                                assert(img@[py * width as int + px] == pre[py * width as int + px]);
                                if px == img_x as int && py == img_y as int {
                                    assert(false);
                                } else {
                                    assert(pixel_done(
                                        px,
                                        py,
                                        wide_tile_y as int,
                                        wide_tile_x as int,
                                        y as int,
                                        x as int,
                                    ));
                                }
                            }
                        }
                    }
                    x += 1;
                }
                y += 1;
            }
            wide_tile_idx += 1;
            wide_tile_x += 1;
        }
        proof {
            assert((wide_tile_y + 1) * wide_tile_columns_n == wide_tile_y * wide_tile_columns_n
                + wide_tile_columns_n) by (nonlinear_arith);
        }
        wide_tile_y += 1;
    }
}

/// Law: a wide tile holding one opaque sparse fill paints exactly its tile
/// span with the fill color and leaves every other pixel transparent — an
/// opaque axis-aligned fill yields the solid color inside its bounds, with
/// no fractional coverage and nothing painted outside.
pub proof fn lemma_opaque_fill_exact(s: SparseFill, alphas: Seq<u8>, wt: WideTile, i: int)
    requires
        s.color.a == 255,
        wt.commands@ == seq![Command::SparseFill(s)],
        0 <= i < 512,
    ensures
        s.x * 4 <= i % 128 < (s.x + s.width) * 4 ==> wide_tile_pixels(wt, alphas)[i] == s.color,
        !(s.x * 4 <= i % 128 < (s.x + s.width) * 4) ==> wide_tile_pixels(wt, alphas)[i]
            == transparent_color(),
{
    let base = Seq::new(512, |j: int| transparent_color());
    assert(wt.commands@.drop_last() =~= Seq::<Command>::empty());
    assert(wt.commands@.last() == Command::SparseFill(s));
    assert(apply_commands(base, Seq::<Command>::empty(), alphas) == base);
    assert(wide_tile_pixels(wt, alphas) == apply_command(base, Command::SparseFill(s), alphas));
    assert(base[i] == transparent_color());
}

/// Law: a wide tile with no commands paints nothing: every pixel of its
/// block stays transparent black.
pub proof fn lemma_empty_tile_transparent(wt: WideTile, alphas: Seq<u8>, i: int)
    requires
        wt.commands@ == Seq::<Command>::empty(),
        0 <= i < 512,
    ensures
        wide_tile_pixels(wt, alphas)[i] == transparent_color(),
{
}

/// Wide tiles well-formed against an alpha pool stay well-formed when the
/// pool grows: the mask windows only move further into range.
pub proof fn lemma_wide_tiles_wf_grow(tiles: Seq<WideTile>, l1: int, l2: int)
    requires
        wide_tiles_wf(tiles, l1),
        l1 <= l2,
    ensures
        wide_tiles_wf(tiles, l2),
{
    assert forall|w: int, j: int|
        0 <= w < tiles.len() && 0 <= j < tiles[w].commands@.len() implies command_wf(
        #[trigger] tiles[w].commands@[j],
        l2,
    ) by {
        assert(command_wf(tiles[w].commands@[j], l1));
    }
}

} // verus!
