use vstd::arithmetic::div_mod::lemma_fundamental_div_mod;
use vstd::prelude::*;

use crate::color::PremulRgba8;
use crate::strip::Strip;
use crate::wide_tile::command_wf;
use crate::wide_tile::wide_tile_columns;
use crate::wide_tile::wide_tiles_wf;
use crate::wide_tile::Command;
use crate::wide_tile::Sample;
use crate::wide_tile::SparseFill;
use crate::wide_tile::SparseSample;
use crate::wide_tile::WideTile;

verus! {

/// All four coverage bytes are zero: the gap before the strip is outside the
/// path (or cancelled), so no sparse command is owed.
pub open spec fn zero_coverage(c: [u8; 4]) -> bool {
    c[0] == 0 && c[1] == 0 && c[2] == 0 && c[3] == 0
}

/// All four coverage bytes are full: the gap before the strip is fully
/// inside the path, so an opaque sparse fill is owed.
pub open spec fn full_coverage(c: [u8; 4]) -> bool {
    c[0] == 255 && c[1] == 255 && c[2] == 255 && c[3] == 255
}

/// Every byte of the window of `w_tiles` tiles (16 bytes each) starting at
/// `start` is zero.
pub open spec fn all_zero_window(alphas: Seq<u8>, start: int, w_tiles: int) -> bool {
    forall|j: int| start <= j < start + w_tiles * 16 ==> alphas[j] == 0
}

/// The gap between the previous strip's right edge `prev_x` and the current
/// strip's left edge produces one sparse command in wide tile column `wx`
/// exactly when the gap coverage is non-zero, the gap is non-empty, and `wx`
/// lies within the gap's wide tile range and the canvas.
pub open spec fn emits_gap(s: Strip, prev_x: int, wx: int, columns: int) -> bool {
    !zero_coverage(s.pixel_coverage) && prev_x < s.x && prev_x / 32 <= wx <= s.x / 32 && wx
        < columns
}

/// The sparse command the gap before strip `s` produces in wide tile column
/// `wx`: an opaque fill at full coverage, else a sparse sample carrying the
/// strip's pre-strip coverage column.
pub open spec fn gap_command(s: Strip, prev_x: int, wx: int, color: PremulRgba8) -> Command {
    let x_start = if wx == prev_x / 32 {
        prev_x % 32
    } else {
        0
    };
    let x_end = if wx == s.x / 32 {
        s.x as int % 32
    } else {
        32
    };
    if full_coverage(s.pixel_coverage) {
        Command::SparseFill(
            SparseFill { x: x_start as u16, width: (x_end - x_start) as u16, color },
        )
    } else {
        Command::SparseSample(
            SparseSample {
                x: x_start as u16,
                width: (x_end - x_start) as u16,
                color,
                alpha_mask: s.pixel_coverage,
            },
        )
    }
}

/// First tile offset of strip `s` within wide tile column `wx`.
pub open spec fn strip_span_start(s: Strip, wx: int) -> int {
    if wx == s.x / 32 {
        s.x as int % 32
    } else {
        0
    }
}

/// One-past-the-last tile offset of strip `s` within wide tile column `wx`.
pub open spec fn strip_span_end(s: Strip, wx: int) -> int {
    if wx == (s.x + s.width) / 32 {
        (s.x + s.width) as int % 32
    } else {
        32
    }
}

/// The alpha mask index of strip `s` at the start of wide tile column `wx`:
/// the strip's own index plus 16 bytes per tile already passed.
pub open spec fn strip_alpha_at(s: Strip, wx: int) -> int {
    if wx == s.x / 32 {
        s.alpha_idx as int
    } else {
        s.alpha_idx + (wx * 32 - s.x as int) * 16
    }
}

/// Strip `s` produces an alpha-sampled fill in wide tile column `wx` exactly
/// when `wx` lies within the strip's wide tile range and the canvas, and the
/// strip's mask window for this wide tile is not entirely zero.
pub open spec fn emits_sample(s: Strip, wx: int, columns: int, alphas: Seq<u8>) -> bool {
    s.x / 32 <= wx <= (s.x + s.width) / 32 && wx < columns && !all_zero_window(
        alphas,
        strip_alpha_at(s, wx),
        strip_span_end(s, wx) - strip_span_start(s, wx),
    )
}

/// The alpha-sampled fill strip `s` produces in wide tile column `wx`.
pub open spec fn sample_command(s: Strip, wx: int, color: PremulRgba8) -> Command {
    Command::Sample(
        Sample {
            x: strip_span_start(s, wx) as u16,
            width: (strip_span_end(s, wx) - strip_span_start(s, wx)) as u16,
            color,
            alpha_idx: strip_alpha_at(s, wx) as u32,
        },
    )
}

/// The gap command strip `s` has so far appended to wide tile `w` (row-major
/// index) while the gap loop stands at wide tile column `upto`.
pub open spec fn gap_done(
    s: Strip,
    prev_x: int,
    w: int,
    columns: int,
    color: PremulRgba8,
    upto: int,
) -> Seq<Command> {
    let wy = w / columns;
    let wx = w % columns;
    if s.y == wy && emits_gap(s, prev_x, wx, columns) && wx < upto {
        seq![gap_command(s, prev_x, wx, color)]
    } else {
        Seq::<Command>::empty()
    }
}

/// The sample command strip `s` has so far appended to wide tile `w` while
/// the sample loop stands at wide tile column `upto`.
pub open spec fn sample_done(
    s: Strip,
    w: int,
    columns: int,
    alphas: Seq<u8>,
    color: PremulRgba8,
    upto: int,
) -> Seq<Command> {
    let wy = w / columns;
    let wx = w % columns;
    if s.y == wy && emits_sample(s, wx, columns, alphas) && wx < upto {
        seq![sample_command(s, wx, color)]
    } else {
        Seq::<Command>::empty()
    }
}

/// Everything one strip appends to wide tile `w`: its gap command, then its
/// sample command, each present only in the wide tile columns that owe one.
pub open spec fn strip_tile_cmds(
    s: Strip,
    prev_x: int,
    w: int,
    columns: int,
    alphas: Seq<u8>,
    color: PremulRgba8,
) -> Seq<Command> {
    gap_done(s, prev_x, w, columns, color, columns) + sample_done(
        s,
        w,
        columns,
        alphas,
        color,
        columns,
    )
}

/// Everything a strip list appends to wide tile `w`, threading the previous
/// strip's right edge and row from strip to strip — a strip that opens a new
/// row measures its gap from the viewport's left edge — and stopping at the
/// first strip whose row lies below the wide tile grid.
pub open spec fn widen_commands(
    strips: Seq<Strip>,
    prev_x: int,
    prev_y: int,
    w: int,
    columns: int,
    rows: int,
    alphas: Seq<u8>,
    color: PremulRgba8,
) -> Seq<Command>
    decreases strips.len(),
{
    if strips.len() == 0 {
        Seq::<Command>::empty()
    } else {
        let s = strips[0];
        if s.y >= rows {
            Seq::<Command>::empty()
        } else {
            strip_tile_cmds(
                s,
                if s.y == prev_y {
                    prev_x
                } else {
                    0
                },
                w,
                columns,
                alphas,
                color,
            ) + widen_commands(
                strips.drop_first(),
                s.x + s.width,
                s.y as int,
                w,
                columns,
                rows,
                alphas,
                color,
            )
        }
    }
}

/// The previous strip's right edge after the first `i` strips, starting
/// from the canvas's left edge.
pub open spec fn prev_x_at(strips: Seq<Strip>, i: int) -> int {
    if i == 0 {
        0
    } else {
        strips[i - 1].x + strips[i - 1].width
    }
}

/// The previous strip's row after the first `i` strips.
pub open spec fn prev_y_at(strips: Seq<Strip>, i: int) -> int {
    if i == 0 {
        0
    } else {
        strips[i - 1].y as int
    }
}

/// The left edge strip `i`'s gap is measured from: the previous strip's
/// right edge on the same row, else the viewport's left edge.
pub open spec fn eff_prev_x(strips: Seq<Strip>, p0x: int, p0y: int, i: int) -> int {
    let px = if i == 0 {
        p0x
    } else {
        strips[i - 1].x + strips[i - 1].width as int
    };
    let py = if i == 0 {
        p0y
    } else {
        strips[i - 1].y as int
    };
    if strips[i].y == py {
        px
    } else {
        0
    }
}

/// Unrolls `widen_commands` one strip at a time from the front: as long as
/// no earlier strip stopped the sweep, taking one more strip appends exactly
/// that strip's commands.
proof fn lemma_widen_take_succ(
    strips: Seq<Strip>,
    p0x: int,
    p0y: int,
    w: int,
    columns: int,
    rows: int,
    alphas: Seq<u8>,
    color: PremulRgba8,
    i: int,
)
    requires
        0 <= i < strips.len(),
        forall|k: int| 0 <= k < i ==> (#[trigger] strips[k]).y < rows,
        strips[i].y < rows,
    ensures
        widen_commands(strips.take(i + 1), p0x, p0y, w, columns, rows, alphas, color)
            == widen_commands(strips.take(i), p0x, p0y, w, columns, rows, alphas, color)
            + strip_tile_cmds(strips[i], eff_prev_x(strips, p0x, p0y, i), w, columns, alphas, color),
    decreases i,
{
    if i == 0 {
        let stc = strip_tile_cmds(strips[0], eff_prev_x(strips, p0x, p0y, 0), w, columns, alphas, color);
        assert(strips.take(1)[0] == strips[0]);
        assert(strips.take(1).drop_first() =~= Seq::<Strip>::empty());
        assert(strips.take(0) =~= Seq::<Strip>::empty());
        assert(widen_commands(
            Seq::<Strip>::empty(),
            strips[0].x + strips[0].width as int,
            strips[0].y as int,
            w,
            columns,
            rows,
            alphas,
            color,
        ) == Seq::<Command>::empty());
        assert(widen_commands(strips.take(1), p0x, p0y, w, columns, rows, alphas, color) == stc
            + Seq::<Command>::empty());
        assert(stc + Seq::<Command>::empty() =~= stc);
        assert(widen_commands(strips.take(0), p0x, p0y, w, columns, rows, alphas, color) + stc
            =~= stc);
    } else {
        let ss = strips.drop_first();
        let p1x = strips[0].x + strips[0].width as int;
        let p1y = strips[0].y as int;
        assert(strips[0].y < rows);
        assert(strips.take(i + 1)[0] == strips[0]);
        assert(strips.take(i)[0] == strips[0]);
        assert(strips.take(i + 1).drop_first() =~= ss.take(i));
        assert(strips.take(i).drop_first() =~= ss.take(i - 1));
        assert(forall|k: int| 0 <= k < i - 1 ==> (#[trigger] ss[k]).y < rows);
        lemma_widen_take_succ(ss, p1x, p1y, w, columns, rows, alphas, color, i - 1);
        assert(ss[i - 1] == strips[i]);
        assert(i >= 2 ==> ss[i - 2] == strips[i - 1]);
        assert(eff_prev_x(ss, p1x, p1y, i - 1) == eff_prev_x(strips, p0x, p0y, i));
        let e0 = if strips[0].y == p0y {
            p0x
        } else {
            0
        };
        let stc0 = strip_tile_cmds(strips[0], e0, w, columns, alphas, color);
        let head = widen_commands(ss.take(i - 1), p1x, p1y, w, columns, rows, alphas, color);
        let stci = strip_tile_cmds(strips[i], eff_prev_x(strips, p0x, p0y, i), w, columns, alphas, color);
        assert(widen_commands(strips.take(i + 1), p0x, p0y, w, columns, rows, alphas, color)
            == stc0 + (head + stci));
        assert(widen_commands(strips.take(i), p0x, p0y, w, columns, rows, alphas, color) == stc0
            + head);
        assert(stc0 + (head + stci) =~= (stc0 + head) + stci);
    }
}

/// When the sweep stops at strip `n` (the first whose row lies below the
/// grid), the strips from `n` on contribute nothing.
proof fn lemma_widen_stops(
    strips: Seq<Strip>,
    p0x: int,
    p0y: int,
    w: int,
    columns: int,
    rows: int,
    alphas: Seq<u8>,
    color: PremulRgba8,
    n: int,
)
    requires
        0 <= n <= strips.len(),
        forall|k: int| 0 <= k < n ==> (#[trigger] strips[k]).y < rows,
        n < strips.len() ==> strips[n].y >= rows,
    ensures
        widen_commands(strips, p0x, p0y, w, columns, rows, alphas, color) == widen_commands(
            strips.take(n),
            p0x,
            p0y,
            w,
            columns,
            rows,
            alphas,
            color,
        ),
    decreases n,
{
    if n == 0 {
        assert(strips.take(0) =~= Seq::<Strip>::empty());
    } else {
        let ss = strips.drop_first();
        let p1x = strips[0].x + strips[0].width as int;
        let p1y = strips[0].y as int;
        assert(strips[0].y < rows);
        assert(strips.take(n)[0] == strips[0]);
        assert(strips.take(n).drop_first() =~= ss.take(n - 1));
        assert(forall|k: int| 0 <= k < n - 1 ==> (#[trigger] ss[k]).y < rows);
        assert(n - 1 < ss.len() ==> ss[n - 1] == strips[n]);
        lemma_widen_stops(ss, p1x, p1y, w, columns, rows, alphas, color, n - 1);
    }
}

/// True when all four coverage bytes are zero.
fn coverage_is_zero(c: &[u8; 4]) -> (r: bool)
    ensures
        r == zero_coverage(*c),
{
    c[0] == 0 && c[1] == 0 && c[2] == 0 && c[3] == 0
}

/// True when all four coverage bytes are full.
fn coverage_is_full(c: &[u8; 4]) -> (r: bool)
    ensures
        r == full_coverage(*c),
{
    c[0] == 255 && c[1] == 255 && c[2] == 255 && c[3] == 255
}

/// True when every alpha byte of the window of `w_tiles` tiles starting at
/// `start` is zero.
fn window_is_zero(alphas: &Vec<u8>, start: u32, w_tiles: u16) -> (r: bool)
    requires
        start + w_tiles * 16 <= alphas@.len(),
    ensures
        r == all_zero_window(alphas@, start as int, w_tiles as int),
{
    let n: usize = w_tiles as usize * 16;
    let alen: usize = alphas.len();
    let mut k: usize = 0;
    while k < n
        invariant
            k <= n,
            n == w_tiles * 16,
            alen == alphas@.len(),
            start + n <= alen,
            forall|j: int| start <= j < start + k ==> alphas@[j] == 0,
        decreases n - k,
    {
        if alphas[start as usize + k] != 0 {
            return false;
        }
        k += 1;
    }
    true
}

/// Append one command to the wide tile at `idx`, leaving all others as they
/// are.
fn push_command(wide_tiles: &mut Vec<WideTile>, idx: usize, cmd: Command)
    requires
        idx < old(wide_tiles)@.len(),
    ensures
        final(wide_tiles)@.len() == old(wide_tiles)@.len(),
        forall|w: int|
            0 <= w < old(wide_tiles)@.len() && w != idx ==> final(wide_tiles)@[w] == old(
                wide_tiles,
            )@[w],
        final(wide_tiles)@[idx as int].commands@ == old(wide_tiles)@[idx as int].commands@.push(
            cmd,
        ),
{
    let wt = &mut wide_tiles[idx];
    wt.commands.push(cmd);
}

/// Emit the sparse commands the gap left of strip `s` owes: one per wide
/// tile of the gap `[gap_x, s.x)`, when the gap is non-empty and its
/// coverage is non-zero.
#[verifier::loop_isolation(false)]
#[verifier::rlimit(100)]
#[verifier::spinoff_prover]
fn emit_gap_cmds(
    wide_tiles: &mut Vec<WideTile>,
    alpha_masks: &Vec<u8>,
    s: Strip,
    gap_x: u16,
    color: PremulRgba8,
    columns_u: u16,
    rows_u: u16,
)
    requires
        color.premultiplied(),
        s.y < rows_u,
        rows_u as int * columns_u as int <= old(wide_tiles)@.len(),
        columns_u >= 1,
    ensures
        final(wide_tiles)@.len() == old(wide_tiles)@.len(),
        forall|w: int|
            0 <= w < old(wide_tiles)@.len() ==> (#[trigger] final(wide_tiles)@[w]).commands@ == old(
                wide_tiles,
            )@[w].commands@ + gap_done(
                s,
                gap_x as int,
                w,
                columns_u as int,
                color,
                columns_u as int,
            ),
        forall|w: int, j: int|
            0 <= w < old(wide_tiles)@.len() && old(wide_tiles)@[w].commands@.len() <= j < final(wide_tiles)@[w].commands@.len() ==> command_wf(
                #[trigger] final(wide_tiles)@[w].commands@[j],
                alpha_masks@.len() as int,
            ),
{
    let ghost pre = wide_tiles@;
    let ghost columns = columns_u as int;
    let ghost gpx = gap_x as int;
    let ghost alen = alpha_masks@.len() as int;
    let n_tiles: usize = wide_tiles.len();
    if !coverage_is_zero(&s.pixel_coverage) && gap_x < s.x {
        let fill = coverage_is_full(&s.pixel_coverage);
        let start_wx: u16 = gap_x / 32;
        let end_wx: u16 = s.x / 32;
        let mut wx: u16 = start_wx;
        while wx <= end_wx && wx < columns_u
            invariant
                start_wx <= wx <= end_wx + 1,
                wide_tiles@.len() == n_tiles,
                forall|w: int|
                    0 <= w < n_tiles ==> (#[trigger] wide_tiles@[w]).commands@ == pre[w].commands@
                        + gap_done(s, gpx, w, columns, color, wx as int),
                forall|w: int, j: int|
                    0 <= w < n_tiles && pre[w].commands@.len() <= j
                        < wide_tiles@[w].commands@.len() ==> command_wf(
                        #[trigger] wide_tiles@[w].commands@[j],
                        alen,
                    ),
            decreases end_wx + 1 - wx,
        {
            proof {
                assert((s.y as int) * columns + (wx as int) < n_tiles as int) by (nonlinear_arith)
                    requires
                        (s.y as int) < rows_u as int,
                        0 <= wx as int,
                        (wx as int) < columns,
                        (rows_u as int) * columns <= n_tiles as int,
                ;
            }
            let idx: usize = s.y as usize * columns_u as usize + wx as usize;
            let x_start: u16 = if wx == start_wx {
                gap_x - start_wx * 32
            } else {
                0
            };
            let x_end: u16 = if wx == end_wx {
                s.x - end_wx * 32
            } else {
                32
            };
            proof {
                assert(x_start <= x_end && x_end <= 32);
            }
            let cmd = if fill {
                Command::SparseFill(SparseFill { x: x_start, width: x_end - x_start, color })
            } else {
                Command::SparseSample(
                    SparseSample {
                        x: x_start,
                        width: x_end - x_start,
                        color,
                        alpha_mask: s.pixel_coverage,
                    },
                )
            };
            proof {
                assert(cmd == gap_command(s, gpx, wx as int, color));
                assert(command_wf(cmd, alen));
                assert(emits_gap(s, gpx, wx as int, columns));
            }
            let ghost before = wide_tiles@;
            push_command(wide_tiles, idx, cmd);
            proof {
                assert forall|w: int| 0 <= w < n_tiles implies (
                #[trigger] wide_tiles@[w]).commands@ == pre[w].commands@ + gap_done(
                    s,
                    gpx,
                    w,
                    columns,
                    color,
                    wx as int + 1,
                ) by {
                    lemma_fundamental_div_mod(w, columns);
                    if w == idx as int {
                        assert(w / columns == s.y as int && w % columns == wx as int)
                            by (nonlinear_arith)
                            requires
                                w == (s.y as int) * columns + (wx as int),
                                0 <= wx as int,
                                (wx as int) < columns,
                                columns >= 1,
                        ;
                        assert(gap_done(s, gpx, w, columns, color, wx as int)
                            =~= Seq::<Command>::empty());
                        assert(before[w].commands@ + Seq::<Command>::empty()
                            =~= before[w].commands@);
                        assert(gap_done(s, gpx, w, columns, color, wx as int + 1) =~= seq![cmd]);
                        assert(pre[w].commands@ + seq![cmd] =~= before[w].commands@.push(cmd));
                    } else {
                        assert(wide_tiles@[w] == before[w]);
                        if w / columns == s.y as int && w % columns == wx as int {
                            assert(w == idx as int) by (nonlinear_arith)
                                requires
                                    w == columns * (w / columns) + (w % columns),
                                    w / columns == s.y as int,
                                    w % columns == wx as int,
                                    idx as int == (s.y as int) * columns + (wx as int),
                            ;
                            assert(false);
                        }
                    }
                }
            }
            wx += 1;
        }
        proof {
            assert forall|w: int| 0 <= w < n_tiles implies (
            #[trigger] wide_tiles@[w]).commands@ == pre[w].commands@ + gap_done(
                s,
                gpx,
                w,
                columns,
                color,
                columns,
            ) by {
                if emits_gap(s, gpx, w % columns, columns) {
                    assert(w % columns < wx as int);
                }
                assert(gap_done(s, gpx, w, columns, color, wx as int) =~= gap_done(
                    s,
                    gpx,
                    w,
                    columns,
                    color,
                    columns,
                ));
            }
        }
    } else {
        proof {
            assert forall|w: int| 0 <= w < n_tiles implies (#[trigger] wide_tiles@[w]).commands@
                == pre[w].commands@ + gap_done(s, gpx, w, columns, color, columns) by {
                assert(!emits_gap(s, gpx, w % columns, columns));
                assert(pre[w].commands@ + Seq::<Command>::empty() =~= pre[w].commands@);
            }
        }
    }
}

/// Emit the alpha-sampled fills of strip `s`: one per wide tile of the
/// strip's span whose mask window is not entirely zero, advancing the alpha
/// index by 16 bytes per tile.
#[verifier::loop_isolation(false)]
#[verifier::rlimit(100)]
#[verifier::spinoff_prover]
fn emit_sample_cmds(
    wide_tiles: &mut Vec<WideTile>,
    alpha_masks: &Vec<u8>,
    s: Strip,
    color: PremulRgba8,
    columns_u: u16,
    rows_u: u16,
)
    requires
        color.premultiplied(),
        s.y < rows_u,
        rows_u as int * columns_u as int <= old(wide_tiles)@.len(),
        columns_u >= 1,
        s.x + s.width <= 65535,
        s.alpha_idx + s.width * 16 <= alpha_masks@.len(),
        alpha_masks@.len() <= 0xffff_ffff,
    ensures
        final(wide_tiles)@.len() == old(wide_tiles)@.len(),
        forall|w: int|
            0 <= w < old(wide_tiles)@.len() ==> (#[trigger] final(wide_tiles)@[w]).commands@ == old(
                wide_tiles,
            )@[w].commands@ + sample_done(
                s,
                w,
                columns_u as int,
                alpha_masks@,
                color,
                columns_u as int,
            ),
        forall|w: int, j: int|
            0 <= w < old(wide_tiles)@.len() && old(wide_tiles)@[w].commands@.len() <= j < final(wide_tiles)@[w].commands@.len() ==> command_wf(
                #[trigger] final(wide_tiles)@[w].commands@[j],
                alpha_masks@.len() as int,
            ),
{
    let ghost mid = wide_tiles@;
    let ghost columns = columns_u as int;
    let ghost alphas_g = alpha_masks@;
    let ghost alen = alpha_masks@.len() as int;
    let n_tiles: usize = wide_tiles.len();
    let start_wx: u16 = s.x / 32;
    let end_wx: u16 = (s.x + s.width) / 32;
    let mut alpha_idx: u32 = s.alpha_idx;
    let mut wx: u16 = start_wx;
    while wx <= end_wx && wx < columns_u
        invariant
            start_wx <= wx <= end_wx + 1,
            wide_tiles@.len() == n_tiles,
            wx <= end_wx ==> alpha_idx as int == strip_alpha_at(s, wx as int),
            forall|w: int|
                0 <= w < n_tiles ==> (#[trigger] wide_tiles@[w]).commands@ == mid[w].commands@
                    + sample_done(s, w, columns, alphas_g, color, wx as int),
            forall|w: int, j: int|
                0 <= w < n_tiles && mid[w].commands@.len() <= j < wide_tiles@[w].commands@.len()
                    ==> command_wf(#[trigger] wide_tiles@[w].commands@[j], alen),
        decreases end_wx + 1 - wx,
    {
        let x_start: u16 = if wx == start_wx {
            s.x - start_wx * 32
        } else {
            0
        };
        let x_end: u16 = if wx == end_wx {
            s.x + s.width - end_wx * 32
        } else {
            32
        };
        proof {
            assert(x_start <= x_end && x_end <= 32);
            assert(x_start == strip_span_start(s, wx as int));
            assert(x_end == strip_span_end(s, wx as int));
        }
        let w_span: u16 = x_end - x_start;
        proof {
            assert(alpha_idx + w_span * 16 <= s.alpha_idx + s.width * 16);
            assert(alpha_idx + w_span * 16 <= alphas_g.len());
        }
        if !window_is_zero(alpha_masks, alpha_idx, w_span) {
            proof {
                assert((s.y as int) * columns + (wx as int) < n_tiles as int) by (nonlinear_arith)
                    requires
                        (s.y as int) < rows_u as int,
                        0 <= wx as int,
                        (wx as int) < columns,
                        (rows_u as int) * columns <= n_tiles as int,
                ;
            }
            let idx: usize = s.y as usize * columns_u as usize + wx as usize;
            let cmd = Command::Sample(Sample { x: x_start, width: w_span, color, alpha_idx });
            proof {
                assert(cmd == sample_command(s, wx as int, color));
                assert(command_wf(cmd, alen));
                assert(emits_sample(s, wx as int, columns, alphas_g));
            }
            let ghost before = wide_tiles@;
            push_command(wide_tiles, idx, cmd);
            proof {
                assert forall|w: int| 0 <= w < n_tiles implies (
                #[trigger] wide_tiles@[w]).commands@ == mid[w].commands@ + sample_done(
                    s,
                    w,
                    columns,
                    alphas_g,
                    color,
                    wx as int + 1,
                ) by {
                    lemma_fundamental_div_mod(w, columns);
                    if w == idx as int {
                        assert(w / columns == s.y as int && w % columns == wx as int)
                            by (nonlinear_arith)
                            requires
                                w == (s.y as int) * columns + (wx as int),
                                0 <= wx as int,
                                (wx as int) < columns,
                                columns >= 1,
                        ;
                        assert(sample_done(s, w, columns, alphas_g, color, wx as int)
                            =~= Seq::<Command>::empty());
                        assert(before[w].commands@ + Seq::<Command>::empty()
                            =~= before[w].commands@);
                        assert(sample_done(s, w, columns, alphas_g, color, wx as int + 1) =~= seq![
                            cmd,
                        ]);
                        assert(mid[w].commands@ + seq![cmd] =~= before[w].commands@.push(cmd));
                    } else {
                        assert(wide_tiles@[w] == before[w]);
                        if w / columns == s.y as int && w % columns == wx as int {
                            assert(w == idx as int) by (nonlinear_arith)
                                requires
                                    w == columns * (w / columns) + (w % columns),
                                    w / columns == s.y as int,
                                    w % columns == wx as int,
                                    idx as int == (s.y as int) * columns + (wx as int),
                            ;
                            assert(false);
                        }
                    }
                }
            }
        } else {
            proof {
                assert(!emits_sample(s, wx as int, columns, alphas_g));
                assert forall|w: int| 0 <= w < n_tiles implies (
                #[trigger] wide_tiles@[w]).commands@ == mid[w].commands@ + sample_done(
                    s,
                    w,
                    columns,
                    alphas_g,
                    color,
                    wx as int + 1,
                ) by {
                    lemma_fundamental_div_mod(w, columns);
                    assert(sample_done(s, w, columns, alphas_g, color, wx as int + 1)
                        =~= sample_done(s, w, columns, alphas_g, color, wx as int));
                }
            }
        }
        alpha_idx += w_span as u32 * 16;
        proof {
            if wx < end_wx {
                assert(alpha_idx as int == strip_alpha_at(s, wx as int + 1));
            }
        }
        wx += 1;
    }
    proof {
        assert forall|w: int| 0 <= w < n_tiles implies (#[trigger] wide_tiles@[w]).commands@
            == mid[w].commands@ + sample_done(s, w, columns, alphas_g, color, columns) by {
            if emits_sample(s, w % columns, columns, alphas_g) {
                assert(w % columns < wx as int);
            }
            assert(sample_done(s, w, columns, alphas_g, color, wx as int) =~= sample_done(
                s,
                w,
                columns,
                alphas_g,
                color,
                columns,
            ));
        }
    }
}

/// Compile strips into per-wide-tile command lists.
///
/// For every strip in order: when the gap between the previous strip of the
/// same row (or, for a row's first strip, the viewport's left edge) and this
/// strip carries non-zero coverage, emit one sparse command per wide tile
/// the gap overlaps (an opaque `SparseFill` at full coverage, else a
/// `SparseSample`); then split the strip itself across wide tiles and emit a
/// `Sample` for every wide-tile span whose alpha mask window is not entirely
/// zero, advancing the alpha index by 16 bytes per tile. Strips on rows
/// below the wide tile grid stop the sweep.
#[verifier::loop_isolation(false)]
#[verifier::rlimit(100)]
#[verifier::spinoff_prover]
pub fn generate_wide_tile_commands(
    width: u16,
    wide_tiles: &mut Vec<WideTile>,
    strips: &Vec<Strip>,
    alpha_masks: &Vec<u8>,
    color: PremulRgba8,
)
    requires
        width >= 1,
        forall|k: int|
            0 <= k < strips@.len() ==> (#[trigger] strips@[k]).x + strips@[k].width <= 65535,
        forall|k: int|
            0 <= k < strips@.len() ==> (#[trigger] strips@[k]).alpha_idx + strips@[k].width * 16
                <= alpha_masks@.len(),
        alpha_masks@.len() <= 0xffff_ffff,
        old(wide_tiles)@.len() as int / wide_tile_columns(width as int) <= 65535,
        color.premultiplied(),
    ensures
        final(wide_tiles)@.len() == old(wide_tiles)@.len(),
        forall|w: int|
            0 <= w < old(wide_tiles)@.len() ==> (#[trigger] final(wide_tiles)@[w]).commands@ == old(
                wide_tiles,
            )@[w].commands@ + widen_commands(
                strips@,
                0,
                0,
                w,
                wide_tile_columns(width as int),
                old(wide_tiles)@.len() as int / wide_tile_columns(width as int),
                alpha_masks@,
                color,
            ),
        wide_tiles_wf(old(wide_tiles)@, alpha_masks@.len() as int) ==> wide_tiles_wf(
            final(wide_tiles)@,
            alpha_masks@.len() as int,
        ),
{
    let ghost tiles0 = wide_tiles@;
    let ghost alphas_g = alpha_masks@;
    let ghost alen = alpha_masks@.len() as int;
    let wide_tile_columns_u: u16 = ((width as u32 + 127) / 128) as u16;
    let n_tiles: usize = wide_tiles.len();
    let wide_tile_rows_u: u16 = (n_tiles / wide_tile_columns_u as usize) as u16;
    let ghost columns = wide_tile_columns_u as int;
    let ghost rows = wide_tile_rows_u as int;
    proof {
        assert(columns == wide_tile_columns(width as int));
        assert(rows == n_tiles as int / columns);
        assert(rows * columns <= n_tiles as int) by (nonlinear_arith)
            requires
                rows == n_tiles as int / columns,
                columns >= 1,
                n_tiles as int >= 0,
        ;
    }

    let mut prev_x: u16 = 0;
    let mut prev_y: u16 = 0;
    let mut i: usize = 0;
    let mut done: bool = false;
    while i < strips.len() && !done
        invariant
            i <= strips@.len(),
            wide_tiles@.len() == tiles0.len(),
            !done ==> forall|k: int| 0 <= k < i ==> (#[trigger] strips@[k]).y < rows,
            !done ==> prev_x as int == prev_x_at(strips@, i as int),
            !done ==> prev_y as int == prev_y_at(strips@, i as int),
            !done ==> forall|w: int|
                0 <= w < tiles0.len() ==> (#[trigger] wide_tiles@[w]).commands@
                    == tiles0[w].commands@ + widen_commands(
                    strips@.take(i as int),
                    0,
                    0,
                    w,
                    columns,
                    rows,
                    alphas_g,
                    color,
                ),
            done ==> forall|w: int|
                0 <= w < tiles0.len() ==> (#[trigger] wide_tiles@[w]).commands@
                    == tiles0[w].commands@ + widen_commands(
                    strips@,
                    0,
                    0,
                    w,
                    columns,
                    rows,
                    alphas_g,
                    color,
                ),
            forall|w: int, j: int|
                0 <= w < tiles0.len() && tiles0[w].commands@.len() <= j
                    < wide_tiles@[w].commands@.len() ==> command_wf(
                    #[trigger] wide_tiles@[w].commands@[j],
                    alen,
                ),
        decreases strips@.len() - i, (if done { 0int } else { 1int }),
    {
        let s = strips[i];
        if s.y >= wide_tile_rows_u {
            proof {
                assert forall|w: int| 0 <= w < tiles0.len() implies (
                #[trigger] wide_tiles@[w]).commands@ == tiles0[w].commands@ + widen_commands(
                    strips@,
                    0,
                    0,
                    w,
                    columns,
                    rows,
                    alphas_g,
                    color,
                ) by {
                    lemma_widen_stops(strips@, 0, 0, w, columns, rows, alphas_g, color, i as int);
                }
            }
            done = true;
        } else {
            let ghost pre = wide_tiles@;
            // The gap before this strip is measured from the previous
            // strip's right edge when that strip lies on the same row, and
            // from the viewport's left edge when this strip opens a new row.
            let gap_x: u16 = if s.y == prev_y {
                prev_x
            } else {
                0
            };
            let ghost gpx = gap_x as int;
            emit_gap_cmds(wide_tiles, alpha_masks, s, gap_x, color, wide_tile_columns_u, wide_tile_rows_u);
            let ghost mid = wide_tiles@;
            emit_sample_cmds(wide_tiles, alpha_masks, s, color, wide_tile_columns_u, wide_tile_rows_u);
            prev_x = s.x + s.width;
            prev_y = s.y;
            proof {
                assert(gpx == eff_prev_x(strips@, 0, 0, i as int));
                assert forall|w: int| 0 <= w < tiles0.len() implies (
                #[trigger] wide_tiles@[w]).commands@ == tiles0[w].commands@ + widen_commands(
                    strips@.take(i as int + 1),
                    0,
                    0,
                    w,
                    columns,
                    rows,
                    alphas_g,
                    color,
                ) by {
                    assert((pre[w].commands@ + gap_done(s, gpx, w, columns, color, columns))
                        + sample_done(s, w, columns, alphas_g, color, columns) =~= pre[w].commands@
                        + strip_tile_cmds(s, gpx, w, columns, alphas_g, color));
                    lemma_widen_take_succ(
                        strips@,
                        0,
                        0,
                        w,
                        columns,
                        rows,
                        alphas_g,
                        color,
                        i as int,
                    );
                    assert((tiles0[w].commands@ + widen_commands(
                        strips@.take(i as int),
                        0,
                        0,
                        w,
                        columns,
                        rows,
                        alphas_g,
                        color,
                    )) + strip_tile_cmds(s, gpx, w, columns, alphas_g, color)
                        =~= tiles0[w].commands@ + (widen_commands(
                        strips@.take(i as int),
                        0,
                        0,
                        w,
                        columns,
                        rows,
                        alphas_g,
                        color,
                    ) + strip_tile_cmds(s, gpx, w, columns, alphas_g, color)));
                }
                assert forall|w: int, j: int|
                    0 <= w < tiles0.len() && tiles0[w].commands@.len() <= j
                        < wide_tiles@[w].commands@.len() implies command_wf(
                    #[trigger] wide_tiles@[w].commands@[j],
                    alen,
                ) by {
                    if j < mid[w].commands@.len() {
                        assert(wide_tiles@[w].commands@[j] == mid[w].commands@[j]);
                        if j < pre[w].commands@.len() {
                            assert(mid[w].commands@[j] == pre[w].commands@[j]);
                        }
                    }
                }
            }
        }
        i += 1;
    }
    proof {
        if !done {
            assert(strips@.take(strips@.len() as int) =~= strips@);
        }
        if wide_tiles_wf(tiles0, alen) {
            assert forall|w: int, j: int|
                0 <= w < wide_tiles@.len() && 0 <= j < wide_tiles@[w].commands@.len() implies
                command_wf(#[trigger] wide_tiles@[w].commands@[j], alen) by {
                if j < tiles0[w].commands@.len() {
                    assert(wide_tiles@[w].commands@[j] == tiles0[w].commands@[j]);
                }
            }
        }
    }
}

} // verus!
