use vstd::prelude::*;

verus! {

/// A strip of merged tiles.
///
/// Strips are the same height as tiles, but are an integer multiple of a
/// tile's width.
#[derive(Clone, Copy, Debug)]
pub struct Strip {
    /// The left coordinate of the strip, in tiles.
    pub x: u16,
    /// The top coordinate of the strip, in tiles.
    pub y: u16,
    /// The width of the strip, in tiles.
    pub width: u16,
    /// The per-pixel-row area coverage between the right edge of the
    /// previous strip and the left edge of this strip. For the first strip
    /// of a row it is the coverage between the viewport's left edge and the
    /// strip, carried in from geometry left of the viewport.
    pub pixel_coverage: [u8; 4],
    /// The index of the strip's mask bytes in the alpha mask storage; the
    /// strip owns `width * 16` bytes there, column-major per tile column.
    pub alpha_idx: u32,
}

/// Strip `a` comes before strip `b`: on an earlier row, or on the same row
/// with its tile interval `[x, x + width)` wholly left of `b`'s, separated
/// by at least one tile.
pub open spec fn strip_precedes(a: Strip, b: Strip) -> bool {
    a.y < b.y || (a.y == b.y && a.x + a.width < b.x)
}

/// Strips stand in non-decreasing `(y, x)` order; within a row their tile
/// intervals are disjoint and separated by at least one tile.
pub open spec fn strips_ordered(strips: Seq<Strip>) -> bool {
    forall|i: int| 0 <= i < strips.len() - 1 ==> strip_precedes(#[trigger] strips[i], strips[i + 1])
}

/// Successive strips' `alpha_idx` differ by exactly the predecessor's
/// `width * 16`: each strip's mask bytes follow its predecessor's directly.
pub open spec fn alpha_contiguous(strips: Seq<Strip>) -> bool {
    forall|i: int|
        0 <= i < strips.len() - 1 ==> (#[trigger] strips[i + 1]).alpha_idx == strips[i].alpha_idx
            + strips[i].width * 16
}

/// One strip is well-formed against an alpha pool of `alpha_len` bytes: at
/// least one tile wide, with its tile interval and its mask window in range.
pub open spec fn strip_wf(s: Strip, alpha_len: int) -> bool {
    1 <= s.width && s.x + s.width <= 65535 && s.alpha_idx + s.width * 16 <= alpha_len
}

/// A well-formed strip list: ordered, alpha-contiguous, every strip
/// well-formed.
pub open spec fn strips_wf(strips: Seq<Strip>, alpha_len: int) -> bool {
    strips_ordered(strips) && alpha_contiguous(strips) && forall|i: int|
        0 <= i < strips.len() ==> strip_wf(#[trigger] strips[i], alpha_len)
}

/// A strip list well-formed against an alpha pool stays well-formed when the
/// pool grows: the mask windows only move further into range.
pub proof fn lemma_strips_wf_grow(strips: Seq<Strip>, l1: int, l2: int)
    requires
        strips_wf(strips, l1),
        l1 <= l2,
    ensures
        strips_wf(strips, l2),
{
    assert forall|i: int| 0 <= i < strips.len() implies strip_wf(#[trigger] strips[i], l2) by {
        assert(strip_wf(strips[i], l1));
    }
}

/// Law: strips come in non-decreasing `(y, x)` order, and two strips of the
/// same row have disjoint tile intervals separated by at least one tile —
/// not only adjacent ones, any two.
pub proof fn lemma_strip_ordering(strips: Seq<Strip>, alpha_len: int, i: int, j: int)
    requires
        strips_wf(strips, alpha_len),
        0 <= i < j < strips.len(),
    ensures
        strips[i].y <= strips[j].y,
        strips[i].y == strips[j].y ==> strips[i].x + strips[i].width < strips[j].x,
    decreases j - i,
{
    if i + 1 == j {
        assert(strip_precedes(strips[i], strips[i + 1]));
    } else {
        lemma_strip_ordering(strips, alpha_len, i, j - 1);
        assert(strip_precedes(strips[j - 1], strips[j]));
        assert(strip_wf(strips[j - 1], alpha_len));
    }
}

/// Law: successive strips' `alpha_idx` differ by exactly the predecessor's
/// `width * 16` mask bytes.
pub proof fn lemma_alpha_contiguity(strips: Seq<Strip>, alpha_len: int, i: int)
    requires
        strips_wf(strips, alpha_len),
        0 <= i < strips.len() - 1,
    ensures
        strips[i + 1].alpha_idx == strips[i].alpha_idx + strips[i].width * 16,
{
}

} // verus!
