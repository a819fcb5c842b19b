use vstd::prelude::*;

use crate::palette::{Color, Palettes, BACKGROUND, PALETTE_LEN};
use crate::random::draw_in_range;

verus! {

/// Spacing between two neighbouring bands, in cells.
pub const BAND_GAP: u32 = 3;

/// Smallest and largest jitter added to each cell's band thresholds.
pub const JITTER_MIN: u32 = 1;

pub const JITTER_MAX: u32 = 15;

pub open spec fn abs(t: int) -> int {
    if t < 0 {
        -t
    } else {
        t
    }
}

pub open spec fn max(a: int, b: int) -> int {
    if a >= b {
        a
    } else {
        b
    }
}

/// Position of the sweep front relative to column `x`: it grows with `x`
/// and with the distance of the sweep time from zero.
pub open spec fn sweep_front(x: int, t: int, height: int, width: int) -> int {
    x - max(height, width) + abs(t)
}

/// Whether band `i` is lit for a cell at distance `d` behind the front,
/// that is whether the front has passed the band's threshold.
pub open spec fn band_lit(d: int, i: int) -> bool {
    d > BAND_GAP * i
}

/// The highest band in `0..PALETTE_LEN` that is lit at distance `d`, or -1
/// when none is.
pub open spec fn band_of(d: int) -> int {
    if band_lit(d, 6) {
        6
    } else if !band_lit(d, 0) {
        -1
    } else {
        (d - 1) / (BAND_GAP as int)
    }
}

/// The colour of cell (`x`, `y`) at sweep time `t`, with jitter `off`.
///
/// The band found by scanning from the highest index down picks the colour:
/// from `outgoing` when `t >= 0`, from `incoming` when `t < 0`. Where no band
/// is lit the cell is background up to `t == 0`, and the last incoming colour
/// after.
pub open spec fn cell_color(
    x: int,
    y: int,
    t: int,
    incoming: Seq<Color>,
    outgoing: Seq<Color>,
    height: int,
    width: int,
    off: int,
) -> Color {
    let b = band_of(sweep_front(x, t, height, width) - y - off);
    if b >= 0 {
        if t >= 0 {
            outgoing[b]
        } else {
            incoming[b]
        }
    } else if t <= 0 {
        BACKGROUND
    } else {
        incoming.last()
    }
}

/// Whether `c` is an entry of one of the palettes or the background.
pub open spec fn from_palettes(c: Color, p: &Palettes) -> bool {
    p.incoming@.contains(c) || p.outgoing@.contains(c) || c == BACKGROUND
}

/// The colour of cell (`x`, `y`) at sweep time `t` for a given jitter.
pub fn color_with_jitter(
    x: usize,
    y: usize,
    t: i32,
    palettes: &Palettes,
    height: usize,
    width: usize,
    off: u32,
) -> (r: Color)
    requires
        palettes.wf(),
        x <= i32::MAX,
        y <= i32::MAX,
        height <= i32::MAX,
        width <= i32::MAX,
        t > i32::MIN,
    ensures
        r == cell_color(
            x as int,
            y as int,
            t as int,
            palettes.incoming@,
            palettes.outgoing@,
            height as int,
            width as int,
            off as int,
        ),
{
    let max_dim = if height >= width {
        height
    } else {
        width
    };
    let t_abs: i64 = if t < 0 {
        -(t as i64)
    } else {
        t as i64
    };
    let front: i64 = x as i64 - max_dim as i64 + t_abs;
    let ghost d = front - y - off;
    let mut i: usize = PALETTE_LEN;
    while i > 0
        invariant
            0 <= i <= PALETTE_LEN,
            palettes.wf(),
            y <= i32::MAX,
            -0x1_0000_0000 <= front <= 0x1_0000_0000,
            d == front - y - off,
            d == sweep_front(x as int, t as int, height as int, width as int) - y - off,
            forall|j: int| i <= j < PALETTE_LEN ==> !band_lit(d, j),
        decreases i,
    {
        i = i - 1;
        assert(BAND_GAP * i <= BAND_GAP * 6) by (nonlinear_arith)
            requires
                i <= 6,
        ;
        if front > y as i64 + (BAND_GAP as i64) * (i as i64) + off as i64 {
            assert(band_lit(d, i as int));
            if i < 6 {
                assert(!band_lit(d, i + 1));
            }
            assert(band_of(d) == i as int);
            if t >= 0 {
                return palettes.outgoing[i];
            } else {
                return palettes.incoming[i];
            }
        }
    }
    assert(!band_lit(d, 0));
    if t <= 0 {
        BACKGROUND
    } else {
        palettes.incoming[palettes.incoming.len() - 1]
    }
}

/// The colour of cell (`x`, `y`) at sweep time `t`, with a fresh random
/// jitter between `JITTER_MIN` and `JITTER_MAX`.
pub fn get_color(
    x: usize,
    y: usize,
    t: i32,
    palettes: &Palettes,
    height: usize,
    width: usize,
) -> (r: Color)
    requires
        palettes.wf(),
        x <= i32::MAX,
        y <= i32::MAX,
        height <= i32::MAX,
        width <= i32::MAX,
        t > i32::MIN,
    ensures
        exists|off: int|
            JITTER_MIN <= off <= JITTER_MAX && r == #[trigger] cell_color(
                x as int,
                y as int,
                t as int,
                palettes.incoming@,
                palettes.outgoing@,
                height as int,
                width as int,
                off,
            ),
        from_palettes(r, palettes),
{
    let off = draw_in_range(JITTER_MIN, JITTER_MAX);
    let r = color_with_jitter(x, y, t, palettes, height, width, off);
    proof {
        lemma_cell_color_from_palettes(
            x as int,
            y as int,
            t as int,
            palettes,
            height as int,
            width as int,
            off as int,
        );
    }
    r
}

/// Every cell, at every sweep time and for every jitter, is painted with an
/// entry of one of the palettes or with the background.
pub proof fn lemma_cell_color_from_palettes(
    x: int,
    y: int,
    t: int,
    p: &Palettes,
    height: int,
    width: int,
    off: int,
)
    requires
        p.wf(),
    ensures
        from_palettes(cell_color(x, y, t, p.incoming@, p.outgoing@, height, width, off), p),
{
    let b = band_of(sweep_front(x, t, height, width) - y - off);
    assert(-1 <= b < PALETTE_LEN);
    if b >= 0 {
        if t >= 0 {
            assert(p.outgoing@.contains(p.outgoing@[b]));
        } else {
            assert(p.incoming@.contains(p.incoming@[b]));
        }
    } else if t > 0 {
        assert(p.incoming@.contains(p.incoming@[PALETTE_LEN - 1]));
    }
}

} // verus!
