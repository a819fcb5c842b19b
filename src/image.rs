use vstd::prelude::*;

use crate::cell::{cell_color, from_palettes, get_color, JITTER_MAX, JITTER_MIN};
use crate::palette::{Color, Palettes};

verus! {

/// The character count of the longest line.
pub open spec fn widest(lines: Seq<Vec<char>>) -> nat
    decreases lines.len(),
{
    if lines.len() == 0 {
        0
    } else {
        let rest = widest(lines.drop_last());
        if lines.last()@.len() > rest {
            lines.last()@.len()
        } else {
            rest
        }
    }
}

/// No line is longer than the widest one.
pub proof fn lemma_widest_bounds(lines: Seq<Vec<char>>, i: int)
    requires
        0 <= i < lines.len(),
    ensures
        lines[i]@.len() <= widest(lines),
    decreases lines.len(),
{
    if i < lines.len() - 1 {
        lemma_widest_bounds(lines.drop_last(), i);
    }
}

/// A block of text lines, fixed for the life of an animation.
pub struct Image {
    pub lines: Vec<Vec<char>>,
    pub width: usize,
}

/// What a cell may be painted with at sweep time `t`: the colour for some
/// jitter in range.
pub open spec fn painted_as(c: Color, x: int, y: int, t: int, img: &Image, p: &Palettes) -> bool {
    exists|off: int|
        JITTER_MIN <= off <= JITTER_MAX && c == #[trigger] cell_color(
            x,
            y,
            t,
            p.incoming@,
            p.outgoing@,
            img.lines@.len() as int,
            img.width as int,
            off,
        )
}

impl Image {
    pub open spec fn wf(&self) -> bool {
        &&& self.lines@.len() <= i32::MAX
        &&& self.width <= i32::MAX
        &&& self.width == widest(self.lines@)
    }

    /// Wraps `lines`, measuring the longest one.
    pub fn new(lines: Vec<Vec<char>>) -> (r: Image)
        requires
            lines@.len() <= i32::MAX,
            forall|i: int| 0 <= i < lines@.len() ==> (#[trigger] lines@[i])@.len() <= i32::MAX,
        ensures
            r.wf(),
            r.lines@ == lines@,
    {
        let mut width: usize = 0;
        let mut i: usize = 0;
        while i < lines.len()
            invariant
                i <= lines@.len(),
                forall|k: int| 0 <= k < lines@.len() ==> (#[trigger] lines@[k])@.len() <= i32::MAX,
                width == widest(lines@.subrange(0, i as int)),
                width <= i32::MAX,
            decreases lines@.len() - i,
        {
            assert(lines@.subrange(0, i + 1).drop_last() =~= lines@.subrange(0, i as int));
            if lines[i].len() > width {
                width = lines[i].len();
            }
            i = i + 1;
        }
        assert(lines@.subrange(0, i as int) =~= lines@);
        Image { lines, width }
    }

    /// Number of lines.
    pub fn height(&self) -> (r: usize)
        ensures
            r == self.lines@.len(),
    {
        self.lines.len()
    }

    /// Character count of the longest line.
    pub fn width(&self) -> (r: usize)
        ensures
            r == self.width,
    {
        self.width
    }

    /// The colours of one frame at sweep time `t`: one row per line and one
    /// colour per character of it, each drawn with its own jitter.
    pub fn paint_frame(&self, t: i32, palettes: &Palettes) -> (r: Vec<Vec<Color>>)
        requires
            self.wf(),
            palettes.wf(),
            t > i32::MIN,
        ensures
            r@.len() == self.lines@.len(),
            forall|y: int|
                0 <= y < r@.len() ==> (#[trigger] r@[y])@.len() == self.lines@[y]@.len(),
            forall|y: int, x: int|
                0 <= y < r@.len() && 0 <= x < r@[y]@.len() ==> painted_as(
                    #[trigger] r@[y]@[x],
                    x,
                    y,
                    t as int,
                    self,
                    palettes,
                ) && from_palettes(r@[y]@[x], palettes),
    {
        let height = self.lines.len();
        let mut rows: Vec<Vec<Color>> = Vec::new();
        let mut y: usize = 0;
        while y < height
            invariant
                self.wf(),
                palettes.wf(),
                t > i32::MIN,
                height == self.lines@.len(),
                y <= height,
                rows@.len() == y,
                forall|k: int|
                    0 <= k < y ==> (#[trigger] rows@[k])@.len() == self.lines@[k]@.len(),
                forall|k: int, x: int|
                    0 <= k < y && 0 <= x < rows@[k]@.len() ==> painted_as(
                        #[trigger] rows@[k]@[x],
                        x,
                        k,
                        t as int,
                        self,
                        palettes,
                    ) && from_palettes(rows@[k]@[x], palettes),
            decreases height - y,
        {
            let line = &self.lines[y];
            proof {
                lemma_widest_bounds(self.lines@, y as int);
            }
            let mut row: Vec<Color> = Vec::new();
            let mut x: usize = 0;
            while x < line.len()
                invariant
                    self.wf(),
                    palettes.wf(),
                    t > i32::MIN,
                    height == self.lines@.len(),
                    y < height,
                    *line == self.lines@[y as int],
                    x <= line@.len(),
                    line@.len() <= widest(self.lines@),
                    row@.len() == x,
                    forall|j: int|
                        0 <= j < x ==> painted_as(
                            #[trigger] row@[j],
                            j,
                            y as int,
                            t as int,
                            self,
                            palettes,
                        ) && from_palettes(row@[j], palettes),
                decreases line@.len() - x,
            {
                let c = get_color(x, y, t, palettes, height, self.width);
                row.push(c);
                x = x + 1;
            }
            rows.push(row);
            y = y + 1;
        }
        rows
    }
}

} // verus!
