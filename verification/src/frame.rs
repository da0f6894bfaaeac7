//! Painting into an RGBA frame: rows of pixels from the top, four bytes per
//! pixel. A wall is drawn as a vertical strip, centred on the middle row,
//! whose extent follows from the height of the wall's projection.

use vstd::prelude::*;
use crate::material::MaterialTable;
use crate::raycaster::Screen;
use crate::walk::RayHit;

verus! {

/// The rows of a column that a wall covers, both ends included.
#[derive(Clone, Copy, Debug, PartialEq, Eq, Structural)]
pub struct Strip {
    /// First row painted.
    pub start: usize,
    /// Last row painted.
    pub end: usize,
}

/// What one column of the screen shows: the wall its ray hit and the height
/// of that wall's projection, in rows.
#[derive(Clone, Copy, Debug, PartialEq, Eq, Structural)]
pub struct Column {
    /// Height of the wall's projection.
    pub line_height: i32,
    /// The wall that the column's ray hit.
    pub hit: RayHit,
}

/// First row of the strip for a projection `line_height` rows tall on a
/// screen of `height` rows.
pub open spec fn strip_start(line_height: int, height: int) -> int {
    if height / 2 - line_height / 2 < 0 {
        0
    } else {
        height / 2 - line_height / 2
    }
}

/// Last row of the strip for a projection `line_height` rows tall on a screen
/// of `height` rows.
pub open spec fn strip_end(line_height: int, height: int) -> int {
    if height / 2 + line_height / 2 > height - 1 {
        height - 1
    } else {
        height / 2 + line_height / 2
    }
}

/// Index of the first byte of pixel `(x, y)` in a frame `width` pixels wide.
pub open spec fn pixel_offset(x: int, y: int, width: int) -> int {
    (y * width + x) * 4
}

/// Byte `i` of a frame belongs to a pixel of column `x` in one of the rows
/// `y_start` to `y_end`.
pub open spec fn in_strip(i: int, x: int, y_start: int, y_end: int, width: int) -> bool {
    exists|y: int|
        y_start <= y <= y_end && #[trigger] pixel_offset(x, y, width) <= i < pixel_offset(x, y, width) + 4
}

/// The frame `before` with the pixels of column `x`, rows `y_start` to
/// `y_end`, set to `color`.
pub open spec fn painted(
    before: Seq<u8>,
    x: int,
    y_start: int,
    y_end: int,
    color: [u8; 4],
    width: int,
) -> Seq<u8> {
    Seq::new(
        before.len(),
        |i: int|
            if in_strip(i, x, y_start, y_end, width) {
                color[i % 4]
            } else {
                before[i]
            },
    )
}

/// Two pixels of a frame `width` wide that start at the same byte are the
/// same pixel.
proof fn lemma_pixel_of_offset(x: int, y: int, col: int, row: int, width: int)
    requires
        0 <= x < width,
        0 <= col < width,
        y * width + x == row * width + col,
    ensures
        x == col,
        y == row,
{
    assert(y == row) by (nonlinear_arith)
        requires
            0 <= x < width,
            0 <= col < width,
            y * width + x == row * width + col,
    ;
}

/// What painting does, pixel by pixel: channel `k` of the pixel in column
/// `col` and row `row` gets the colour's channel `k` if the pixel lies in
/// column `x` between the rows `y_start` and `y_end`, and stays as it was
/// otherwise.
pub proof fn lemma_painted_pixel(
    before: Seq<u8>,
    x: int,
    y_start: int,
    y_end: int,
    color: [u8; 4],
    width: int,
    col: int,
    row: int,
    k: int,
)
    requires
        0 <= x < width,
        0 <= col < width,
        0 <= row,
        0 <= k < 4,
        pixel_offset(col, row, width) + k < before.len(),
    ensures
        painted(before, x, y_start, y_end, color, width)[pixel_offset(col, row, width) + k] == (if col == x
            && y_start <= row <= y_end {
            color[k]
        } else {
            before[pixel_offset(col, row, width) + k]
        }),
{
    let i = pixel_offset(col, row, width) + k;
    assert(0 <= row * width) by (nonlinear_arith)
        requires
            0 <= row,
            0 <= width,
    ;
    if col == x && y_start <= row <= y_end {
    } else {
        assert forall|y: int| y_start <= y <= y_end implies !(#[trigger] pixel_offset(x, y, width) <= i
            < pixel_offset(x, y, width) + 4) by {
            if pixel_offset(x, y, width) <= i < pixel_offset(x, y, width) + 4 {
                lemma_pixel_of_offset(x, y, col, row, width);
            }
        }
    }
}

/// The taller a projection, the more rows its strip covers: the strip of the
/// taller one starts no later and ends no earlier.
pub proof fn lemma_taller_line_covers_shorter(shorter: int, taller: int, height: int)
    requires
        0 <= shorter <= taller,
        height >= 1,
    ensures
        strip_start(taller, height) <= strip_start(shorter, height),
        strip_end(shorter, height) <= strip_end(taller, height),
{
}

/// The rows that a projection `line_height` rows tall covers on a screen of
/// `screen_height` rows: centred on the middle row and cut off at the edges.
pub fn wall_strip(line_height: i32, screen_height: u32) -> (s: Strip)
    requires
        line_height >= 0,
        screen_height >= 1,
    ensures
        s.start == strip_start(line_height as int, screen_height as int),
        s.end == strip_end(line_height as int, screen_height as int),
        s.start <= s.end < screen_height,
{
    let mid: i64 = (screen_height / 2) as i64;
    let half: i64 = (line_height / 2) as i64;
    let last: i64 = screen_height as i64 - 1;
    let start: i64 = if mid - half < 0 {
        0
    } else {
        mid - half
    };
    let end: i64 = if mid + half > last {
        last
    } else {
        mid + half
    };
    Strip { start: start as usize, end: end as usize }
}

/// Sets every byte of the frame to zero.
pub fn clear(frame: &mut [u8])
    ensures
        final(frame)@ == Seq::new(old(frame)@.len(), |i: int| 0u8),
{
    let n: usize = frame.len();
    let mut i: usize = 0;
    while i < n
        invariant
            i <= n,
            frame@.len() == n,
            n == old(frame)@.len(),
            forall|j: int| 0 <= j < i ==> frame@[j] == 0u8,
        decreases n - i,
    {
        frame[i] = 0;
        i += 1;
    }
}

/// Paints column `x` of the frame from row `y_start` to row `y_end`, both
/// included, in `color`. The frame is `width` pixels wide; nothing is
/// painted when `y_start` is beyond `y_end`.
pub fn draw_vertical_line(
    x: usize,
    y_start: usize,
    y_end: usize,
    color: [u8; 4],
    frame: &mut [u8],
    width: usize,
)
    requires
        y_start <= y_end ==> pixel_offset(x as int, y_end as int, width as int) + 4 <= old(frame)@.len(),
    ensures
        final(frame)@ == painted(old(frame)@, x as int, y_start as int, y_end as int, color, width as int),
{
    if y_start > y_end {
        return;
    }
    let ghost before = frame@;
    let len: usize = frame.len();
    let mut y: usize = y_start;
    let mut done: bool = false;
    while !done
        invariant
            y_start <= y <= y_end,
            before == old(frame)@,
            before.len() == len,
            pixel_offset(x as int, y_end as int, width as int) + 4 <= before.len(),
            !done ==> frame@ == painted(before, x as int, y_start as int, y - 1, color, width as int),
            done ==> frame@ == painted(before, x as int, y_start as int, y_end as int, color, width as int),
        decreases y_end - y + (if done { 0int } else { 1int }),
    {
        proof {
            lemma_offset_grows(x as int, y as int, y_end as int, width as int);
        }
        let idx: usize = (y * width + x) * 4;
        frame[idx] = color[0];
        frame[idx + 1] = color[1];
        frame[idx + 2] = color[2];
        frame[idx + 3] = color[3];
        proof {
            let now = painted(before, x as int, y_start as int, y as int, color, width as int);
            assert forall|i: int| 0 <= i < before.len() implies frame@[i] == now[i] by {
                if !(idx <= i < idx + 4) {
                    assert(in_strip(i, x as int, y_start as int, y as int, width as int) == in_strip(
                        i,
                        x as int,
                        y_start as int,
                        y - 1,
                        width as int,
                    ));
                }
            }
        }
        if y == y_end {
            done = true;
        } else {
            y += 1;
        }
    }
}

/// Pixel offsets grow with the row.
proof fn lemma_offset_grows(x: int, y: int, y_end: int, width: int)
    requires
        0 <= x,
        0 <= y <= y_end,
        0 <= width,
    ensures
        0 <= y * width <= y_end * width,
        0 <= pixel_offset(x, y, width) <= pixel_offset(x, y_end, width),
{
    assert(0 <= y * width <= y_end * width) by (nonlinear_arith)
        requires
            0 <= y <= y_end,
            0 <= width,
    ;
}

impl Screen {
    /// Number of bytes in a frame for this screen.
    pub open spec fn frame_len(&self) -> int {
        self.width * self.height * 4
    }

    /// The number of bytes in a frame for this screen, unless it is more
    /// than a `usize` can hold.
    pub fn frame_bytes(&self) -> (n: Option<usize>)
        ensures
            match n {
                Some(len) => len == self.frame_len(),
                None => self.frame_len() > usize::MAX,
            },
    {
        assert(self.width * self.height <= 0xffff_ffff * 0xffff_ffff) by (nonlinear_arith)
            requires
                0 <= self.width <= 0xffff_ffff,
                0 <= self.height <= 0xffff_ffff,
        ;
        let pixels: u64 = self.width as u64 * self.height as u64;
        if pixels > (usize::MAX / 4) as u64 {
            None
        } else {
            Some(pixels as usize * 4)
        }
    }

    /// Paints the wall strip of column `x` for a projection `line_height`
    /// rows tall, in `color`, and leaves the rest of the frame as it is.
    pub fn paint_column(&self, frame: &mut [u8], x: u32, line_height: i32, color: [u8; 4])
        requires
            old(frame)@.len() == self.frame_len(),
            x < self.width,
            line_height >= 0,
        ensures
            final(frame)@ == painted(
                old(frame)@,
                x as int,
                strip_start(line_height as int, self.height as int),
                strip_end(line_height as int, self.height as int),
                color,
                self.width as int,
            ),
    {
        if self.height == 0 {
            assert(frame@ =~= painted(
                frame@,
                x as int,
                strip_start(line_height as int, self.height as int),
                strip_end(line_height as int, self.height as int),
                color,
                self.width as int,
            ));
            return;
        }
        let strip = wall_strip(line_height, self.height);
        proof {
            let w = self.width as int;
            let e = strip.end as int;
            let h = self.height as int;
            assert((e * w + x) * 4 + 4 <= w * h * 4) by (nonlinear_arith)
                requires
                    0 <= e < h,
                    0 <= x < w,
            ;
        }
        draw_vertical_line(x as usize, strip.start, strip.end, color, frame, self.width as usize);
    }

    /// Paints the wall that `hit` found into column `x`: the strip of a
    /// projection `line_height` rows tall, in the colour that `table` gives
    /// the wall's material for the side that was hit.
    pub fn paint_hit(
        &self,
        frame: &mut [u8],
        x: u32,
        line_height: i32,
        hit: &RayHit,
        table: &MaterialTable,
    )
        requires
            old(frame)@.len() == self.frame_len(),
            x < self.width,
            line_height >= 0,
        ensures
            final(frame)@ == painted(
                old(frame)@,
                x as int,
                strip_start(line_height as int, self.height as int),
                strip_end(line_height as int, self.height as int),
                table.shades_of(hit.material).facing(hit.side),
                self.width as int,
            ),
    {
        let color = table.color(hit.material, hit.side);
        self.paint_column(frame, x, line_height, color);
    }

    /// The colour that `table` gives the wall of `column`.
    pub open spec fn column_color(column: Column, table: MaterialTable) -> [u8; 4] {
        table.shades_of(column.hit.material).facing(column.hit.side)
    }

    /// The frame that shows `columns`, the first of them in column 0: black,
    /// with the wall strip of each column painted in its colour.
    pub open spec fn drawn(&self, columns: Seq<Column>, table: MaterialTable) -> Seq<u8>
        decreases columns.len(),
    {
        if columns.len() == 0 {
            Seq::new(self.frame_len() as nat, |i: int| 0u8)
        } else {
            painted(
                self.drawn(columns.drop_last(), table),
                columns.len() - 1,
                strip_start(columns.last().line_height as int, self.height as int),
                strip_end(columns.last().line_height as int, self.height as int),
                Self::column_color(columns.last(), table),
                self.width as int,
            )
        }
    }

    /// A drawn frame has four bytes for each pixel of the screen.
    pub proof fn lemma_drawn_len(&self, columns: Seq<Column>, table: MaterialTable)
        ensures
            self.drawn(columns, table).len() == self.frame_len(),
        decreases columns.len(),
    {
        if columns.len() > 0 {
            self.lemma_drawn_len(columns.drop_last(), table);
        }
    }

    /// Each column of a drawn frame shows its own wall and nothing of the
    /// others: channel `k` of the pixel in column `col` and row `row` has the
    /// colour of that column's wall inside the column's strip, and is zero
    /// outside it and in columns that were not drawn.
    pub proof fn lemma_drawn_pixel(
        &self,
        columns: Seq<Column>,
        table: MaterialTable,
        col: int,
        row: int,
        k: int,
    )
        requires
            columns.len() <= self.width,
            0 <= col < self.width,
            0 <= row < self.height,
            0 <= k < 4,
        ensures
            pixel_offset(col, row, self.width as int) + k < self.frame_len(),
            self.drawn(columns, table)[pixel_offset(col, row, self.width as int) + k] == (if col
                < columns.len() && strip_start(columns[col].line_height as int, self.height as int) <= row
                <= strip_end(columns[col].line_height as int, self.height as int) {
                Self::column_color(columns[col], table)[k]
            } else {
                0u8
            }),
        decreases columns.len(),
    {
        let w = self.width as int;
        let h = self.height as int;
        assert((row * w + col) * 4 + 4 <= w * h * 4 && 0 <= row * w) by (nonlinear_arith)
            requires
                0 <= row < h,
                0 <= col < w,
        ;
        if columns.len() > 0 {
            self.lemma_drawn_pixel(columns.drop_last(), table, col, row, k);
            self.lemma_drawn_len(columns.drop_last(), table);
            lemma_painted_pixel(
                self.drawn(columns.drop_last(), table),
                columns.len() - 1,
                strip_start(columns.last().line_height as int, h),
                strip_end(columns.last().line_height as int, h),
                Self::column_color(columns.last(), table),
                w,
                col,
                row,
                k,
            );
        }
    }

    /// Draws a whole frame: clears it and paints the wall strip of every
    /// column, `columns[x]` into column `x`.
    pub fn paint_frame(&self, frame: &mut [u8], columns: &[Column], table: &MaterialTable)
        requires
            old(frame)@.len() == self.frame_len(),
            columns@.len() == self.width,
            forall|x: int| 0 <= x < columns@.len() ==> (#[trigger] columns@[x]).line_height >= 0,
        ensures
            final(frame)@ == self.drawn(columns@, *table),
    {
        clear(frame);
        let mut x: u32 = 0;
        while x < self.width
            invariant
                x <= self.width,
                columns@.len() == self.width,
                forall|c: int| 0 <= c < columns@.len() ==> (#[trigger] columns@[c]).line_height >= 0,
                frame@.len() == self.frame_len(),
                frame@ == self.drawn(columns@.take(x as int), *table),
            decreases self.width - x,
        {
            let column = &columns[x as usize];
            self.paint_hit(frame, x, column.line_height, &column.hit, table);
            assert(columns@.take(x + 1).drop_last() =~= columns@.take(x as int));
            x += 1;
        }
        assert(columns@.take(self.width as int) =~= columns@);
    }
}

} // verus!
