//! Maps as text: one row of tiles per line, the material ids of a row
//! separated by commas, each id a decimal number from 0 to 255.

use vstd::prelude::*;
use crate::raycaster::Raycaster;

verus! {

/// The byte that separates the cells of a row.
pub const COMMA: u8 = 0x2c;

/// The byte that ends a row.
pub const NEWLINE: u8 = 0x0a;

/// Why a text is not a map.
#[derive(Clone, Copy, Debug, PartialEq, Eq, Structural)]
pub enum MapError {
    /// The text has no line.
    Empty,
    /// A cell of this line (counted from zero) is not a number from 0 to 255.
    InvalidCell { line: usize },
    /// This line (counted from zero) has another number of cells than the first.
    RowLength { line: usize },
    /// The map has more columns and rows together than a `usize` can count.
    TooLarge,
}

/// The pieces of `s` between occurrences of `sep`, in order. There is always
/// one piece more than there are separators, so a piece may be empty.
pub open spec fn split(s: Seq<u8>, sep: u8) -> Seq<Seq<u8>>
    decreases s.len(),
{
    if s.len() == 0 {
        seq![Seq::<u8>::empty()]
    } else {
        let before = split(s.drop_last(), sep);
        if s.last() == sep {
            before.push(Seq::<u8>::empty())
        } else {
            before.drop_last().push(before.last().push(s.last()))
        }
    }
}

/// A split has at least one piece.
pub proof fn lemma_split_len(s: Seq<u8>, sep: u8)
    ensures
        1 <= split(s, sep).len() <= s.len() + 1,
    decreases s.len(),
{
    if s.len() > 0 {
        lemma_split_len(s.drop_last(), sep);
    }
}

/// The pieces put together again, with `sep` between neighbours.
pub open spec fn join(pieces: Seq<Seq<u8>>, sep: u8) -> Seq<u8>
    decreases pieces.len(),
{
    if pieces.len() == 0 {
        Seq::<u8>::empty()
    } else if pieces.len() == 1 {
        pieces[0]
    } else {
        join(pieces.drop_last(), sep).push(sep) + pieces.last()
    }
}

/// Splitting loses nothing and leaves no separator behind: the pieces,
/// joined by the separator, are the sequence that was split, and no piece
/// holds the separator.
pub proof fn lemma_split_join(s: Seq<u8>, sep: u8)
    ensures
        join(split(s, sep), sep) == s,
        forall|i: int, j: int|
            0 <= i < split(s, sep).len() && 0 <= j < split(s, sep)[i].len() ==> #[trigger] split(s, sep)[i][j]
                != sep,
    decreases s.len(),
{
    if s.len() > 0 {
        let shorter = s.drop_last();
        let before = split(shorter, sep);
        let pieces = split(s, sep);
        lemma_split_join(shorter, sep);
        lemma_split_len(shorter, sep);
        if s.last() == sep {
            assert(pieces.drop_last() =~= before);
        } else if before.len() > 1 {
            assert(pieces.drop_last() =~= before.drop_last());
            assert(join(pieces, sep) =~= join(before, sep).push(s.last()));
        }
    }
}

/// The byte sequences held by a vector of byte vectors.
pub open spec fn contents(v: Seq<Vec<u8>>) -> Seq<Seq<u8>> {
    Seq::new(v.len(), |i: int| v[i]@)
}

/// Splits `s` at every occurrence of `sep`.
pub fn split_bytes(s: &[u8], sep: u8) -> (pieces: Vec<Vec<u8>>)
    ensures
        contents(pieces@) == split(s@, sep),
{
    let mut done: Vec<Vec<u8>> = Vec::new();
    let mut current: Vec<u8> = Vec::new();
    let mut i: usize = 0;
    while i < s.len()
        invariant
            i <= s.len(),
            contents(done@).push(current@) == split(s@.take(i as int), sep),
        decreases s.len() - i,
    {
        let b: u8 = s[i];
        assert(s@.take(i + 1).drop_last() =~= s@.take(i as int));
        if b == sep {
            done.push(current);
            current = Vec::new();
        } else {
            current.push(b);
        }
        i += 1;
    }
    assert(s@.take(s.len() as int) =~= s@);
    done.push(current);
    done
}

/// `b` is an ASCII decimal digit.
pub open spec fn is_digit(b: u8) -> bool {
    0x30 <= b <= 0x39
}

/// Every byte of `t` is a decimal digit.
pub open spec fn all_digits(t: Seq<u8>) -> bool {
    forall|i: int| 0 <= i < t.len() ==> is_digit(#[trigger] t[i])
}

/// The number that the digits of `t` write in base ten.
pub open spec fn decimal(t: Seq<u8>) -> int
    decreases t.len(),
{
    if t.len() == 0 {
        0
    } else {
        decimal(t.drop_last()) * 10 + (t.last() - 0x30)
    }
}

/// The material id that a cell's text stands for: the text is one or more
/// decimal digits and writes a number up to 255.
pub open spec fn cell_value(t: Seq<u8>) -> Option<u8> {
    if t.len() > 0 && all_digits(t) && decimal(t) <= 255 {
        Some(decimal(t) as u8)
    } else {
        None
    }
}

/// A number is at least as large as the number written by any of its
/// leading digits.
proof fn lemma_decimal_prefix(t: Seq<u8>, k: int)
    requires
        all_digits(t),
        0 <= k <= t.len(),
    ensures
        0 <= decimal(t.take(k)) <= decimal(t),
    decreases t.len(),
{
    if t.len() == 0 {
    } else if k == t.len() {
        assert(t.take(k) =~= t);
        lemma_decimal_prefix(t.drop_last(), k - 1);
    } else {
        lemma_decimal_prefix(t.drop_last(), k);
        assert(t.drop_last().take(k) =~= t.take(k));
    }
}

/// Reads one cell; `None` unless it is a number from 0 to 255.
pub fn parse_cell(t: &[u8]) -> (id: Option<u8>)
    ensures
        id == cell_value(t@),
{
    if t.len() == 0 {
        return None;
    }
    let mut acc: u32 = 0;
    let mut i: usize = 0;
    while i < t.len()
        invariant
            i <= t.len(),
            all_digits(t@.take(i as int)),
            acc == decimal(t@.take(i as int)),
            acc <= 255,
        decreases t.len() - i,
    {
        let b: u8 = t[i];
        if b < 0x30 || b > 0x39 {
            return None;
        }
        assert(t@.take(i + 1).drop_last() =~= t@.take(i as int));
        acc = acc * 10 + (b - 0x30) as u32;
        if acc > 255 {
            proof {
                if all_digits(t@) {
                    lemma_decimal_prefix(t@, i + 1);
                }
            }
            return None;
        }
        i += 1;
    }
    assert(t@.take(t.len() as int) =~= t@);
    Some(acc as u8)
}

/// The material ids written on a line, if every cell of it is one.
pub open spec fn row_cells(line: Seq<u8>) -> Option<Seq<u8>> {
    let cells = split(line, COMMA);
    if forall|i: int| 0 <= i < cells.len() ==> (#[trigger] cell_value(cells[i])) is Some {
        Some(Seq::new(cells.len(), |i: int| cell_value(cells[i]).unwrap()))
    } else {
        None
    }
}

/// The lines of a text. A newline ends a line, so a text that ends in one
/// has no empty line after it.
pub open spec fn lines_of(text: Seq<u8>) -> Seq<Seq<u8>> {
    let pieces = split(text, NEWLINE);
    if pieces.last().len() == 0 {
        pieces.drop_last()
    } else {
        pieces
    }
}

/// Line `j` is a row of material ids, as long as the first line.
pub open spec fn good_line(lines: Seq<Seq<u8>>, j: int) -> bool {
    match (row_cells(lines[j]), row_cells(lines[0])) {
        (Some(row), Some(first)) => row.len() == first.len(),
        _ => false,
    }
}

/// Every line before line `n` is a good one.
pub open spec fn good_before(lines: Seq<Seq<u8>>, n: int) -> bool {
    forall|j: int| 0 <= j < n ==> #[trigger] good_line(lines, j)
}

/// `map` holds what `lines` say: tile `(x, y)` is cell `x` of line `y`.
pub open spec fn is_map_of(map: Seq<Seq<u8>>, lines: Seq<Seq<u8>>) -> bool {
    &&& lines.len() >= 1
    &&& good_before(lines, lines.len() as int)
    &&& map.len() == row_cells(lines[0]).unwrap().len()
    &&& map.len() + lines.len() <= usize::MAX
    &&& forall|x: int| 0 <= x < map.len() ==> (#[trigger] map[x]).len() == lines.len()
    &&& forall|x: int, y: int|
        0 <= x < map.len() && 0 <= y < lines.len() ==> #[trigger] map[x][y] == row_cells(lines[y]).unwrap()[x]
}

/// `lines` are no map, for the reason that `e` gives. The line that an
/// error names is the first one that is not good.
pub open spec fn rejected(lines: Seq<Seq<u8>>, e: MapError) -> bool {
    match e {
        MapError::Empty => lines.len() == 0,
        MapError::InvalidCell { line } => {
            &&& line < lines.len()
            &&& good_before(lines, line as int)
            &&& row_cells(lines[line as int]) is None
        },
        MapError::RowLength { line } => {
            &&& line < lines.len()
            &&& good_before(lines, line as int)
            &&& row_cells(lines[line as int]) is Some
            &&& !good_line(lines, line as int)
        },
        MapError::TooLarge => {
            &&& lines.len() >= 1
            &&& good_before(lines, lines.len() as int)
            &&& row_cells(lines[0]).unwrap().len() + lines.len() > usize::MAX
        },
    }
}

/// Reads the cells of one line; `None` if one of them is not a material id.
pub fn parse_row(line: &[u8]) -> (row: Option<Vec<u8>>)
    ensures
        match row {
            Some(ids) => row_cells(line@) == Some(ids@),
            None => row_cells(line@) is None,
        },
{
    let cells = split_bytes(line, COMMA);
    let ghost texts = split(line@, COMMA);
    let mut ids: Vec<u8> = Vec::new();
    let mut i: usize = 0;
    while i < cells.len()
        invariant
            i <= cells.len(),
            contents(cells@) == texts,
            texts == split(line@, COMMA),
            ids@.len() == i,
            forall|k: int| 0 <= k < i ==> #[trigger] cell_value(texts[k]) == Some(ids@[k]),
        decreases cells.len() - i,
    {
        match parse_cell(cells[i].as_slice()) {
            Some(id) => {
                ids.push(id);
            },
            None => {
                assert(cell_value(texts[i as int]) is None);
                return None;
            },
        }
        i += 1;
    }
    Some(ids)
}

/// Splits a text into its lines.
pub fn split_lines(text: &[u8]) -> (lines: Vec<Vec<u8>>)
    ensures
        contents(lines@) == lines_of(text@),
{
    let mut pieces = split_bytes(text, NEWLINE);
    proof {
        lemma_split_len(text@, NEWLINE);
    }
    let n: usize = pieces.len();
    if pieces[n - 1].len() == 0 {
        pieces.pop();
    }
    pieces
}

/// Reads a map: tile `(x, y)` is cell `x` of line `y`. Fails on the first
/// line that holds something other than material ids or that is not as long
/// as the first line, and on a text without lines.
pub fn parse_map(text: &[u8]) -> (r: Result<Vec<Vec<u8>>, MapError>)
    ensures
        match r {
            Ok(map) => is_map_of(contents(map@), lines_of(text@)),
            Err(e) => rejected(lines_of(text@), e),
        },
{
    let lines = split_lines(text);
    let ghost texts = lines_of(text@);
    let n: usize = lines.len();
    if n == 0 {
        return Err(MapError::Empty);
    }
    let mut rows: Vec<Vec<u8>> = Vec::new();
    let mut j: usize = 0;
    while j < n
        invariant
            j <= n,
            n == lines@.len(),
            n == texts.len(),
            texts == lines_of(text@),
            contents(lines@) == texts,
            rows@.len() == j,
            good_before(texts, j as int),
            forall|k: int| 0 <= k < j ==> row_cells(texts[k]) == Some(#[trigger] rows@[k]@),
        decreases n - j,
    {
        match parse_row(lines[j].as_slice()) {
            None => {
                return Err(MapError::InvalidCell { line: j });
            },
            Some(ids) => {
                if j > 0 && ids.len() != rows[0].len() {
                    return Err(MapError::RowLength { line: j });
                }
                rows.push(ids);
            },
        }
        j += 1;
    }
    let width: usize = rows[0].len();
    if width > usize::MAX - n {
        return Err(MapError::TooLarge);
    }
    assert forall|k: int| 0 <= k < n implies (#[trigger] rows@[k])@.len() == width by {
        assert(good_line(texts, k));
    }
    let map = transpose(&rows, width);
    Ok(map)
}

/// Turns rows into columns: entry `y` of column `x` is entry `x` of row `y`.
pub fn transpose(rows: &Vec<Vec<u8>>, width: usize) -> (columns: Vec<Vec<u8>>)
    requires
        forall|y: int| 0 <= y < rows@.len() ==> (#[trigger] rows@[y])@.len() == width,
    ensures
        columns@.len() == width,
        forall|x: int| 0 <= x < width ==> (#[trigger] columns@[x])@.len() == rows@.len(),
        forall|x: int, y: int|
            0 <= x < width && 0 <= y < rows@.len() ==> #[trigger] columns@[x]@[y] == rows@[y]@[x],
{
    let mut columns: Vec<Vec<u8>> = Vec::new();
    let mut x: usize = 0;
    while x < width
        invariant
            x <= width,
            columns@.len() == x,
            forall|y: int| 0 <= y < rows@.len() ==> (#[trigger] rows@[y])@.len() == width,
            forall|c: int| 0 <= c < x ==> (#[trigger] columns@[c])@.len() == rows@.len(),
            forall|c: int, y: int| 0 <= c < x && 0 <= y < rows@.len() ==> #[trigger] columns@[c]@[y] == rows@[y]@[c],
        decreases width - x,
    {
        let mut column: Vec<u8> = Vec::new();
        let mut y: usize = 0;
        while y < rows.len()
            invariant
                x < width,
                y <= rows@.len(),
                column@.len() == y,
                forall|k: int| 0 <= k < rows@.len() ==> (#[trigger] rows@[k])@.len() == width,
                forall|k: int| 0 <= k < y ==> #[trigger] column@[k] == rows@[k]@[x as int],
            decreases rows@.len() - y,
        {
            column.push(rows[y][x]);
            y += 1;
        }
        columns.push(column);
        x += 1;
    }
    columns
}

impl Raycaster {
    /// Replaces the grid by the map that `text` holds. On an error the grid
    /// stays as it was.
    pub fn load_map(&mut self, text: &[u8]) -> (r: Result<(), MapError>)
        ensures
            final(self).screen == old(self).screen,
            match r {
                Ok(_) => final(self).wf() && is_map_of(contents(final(self).map@), lines_of(text@)),
                Err(e) => rejected(lines_of(text@), e) && final(self).map == old(self).map,
            },
    {
        match parse_map(text) {
            Ok(map) => {
                proof {
                    let lines = lines_of(text@);
                    lemma_split_len(lines[0], COMMA);
                    assert(good_line(lines, 0));
                    assert forall|x: int| 0 <= x < map@.len() implies (#[trigger] map@[x])@.len()
                        == lines.len() by {
                        assert(contents(map@)[x] == map@[x]@);
                    }
                }
                self.map = map;
                Ok(())
            },
            Err(e) => Err(e),
        }
    }
}

} // verus!
