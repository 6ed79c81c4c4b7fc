//! The text of the fetch screen: each row shows a row of the heart picture,
//! coloured with 24-bit escape codes, a gap, and one entry of the
//! information column.

use vstd::prelude::*;
use crate::decimal::{decimal, push_decimal};
use crate::text::push_all;

verus! {

/// A pixel of the heart picture: its character and its red, green and blue.
pub type Cell = (char, u8, u8, u8);

pub open spec fn esc() -> char {
    '\u{1b}'
}

/// `ESC[38;2;{r};{g};{b}m`, the escape that selects a 24-bit foreground.
pub open spec fn fg(r: nat, g: nat, b: nat) -> Seq<char> {
    seq![esc(), '[', '3', '8', ';', '2', ';'] + decimal(r) + seq![';'] + decimal(g) + seq![';']
        + decimal(b) + seq!['m']
}

/// `ESC[0m`, the escape that resets all attributes.
pub open spec fn reset() -> Seq<char> {
    seq![esc(), '[', '0', 'm']
}

/// The text of one pixel: a blank stays a plain space, any other
/// character is printed in its colour.
pub open spec fn cell_text(cell: Cell) -> Seq<char> {
    if cell.0 != ' ' {
        fg(cell.1 as nat, cell.2 as nat, cell.3 as nat) + seq![cell.0]
    } else {
        seq![' ']
    }
}

/// The text of a row of pixels, left to right.
pub open spec fn cells_text(cells: Seq<Cell>) -> Seq<char>
    decreases cells.len(),
{
    if cells.len() == 0 {
        seq![]
    } else {
        cells_text(cells.drop_last()) + cell_text(cells.last())
    }
}

/// The text of an information entry: the label (if any) in light blue,
/// then `: ` and the value; a header line (empty label) shows its value in
/// light blue.
pub open spec fn entry_text(label: Seq<char>, value: Seq<char>) -> Seq<char> {
    if label.len() == 0 {
        fg(100, 150, 255) + value + reset()
    } else {
        fg(100, 150, 255) + label + reset() + seq![':', ' '] + value
    }
}

/// A whole screen row: pixels, reset and a two-space gap, the entry if there
/// is one, then `ESC[K` (clear to end of line) and a newline.
pub open spec fn row_text(cells: Seq<Cell>, entry: Option<(Seq<char>, Seq<char>)>) -> Seq<char> {
    cells_text(cells) + reset() + seq![' ', ' '] + (match entry {
        Some(e) => entry_text(e.0, e.1),
        None => seq![],
    }) + seq![esc(), '[', 'K', '\n']
}

fn push_fg(out: &mut Vec<char>, r: u8, g: u8, b: u8)
    ensures
        final(out)@ == old(out)@ + fg(r as nat, g as nat, b as nat),
{
    let ghost start = out@;
    out.push('\u{1b}');
    out.push('[');
    out.push('3');
    out.push('8');
    out.push(';');
    out.push('2');
    out.push(';');
    push_decimal(out, r as u64);
    out.push(';');
    push_decimal(out, g as u64);
    out.push(';');
    push_decimal(out, b as u64);
    out.push('m');
    assert(out@ =~= start + fg(r as nat, g as nat, b as nat));
}

fn push_reset(out: &mut Vec<char>)
    ensures
        final(out)@ == old(out)@ + reset(),
{
    let ghost start = out@;
    out.push('\u{1b}');
    out.push('[');
    out.push('0');
    out.push('m');
    assert(out@ =~= start + reset());
}

/// Appends the text of `row_text(cells, entry)` to `out`.
pub fn push_row(out: &mut Vec<char>, cells: &Vec<Cell>, entry: Option<&(Vec<char>, Vec<char>)>)
    ensures
        final(out)@ == old(out)@ + row_text(
            cells@,
            match entry {
                Some(e) => Some((e.0@, e.1@)),
                None => None,
            },
        ),
{
    let ghost start = out@;
    let mut i: usize = 0;
    while i < cells.len()
        invariant
            i <= cells.len(),
            out@ == start + cells_text(cells@.take(i as int)),
        decreases cells.len() - i,
    {
        let (c, r, g, b) = cells[i];
        let ghost before = out@;
        if c != ' ' {
            push_fg(out, r, g, b);
            out.push(c);
        } else {
            out.push(' ');
        }
        proof {
            assert(cells@.take(i + 1).drop_last() =~= cells@.take(i as int));
            assert(cells@.take(i + 1).last() == cells@[i as int]);
            assert(out@ =~= before + cell_text(cells@[i as int]));
            assert(out@ =~= start + cells_text(cells@.take(i + 1)));
        }
        i = i + 1;
    }
    assert(cells@.take(cells.len() as int) =~= cells@);
    let ghost after_cells = out@;
    push_reset(out);
    out.push(' ');
    out.push(' ');
    let ghost before_entry = out@;
    match entry {
        Some(e) => {
            let (label, value) = e;
            push_fg(out, 100, 150, 255);
            if label.len() == 0 {
                push_all(out, value);
                push_reset(out);
            } else {
                push_all(out, label);
                push_reset(out);
                out.push(':');
                out.push(' ');
                push_all(out, value);
            }
            assert(out@ =~= before_entry + entry_text(label@, value@));
        },
        None => {},
    }
    let ghost before_end = out@;
    out.push('\u{1b}');
    out.push('[');
    out.push('K');
    out.push('\n');
    assert(out@ =~= start + row_text(
        cells@,
        match entry {
            Some(e) => Some((e.0@, e.1@)),
            None => None,
        },
    ));
}

/// The entry shown next to row `y`, if the column is that long.
pub open spec fn entry_at(info: Seq<(Vec<char>, Vec<char>)>, y: int) -> Option<(Seq<char>, Seq<char>)> {
    if 0 <= y < info.len() {
        Some((info[y].0@, info[y].1@))
    } else {
        None
    }
}

/// The rows of the screen from row 0 up to (not including) row `n`.
pub open spec fn frame_text(
    heart: Seq<Vec<Cell>>,
    info: Seq<(Vec<char>, Vec<char>)>,
    n: int,
) -> Seq<char>
    decreases n,
{
    if n <= 0 {
        seq![]
    } else {
        frame_text(heart, info, n - 1) + row_text(heart[n - 1]@, entry_at(info, n - 1))
    }
}

/// The text of one frame of the fetch screen: every row of the heart
/// picture next to the entry of the same row.
pub fn compose_frame(heart: &Vec<Vec<Cell>>, info: &Vec<(Vec<char>, Vec<char>)>) -> (s: Vec<char>)
    ensures
        s@ == frame_text(heart@, info@, heart@.len() as int),
{
    let mut out: Vec<char> = Vec::new();
    let mut y: usize = 0;
    while y < heart.len()
        invariant
            y <= heart.len(),
            out@ == frame_text(heart@, info@, y as int),
        decreases heart.len() - y,
    {
        let entry = if y < info.len() {
            Some(&info[y])
        } else {
            None
        };
        push_row(&mut out, &heart[y], entry);
        y = y + 1;
    }
    out
}

/// The size of the heart picture for a column of `rows` entries: as many
/// rows as entries, twice as many columns (terminal cells are tall).
pub fn heart_size_for(rows: usize) -> (r: (usize, usize))
    requires
        rows * 2 <= usize::MAX,
    ensures
        r.0 == rows * 2,
        r.1 == rows,
{
    (rows * 2, rows)
}


/// A pixel that is not blank is printed as `ESC[38;2;{r};{g};{b}m` and its
/// character; a blank pixel as one space.
pub proof fn lemma_cell_text(cell: Cell)
    ensures
        cell.0 != ' ' ==> cell_text(cell) == seq!['\u{1b}', '[', '3', '8', ';', '2', ';']
            + decimal(cell.1 as nat) + seq![';'] + decimal(cell.2 as nat) + seq![';'] + decimal(
            cell.3 as nat,
        ) + seq!['m', cell.0],
        cell.0 == ' ' ==> cell_text(cell) == seq![' '],
{
}

/// A row is its pixels left to right, `ESC[0m` and two spaces, the entry
/// in colour (100, 150, 255), and `ESC[K` with a newline: a labelled entry
/// as `label ESC[0m: value`, a header line as `value ESC[0m`.
pub proof fn lemma_row_text(cells: Seq<Cell>, c: Cell, label: Seq<char>, value: Seq<char>)
    ensures
        ({
            let blue = seq!['\u{1b}', '[', '3', '8', ';', '2', ';', '1', '0', '0', ';', '1', '5', '0', ';', '2', '5', '5', 'm'];
            let reset = seq!['\u{1b}', '[', '0', 'm'];
            let tail = seq!['\u{1b}', '[', 'K', '\n'];
            &&& label.len() > 0 ==> row_text(cells, Some((label, value))) == cells_text(cells)
                + reset + seq![' ', ' '] + blue + label + reset + seq![':', ' '] + value + tail
            &&& label.len() == 0 ==> row_text(cells, Some((label, value))) == cells_text(cells)
                + reset + seq![' ', ' '] + blue + value + reset + tail
            &&& row_text(cells, None) == cells_text(cells) + reset + seq![' ', ' '] + tail
        }),
        cells_text(cells.push(c)) == cells_text(cells) + cell_text(c),
{
    assert(decimal(100) =~= seq!['1', '0', '0']) by {
        assert(decimal(10) =~= seq!['1', '0']) by {
            assert(decimal(1) =~= seq!['1']);
        }
    }
    assert(decimal(150) =~= seq!['1', '5', '0']) by {
        assert(decimal(15) =~= seq!['1', '5']) by {
            assert(decimal(1) =~= seq!['1']);
        }
    }
    assert(decimal(255) =~= seq!['2', '5', '5']) by {
        assert(decimal(25) =~= seq!['2', '5']) by {
            assert(decimal(2) =~= seq!['2']);
        }
    }
    assert(fg(100, 150, 255) =~= seq!['\u{1b}', '[', '3', '8', ';', '2', ';', '1', '0', '0', ';', '1', '5', '0', ';', '2', '5', '5', 'm']);
    assert(cells.push(c).drop_last() =~= cells);
}


/// Row `y` of the screen is row `y` of the picture next to entry `y` of the
/// column, or next to nothing when the column is shorter: the frame up to
/// row `y + 1` is the frame up to row `y` followed by that row.
pub proof fn lemma_frame_rows(heart: Seq<Vec<Cell>>, info: Seq<(Vec<char>, Vec<char>)>, y: int)
    requires
        0 <= y,
    ensures
        frame_text(heart, info, y + 1) == frame_text(heart, info, y) + row_text(
            heart[y]@,
            if y < info.len() {
                Some((info[y].0@, info[y].1@))
            } else {
                None
            },
        ),
        frame_text(heart, info, 0) == Seq::<char>::empty(),
{
}

} // verus!
