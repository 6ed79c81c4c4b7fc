//! The layout of the sandbox screen around the hearts: the walls (the one
//! gravity pulls towards drawn highlighted), the side panel of the games
//! with its texts, the cursor and the black hole, and the bottom panel with
//! the key help. Each part is a list of writes `(index, byte, shade)` into
//! a `w` by `h` character buffer, applied in order; the shade tells the
//! caller which colour the cell gets.

use vstd::prelude::*;
use crate::decimal::{decimal_ascii, push_decimal_ascii};
use crate::game::{GameMode, GameState};

verus! {

/// How a written cell is coloured.
#[derive(PartialEq, Eq, Structural, Clone, Copy, Debug)]
pub enum Shade {
    /// Grey wall.
    Wall,
    /// The wall gravity pulls towards, in blue.
    GravityWall,
    /// Light grey text.
    Label,
    /// An empty cell of the bottom panel.
    Blank,
    /// The mouse cursor, in white.
    Cursor,
    /// Inside the black hole, dark.
    Void,
}

/// A write into the character buffer: index, character, shade.
pub type Write = (usize, u8, Shade);

/// The shade of a wall, highlighted when gravity pulls towards it.
pub open spec fn wall(pulled: bool) -> Shade {
    if pulled {
        Shade::GravityWall
    } else {
        Shade::Wall
    }
}

fn wall_shade(pulled: bool) -> (s: Shade)
    ensures
        s == wall(pulled),
{
    if pulled {
        Shade::GravityWall
    } else {
        Shade::Wall
    }
}

/// Where things go on a `w` by `h` screen.
pub struct Geometry {
    pub w: usize,
    pub h: usize,
    /// Row of the line above the bottom panel.
    pub panel_top: usize,
    /// Column of the line left of the side panel.
    pub panel_x: usize,
    /// The side panel is shown: during a game, when the screen is wide enough.
    pub panel: bool,
    /// Right end of the play area.
    pub right_edge: usize,
    pub gravity_dir: u8,
}

impl Geometry {
    pub open spec fn ok(&self) -> bool {
        &&& 1 <= self.w <= 65535
        &&& 1 <= self.h <= 65535
        &&& self.panel_top == (if self.h >= 5 { self.h - 5 } else { 0 })
        &&& self.panel_x == (if self.w >= 25 { self.w - 25 } else { 0 })
        &&& self.panel ==> self.panel_x > 1
        &&& self.right_edge == (if self.panel { self.panel_x } else { (self.w - 1) as usize })
    }

    /// The geometry of a `width` by `height` screen in `mode`.
    pub fn new(width: u16, height: u16, mode: GameMode, gravity_dir: u8) -> (g: Geometry)
        requires
            width >= 1,
            height >= 1,
        ensures
            g.ok(),
            g.w == width,
            g.h == height,
            g.panel == (mode != GameMode::Sandbox && g.panel_x > 1),
            g.gravity_dir == gravity_dir,
    {
        let w = width as usize;
        let h = height as usize;
        let panel_top = if h >= 5 {
            h - 5
        } else {
            0
        };
        let panel_x = if w >= 25 {
            w - 25
        } else {
            0
        };
        let panel = mode != GameMode::Sandbox && panel_x > 1;
        let right_edge = if panel {
            panel_x
        } else {
            w - 1
        };
        Geometry { w, h, panel_top, panel_x, panel, right_edge, gravity_dir }
    }
}

proof fn lemma_index_fits(row: int, w: int, col: int)
    requires
        0 <= row <= 65535,
        1 <= w <= 65535,
        0 <= col <= 65535,
    ensures
        0 <= row * w + col <= 65535 * 65535 + 65535,
{
    assert(row * w <= 65535 * 65535) by (nonlinear_arith)
        requires
            0 <= row <= 65535,
            1 <= w <= 65535,
    ;
}

// ---------------------------------------------------------------- text runs

/// How many characters of a text of `len` bytes starting in column `col`
/// are drawn before column `limit`.
pub open spec fn clip(col: int, len: int, limit: int) -> int {
    if col >= limit {
        0
    } else if len <= limit - col {
        len
    } else {
        limit - col
    }
}

/// The writes of `text` at row `row` from column `col`, cut before the
/// right border of a `w` wide screen.
pub open spec fn run(w: int, row: int, col: int, text: Seq<u8>, shade: Shade) -> Seq<Write> {
    Seq::new(
        clip(col, text.len() as int, w - 1) as nat,
        |i: int| ((row * w + col + i) as usize, text[i], shade),
    )
}

fn push_run(out: &mut Vec<Write>, w: usize, row: usize, col: usize, text: &Vec<u8>, shade: Shade)
    requires
        1 <= w <= 65535,
        row <= 65535,
        col <= 65535,
    ensures
        final(out)@ == old(out)@ + run(w as int, row as int, col as int, text@, shade),
{
    let n: usize = if col >= w - 1 {
        0
    } else if text.len() <= w - 1 - col {
        text.len()
    } else {
        w - 1 - col
    };
    let ghost start = out@;
    let mut i: usize = 0;
    proof {
        lemma_index_fits(row as int, w as int, col as int);
    }
    while i < n
        invariant
            i <= n == clip(col as int, text.len() as int, w - 1),
            n <= text.len(),
            col + n <= 65535,
            1 <= w <= 65535,
            row * w + col <= 65535 * 65535 + 65535,
            out@ =~= start + run(w as int, row as int, col as int, text@, shade).take(i as int),
        decreases n - i,
    {
        out.push((row * w + col + i, text[i], shade));
        i = i + 1;
    }
    assert(run(w as int, row as int, col as int, text@, shade).take(n as int) =~= run(
        w as int,
        row as int,
        col as int,
        text@,
        shade,
    ));
}

// ---------------------------------------------------------------- top and sides

/// The top border up to the right end of the play area.
pub open spec fn top_row(g: Geometry) -> Seq<Write> {
    Seq::new(
        (g.right_edge + 1) as nat,
        |x: int|
            (
                x as usize,
                if x == 0 || x == g.right_edge {
                    '+' as u8
                } else {
                    '-' as u8
                },
                wall(g.gravity_dir == 2),
            ),
    )
}

/// The wall cells of row `y`: the left wall, and the right wall when there
/// is no side panel.
pub open spec fn side_wall(g: Geometry, y: int) -> Seq<Write> {
    seq![((y * g.w) as usize, '|' as u8, wall(g.gravity_dir == 1))] + if !g.panel {
        seq![((y * g.w + g.w - 1) as usize, '|' as u8, wall(g.gravity_dir == 3))]
    } else {
        seq![]
    }
}

/// The wall cells of rows 1 up to (not including) `hi`.
pub open spec fn side_walls(g: Geometry, hi: int) -> Seq<Write>
    decreases hi,
{
    if hi <= 1 {
        seq![]
    } else {
        side_walls(g, hi - 1) + side_wall(g, hi - 1)
    }
}

/// The top border and the walls down to the bottom panel, drawn before the
/// targets.
pub open spec fn top_writes(g: Geometry) -> Seq<Write> {
    top_row(g) + side_walls(g, g.panel_top as int)
}

/// Computes `top_writes`.
pub fn frame_top(g: &Geometry) -> (r: Vec<Write>)
    requires
        g.ok(),
    ensures
        r@ == top_writes(*g),
{
    let mut out: Vec<Write> = Vec::new();
    let top_shade = wall_shade(g.gravity_dir == 2);
    let mut x: usize = 0;
    while x <= g.right_edge
        invariant
            g.ok(),
            x <= g.right_edge + 1,
            top_shade == wall(g.gravity_dir == 2),
            out@ =~= top_row(*g).take(x as int),
        decreases g.right_edge + 1 - x,
    {
        let ch: u8 = if x == 0 || x == g.right_edge {
            '+' as u8
        } else {
            '-' as u8
        };
        out.push((x, ch, top_shade));
        x = x + 1;
    }
    assert(top_row(*g).take(x as int) =~= top_row(*g));
    let left = wall_shade(g.gravity_dir == 1);
    let right = wall_shade(g.gravity_dir == 3);
    let mut y: usize = 1;
    while y < g.panel_top
        invariant
            g.ok(),
            1 <= y,
            y <= g.panel_top || (g.panel_top < 1 && y == 1),
            left == wall(g.gravity_dir == 1),
            right == wall(g.gravity_dir == 3),
            out@ =~= top_row(*g) + side_walls(*g, y as int),
        decreases g.panel_top - y,
    {
        proof {
            lemma_index_fits(y as int, g.w as int, g.w as int);
        }
        out.push((y * g.w, '|' as u8, left));
        if !g.panel {
            out.push((y * g.w + g.w - 1, '|' as u8, right));
        }
        y = y + 1;
    }
    proof {
        if g.panel_top < 1 {
            assert(side_walls(*g, g.panel_top as int) =~= side_walls(*g, 1));
        }
    }
    out
}

// ---------------------------------------------------------------- side panel

/// ` SANDBOX `, ` JUGGLER `, ` TARGETS ` or ` GOLF `.
pub open spec fn mode_title(mode: GameMode) -> Seq<u8> {
    match mode {
        GameMode::Sandbox => seq![' ' as u8, 'S' as u8, 'A' as u8, 'N' as u8, 'D' as u8, 'B' as u8, 'O' as u8, 'X' as u8, ' ' as u8],
        GameMode::Juggler => seq![' ' as u8, 'J' as u8, 'U' as u8, 'G' as u8, 'G' as u8, 'L' as u8, 'E' as u8, 'R' as u8, ' ' as u8],
        GameMode::TargetZones => seq![' ' as u8, 'T' as u8, 'A' as u8, 'R' as u8, 'G' as u8, 'E' as u8, 'T' as u8, 'S' as u8, ' ' as u8],
        GameMode::HeartGolf => seq![' ' as u8, 'G' as u8, 'O' as u8, 'L' as u8, 'F' as u8, ' ' as u8],
    }
}

/// Computes `mode_title`.
pub fn mode_title_text(mode: GameMode) -> (t: Vec<u8>)
    ensures
        t@ == mode_title(mode),
{
    match mode {
        GameMode::Sandbox => vec![' ' as u8, 'S' as u8, 'A' as u8, 'N' as u8, 'D' as u8, 'B' as u8, 'O' as u8, 'X' as u8, ' ' as u8],
        GameMode::Juggler => vec![' ' as u8, 'J' as u8, 'U' as u8, 'G' as u8, 'G' as u8, 'L' as u8, 'E' as u8, 'R' as u8, ' ' as u8],
        GameMode::TargetZones => vec![' ' as u8, 'T' as u8, 'A' as u8, 'R' as u8, 'G' as u8, 'E' as u8, 'T' as u8, 'S' as u8, ' ' as u8],
        GameMode::HeartGolf => vec![' ' as u8, 'G' as u8, 'O' as u8, 'L' as u8, 'F' as u8, ' ' as u8],
    }
}

/// ` Score: {score} `
pub open spec fn score_line(score: u32) -> Seq<u8> {
    seq![' ' as u8, 'S' as u8, 'c' as u8, 'o' as u8, 'r' as u8, 'e' as u8, ':' as u8, ' ' as u8]
        + decimal_ascii(score as nat) + seq![' ' as u8]
}

/// Computes `score_line`.
pub fn score_text(score: u32) -> (t: Vec<u8>)
    ensures
        t@ == score_line(score),
{
    let mut t: Vec<u8> = vec![' ' as u8, 'S' as u8, 'c' as u8, 'o' as u8, 'r' as u8, 'e' as u8, ':' as u8, ' ' as u8];
    push_decimal_ascii(&mut t, score as u64);
    t.push(' ' as u8);
    assert(t@ =~= score_line(score));
    t
}

/// The third panel line of the games whose state is all counters:
/// ` Hits: {n} ` for the target game, ` Hole: {h} Hits: {n} ` for golf,
/// nothing in free play. The juggler line shows a time and is not one.
pub open spec fn counter_line(s: GameState) -> Option<Seq<u8>> {
    match s.mode {
        GameMode::TargetZones => Some(
            seq![' ' as u8, 'H' as u8, 'i' as u8, 't' as u8, 's' as u8, ':' as u8, ' ' as u8]
                + decimal_ascii(s.targets_hit as nat) + seq![' ' as u8],
        ),
        GameMode::HeartGolf => Some(
            seq![' ' as u8, 'H' as u8, 'o' as u8, 'l' as u8, 'e' as u8, ':' as u8, ' ' as u8]
                + decimal_ascii(s.golf_hole as nat) + seq![
                ' ' as u8,
                'H' as u8,
                'i' as u8,
                't' as u8,
                's' as u8,
                ':' as u8,
                ' ' as u8,
            ] + decimal_ascii(s.golf_touches as nat) + seq![' ' as u8],
        ),
        GameMode::Sandbox => Some(seq![]),
        GameMode::Juggler => None,
    }
}

/// Computes `counter_line`.
pub fn counter_text(s: &GameState) -> (t: Option<Vec<u8>>)
    ensures
        match t {
            Some(v) => counter_line(*s) == Some(v@),
            None => counter_line(*s) is None,
        },
{
    match s.mode {
        GameMode::TargetZones => {
            let mut t: Vec<u8> = vec![' ' as u8, 'H' as u8, 'i' as u8, 't' as u8, 's' as u8, ':' as u8, ' ' as u8];
            push_decimal_ascii(&mut t, s.targets_hit as u64);
            t.push(' ' as u8);
            assert(t@ =~= counter_line(*s)->Some_0);
            Some(t)
        },
        GameMode::HeartGolf => {
            let mut t: Vec<u8> = vec![' ' as u8, 'H' as u8, 'o' as u8, 'l' as u8, 'e' as u8, ':' as u8, ' ' as u8];
            push_decimal_ascii(&mut t, s.golf_hole as u64);
            let mid: Vec<u8> = vec![' ' as u8, 'H' as u8, 'i' as u8, 't' as u8, 's' as u8, ':' as u8, ' ' as u8];
            let mut k: usize = 0;
            let ghost before = t@;
            while k < mid.len()
                invariant
                    k <= mid.len(),
                    t@ =~= before + mid@.take(k as int),
                decreases mid.len() - k,
            {
                t.push(mid[k]);
                k = k + 1;
            }
            push_decimal_ascii(&mut t, s.golf_touches as u64);
            t.push(' ' as u8);
            assert(mid@.take(mid.len() as int) =~= mid@);
            assert(t@ =~= counter_line(*s)->Some_0);
            Some(t)
        },
        GameMode::Sandbox => Some(Vec::new()),
        GameMode::Juggler => None,
    }
}

/// The line left of the side panel, rows 1 up to (not including) `hi`.
pub open spec fn panel_divider(g: Geometry, hi: int) -> Seq<Write>
    decreases hi,
{
    if hi <= 1 {
        seq![]
    } else {
        panel_divider(g, hi - 1) + seq![(((hi - 1) * g.w + g.panel_x) as usize, '|' as u8, Shade::Wall)]
    }
}

/// The top border above the side panel.
pub open spec fn panel_roof(g: Geometry) -> Seq<Write> {
    Seq::new(
        (if g.w - 1 > g.panel_x + 1 { g.w - 1 - (g.panel_x + 1) } else { 0 }) as nat,
        |i: int| ((g.panel_x + 1 + i) as usize, '-' as u8, Shade::Wall),
    )
}

/// The side panel of a game: its border, then the game's name, the score
/// and the counter line, drawn after the targets; nothing in free play or
/// on a narrow screen.
pub open spec fn panel_writes(g: Geometry, title: Seq<u8>, score: Seq<u8>, info: Seq<u8>) -> Seq<Write> {
    if !g.panel {
        seq![]
    } else {
        panel_divider(g, g.panel_top as int) + seq![
            (g.panel_x, '+' as u8, Shade::Wall),
            ((g.panel_top * g.w + g.panel_x) as usize, '+' as u8, Shade::Wall),
        ] + panel_roof(g) + run(g.w as int, 2, g.panel_x + 2, title, Shade::Label) + run(
            g.w as int,
            4,
            g.panel_x + 2,
            score,
            Shade::Label,
        ) + run(g.w as int, 6, g.panel_x + 2, info, Shade::Label)
    }
}

/// Computes `panel_writes`.
pub fn frame_panel(g: &Geometry, title: &Vec<u8>, score: &Vec<u8>, info: &Vec<u8>) -> (r: Vec<Write>)
    requires
        g.ok(),
    ensures
        r@ == panel_writes(*g, title@, score@, info@),
{
    let mut out: Vec<Write> = Vec::new();
    if !g.panel {
        return out;
    }
    let mut y: usize = 1;
    while y < g.panel_top
        invariant
            g.ok(),
            g.panel,
            1 <= y,
            y <= g.panel_top || (g.panel_top < 1 && y == 1),
            out@ =~= panel_divider(*g, y as int),
        decreases g.panel_top - y,
    {
        proof {
            lemma_index_fits(y as int, g.w as int, g.panel_x as int);
        }
        out.push((y * g.w + g.panel_x, '|' as u8, Shade::Wall));
        y = y + 1;
    }
    proof {
        if g.panel_top < 1 {
            assert(panel_divider(*g, g.panel_top as int) =~= panel_divider(*g, 1));
        }
        lemma_index_fits(g.panel_top as int, g.w as int, g.panel_x as int);
    }
    out.push((g.panel_x, '+' as u8, Shade::Wall));
    out.push((g.panel_top * g.w + g.panel_x, '+' as u8, Shade::Wall));
    let ghost before_roof = out@;
    let mut x: usize = g.panel_x + 1;
    while x < g.w - 1
        invariant
            g.ok(),
            g.panel,
            g.panel_x + 1 <= x,
            x <= g.w - 1 || (g.w - 1 < g.panel_x + 1 && x == g.panel_x + 1),
            out@ =~= before_roof + panel_roof(*g).take(x - (g.panel_x + 1)),
        decreases g.w - 1 - x,
    {
        out.push((x, '-' as u8, Shade::Wall));
        x = x + 1;
    }
    assert(panel_roof(*g).take(x - (g.panel_x + 1)) =~= panel_roof(*g));
    push_run(&mut out, g.w, 2, g.panel_x + 2, title, Shade::Label);
    push_run(&mut out, g.w, 4, g.panel_x + 2, score, Shade::Label);
    push_run(&mut out, g.w, 6, g.panel_x + 2, info, Shade::Label);
    out
}

// ---------------------------------------------------------------- cursor and black hole

/// Column `x`, row `y` is inside the walls.
pub open spec fn inside(g: Geometry, x: int, y: int) -> bool {
    1 <= x < g.w - 1 && 1 <= y < g.h - 1
}

/// The cells of the black hole: those within 1.2 rows of its centre, a
/// column counting as half a row; for the integer offsets of the 5 by 3
/// box around the centre that is `dx * dx + 4 * dy * dy <= 5`.
pub open spec fn hole_cell(g: Geometry, cx: int, cy: int, t: int) -> Seq<Write> {
    let dy = t / 5 - 1;
    let dx = t % 5 - 2;
    if inside(g, cx + dx, cy + dy) && dx * dx + 4 * dy * dy <= 5 {
        seq![(((cy + dy) * g.w + cx + dx) as usize, ' ' as u8, Shade::Void)]
    } else {
        seq![]
    }
}

/// The black hole cells for the first `n` offsets, row by row.
pub open spec fn hole_cells(g: Geometry, cx: int, cy: int, n: int) -> Seq<Write>
    decreases n,
{
    if n <= 0 {
        seq![]
    } else {
        hole_cells(g, cx, cy, n - 1) + hole_cell(g, cx, cy, n - 1)
    }
}

/// The cursor `O` when the mouse has been seen and is inside the walls,
/// then the black hole when it is on; drawn after the panel.
pub open spec fn cursor_writes(g: Geometry, cx: int, cy: int, seen: bool, blackhole: bool) -> Seq<
    Write,
> {
    (if seen && inside(g, cx, cy) {
        seq![((cy * g.w + cx) as usize, 'O' as u8, Shade::Cursor)]
    } else {
        seq![]
    }) + if blackhole {
        hole_cells(g, cx, cy, 15)
    } else {
        seq![]
    }
}

/// Computes `cursor_writes` for the cursor at the rounded position
/// `(cx, cy)`.
pub fn frame_cursor(g: &Geometry, cx: i32, cy: i32, seen: bool, blackhole: bool) -> (r: Vec<Write>)
    requires
        g.ok(),
        blackhole ==> i32::MIN + 2 <= cx <= i32::MAX - 2 && i32::MIN + 1 <= cy <= i32::MAX - 1,
    ensures
        r@ == cursor_writes(*g, cx as int, cy as int, seen, blackhole),
{
    let mut out: Vec<Write> = Vec::new();
    let wi: i32 = g.w as i32;
    let hi: i32 = g.h as i32;
    if seen && cx >= 1 && cx < wi - 1 && cy >= 1 && cy < hi - 1 {
        proof {
            lemma_index_fits(cy as int, g.w as int, cx as int);
        }
        out.push((cy as usize * g.w + cx as usize, 'O' as u8, Shade::Cursor));
    }
    let ghost before = out@;
    if blackhole {
        let mut t: i32 = 0;
        while t < 15
            invariant
                g.ok(),
                wi == g.w,
                hi == g.h,
                0 <= t <= 15,
                i32::MIN + 2 <= cx <= i32::MAX - 2,
                i32::MIN + 1 <= cy <= i32::MAX - 1,
                out@ =~= before + hole_cells(*g, cx as int, cy as int, t as int),
            decreases 15 - t,
        {
            let dy: i32 = t / 5 - 1;
            let dx: i32 = t % 5 - 2;
            assert(-2 <= dx <= 2 && -1 <= dy <= 1);
            assert(0 <= dx * dx <= 4 && 0 <= 4 * dy * dy <= 4) by (nonlinear_arith)
                requires
                    -2 <= dx <= 2,
                    -1 <= dy <= 1,
            ;
            let sx: i32 = cx + dx;
            let sy: i32 = cy + dy;
            if sx >= 1 && sx < wi - 1 && sy >= 1 && sy < hi - 1 && dx * dx + 4 * dy * dy <= 5 {
                proof {
                    lemma_index_fits(sy as int, g.w as int, sx as int);
                }
                out.push((sy as usize * g.w + sx as usize, ' ' as u8, Shade::Void));
            }
            t = t + 1;
        }
    }
    out
}

// ---------------------------------------------------------------- bottom panel

/// `0: Sandbox | 1: Juggler | 2: Targets | 3: Golf | R: gravity | Q: spawn | ESC: quit`
pub open spec fn help_line_1() -> Seq<u8> {
    seq![
        '0' as u8, ':' as u8, ' ' as u8, 'S' as u8, 'a' as u8, 'n' as u8, 'd' as u8, 'b' as u8,
        'o' as u8, 'x' as u8, ' ' as u8, '|' as u8, ' ' as u8, '1' as u8, ':' as u8, ' ' as u8,
        'J' as u8, 'u' as u8, 'g' as u8, 'g' as u8, 'l' as u8, 'e' as u8, 'r' as u8, ' ' as u8,
        '|' as u8, ' ' as u8, '2' as u8, ':' as u8, ' ' as u8, 'T' as u8, 'a' as u8, 'r' as u8,
        'g' as u8, 'e' as u8, 't' as u8, 's' as u8, ' ' as u8, '|' as u8, ' ' as u8, '3' as u8,
        ':' as u8, ' ' as u8, 'G' as u8, 'o' as u8, 'l' as u8, 'f' as u8, ' ' as u8, '|' as u8,
        ' ' as u8, 'R' as u8, ':' as u8, ' ' as u8, 'g' as u8, 'r' as u8, 'a' as u8, 'v' as u8,
        'i' as u8, 't' as u8, 'y' as u8, ' ' as u8, '|' as u8, ' ' as u8, 'Q' as u8, ':' as u8,
        ' ' as u8, 's' as u8, 'p' as u8, 'a' as u8, 'w' as u8, 'n' as u8, ' ' as u8, '|' as u8,
        ' ' as u8, 'E' as u8, 'S' as u8, 'C' as u8, ':' as u8, ' ' as u8, 'q' as u8, 'u' as u8,
        'i' as u8, 't' as u8,
    ]
}

/// `W: black hole | E: white hole | Arrows: push | Scroll: resize`
pub open spec fn help_line_2() -> Seq<u8> {
    seq![
        'W' as u8, ':' as u8, ' ' as u8, 'b' as u8, 'l' as u8, 'a' as u8, 'c' as u8, 'k' as u8,
        ' ' as u8, 'h' as u8, 'o' as u8, 'l' as u8, 'e' as u8, ' ' as u8, '|' as u8, ' ' as u8,
        'E' as u8, ':' as u8, ' ' as u8, 'w' as u8, 'h' as u8, 'i' as u8, 't' as u8, 'e' as u8,
        ' ' as u8, 'h' as u8, 'o' as u8, 'l' as u8, 'e' as u8, ' ' as u8, '|' as u8, ' ' as u8,
        'A' as u8, 'r' as u8, 'r' as u8, 'o' as u8, 'w' as u8, 's' as u8, ':' as u8, ' ' as u8,
        'p' as u8, 'u' as u8, 's' as u8, 'h' as u8, ' ' as u8, '|' as u8, ' ' as u8, 'S' as u8,
        'c' as u8, 'r' as u8, 'o' as u8, 'l' as u8, 'l' as u8, ':' as u8, ' ' as u8, 'r' as u8,
        'e' as u8, 's' as u8, 'i' as u8, 'z' as u8, 'e' as u8,
    ]
}

fn help_text_1() -> (t: Vec<u8>)
    ensures
        t@ == help_line_1(),
{
    vec![
        '0' as u8, ':' as u8, ' ' as u8, 'S' as u8, 'a' as u8, 'n' as u8, 'd' as u8, 'b' as u8, 'o' as u8, 'x' as u8, ' ' as u8, '|' as u8, ' ' as u8, '1' as u8,
        ':' as u8, ' ' as u8, 'J' as u8, 'u' as u8, 'g' as u8, 'g' as u8, 'l' as u8, 'e' as u8, 'r' as u8, ' ' as u8, '|' as u8, ' ' as u8, '2' as u8, ':' as u8,
        ' ' as u8, 'T' as u8, 'a' as u8, 'r' as u8, 'g' as u8, 'e' as u8, 't' as u8, 's' as u8, ' ' as u8, '|' as u8, ' ' as u8, '3' as u8, ':' as u8, ' ' as u8,
        'G' as u8, 'o' as u8, 'l' as u8, 'f' as u8, ' ' as u8, '|' as u8, ' ' as u8, 'R' as u8, ':' as u8, ' ' as u8, 'g' as u8, 'r' as u8, 'a' as u8, 'v' as u8,
        'i' as u8, 't' as u8, 'y' as u8, ' ' as u8, '|' as u8, ' ' as u8, 'Q' as u8, ':' as u8, ' ' as u8, 's' as u8, 'p' as u8, 'a' as u8, 'w' as u8, 'n' as u8,
        ' ' as u8, '|' as u8, ' ' as u8, 'E' as u8, 'S' as u8, 'C' as u8, ':' as u8, ' ' as u8, 'q' as u8, 'u' as u8, 'i' as u8, 't' as u8,
    ]
}

fn help_text_2() -> (t: Vec<u8>)
    ensures
        t@ == help_line_2(),
{
    vec![
        'W' as u8, ':' as u8, ' ' as u8, 'b' as u8, 'l' as u8, 'a' as u8, 'c' as u8, 'k' as u8, ' ' as u8, 'h' as u8, 'o' as u8, 'l' as u8, 'e' as u8, ' ' as u8,
        '|' as u8, ' ' as u8, 'E' as u8, ':' as u8, ' ' as u8, 'w' as u8, 'h' as u8, 'i' as u8, 't' as u8, 'e' as u8, ' ' as u8, 'h' as u8, 'o' as u8, 'l' as u8,
        'e' as u8, ' ' as u8, '|' as u8, ' ' as u8, 'A' as u8, 'r' as u8, 'r' as u8, 'o' as u8, 'w' as u8, 's' as u8, ':' as u8, ' ' as u8, 'p' as u8, 'u' as u8,
        's' as u8, 'h' as u8, ' ' as u8, '|' as u8, ' ' as u8, 'S' as u8, 'c' as u8, 'r' as u8, 'o' as u8, 'l' as u8, 'l' as u8, ':' as u8, ' ' as u8, 'r' as u8,
        'e' as u8, 's' as u8, 'i' as u8, 'z' as u8, 'e' as u8,
    ]
}

/// The line above the bottom panel, with corners at both ends and where
/// the side panel meets it; highlighted under the play area when gravity
/// pulls down.
pub open spec fn floor_row(g: Geometry) -> Seq<Write> {
    Seq::new(
        g.w as nat,
        |x: int|
            (
                (g.panel_top * g.w + x) as usize,
                if x == 0 || x == g.w - 1 || x == g.right_edge {
                    '+' as u8
                } else {
                    '-' as u8
                },
                if x <= g.right_edge {
                    wall(g.gravity_dir == 0)
                } else {
                    Shade::Wall
                },
            ),
    )
}

/// Row `y` of the bottom panel emptied between its walls.
pub open spec fn blank_row(g: Geometry, y: int) -> Seq<Write> {
    Seq::new(
        (if g.w >= 2 { g.w - 2 } else { 0 }) as nat,
        |i: int| ((y * g.w + 1 + i) as usize, ' ' as u8, Shade::Blank),
    )
}

/// The bottom panel emptied, rows below `panel_top` up to (not including) `hi`.
pub open spec fn blank_rows(g: Geometry, hi: int) -> Seq<Write>
    decreases hi,
{
    if hi <= g.panel_top + 1 {
        seq![]
    } else {
        blank_rows(g, hi - 1) + blank_row(g, hi - 1)
    }
}

/// The two walls of the rows from `panel_top` up to (not including) `hi`.
pub open spec fn bottom_sides(g: Geometry, hi: int) -> Seq<Write>
    decreases hi,
{
    if hi <= g.panel_top {
        seq![]
    } else {
        bottom_sides(g, hi - 1) + seq![
            (((hi - 1) * g.w) as usize, '|' as u8, Shade::Wall),
            (((hi - 1) * g.w + g.w - 1) as usize, '|' as u8, Shade::Wall),
        ]
    }
}

/// The bottom border.
pub open spec fn bottom_row(g: Geometry) -> Seq<Write> {
    Seq::new(
        g.w as nat,
        |x: int|
            (
                ((g.h - 1) * g.w + x) as usize,
                if x == 0 || x == g.w - 1 {
                    '+' as u8
                } else {
                    '-' as u8
                },
                Shade::Wall,
            ),
    )
}

/// The bottom panel with the key help, drawn last.
pub open spec fn bottom_writes(g: Geometry) -> Seq<Write> {
    floor_row(g) + blank_rows(g, g.h as int) + run(
        g.w as int,
        g.panel_top + 1,
        2,
        help_line_1(),
        Shade::Label,
    ) + run(g.w as int, g.panel_top + 2, 2, help_line_2(), Shade::Label) + bottom_sides(
        g,
        g.h as int,
    ) + bottom_row(g)
}

/// Computes `bottom_writes`.
pub fn frame_bottom(g: &Geometry) -> (r: Vec<Write>)
    requires
        g.ok(),
    ensures
        r@ == bottom_writes(*g),
{
    let mut out: Vec<Write> = Vec::new();
    let floor_shade = wall_shade(g.gravity_dir == 0);
    let mut x: usize = 0;
    proof {
        lemma_index_fits(g.panel_top as int, g.w as int, g.w as int);
    }
    while x < g.w
        invariant
            g.ok(),
            x <= g.w,
            floor_shade == wall(g.gravity_dir == 0),
            g.panel_top * g.w + g.w <= 65535 * 65535 + 65535,
            out@ =~= floor_row(*g).take(x as int),
        decreases g.w - x,
    {
        let ch: u8 = if x == 0 || x == g.w - 1 || x == g.right_edge {
            '+' as u8
        } else {
            '-' as u8
        };
        let shade = if x <= g.right_edge {
            floor_shade
        } else {
            Shade::Wall
        };
        out.push((g.panel_top * g.w + x, ch, shade));
        x = x + 1;
    }
    assert(floor_row(*g).take(x as int) =~= floor_row(*g));
    let ghost after_floor = out@;
    let mut y: usize = g.panel_top + 1;
    while y < g.h
        invariant
            g.ok(),
            g.panel_top + 1 <= y,
            y <= g.h || (g.h < g.panel_top + 1 && y == g.panel_top + 1),
            out@ =~= after_floor + blank_rows(*g, y as int),
        decreases g.h - y,
    {
        let ghost row_start = out@;
        let mut x: usize = 1;
        proof {
            lemma_index_fits(y as int, g.w as int, g.w as int);
        }
        while x + 1 < g.w
            invariant
                g.ok(),
                y < g.h,
                1 <= x <= g.w,
                x + 1 <= g.w || (g.w < 2 && x == 1),
                y * g.w + g.w <= 65535 * 65535 + 65535,
                out@ =~= row_start + blank_row(*g, y as int).take(x - 1),
            decreases g.w - x,
        {
            out.push((y * g.w + x, ' ' as u8, Shade::Blank));
            x = x + 1;
        }
        assert(blank_row(*g, y as int).take(x - 1) =~= blank_row(*g, y as int));
        y = y + 1;
    }
    proof {
        if g.h < g.panel_top + 1 {
            assert(blank_rows(*g, g.h as int) =~= blank_rows(*g, g.panel_top + 1));
        }
    }
    let help1 = help_text_1();
    let help2 = help_text_2();
    push_run(&mut out, g.w, g.panel_top + 1, 2, &help1, Shade::Label);
    push_run(&mut out, g.w, g.panel_top + 2, 2, &help2, Shade::Label);
    let ghost before_sides = out@;
    let mut y: usize = g.panel_top;
    while y < g.h
        invariant
            g.ok(),
            g.panel_top <= y <= g.h,
            out@ =~= before_sides + bottom_sides(*g, y as int),
        decreases g.h - y,
    {
        proof {
            lemma_index_fits(y as int, g.w as int, g.w as int);
        }
        out.push((y * g.w, '|' as u8, Shade::Wall));
        out.push((y * g.w + g.w - 1, '|' as u8, Shade::Wall));
        y = y + 1;
    }
    let ghost before_last = out@;
    proof {
        lemma_index_fits(g.h - 1, g.w as int, g.w as int);
    }
    let mut x: usize = 0;
    while x < g.w
        invariant
            g.ok(),
            x <= g.w,
            (g.h - 1) * g.w + g.w <= 65535 * 65535 + 65535,
            out@ =~= before_last + bottom_row(*g).take(x as int),
        decreases g.w - x,
    {
        let ch: u8 = if x == 0 || x == g.w - 1 {
            '+' as u8
        } else {
            '-' as u8
        };
        out.push(((g.h - 1) * g.w + x, ch, Shade::Wall));
        x = x + 1;
    }
    assert(bottom_row(*g).take(x as int) =~= bottom_row(*g));
    out
}


// ---------------------------------------------------------------- laws

/// The panel names each game in capitals between spaces.
pub proof fn lemma_mode_titles()
    ensures
        mode_title(GameMode::Sandbox) == seq![32u8, 83u8, 65u8, 78u8, 68u8, 66u8, 79u8, 88u8, 32u8],
        mode_title(GameMode::Juggler) == seq![32u8, 74u8, 85u8, 71u8, 71u8, 76u8, 69u8, 82u8, 32u8],
        mode_title(GameMode::TargetZones) == seq![32u8, 84u8, 65u8, 82u8, 71u8, 69u8, 84u8, 83u8, 32u8],
        mode_title(GameMode::HeartGolf) == seq![32u8, 71u8, 79u8, 76u8, 70u8, 32u8],
{
}

/// ` Score: ` is followed by the digits of the score and one space.
pub proof fn lemma_score_line(score: u32)
    ensures
        score_line(score).take(8) == seq![32u8, 83u8, 99u8, 111u8, 114u8, 101u8, 58u8, 32u8],
        score_line(score).subrange(8, score_line(score).len() - 1) == decimal_ascii(score as nat),
        score_line(score).last() == 32u8,
{
    let t = score_line(score);
    assert(t.take(8) =~= seq![32u8, 83u8, 99u8, 111u8, 114u8, 101u8, 58u8, 32u8]);
    assert(t.subrange(8, t.len() - 1) =~= decimal_ascii(score as nat));
}

/// The counter line: in the target game ` Hits: ` and the number of targets
/// hit; in golf ` Hole: ` and the hole being played, then ` Hits: ` and the
/// touches on it; empty in free play; none in the juggler game.
pub proof fn lemma_counter_lines(s: GameState)
    ensures
        s.mode == GameMode::TargetZones ==> counter_line(s) == Some(
            seq![32u8, 72u8, 105u8, 116u8, 115u8, 58u8, 32u8] + decimal_ascii(s.targets_hit as nat)
                + seq![32u8],
        ),
        s.mode == GameMode::HeartGolf ==> counter_line(s) == Some(
            seq![32u8, 72u8, 111u8, 108u8, 101u8, 58u8, 32u8] + decimal_ascii(s.golf_hole as nat)
                + seq![32u8, 72u8, 105u8, 116u8, 115u8, 58u8, 32u8] + decimal_ascii(
                s.golf_touches as nat,
            ) + seq![32u8],
        ),
        s.mode == GameMode::Sandbox ==> counter_line(s) == Some(Seq::<u8>::empty()),
        s.mode == GameMode::Juggler ==> counter_line(s) is None,
{
}

/// The top border runs from column 0 to the right end of the play area,
/// with corners at both ends, and is highlighted exactly when gravity pulls
/// up, in every mode.
pub proof fn lemma_top_border(g: Geometry)
    requires
        g.ok(),
    ensures
        forall|x: int|
            0 <= x <= g.right_edge ==> #[trigger] top_writes(g)[x] == (
                x as usize,
                if x == 0 || x == g.right_edge {
                    43u8
                } else {
                    45u8
                },
                if g.gravity_dir == 2 {
                    Shade::GravityWall
                } else {
                    Shade::Wall
                },
            ),
{
    assert forall|x: int| 0 <= x <= g.right_edge implies #[trigger] top_writes(g)[x] == (
        x as usize,
        if x == 0 || x == g.right_edge {
            43u8
        } else {
            45u8
        },
        if g.gravity_dir == 2 {
            Shade::GravityWall
        } else {
            Shade::Wall
        },
    ) by {
        assert(top_writes(g)[x] == top_row(g)[x]);
    }
}

proof fn lemma_left_walls(g: Geometry, hi: int, shade: Shade)
    requires
        shade == (if g.gravity_dir == 1 {
            Shade::GravityWall
        } else {
            Shade::Wall
        }),
    ensures
        forall|y: int|
            1 <= y < hi ==> #[trigger] side_walls(g, hi).contains(((y * g.w) as usize, 124u8, shade)),
    decreases hi,
{
    if hi > 1 {
        lemma_left_walls(g, hi - 1, shade);
        let prev = side_walls(g, hi - 1);
        let row = side_wall(g, hi - 1);
        let all = prev + row;
        assert(all == side_walls(g, hi));
        assert forall|y: int| 1 <= y < hi implies #[trigger] side_walls(g, hi).contains(
            ((y * g.w) as usize, 124u8, shade),
        ) by {
            let w = ((y * g.w) as usize, 124u8, shade);
            if y == hi - 1 {
                assert(all[prev.len() as int] == w);
            } else {
                assert(prev.contains(w));
                let t = choose|t: int| 0 <= t < prev.len() && prev[t] == w;
                assert(all[t] == w);
            }
        }
    }
}

/// Every row between the top border and the bottom panel has its left
/// wall, highlighted exactly when gravity pulls left.
pub proof fn lemma_left_wall(g: Geometry)
    requires
        g.ok(),
    ensures
        ({
            let shade = if g.gravity_dir == 1 {
                Shade::GravityWall
            } else {
                Shade::Wall
            };
            forall|y: int|
                1 <= y < g.panel_top ==> #[trigger] top_writes(g).contains(
                    ((y * g.w) as usize, 124u8, shade),
                )
        }),
{
    let shade = if g.gravity_dir == 1 {
        Shade::GravityWall
    } else {
        Shade::Wall
    };
    lemma_left_walls(g, g.panel_top as int, shade);
    let top = top_row(g);
    let sides = side_walls(g, g.panel_top as int);
    assert forall|y: int| 1 <= y < g.panel_top implies #[trigger] top_writes(g).contains(
        ((y * g.w) as usize, 124u8, shade),
    ) by {
        let w = ((y * g.w) as usize, 124u8, shade);
        assert(sides.contains(w));
        let t = choose|t: int| 0 <= t < sides.len() && sides[t] == w;
        assert((top + sides)[top.len() + t] == w);
    }
}

/// The line above the bottom panel spans the screen, with corners at both
/// ends and where the side panel meets it; under the play area it is
/// highlighted exactly when gravity pulls down.
pub proof fn lemma_floor_line(g: Geometry)
    requires
        g.ok(),
    ensures
        forall|x: int|
            0 <= x < g.w ==> #[trigger] bottom_writes(g)[x] == (
                (g.panel_top * g.w + x) as usize,
                if x == 0 || x == g.w - 1 || x == g.right_edge {
                    43u8
                } else {
                    45u8
                },
                if x <= g.right_edge && g.gravity_dir == 0 {
                    Shade::GravityWall
                } else {
                    Shade::Wall
                },
            ),
{
    assert forall|x: int| 0 <= x < g.w implies #[trigger] bottom_writes(g)[x] == (
        (g.panel_top * g.w + x) as usize,
        if x == 0 || x == g.w - 1 || x == g.right_edge {
            43u8
        } else {
            45u8
        },
        if x <= g.right_edge && g.gravity_dir == 0 {
            Shade::GravityWall
        } else {
            Shade::Wall
        },
    ) by {
        assert(bottom_writes(g)[x] == floor_row(g)[x]);
    }
}


/// A blank black-hole write at offset `(dx, dy)` from the cursor, if that
/// cell is inside the walls.
pub open spec fn void_at(g: Geometry, cx: int, cy: int, dx: int, dy: int) -> Seq<Write> {
    if inside(g, cx + dx, cy + dy) {
        seq![(((cy + dy) * g.w + cx + dx) as usize, 32u8, Shade::Void)]
    } else {
        seq![]
    }
}

/// The cursor is drawn as `O` at its cell when the mouse has been seen and
/// the cell is inside the walls, and not drawn otherwise. The black hole
/// blanks, row by row, the three cells above the cursor, the five cells of
/// its row, and the three cells below (all those inside the walls): the
/// corners of the 5 by 3 box stay.
pub proof fn lemma_cursor_and_hole(g: Geometry, cx: int, cy: int, seen: bool)
    requires
        g.ok(),
    ensures
        seen && inside(g, cx, cy) ==> cursor_writes(g, cx, cy, seen, false) == seq![
            ((cy * g.w + cx) as usize, 79u8, Shade::Cursor),
        ],
        !(seen && inside(g, cx, cy)) ==> cursor_writes(g, cx, cy, seen, false) == Seq::<
            Write,
        >::empty(),
        cursor_writes(g, cx, cy, false, true) == void_at(g, cx, cy, -1, -1) + void_at(g, cx, cy, 0, -1)
            + void_at(g, cx, cy, 1, -1) + void_at(g, cx, cy, -2, 0) + void_at(g, cx, cy, -1, 0)
            + void_at(g, cx, cy, 0, 0) + void_at(g, cx, cy, 1, 0) + void_at(g, cx, cy, 2, 0)
            + void_at(g, cx, cy, -1, 1) + void_at(g, cx, cy, 0, 1) + void_at(g, cx, cy, 1, 1),
{
    reveal_with_fuel(hole_cells, 16);
    assert(0int / 5 - 1 == -1 && 0int % 5 - 2 == -2);
    assert((-2int) * (-2int) + 4 * (-1int) * (-1int) > 5);
    assert(hole_cell(g, cx, cy, 0) =~= Seq::<Write>::empty());
    assert(1int / 5 - 1 == -1 && 1int % 5 - 2 == -1);
    assert((-1int) * (-1int) + 4 * (-1int) * (-1int) <= 5);
    assert(hole_cell(g, cx, cy, 1) == void_at(g, cx, cy, -1, -1));
    assert(2int / 5 - 1 == -1 && 2int % 5 - 2 == 0);
    assert((0int) * (0int) + 4 * (-1int) * (-1int) <= 5);
    assert(hole_cell(g, cx, cy, 2) == void_at(g, cx, cy, 0, -1));
    assert(3int / 5 - 1 == -1 && 3int % 5 - 2 == 1);
    assert((1int) * (1int) + 4 * (-1int) * (-1int) <= 5);
    assert(hole_cell(g, cx, cy, 3) == void_at(g, cx, cy, 1, -1));
    assert(4int / 5 - 1 == -1 && 4int % 5 - 2 == 2);
    assert((2int) * (2int) + 4 * (-1int) * (-1int) > 5);
    assert(hole_cell(g, cx, cy, 4) =~= Seq::<Write>::empty());
    assert(5int / 5 - 1 == 0 && 5int % 5 - 2 == -2);
    assert((-2int) * (-2int) + 4 * (0int) * (0int) <= 5);
    assert(hole_cell(g, cx, cy, 5) == void_at(g, cx, cy, -2, 0));
    assert(6int / 5 - 1 == 0 && 6int % 5 - 2 == -1);
    assert((-1int) * (-1int) + 4 * (0int) * (0int) <= 5);
    assert(hole_cell(g, cx, cy, 6) == void_at(g, cx, cy, -1, 0));
    assert(7int / 5 - 1 == 0 && 7int % 5 - 2 == 0);
    assert((0int) * (0int) + 4 * (0int) * (0int) <= 5);
    assert(hole_cell(g, cx, cy, 7) == void_at(g, cx, cy, 0, 0));
    assert(8int / 5 - 1 == 0 && 8int % 5 - 2 == 1);
    assert((1int) * (1int) + 4 * (0int) * (0int) <= 5);
    assert(hole_cell(g, cx, cy, 8) == void_at(g, cx, cy, 1, 0));
    assert(9int / 5 - 1 == 0 && 9int % 5 - 2 == 2);
    assert((2int) * (2int) + 4 * (0int) * (0int) <= 5);
    assert(hole_cell(g, cx, cy, 9) == void_at(g, cx, cy, 2, 0));
    assert(10int / 5 - 1 == 1 && 10int % 5 - 2 == -2);
    assert((-2int) * (-2int) + 4 * (1int) * (1int) > 5);
    assert(hole_cell(g, cx, cy, 10) =~= Seq::<Write>::empty());
    assert(11int / 5 - 1 == 1 && 11int % 5 - 2 == -1);
    assert((-1int) * (-1int) + 4 * (1int) * (1int) <= 5);
    assert(hole_cell(g, cx, cy, 11) == void_at(g, cx, cy, -1, 1));
    assert(12int / 5 - 1 == 1 && 12int % 5 - 2 == 0);
    assert((0int) * (0int) + 4 * (1int) * (1int) <= 5);
    assert(hole_cell(g, cx, cy, 12) == void_at(g, cx, cy, 0, 1));
    assert(13int / 5 - 1 == 1 && 13int % 5 - 2 == 1);
    assert((1int) * (1int) + 4 * (1int) * (1int) <= 5);
    assert(hole_cell(g, cx, cy, 13) == void_at(g, cx, cy, 1, 1));
    assert(14int / 5 - 1 == 1 && 14int % 5 - 2 == 2);
    assert((2int) * (2int) + 4 * (1int) * (1int) > 5);
    assert(hole_cell(g, cx, cy, 14) =~= Seq::<Write>::empty());
    assert(cursor_writes(g, cx, cy, false, true) =~= void_at(g, cx, cy, -1, -1) + void_at(g, cx, cy, 0, -1)
        + void_at(g, cx, cy, 1, -1) + void_at(g, cx, cy, -2, 0) + void_at(g, cx, cy, -1, 0)
        + void_at(g, cx, cy, 0, 0) + void_at(g, cx, cy, 1, 0) + void_at(g, cx, cy, 2, 0)
        + void_at(g, cx, cy, -1, 1) + void_at(g, cx, cy, 0, 1) + void_at(g, cx, cy, 1, 1));
}


/// A text run puts character `i` of the text at column `col + i` of its
/// row, stops before the right border (column `w - 1`), and shows the whole
/// text when it fits.
pub proof fn lemma_text_run(w: int, row: int, col: int, text: Seq<u8>, shade: Shade)
    requires
        w >= 1,
        col >= 0,
    ensures
        forall|i: int|
            0 <= i < run(w, row, col, text, shade).len() ==> #[trigger] run(w, row, col, text, shade)[i]
                == ((row * w + col + i) as usize, text[i], shade) && col + i < w - 1 && i < text.len(),
        col + text.len() < w ==> run(w, row, col, text, shade).len() == text.len(),
        col + text.len() >= w && col < w - 1 ==> run(w, row, col, text, shade).len() == w - 1 - col,
        col >= w - 1 ==> run(w, row, col, text, shade).len() == 0,
{
}

/// The last writes are the bottom border: the whole bottom row, corners at
/// both ends, in grey.
pub proof fn lemma_bottom_border(g: Geometry)
    requires
        g.ok(),
    ensures
        ({
            let b = bottom_writes(g);
            &&& b.len() >= g.w
            &&& forall|x: int|
                0 <= x < g.w ==> #[trigger] b[b.len() - g.w + x] == (
                    ((g.h - 1) * g.w + x) as usize,
                    if x == 0 || x == g.w - 1 {
                        43u8
                    } else {
                        45u8
                    },
                    Shade::Wall,
                )
        }),
{
    let b = bottom_writes(g);
    let front = floor_row(g) + blank_rows(g, g.h as int) + run(
        g.w as int,
        g.panel_top + 1,
        2,
        help_line_1(),
        Shade::Label,
    ) + run(g.w as int, g.panel_top + 2, 2, help_line_2(), Shade::Label) + bottom_sides(
        g,
        g.h as int,
    );
    assert(b == front + bottom_row(g));
    assert forall|x: int| 0 <= x < g.w implies #[trigger] b[b.len() - g.w + x] == (
        ((g.h - 1) * g.w + x) as usize,
        if x == 0 || x == g.w - 1 {
            43u8
        } else {
            45u8
        },
        Shade::Wall,
    ) by {
        assert(b[front.len() + x] == bottom_row(g)[x]);
    }
}


/// The side panel ends with its three texts, from column `panel_x + 2`:
/// the game's name on row 2, the score on row 4, the counter line on row 6;
/// without a panel nothing is drawn.
pub proof fn lemma_panel_texts(g: Geometry, title: Seq<u8>, score: Seq<u8>, info: Seq<u8>)
    requires
        g.ok(),
    ensures
        !g.panel ==> panel_writes(g, title, score, info) == Seq::<Write>::empty(),
        g.panel ==> ({
            let p = panel_writes(g, title, score, info);
            let texts = run(g.w as int, 2, g.panel_x + 2, title, Shade::Label) + run(
                g.w as int,
                4,
                g.panel_x + 2,
                score,
                Shade::Label,
            ) + run(g.w as int, 6, g.panel_x + 2, info, Shade::Label);
            &&& p.len() >= texts.len()
            &&& p.subrange(p.len() - texts.len(), p.len() as int) == texts
        }),
{
    if g.panel {
        let p = panel_writes(g, title, score, info);
        let texts = run(g.w as int, 2, g.panel_x + 2, title, Shade::Label) + run(
            g.w as int,
            4,
            g.panel_x + 2,
            score,
            Shade::Label,
        ) + run(g.w as int, 6, g.panel_x + 2, info, Shade::Label);
        let front = panel_divider(g, g.panel_top as int) + seq![
            (g.panel_x, '+' as u8, Shade::Wall),
            ((g.panel_top * g.w + g.panel_x) as usize, '+' as u8, Shade::Wall),
        ] + panel_roof(g);
        assert(p =~= front + texts);
        assert(p.subrange(p.len() - texts.len(), p.len() as int) =~= texts);
    }
}

} // verus!
