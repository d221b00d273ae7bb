//! The render sink: from runs of colours to text with terminal colour codes.

use crate::color::RGBSum;
use crate::grid::ColorGrid;
use crate::rle::{encode_row, runs_of, RgbCount};
use vstd::prelude::*;
use vstd::string::*;

verus! {

/// The glyph that stands for one cell of the grid.
pub const GLYPH: char = '$';

/// The character of the decimal digit `d`.
pub open spec fn digit(d: int) -> char {
    if d == 0 {
        '0'
    } else if d == 1 {
        '1'
    } else if d == 2 {
        '2'
    } else if d == 3 {
        '3'
    } else if d == 4 {
        '4'
    } else if d == 5 {
        '5'
    } else if d == 6 {
        '6'
    } else if d == 7 {
        '7'
    } else if d == 8 {
        '8'
    } else {
        '9'
    }
}

/// A channel value in decimal, without leading zeros.
pub open spec fn decimal(n: u8) -> Seq<char> {
    let v = n as int;
    if v < 10 {
        seq![digit(v)]
    } else if v < 100 {
        seq![digit(v / 10), digit(v % 10)]
    } else {
        seq![digit(v / 100), digit(v / 10 % 10), digit(v % 10)]
    }
}

/// The escape code that sets the foreground colour `(r, g, b)`: escape, `[`,
/// `38;2;`, the three channels in decimal with `;` between them, and `m`.
pub open spec fn color_code(r: u8, g: u8, b: u8) -> Seq<char> {
    seq!['\u{1b}', '[', '3', '8', ';', '2', ';'] + decimal(r) + seq![';'] + decimal(g) + seq![';']
        + decimal(b) + seq!['m']
}

/// The escape code that resets the colour: escape, `[0m`.
pub open spec fn reset_code() -> Seq<char> {
    seq!['\u{1b}', '[', '0', 'm']
}

/// `text` painted in the foreground colour `(r, g, b)`: the colour's code,
/// the text, and the code that resets the colour.
pub open spec fn painted(r: u8, g: u8, b: u8, text: Seq<char>) -> Seq<char> {
    color_code(r, g, b) + text + reset_code()
}

/// `ansi_term::Colour::paint` on `Colour::RGB(r, g, b)`, and the painted
/// string written out by its `Display`: the prefix of a style that has a
/// foreground colour and nothing else, which is the colour's code, then the
/// text as it is, then the suffix, which resets the colour.
#[verifier::external_body]
fn paint(r: u8, g: u8, b: u8, text: &str) -> (out: String)
    ensures
        out@ == painted(r, g, b, text@),
{
    ansi_term::Colour::RGB(r, g, b).paint(text).to_string()
}

/// The low eight bits of a channel.
pub open spec fn low_byte(channel: u64) -> u8 {
    (channel % 256) as u8
}

/// A channel of eight bits is its own low byte: of a colour with 8-bit
/// channels nothing is cut off.
pub proof fn lemma_low_byte_of_color(color: RGBSum)
    requires
        color.is_color(),
    ensures
        low_byte(color.r) == color.r,
        low_byte(color.g) == color.g,
        low_byte(color.b) == color.b,
{
}

/// `count` glyphs.
pub open spec fn glyphs_of(count: nat) -> Seq<char> {
    Seq::new(count, |i: int| GLYPH)
}

/// The text of one run: its glyphs, painted in its colour.
pub open spec fn run_text(run: RgbCount) -> Seq<char> {
    painted(
        low_byte(run.rgb_sum.r),
        low_byte(run.rgb_sum.g),
        low_byte(run.rgb_sum.b),
        glyphs_of(run.count as nat),
    )
}

/// The texts of a sequence of runs, one after the other.
pub open spec fn runs_text(runs: Seq<RgbCount>) -> Seq<char>
    decreases runs.len(),
{
    if runs.len() == 0 {
        Seq::empty()
    } else {
        runs_text(runs.drop_last()) + run_text(runs.last())
    }
}

/// The line of text for one row of the grid: the texts of its runs, then a
/// line feed.
pub open spec fn row_text(row: Seq<RGBSum>) -> Seq<char> {
    runs_text(runs_of(row)).push('\n')
}

/// The text for a whole grid: the lines of its rows from top to bottom.
pub open spec fn grid_text(cells: Seq<Seq<RGBSum>>) -> Seq<char>
    decreases cells.len(),
{
    if cells.len() == 0 {
        Seq::empty()
    } else {
        grid_text(cells.drop_last()) + row_text(cells.last())
    }
}

/// A string of `count` glyphs.
pub fn glyphs(count: usize) -> (text: String)
    ensures
        text@ == glyphs_of(count as nat),
{
    let mut text = String::new();
    let mut i: usize = 0;
    while i < count
        invariant
            i <= count,
            text@ == glyphs_of(i as nat),
        decreases count - i,
    {
        proof {
            reveal_strlit("$");
        }
        text.append("$");
        i = i + 1;
        assert(text@ =~= glyphs_of(i as nat));
    }
    text
}

/// The text of one run: `count` glyphs in the run's colour, each channel cut
/// down to its low eight bits.
pub fn render_run(run: &RgbCount) -> (text: String)
    ensures
        text@ == run_text(*run),
{
    let r = run.rgb_sum.r;
    let g = run.rgb_sum.g;
    let b = run.rgb_sum.b;
    assert(r as u8 == (r % 256) as u8) by (bit_vector);
    assert(g as u8 == (g % 256) as u8) by (bit_vector);
    assert(b as u8 == (b % 256) as u8) by (bit_vector);
    let text = glyphs(run.count);
    paint(r as u8, g as u8, b as u8, text.as_str())
}

/// The texts of `parts`, one after the other.
pub open spec fn joined(parts: Seq<String>) -> Seq<char>
    decreases parts.len(),
{
    if parts.len() == 0 {
        Seq::empty()
    } else {
        joined(parts.drop_last()) + parts.last()@
    }
}

/// Writes the strings of `parts` one after the other, in their order.
pub fn join(parts: &Vec<String>) -> (text: String)
    ensures
        text@ == joined(parts@),
{
    let mut text = String::new();
    let mut i: usize = 0;
    while i < parts.len()
        invariant
            i <= parts@.len(),
            text@ == joined(parts@.take(i as int)),
        decreases parts@.len() - i,
    {
        text.append(parts[i].as_str());
        proof {
            assert(parts@.take(i + 1).drop_last() =~= parts@.take(i as int));
        }
        i = i + 1;
    }
    assert(parts@.take(i as int) =~= parts@);
    text
}

/// Strings that hold the texts of the runs, one for one, join to the text of
/// the runs.
proof fn lemma_joined_runs(parts: Seq<String>, runs: Seq<RgbCount>)
    requires
        parts.len() == runs.len(),
        forall|i: int| 0 <= i < runs.len() ==> (#[trigger] parts[i])@ == run_text(runs[i]),
    ensures
        joined(parts) == runs_text(runs),
    decreases runs.len(),
{
    if runs.len() > 0 {
        lemma_joined_runs(parts.drop_last(), runs.drop_last());
    }
}

/// Strings that hold the lines of the rows, one for one, join to the text of
/// the grid.
proof fn lemma_joined_rows(parts: Seq<String>, cells: Seq<Seq<RGBSum>>)
    requires
        parts.len() == cells.len(),
        forall|i: int| 0 <= i < cells.len() ==> (#[trigger] parts[i])@ == row_text(cells[i]),
    ensures
        joined(parts) == grid_text(cells),
    decreases cells.len(),
{
    if cells.len() > 0 {
        lemma_joined_rows(parts.drop_last(), cells.drop_last());
    }
}

/// The line of text for one row of the grid: each run of equal neighbours as
/// one painted stretch of glyphs, from left to right, then a line feed.
pub fn render_row(row: &[RGBSum]) -> (line: String)
    ensures
        line@ == row_text(row@),
{
    let runs = encode_row(row);
    let mut parts: Vec<String> = Vec::new();
    let mut i: usize = 0;
    while i < runs.len()
        invariant
            i <= runs@.len(),
            parts@.len() == i,
            forall|j: int| 0 <= j < i ==> (#[trigger] parts@[j])@ == run_text(runs@[j]),
        decreases runs@.len() - i,
    {
        parts.push(render_run(&runs[i]));
        i = i + 1;
    }
    let mut line = join(&parts);
    proof {
        lemma_joined_runs(parts@, runs@);
        reveal_strlit("\n");
    }
    line.append("\n");
    assert(line@ =~= row_text(row@));
    line
}

/// The text for a whole grid: one line for each row, from top to bottom.
pub fn render_grid(grid: &ColorGrid) -> (text: String)
    ensures
        text@ == grid_text(grid@),
{
    let mut lines: Vec<String> = Vec::new();
    let mut y: usize = 0;
    while y < grid.rows.len()
        invariant
            y <= grid@.len(),
            grid@.len() == grid.rows@.len(),
            lines@.len() == y,
            forall|j: int| 0 <= j < y ==> (#[trigger] lines@[j])@ == row_text(grid@[j]),
        decreases grid@.len() - y,
    {
        lines.push(render_row(grid.rows[y].as_slice()));
        y = y + 1;
    }
    proof {
        lemma_joined_rows(lines@, grid@);
    }
    join(&lines)
}

} // verus!
