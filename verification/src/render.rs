//! Rendering of a buffer of iteration counts as text.

use vstd::prelude::*;
use vstd::string::*;
use crate::schedule::grid_view;

verus! {

/// The character of one cell: blank where the point escaped before the
/// iteration cap, a hash where it did not.
pub open spec fn cell_char(count: u32, iterations: u32) -> char {
    if count < iterations {
        ' '
    } else {
        '#'
    }
}

/// The line of one row: the characters of its cells, then a newline.
pub open spec fn row_text(row: Seq<u32>, iterations: u32) -> Seq<char> {
    row.map_values(|count: u32| cell_char(count, iterations)).push('\n')
}

/// The text of a buffer: the lines of its rows, first row first.
pub open spec fn text_of(rows: Seq<Seq<u32>>, iterations: u32) -> Seq<char> {
    rows.map_values(|row: Seq<u32>| row_text(row, iterations)).flatten()
}

/// Renders one row of counts as a line of text.
fn draw_row(row: &Vec<u32>, iterations: u32, out: &mut String)
    ensures
        final(out)@ == old(out)@ + row_text(row@, iterations),
{
    let ghost start = out@;
    let mut i: usize = 0;
    while i < row.len()
        invariant
            i <= row.len(),
            out@ == start + row@.take(i as int).map_values(
                |count: u32| cell_char(count, iterations),
            ),
        decreases row.len() - i,
    {
        proof {
            reveal_strlit(" ");
            reveal_strlit("#");
        }
        if row[i] < iterations {
            out.append(" ");
        } else {
            out.append("#");
        }
        i = i + 1;
    }
    proof {
        reveal_strlit("\n");
    }
    out.append("\n");
}

/// Renders a buffer of counts as text: one line per row, each ended by a
/// newline, the last one too.
pub fn draw(values: &Vec<Vec<u32>>, iterations: u32) -> (out: String)
    ensures
        out@ == text_of(grid_view(values@), iterations),
{
    let mut out = String::new();
    let mut i: usize = 0;
    while i < values.len()
        invariant
            i <= values.len(),
            out@ == text_of(grid_view(values@).take(i as int), iterations),
        decreases values.len() - i,
    {
        draw_row(&values[i], iterations, &mut out);
        proof {
            let rows = grid_view(values@);
            let lines = rows.take(i as int).map_values(|row: Seq<u32>| row_text(row, iterations));
            let line = row_text(rows[i as int], iterations);
            assert(rows.take(i + 1).map_values(|row: Seq<u32>| row_text(row, iterations))
                =~= lines.push(line));
            lines.lemma_flatten_push(line);
        }
        i = i + 1;
    }
    assert(grid_view(values@).take(values.len() as int) =~= grid_view(values@));
    out
}

/// The number of slots of the progress bar.
pub const BAR_SIZE: usize = 50;

/// The progress bar with `filled` of its slots filled.
pub open spec fn bar_text(filled: int) -> Seq<char> {
    seq!['['] + Seq::new(filled as nat, |i: int| '#') + Seq::new(
        (BAR_SIZE - filled) as nat,
        |i: int| '-',
    ) + seq![']']
}

/// Appends `count` copies of the one-character string `piece`.
fn append_repeated(out: &mut String, piece: &str, count: usize)
    requires
        piece@.len() == 1,
    ensures
        final(out)@ == old(out)@ + Seq::new(count as nat, |i: int| piece@[0]),
{
    let ghost start = out@;
    let mut i: usize = 0;
    while i < count
        invariant
            i <= count,
            piece@.len() == 1,
            out@ == start + Seq::new(i as nat, |k: int| piece@[0]),
        decreases count - i,
    {
        out.append(piece);
        i = i + 1;
    }
}

/// Draws the progress bar: an opening bracket, `filled` hashes, dashes for
/// the slots that are left, and a closing bracket.
pub fn progress_bar(filled: usize) -> (bar: String)
    requires
        filled <= BAR_SIZE,
    ensures
        bar@ == bar_text(filled as int),
{
    proof {
        reveal_strlit("[");
        reveal_strlit("#");
        reveal_strlit("-");
        reveal_strlit("]");
    }
    let mut bar = String::from_str("[");
    append_repeated(&mut bar, "#", filled);
    append_repeated(&mut bar, "-", BAR_SIZE - filled);
    bar.append("]");
    bar
}

} // verus!
