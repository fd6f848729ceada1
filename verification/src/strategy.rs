//! The choice among the execution strategies, and what they have in common.

use vstd::prelude::*;
use crate::grid::{
    cell_done,
    compute_grid,
    flat_filled_by,
    flat_offset,
    lemma_offset_in_bounds,
    rows_from_flat,
    rows_of_flat,
};
use crate::schedule::{
    accepts_rows,
    compute_partitioned,
    compute_serial,
    filled_by,
    grid_view,
    row_filled_by,
};

verus! {

/// The number of workers of the partitioned strategy where none is chosen.
pub const DEFAULT_WORKERS: u32 = 10;

/// How the pixel grid is walked.
#[derive(Clone, Copy, Debug, PartialEq, Eq)]
pub enum Strategy {
    /// One scan in row-major order.
    Serial,
    /// The rows divided among `workers` partitions.
    Partitioned { workers: u32 },
    /// One thread per pixel, launched in blocks of the given size.
    Grid { block_width: u32, block_height: u32 },
}

impl Strategy {
    /// The strategy can walk a `width` by `height` grid: it has at least one
    /// worker, or blocks of at least one thread and a flat buffer that the
    /// machine can address.
    pub open spec fn runs_on(self, width: u32, height: u32) -> bool {
        match self {
            Strategy::Serial => true,
            Strategy::Partitioned { workers } => workers > 0,
            Strategy::Grid { block_width, block_height } => {
                &&& block_width > 0
                &&& block_height > 0
                &&& width * height <= usize::MAX
            },
        }
    }

    /// Tests whether the strategy can walk a `width` by `height` grid.
    pub fn can_run(&self, width: u32, height: u32) -> (ok: bool)
        ensures
            ok == self.runs_on(width, height),
    {
        match self {
            Strategy::Serial => true,
            Strategy::Partitioned { workers } => *workers > 0,
            Strategy::Grid { block_width, block_height } => {
                assert(width * height <= u64::MAX) by (nonlinear_arith)
                    requires
                        width <= u32::MAX,
                        height <= u32::MAX,
                ;
                let cells: u64 = (width as u64) * (height as u64);
                *block_width > 0 && *block_height > 0 && cells <= usize::MAX as u64
            },
        }
    }
}

/// The evaluator gives each pixel one count, whenever it is asked.
pub open spec fn single_valued<F: Fn(u32, u32) -> u32>(f: F) -> bool {
    forall|x: u32, y: u32, a: u32, b: u32|
        #[trigger] call_ensures(f, (x, y), a) && #[trigger] call_ensures(f, (x, y), b) ==> a == b
}

/// The rows of a complete flat buffer make up a complete buffer.
pub proof fn lemma_rows_of_flat_filled<F: Fn(u32, u32) -> u32>(
    flat: Seq<u32>,
    f: F,
    width: u32,
    height: u32,
)
    requires
        flat_filled_by(flat, f, width, height),
    ensures
        filled_by(rows_of_flat(flat, width as int, height as int), f, width, height),
{
    let rows = rows_of_flat(flat, width as int, height as int);
    assert forall|y: int| 0 <= y < rows.len() implies row_filled_by(
        #[trigger] rows[y],
        f,
        width,
        0 + y,
    ) by {
        assert forall|x: int| 0 <= x < width implies call_ensures(
            f,
            (x as u32, y as u32),
            #[trigger] rows[y][x],
        ) by {
            assert(cell_done(flat, f, width, x as u32, y as u32));
        }
    }
}

/// Fills the buffer of a `width` by `height` grid by the chosen strategy.
pub fn compute<F: Fn(u32, u32) -> u32>(strategy: Strategy, width: u32, height: u32, f: &F) -> (buffer:
    Vec<Vec<u32>>)
    requires
        strategy.runs_on(width, height),
        accepts_rows(*f, width, 0, height as int),
    ensures
        filled_by(grid_view(buffer@), *f, width, height),
{
    match strategy {
        Strategy::Serial => compute_serial(width, height, f),
        Strategy::Partitioned { workers } => compute_partitioned(width, height, workers, f),
        Strategy::Grid { block_width, block_height } => {
            let flat = compute_grid(width, height, block_width, block_height, f);
            proof {
                lemma_rows_of_flat_filled(flat@, *f, width, height);
            }
            rows_from_flat(&flat, width, height)
        },
    }
}

/// Two complete buffers of one grid, from an evaluator that gives each pixel
/// one count, are equal cell by cell, whichever strategy filled them.
pub proof fn lemma_buffers_agree<F: Fn(u32, u32) -> u32>(
    f: F,
    width: u32,
    height: u32,
    first: Seq<Seq<u32>>,
    second: Seq<Seq<u32>>,
)
    requires
        single_valued(f),
        filled_by(first, f, width, height),
        filled_by(second, f, width, height),
    ensures
        first == second,
{
    assert forall|y: int| 0 <= y < height implies first[y] == second[y] by {
        assert(row_filled_by(first[y], f, width, 0 + y));
        assert(row_filled_by(second[y], f, width, 0 + y));
        assert(first[y] =~= second[y]);
    }
}

/// The flat buffer of the grid strategy holds, at the place of each pixel,
/// the count that a buffer of rows holds for it.
pub proof fn lemma_flat_agrees<F: Fn(u32, u32) -> u32>(
    f: F,
    width: u32,
    height: u32,
    rows: Seq<Seq<u32>>,
    flat: Seq<u32>,
)
    requires
        single_valued(f),
        filled_by(rows, f, width, height),
        flat_filled_by(flat, f, width, height),
    ensures
        rows == rows_of_flat(flat, width as int, height as int),
        forall|x: int, y: int|
            0 <= x < width && 0 <= y < height ==> flat[#[trigger] flat_offset(x, y, width as int)]
                == rows[y][x],
{
    lemma_rows_of_flat_filled(flat, f, width, height);
    lemma_buffers_agree(f, width, height, rows, rows_of_flat(flat, width as int, height as int));
    assert forall|x: int, y: int| 0 <= x < width && 0 <= y < height implies flat[#[trigger] flat_offset(
        x,
        y,
        width as int,
    )] == rows[y][x] by {
        lemma_offset_in_bounds(x, y, width as int, height as int);
    }
}

} // verus!
