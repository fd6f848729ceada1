//! Scheduling of the per-pixel evaluation over the pixel grid.
//!
//! The evaluator is any function from a pixel `(column, row)` to an iteration
//! count. Every strategy fills the same buffer from it: one row of counts per
//! pixel row, one count per column.

use vstd::prelude::*;

verus! {

/// The iteration counts that a buffer holds, row by row.
pub open spec fn grid_view(buffer: Seq<Vec<u32>>) -> Seq<Seq<u32>> {
    buffer.map_values(|row: Vec<u32>| row@)
}

/// The evaluator accepts every pixel of the rows `first_row..end_row`.
pub open spec fn accepts_rows<F: Fn(u32, u32) -> u32>(
    f: F,
    width: u32,
    first_row: int,
    end_row: int,
) -> bool {
    forall|col: u32, row: u32|
        col < width && first_row <= row < end_row ==> call_requires(f, (col, row))
}

/// `row` holds, for pixel row `y`, a count of the evaluator in each of its
/// `width` columns.
pub open spec fn row_filled_by<F: Fn(u32, u32) -> u32>(
    row: Seq<u32>,
    f: F,
    width: u32,
    y: int,
) -> bool {
    &&& row.len() == width
    &&& forall|x: int| 0 <= x < width ==> call_ensures(f, (x as u32, y as u32), #[trigger] row[x])
}

/// `rows` holds the pixel rows from `first_row` on, in order, each filled by
/// the evaluator.
pub open spec fn rows_filled_by<F: Fn(u32, u32) -> u32>(
    rows: Seq<Seq<u32>>,
    f: F,
    width: u32,
    first_row: int,
) -> bool {
    forall|i: int|
        0 <= i < rows.len() ==> row_filled_by(#[trigger] rows[i], f, width, first_row + i)
}

/// `grid` is the complete buffer of a `width` by `height` pixel grid.
pub open spec fn filled_by<F: Fn(u32, u32) -> u32>(
    grid: Seq<Seq<u32>>,
    f: F,
    width: u32,
    height: u32,
) -> bool {
    &&& grid.len() == height
    &&& rows_filled_by(grid, f, width, 0)
}

/// Evaluates the pixel row `y`, column by column.
pub fn compute_row<F: Fn(u32, u32) -> u32>(width: u32, y: u32, f: &F) -> (row: Vec<u32>)
    requires
        accepts_rows(*f, width, y as int, y + 1),
    ensures
        row_filled_by(row@, *f, width, y as int),
{
    let mut row: Vec<u32> = Vec::new();
    let mut x: u32 = 0;
    while x < width
        invariant
            x <= width,
            row.len() == x,
            accepts_rows(*f, width, y as int, y + 1),
            forall|k: int| 0 <= k < x ==> call_ensures(*f, (k as u32, y), #[trigger] row@[k]),
        decreases width - x,
    {
        let count = f(x, y);
        row.push(count);
        x = x + 1;
    }
    row
}

/// Evaluates the pixel rows `first_row..end_row` in row-major order. This is
/// the work of one worker: it touches no row outside its range.
pub fn compute_rows<F: Fn(u32, u32) -> u32>(
    width: u32,
    first_row: u32,
    end_row: u32,
    f: &F,
) -> (rows: Vec<Vec<u32>>)
    requires
        first_row <= end_row,
        accepts_rows(*f, width, first_row as int, end_row as int),
    ensures
        rows.len() == end_row - first_row,
        rows_filled_by(grid_view(rows@), *f, width, first_row as int),
{
    let mut rows: Vec<Vec<u32>> = Vec::new();
    let mut y: u32 = first_row;
    while y < end_row
        invariant
            first_row <= y <= end_row,
            rows.len() == y - first_row,
            accepts_rows(*f, width, first_row as int, end_row as int),
            rows_filled_by(grid_view(rows@), *f, width, first_row as int),
        decreases end_row - y,
    {
        let row = compute_row(width, y, f);
        let ghost before = grid_view(rows@);
        let ghost counts = row@;
        rows.push(row);
        assert(grid_view(rows@) =~= before.push(counts));
        y = y + 1;
    }
    rows
}

/// The serial strategy: one scan over all rows, then all columns of each.
pub fn compute_serial<F: Fn(u32, u32) -> u32>(width: u32, height: u32, f: &F) -> (buffer: Vec<
    Vec<u32>,
>)
    requires
        accepts_rows(*f, width, 0, height as int),
    ensures
        filled_by(grid_view(buffer@), *f, width, height),
{
    compute_rows(width, 0, height, f)
}

/// The first row of partition `id` when `height` rows are divided among
/// `workers` workers.
pub open spec fn partition_start(height: int, workers: int, id: int) -> int {
    (height / workers) * id
}

/// The row after the last row of partition `id`. Every partition has
/// `height / workers` rows, except the last, which runs on to the last row of
/// the grid.
pub open spec fn partition_end(height: int, workers: int, id: int) -> int {
    if id == workers - 1 {
        height
    } else {
        (height / workers) * (id + 1)
    }
}

/// The partition that owns `row`.
pub open spec fn partition_of(height: int, workers: int, row: int) -> int {
    if row >= (height / workers) * (workers - 1) {
        workers - 1
    } else {
        row / (height / workers)
    }
}

/// The row ranges are well formed and lie inside the grid.
pub proof fn lemma_partition_bounds(height: int, workers: int, id: int)
    requires
        0 <= height,
        0 < workers,
        0 <= id < workers,
    ensures
        0 <= partition_start(height, workers, id) <= partition_end(height, workers, id) <= height,
{
    let part = height / workers;
    assert(0 <= part && part * workers <= height) by (nonlinear_arith)
        requires
            0 <= height,
            0 < workers,
            part == height / workers,
    ;
    assert(0 <= part * id && part * id <= part * (id + 1) && part * (id + 1) <= part * workers)
        by (nonlinear_arith)
        requires
            0 <= part,
            0 <= id < workers,
    ;
}

/// The row range `[start, end)` of partition `id`.
pub fn partition_range(height: u32, workers: u32, id: u32) -> (range: (u32, u32))
    requires
        0 < workers,
        id < workers,
    ensures
        range.0 == partition_start(height as int, workers as int, id as int),
        range.1 == partition_end(height as int, workers as int, id as int),
        range.0 <= range.1 <= height,
{
    let part: u32 = height / workers;
    proof {
        lemma_partition_bounds(height as int, workers as int, id as int);
        if id < workers - 1 {
            lemma_partition_bounds(height as int, workers as int, id + 1);
        }
    }
    let start: u32 = part * id;
    let end: u32 = if id == workers - 1 {
        height
    } else {
        part * (id + 1)
    };
    (start, end)
}

/// The partitions follow one another without a gap: the first starts at row
/// 0, each ends where the next starts, and the last ends with the grid.
pub proof fn lemma_partitions_adjoin(height: int, workers: int, id: int)
    requires
        0 <= height,
        0 < workers,
        0 <= id < workers,
    ensures
        partition_start(height, workers, 0) == 0,
        partition_end(height, workers, workers - 1) == height,
        id < workers - 1 ==> partition_end(height, workers, id) == partition_start(
            height,
            workers,
            id + 1,
        ),
{
    assert((height / workers) * 0 == 0) by (nonlinear_arith);
}

/// Every row of the grid lies in exactly one partition, the one that
/// `partition_of` names.
pub proof fn lemma_partitions_cover(height: int, workers: int, row: int, id: int)
    requires
        0 < workers,
        0 <= row < height,
        0 <= id < workers,
    ensures
        0 <= partition_of(height, workers, row) < workers,
        (partition_start(height, workers, id) <= row < partition_end(height, workers, id)) <==> id
            == partition_of(height, workers, row),
{
    let part = height / workers;
    let owner = partition_of(height, workers, row);
    assert(0 <= part && part * workers <= height) by (nonlinear_arith)
        requires
            0 <= height,
            0 < workers,
            part == height / workers,
    ;
    if row >= part * (workers - 1) {
        if id < workers - 1 {
            assert(part * (id + 1) <= part * (workers - 1)) by (nonlinear_arith)
                requires
                    0 <= part,
                    id + 1 <= workers - 1,
            ;
        }
    } else {
        assert(part > 0) by (nonlinear_arith)
            requires
                0 <= part,
                0 <= row < part * (workers - 1),
        ;
        assert(0 <= owner && part * owner <= row < part * (owner + 1)) by (nonlinear_arith)
            requires
                part > 0,
                0 <= row,
                owner == row / part,
        ;
        assert(owner < workers - 1) by (nonlinear_arith)
            requires
                part > 0,
                part * owner <= row,
                row < part * (workers - 1),
        ;
        if id < owner {
            assert(part * (id + 1) <= part * owner) by (nonlinear_arith)
                requires
                    0 <= part,
                    id + 1 <= owner,
            ;
        } else if id > owner {
            assert(part * (owner + 1) <= part * id) by (nonlinear_arith)
                requires
                    0 <= part,
                    owner + 1 <= id,
            ;
        }
    }
}

/// Where the number of workers divides the height evenly, every partition,
/// the last included, has exactly `height / workers` rows.
pub proof fn lemma_even_partitions(height: int, workers: int, id: int)
    requires
        0 <= height,
        0 < workers,
        height % workers == 0,
        0 <= id < workers,
    ensures
        partition_end(height, workers, id) == (height / workers) * (id + 1),
        partition_end(height, workers, id) - partition_start(height, workers, id) == height
            / workers,
{
    let part = height / workers;
    assert(part * workers == height) by (nonlinear_arith)
        requires
            0 < workers,
            height % workers == 0,
            part == height / workers,
    ;
    assert(part * (id + 1) - part * id == part) by (nonlinear_arith);
}

/// The rows of a sequence of partitions, one partition after another.
pub open spec fn joined(parts: Seq<Vec<Vec<u32>>>) -> Seq<Seq<u32>> {
    parts.map_values(|part: Vec<Vec<u32>>| grid_view(part@)).flatten()
}

/// Puts the rows that the workers computed into one buffer, in the order of
/// the partitions.
pub fn join_partitions(parts: Vec<Vec<Vec<u32>>>) -> (buffer: Vec<Vec<u32>>)
    ensures
        grid_view(buffer@) == joined(parts@),
{
    let mut parts = parts;
    let ghost whole = parts@;
    let mut buffer: Vec<Vec<u32>> = Vec::new();
    let mut id: usize = 0;
    while id < parts.len()
        invariant
            id <= parts.len(),
            parts.len() == whole.len(),
            forall|k: int| id <= k < whole.len() ==> parts@[k] == whole[k],
            grid_view(buffer@) == joined(whole.take(id as int)),
        decreases parts.len() - id,
    {
        let ghost part = grid_view(parts@[id as int]@);
        let mut rows: Vec<Vec<u32>> = Vec::new();
        std::mem::swap(&mut rows, &mut parts[id]);
        buffer.append(&mut rows);
        proof {
            let views = whole.take(id as int).map_values(|p: Vec<Vec<u32>>| grid_view(p@));
            assert(whole.take(id + 1).map_values(|p: Vec<Vec<u32>>| grid_view(p@)) =~= views.push(
                part,
            ));
            views.lemma_flatten_push(part);
        }
        id = id + 1;
    }
    assert(whole.take(whole.len() as int) =~= whole);
    buffer
}

/// `rows` is what the worker of partition `id` owes: the rows of its range,
/// each filled by the evaluator.
pub open spec fn partition_filled_by<F: Fn(u32, u32) -> u32>(
    rows: Seq<Seq<u32>>,
    f: F,
    width: u32,
    height: u32,
    workers: int,
    id: int,
) -> bool {
    &&& rows.len() == partition_end(height as int, workers, id) - partition_start(
        height as int,
        workers,
        id,
    )
    &&& rows_filled_by(rows, f, width, partition_start(height as int, workers, id))
}

proof fn lemma_joined_prefix<F: Fn(u32, u32) -> u32>(
    parts: Seq<Vec<Vec<u32>>>,
    f: F,
    width: u32,
    height: u32,
    workers: int,
    k: int,
)
    requires
        0 < workers,
        parts.len() == workers,
        0 <= k <= workers,
        forall|id: int|
            0 <= id < workers ==> partition_filled_by(
                grid_view(#[trigger] parts[id]@),
                f,
                width,
                height,
                workers,
                id,
            ),
    ensures
        joined(parts.take(k)).len() == if k == workers {
            height as int
        } else {
            partition_start(height as int, workers, k)
        },
        rows_filled_by(joined(parts.take(k)), f, width, 0),
    decreases k,
{
    if k == 0 {
        lemma_partitions_adjoin(height as int, workers, 0);
    } else {
        lemma_joined_prefix(parts, f, width, height, workers, k - 1);
        lemma_partitions_adjoin(height as int, workers, k - 1);
        let head = joined(parts.take(k - 1));
        let part = grid_view(parts[k - 1]@);
        let views = parts.take(k - 1).map_values(|p: Vec<Vec<u32>>| grid_view(p@));
        assert(parts.take(k).map_values(|p: Vec<Vec<u32>>| grid_view(p@)) =~= views.push(part));
        views.lemma_flatten_push(part);
        assert forall|i: int| 0 <= i < (head + part).len() implies row_filled_by(
            #[trigger] (head + part)[i],
            f,
            width,
            0 + i,
        ) by {
            if i >= head.len() {
                assert((head + part)[i] == part[i - head.len()]);
            }
        }
    }
}

/// Partitions that each hold what their worker owes make up, joined in
/// order, the complete buffer of the grid.
pub proof fn lemma_joined_partitions_fill<F: Fn(u32, u32) -> u32>(
    parts: Seq<Vec<Vec<u32>>>,
    f: F,
    width: u32,
    height: u32,
    workers: int,
)
    requires
        0 < workers,
        parts.len() == workers,
        forall|id: int|
            0 <= id < workers ==> partition_filled_by(
                grid_view(#[trigger] parts[id]@),
                f,
                width,
                height,
                workers,
                id,
            ),
    ensures
        filled_by(joined(parts), f, width, height),
{
    lemma_joined_prefix(parts, f, width, height, workers, workers);
    assert(parts.take(workers) =~= parts);
}

/// The partitioned strategy, run on the calling thread: the rows are divided
/// among `workers` partitions, each partition is computed on its own, and the
/// partitions are joined in order.
pub fn compute_partitioned<F: Fn(u32, u32) -> u32>(
    width: u32,
    height: u32,
    workers: u32,
    f: &F,
) -> (buffer: Vec<Vec<u32>>)
    requires
        0 < workers,
        accepts_rows(*f, width, 0, height as int),
    ensures
        filled_by(grid_view(buffer@), *f, width, height),
{
    let mut parts: Vec<Vec<Vec<u32>>> = Vec::new();
    let mut id: u32 = 0;
    while id < workers
        invariant
            0 < workers,
            id <= workers,
            parts.len() == id,
            accepts_rows(*f, width, 0, height as int),
            forall|k: int|
                0 <= k < id ==> partition_filled_by(
                    grid_view(#[trigger] parts@[k]@),
                    *f,
                    width,
                    height,
                    workers as int,
                    k,
                ),
        decreases workers - id,
    {
        let (start, end) = partition_range(height, workers, id);
        let rows = compute_rows(width, start, end, f);
        parts.push(rows);
        id = id + 1;
    }
    proof {
        lemma_joined_partitions_fill(parts@, *f, width, height, workers as int);
    }
    join_partitions(parts)
}

} // verus!
