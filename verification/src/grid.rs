//! The grid strategy: one thread per pixel, launched in blocks, each thread
//! writing its single count into a flat buffer.
//!
//! The functions here state what a thread, a block and a whole launch do to
//! the buffer, and run them on the calling thread. A device runs the same
//! threads in any order; no thread reads what another wrote.

use vstd::prelude::*;
use crate::schedule::accepts_rows;

verus! {

/// The place of pixel `(x, y)` in a flat buffer of rows `width` wide.
pub open spec fn flat_offset(x: int, y: int, width: int) -> int {
    x + y * width
}

/// The flat buffer holds a count of the evaluator at the place of pixel
/// `(x, y)`.
pub open spec fn cell_done<F: Fn(u32, u32) -> u32>(
    flat: Seq<u32>,
    f: F,
    width: u32,
    x: u32,
    y: u32,
) -> bool {
    call_ensures(f, (x, y), flat[flat_offset(x as int, y as int, width as int)])
}

/// `flat` is the complete flat buffer of a `width` by `height` pixel grid.
pub open spec fn flat_filled_by<F: Fn(u32, u32) -> u32>(
    flat: Seq<u32>,
    f: F,
    width: u32,
    height: u32,
) -> bool {
    &&& flat.len() == width * height
    &&& forall|x: u32, y: u32|
        x < width && y < height ==> #[trigger] cell_done(flat, f, width, x, y)
}

/// The places of the pixels of a grid lie inside its flat buffer.
pub proof fn lemma_offset_in_bounds(x: int, y: int, width: int, height: int)
    requires
        0 <= x < width,
        0 <= y < height,
    ensures
        0 <= flat_offset(x, y, width) < width * height,
{
    assert(0 <= y * width && y * width + width <= height * width) by (nonlinear_arith)
        requires
            0 <= y < height,
            0 < width,
    ;
    assert(height * width == width * height) by (nonlinear_arith);
}

/// Two pixels share a place only if they are the same pixel: no two threads
/// write the same cell.
pub proof fn lemma_offset_injective(x1: int, y1: int, x2: int, y2: int, width: int)
    requires
        0 <= x1 < width,
        0 <= x2 < width,
        flat_offset(x1, y1, width) == flat_offset(x2, y2, width),
    ensures
        x1 == x2,
        y1 == y2,
{
    if y1 < y2 {
        assert(y1 * width + width <= y2 * width) by (nonlinear_arith)
            requires
                y1 + 1 <= y2,
                0 < width,
        ;
    } else if y2 < y1 {
        assert(y2 * width + width <= y1 * width) by (nonlinear_arith)
            requires
                y2 + 1 <= y1,
                0 < width,
        ;
    }
}

/// What a thread with index `(x, y)` does: outside the grid it has nothing to
/// write; inside, it writes at the place of its pixel.
pub fn thread_offset(x: u64, y: u64, width: u32, height: u32) -> (offset: Option<u64>)
    ensures
        match offset {
            Some(at) => x < width && y < height && at == flat_offset(
                x as int,
                y as int,
                width as int,
            ),
            None => !(x < width && y < height),
        },
{
    if x >= width as u64 || y >= height as u64 {
        return None;
    }
    assert(x + y * width <= u64::MAX) by (nonlinear_arith)
        requires
            x < width <= u32::MAX,
            y <= u32::MAX,
    ;
    Some(x + y * (width as u64))
}

/// Runs the thread with index `(x, y)`: a thread outside the grid leaves the
/// buffer as it is, a thread inside evaluates its pixel and writes the count
/// at its place, and nowhere else.
pub fn run_thread<F: Fn(u32, u32) -> u32>(
    x: u64,
    y: u64,
    width: u32,
    height: u32,
    f: &F,
    out: &mut Vec<u32>,
)
    requires
        old(out).len() == width * height,
        accepts_rows(*f, width, 0, height as int),
    ensures
        final(out).len() == old(out).len(),
        x < width && y < height ==> cell_done(final(out)@, *f, width, x as u32, y as u32)
            && final(out)@ == old(out)@.update(
            flat_offset(x as int, y as int, width as int),
            final(out)@[flat_offset(x as int, y as int, width as int)],
        ),
        !(x < width && y < height) ==> final(out)@ == old(out)@,
{
    match thread_offset(x, y, width, height) {
        None => {},
        Some(offset) => {
            proof {
                lemma_offset_in_bounds(x as int, y as int, width as int, height as int);
            }
            let count = f(x as u32, y as u32);
            out[offset as usize] = count;
        },
    }
}

/// The number of blocks of `block` threads that it takes to cover `extent`
/// pixels along one axis.
pub open spec fn blocks_needed(extent: int, block: int) -> int {
    (extent + block - 1) / block
}

/// The blocks cover the axis, and no block lies wholly beyond it.
pub proof fn lemma_blocks_cover(extent: int, block: int)
    requires
        0 <= extent,
        0 < block,
    ensures
        0 <= blocks_needed(extent, block) <= extent,
        extent <= blocks_needed(extent, block) * block < extent + block,
{
    let count = blocks_needed(extent, block);
    assert(count * block <= extent + block - 1 < count * block + block) by (nonlinear_arith)
        requires
            0 < block,
            count == (extent + block - 1) / block,
    ;
    assert(0 <= count <= extent) by (nonlinear_arith)
        requires
            0 <= extent,
            0 < block,
            extent <= count * block < extent + block,
    ;
}

/// Computes the number of blocks along one axis of the launch.
pub fn launch_blocks(extent: u32, block: u32) -> (count: u32)
    requires
        0 < block,
    ensures
        count == blocks_needed(extent as int, block as int),
{
    proof {
        lemma_blocks_cover(extent as int, block as int);
    }
    let padded: u64 = extent as u64 + block as u64 - 1;
    (padded / (block as u64)) as u32
}

/// Pixel `(x, y)` belongs to the threads of block `(bx, by)`.
pub open spec fn in_block(x: int, y: int, bx: int, by: int, bw: int, bh: int) -> bool {
    &&& bx * bw <= x < bx * bw + bw
    &&& by * bh <= y < by * bh + bh
}

/// The cell of pixel `(x, y)` holds in `after` what it held in `before`.
pub open spec fn cell_kept(before: Seq<u32>, after: Seq<u32>, width: u32, x: u32, y: u32) -> bool {
    after[flat_offset(x as int, y as int, width as int)] == before[flat_offset(
        x as int,
        y as int,
        width as int,
    )]
}

/// A thread changes no cell but that of its own pixel.
proof fn lemma_thread_keeps_others(
    before: Seq<u32>,
    after: Seq<u32>,
    width: u32,
    height: u32,
    x: u64,
    y: u64,
)
    requires
        before.len() == width * height,
        x < width && y < height ==> after == before.update(
            flat_offset(x as int, y as int, width as int),
            after[flat_offset(x as int, y as int, width as int)],
        ),
        !(x < width && y < height) ==> after == before,
    ensures
        forall|px: u32, py: u32|
            px < width && py < height && !(px == x && py == y) ==> #[trigger] cell_kept(
                before,
                after,
                width,
                px,
                py,
            ),
{
    assert forall|px: u32, py: u32| px < width && py < height && !(px == x && py == y) implies
        #[trigger] cell_kept(before, after, width, px, py) by {
        lemma_offset_in_bounds(px as int, py as int, width as int, height as int);
        if x < width && y < height {
            lemma_offset_in_bounds(x as int, y as int, width as int, height as int);
            if flat_offset(px as int, py as int, width as int) == flat_offset(
                x as int,
                y as int,
                width as int,
            ) {
                lemma_offset_injective(px as int, py as int, x as int, y as int, width as int);
            }
        }
    }
}

/// Runs the threads of block `(bx, by)`, row by row. Afterwards every pixel
/// of the block that lies in the grid is done, and every other cell of the
/// grid is as it was.
pub fn run_block<F: Fn(u32, u32) -> u32>(
    bx: u32,
    by: u32,
    block_width: u32,
    block_height: u32,
    width: u32,
    height: u32,
    f: &F,
    out: &mut Vec<u32>,
)
    requires
        old(out).len() == width * height,
        accepts_rows(*f, width, 0, height as int),
    ensures
        final(out).len() == old(out).len(),
        forall|x: u32, y: u32|
            x < width && y < height && in_block(
                x as int,
                y as int,
                bx as int,
                by as int,
                block_width as int,
                block_height as int,
            ) ==> #[trigger] cell_done(final(out)@, *f, width, x, y),
        forall|x: u32, y: u32|
            x < width && y < height && !in_block(
                x as int,
                y as int,
                bx as int,
                by as int,
                block_width as int,
                block_height as int,
            ) ==> #[trigger] cell_kept(old(out)@, final(out)@, width, x, y),
{
    assert(bx * block_width <= 0xffff_ffff * 0xffff_ffff && by * block_height <= 0xffff_ffff
        * 0xffff_ffff) by (nonlinear_arith)
        requires
            bx <= 0xffff_ffff,
            by <= 0xffff_ffff,
            block_width <= 0xffff_ffff,
            block_height <= 0xffff_ffff,
    ;
    let x0: u64 = (bx as u64) * (block_width as u64);
    let y0: u64 = (by as u64) * (block_height as u64);
    let mut ty: u32 = 0;
    while ty < block_height
        invariant
            ty <= block_height,
            x0 == bx * block_width,
            y0 == by * block_height,
            x0 <= 0xffff_ffff * 0xffff_ffff,
            y0 <= 0xffff_ffff * 0xffff_ffff,
            out.len() == width * height,
            old(out).len() == width * height,
            accepts_rows(*f, width, 0, height as int),
            forall|x: u32, y: u32|
                x < width && y < height && x0 <= x < x0 + block_width && y0 <= y < y0 + ty
                    ==> #[trigger] cell_done(out@, *f, width, x, y),
            forall|x: u32, y: u32|
                x < width && y < height && !in_block(
                    x as int,
                    y as int,
                    bx as int,
                    by as int,
                    block_width as int,
                    block_height as int,
                ) ==> #[trigger] cell_kept(old(out)@, out@, width, x, y),
        decreases block_height - ty,
    {
        let mut tx: u32 = 0;
        while tx < block_width
            invariant
                tx <= block_width,
                ty < block_height,
                x0 == bx * block_width,
                y0 == by * block_height,
                x0 <= 0xffff_ffff * 0xffff_ffff,
                y0 <= 0xffff_ffff * 0xffff_ffff,
                out.len() == width * height,
                old(out).len() == width * height,
                accepts_rows(*f, width, 0, height as int),
                forall|x: u32, y: u32|
                    x < width && y < height && x0 <= x < x0 + block_width && (y0 <= y < y0 + ty
                        || (y == y0 + ty && x < x0 + tx)) ==> #[trigger] cell_done(
                        out@,
                        *f,
                        width,
                        x,
                        y,
                    ),
                forall|x: u32, y: u32|
                    x < width && y < height && !in_block(
                        x as int,
                        y as int,
                        bx as int,
                        by as int,
                        block_width as int,
                        block_height as int,
                    ) ==> #[trigger] cell_kept(old(out)@, out@, width, x, y),
            decreases block_width - tx,
        {
            let ghost before = out@;
            let x: u64 = x0 + tx as u64;
            let y: u64 = y0 + ty as u64;
            run_thread(x, y, width, height, f, out);
            proof {
                lemma_thread_keeps_others(before, out@, width, height, x, y);
                assert forall|px: u32, py: u32|
                    px < width && py < height && x0 <= px < x0 + block_width && (y0 <= py < y0
                        + ty || (py == y0 + ty && px < x0 + tx + 1)) implies #[trigger] cell_done(
                    out@,
                    *f,
                    width,
                    px,
                    py,
                ) by {
                    if !(px == x && py == y) {
                        assert(cell_kept(before, out@, width, px, py));
                        assert(cell_done(before, *f, width, px, py));
                    }
                }
                assert forall|px: u32, py: u32|
                    px < width && py < height && !in_block(
                        px as int,
                        py as int,
                        bx as int,
                        by as int,
                        block_width as int,
                        block_height as int,
                    ) implies #[trigger] cell_kept(old(out)@, out@, width, px, py) by {
                    assert(cell_kept(before, out@, width, px, py));
                    assert(cell_kept(old(out)@, before, width, px, py));
                }
            }
            tx = tx + 1;
        }
        ty = ty + 1;
    }
}

/// The grid strategy: launches enough blocks of `block_width` by
/// `block_height` threads to cover the grid and runs them all. The buffer
/// that comes back holds the count of every pixel at its place.
pub fn compute_grid<F: Fn(u32, u32) -> u32>(
    width: u32,
    height: u32,
    block_width: u32,
    block_height: u32,
    f: &F,
) -> (flat: Vec<u32>)
    requires
        0 < block_width,
        0 < block_height,
        width * height <= usize::MAX,
        accepts_rows(*f, width, 0, height as int),
    ensures
        flat_filled_by(flat@, *f, width, height),
{
    let total: usize = (width as usize) * (height as usize);
    let mut out: Vec<u32> = vec![0u32; total];
    let grid_width = launch_blocks(width, block_width);
    let grid_height = launch_blocks(height, block_height);
    proof {
        lemma_blocks_cover(width as int, block_width as int);
        lemma_blocks_cover(height as int, block_height as int);
    }
    let mut by: u32 = 0;
    while by < grid_height
        invariant
            by <= grid_height,
            0 < block_width,
            0 < block_height,
            width <= grid_width * block_width,
            height <= grid_height * block_height,
            out.len() == width * height,
            accepts_rows(*f, width, 0, height as int),
            forall|x: u32, y: u32|
                x < width && y < height && y < by * block_height ==> #[trigger] cell_done(
                    out@,
                    *f,
                    width,
                    x,
                    y,
                ),
        decreases grid_height - by,
    {
        let mut bx: u32 = 0;
        while bx < grid_width
            invariant
                bx <= grid_width,
                by < grid_height,
                0 < block_width,
                0 < block_height,
                width <= grid_width * block_width,
                out.len() == width * height,
                accepts_rows(*f, width, 0, height as int),
                forall|x: u32, y: u32|
                    x < width && y < height && (y < by * block_height || (y < by * block_height
                        + block_height && x < bx * block_width)) ==> #[trigger] cell_done(
                        out@,
                        *f,
                        width,
                        x,
                        y,
                    ),
            decreases grid_width - bx,
        {
            let ghost before = out@;
            run_block(bx, by, block_width, block_height, width, height, f, &mut out);
            proof {
                assert((bx + 1) * block_width == bx * block_width + block_width)
                    by (nonlinear_arith);
                assert forall|x: u32, y: u32|
                    x < width && y < height && (y < by * block_height || (y < by * block_height
                        + block_height && x < (bx + 1) * block_width)) implies #[trigger] cell_done(
                    out@,
                    *f,
                    width,
                    x,
                    y,
                ) by {
                    if !in_block(
                        x as int,
                        y as int,
                        bx as int,
                        by as int,
                        block_width as int,
                        block_height as int,
                    ) {
                        assert(cell_kept(before, out@, width, x, y));
                        assert(cell_done(before, *f, width, x, y));
                    }
                }
            }
            bx = bx + 1;
        }
        proof {
            assert((by + 1) * block_height == by * block_height + block_height)
                by (nonlinear_arith);
        }
        by = by + 1;
    }
    out
}

/// The rows of a flat buffer: row `y` is the `width` cells from the place of
/// pixel `(0, y)` on.
pub open spec fn rows_of_flat(flat: Seq<u32>, width: int, height: int) -> Seq<Seq<u32>> {
    Seq::new(
        height as nat,
        |y: int| Seq::new(width as nat, |x: int| flat[flat_offset(x, y, width)]),
    )
}

/// Cuts a flat buffer into the rows of the grid.
pub fn rows_from_flat(flat: &Vec<u32>, width: u32, height: u32) -> (buffer: Vec<Vec<u32>>)
    requires
        flat.len() == width * height,
    ensures
        crate::schedule::grid_view(buffer@) == rows_of_flat(flat@, width as int, height as int),
{
    let mut buffer: Vec<Vec<u32>> = Vec::new();
    let mut y: u32 = 0;
    while y < height
        invariant
            y <= height,
            flat.len() == width * height,
            buffer.len() == y,
            forall|j: int|
                0 <= j < y ==> (#[trigger] buffer@[j])@ == Seq::new(
                    width as nat,
                    |x: int| flat@[flat_offset(x, j, width as int)],
                ),
        decreases height - y,
    {
        let mut row: Vec<u32> = Vec::new();
        let mut x: u32 = 0;
        while x < width
            invariant
                x <= width,
                y < height,
                flat.len() == width * height,
                row.len() == x,
                forall|i: int|
                    0 <= i < x ==> #[trigger] row@[i] == flat@[flat_offset(
                        i,
                        y as int,
                        width as int,
                    )],
            decreases width - x,
        {
            proof {
                lemma_offset_in_bounds(x as int, y as int, width as int, height as int);
            }
            let offset: usize = (x as usize) + (y as usize) * (width as usize);
            row.push(flat[offset]);
            x = x + 1;
        }
        buffer.push(row);
        y = y + 1;
    }
    buffer
}

} // verus!
