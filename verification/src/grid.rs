//! The colour grid: how an image is cut into blocks, and what the mean colour
//! of each block is.

use crate::color::{
    channel_total, color_of, lemma_channel_total_concat, lemma_uniform_mean, mean_color, RGBSum,
    Rgb8,
};
use crate::raster::Raster;
use vstd::prelude::*;

verus! {

/// How many whole chunks of `chunk` pixels fit into `extent` pixels.
pub open spec fn block_count(extent: nat, chunk: nat) -> nat {
    if chunk == 0 {
        0
    } else {
        extent / chunk
    }
}

/// A block of the grid ends inside the extent it was cut from.
pub proof fn lemma_block_inside(extent: nat, chunk: nat, idx: nat)
    requires
        chunk > 0,
        idx < block_count(extent, chunk),
    ensures
        idx * chunk + chunk <= extent,
{
    assert(idx * chunk + chunk <= extent) by (nonlinear_arith)
        requires
            chunk > 0,
            idx + 1 <= extent / chunk,
    {
        assert((idx + 1) * chunk <= (extent / chunk) * chunk);
        assert((extent / chunk) * chunk <= extent);
    }
}

/// The pixels of the block of `chunk_width` by `chunk_height` pixels whose top
/// left corner is column `x0` of row `y0`, row by row.
pub open spec fn block_pixels(
    rows: Seq<Seq<Rgb8>>,
    x0: int,
    y0: int,
    chunk_width: nat,
    chunk_height: nat,
) -> Seq<Rgb8>
    decreases chunk_height,
{
    if chunk_height == 0 {
        Seq::empty()
    } else {
        block_pixels(rows, x0, y0, chunk_width, (chunk_height - 1) as nat) + rows[y0 + chunk_height
            - 1].subrange(x0, x0 + chunk_width)
    }
}

/// The mean colour of the block in column `bx` of row `by` of the grid.
pub open spec fn block_mean(
    raster: Raster,
    bx: int,
    by: int,
    chunk_width: nat,
    chunk_height: nat,
) -> RGBSum {
    mean_color(
        block_pixels(raster.rows, bx * chunk_width, by * chunk_height, chunk_width, chunk_height),
    )
}

/// Row `by` of the grid: the mean colours of its blocks from left to right.
pub open spec fn grid_row_of(raster: Raster, by: int, chunk_width: nat, chunk_height: nat) -> Seq<
    RGBSum,
> {
    Seq::new(
        block_count(raster.width, chunk_width),
        |bx: int| block_mean(raster, bx, by, chunk_width, chunk_height),
    )
}

/// The grid of mean colours of a raster: one cell for each whole block, rows
/// from top to bottom. Pixels right of the last whole block of a row, and
/// below the last whole row of blocks, belong to no cell.
pub open spec fn grid_of(raster: Raster, chunk_width: nat, chunk_height: nat) -> Seq<Seq<RGBSum>> {
    Seq::new(
        block_count(raster.height(), chunk_height),
        |by: int| grid_row_of(raster, by, chunk_width, chunk_height),
    )
}

/// Whether the channel sums of one block fit the accumulators, wherever the
/// raster has a block at all.
pub open spec fn sums_fit(raster: Raster, chunk_width: nat, chunk_height: nat) -> bool {
    block_count(raster.width, chunk_width) > 0 && block_count(raster.height(), chunk_height) > 0
        ==> 255 * chunk_width * chunk_height <= u64::MAX
}

/// Whether every cell of a grid is a colour with 8-bit channels.
pub open spec fn all_colors(cells: Seq<Seq<RGBSum>>) -> bool {
    forall|y: int, x: int|
        0 <= y < cells.len() && 0 <= x < cells[y].len() ==> (#[trigger] cells[y][x]).is_color()
}

/// The grid of mean block colours of an image.
#[derive(Debug)]
pub struct ColorGrid {
    /// The rows of the grid from top to bottom, each from left to right.
    pub rows: Vec<Vec<RGBSum>>,
}

impl View for ColorGrid {
    type V = Seq<Seq<RGBSum>>;

    open spec fn view(&self) -> Seq<Seq<RGBSum>> {
        Seq::new(self.rows@.len(), |y: int| self.rows@[y]@)
    }
}

/// Why no grid was made of an image.
#[derive(Debug, PartialEq, Eq, Structural)]
pub enum GridError {
    /// The chunk width or the chunk height was zero.
    InvalidChunkDimension,
}

/// The grid has `height / chunk_height` rows of `width / chunk_width` cells.
pub proof fn lemma_grid_dimensions(raster: Raster, chunk_width: nat, chunk_height: nat)
    ensures
        grid_of(raster, chunk_width, chunk_height).len() == block_count(
            raster.height(),
            chunk_height,
        ),
        forall|by: int|
            0 <= by < block_count(raster.height(), chunk_height) ==> (#[trigger] grid_of(
                raster,
                chunk_width,
                chunk_height,
            )[by]).len() == block_count(raster.width, chunk_width),
{
}

/// A chunk wider than the image leaves every row of the grid without a cell,
/// and a chunk higher than the image leaves the grid without a row.
pub proof fn lemma_oversized_chunk(raster: Raster, chunk_width: nat, chunk_height: nat)
    ensures
        chunk_height > raster.height() ==> grid_of(raster, chunk_width, chunk_height).len() == 0,
        chunk_width > raster.width ==> forall|by: int|
            0 <= by < grid_of(raster, chunk_width, chunk_height).len() ==> (#[trigger] grid_of(
                raster,
                chunk_width,
                chunk_height,
            )[by]).len() == 0,
{
    let w = raster.width as int;
    let h = raster.height() as int;
    let cw = chunk_width as int;
    let ch = chunk_height as int;
    assert(ch > h ==> h / ch == 0) by (nonlinear_arith)
        requires
            0 <= h,
    ;
    assert(cw > w ==> w / cw == 0) by (nonlinear_arith)
        requires
            0 <= w,
    ;
}

/// A block that lies inside the raster has `chunk_width * chunk_height` pixels.
pub proof fn lemma_block_pixels_len(
    raster: Raster,
    x0: int,
    y0: int,
    chunk_width: nat,
    chunk_height: nat,
)
    requires
        raster.wf(),
        0 <= x0,
        x0 + chunk_width <= raster.width,
        0 <= y0,
        y0 + chunk_height <= raster.height(),
    ensures
        block_pixels(raster.rows, x0, y0, chunk_width, chunk_height).len() == chunk_width
            * chunk_height,
    decreases chunk_height,
{
    if chunk_height > 0 {
        lemma_block_pixels_len(raster, x0, y0, chunk_width, (chunk_height - 1) as nat);
        assert(chunk_width * (chunk_height - 1) + chunk_width == chunk_width * chunk_height)
            by (nonlinear_arith);
    } else {
        assert(chunk_width * chunk_height == 0) by (nonlinear_arith)
            requires
                chunk_height == 0,
        ;
    }
}

/// Where a block lies in the raster, its pixel number `dy * chunk_width + dx`
/// is the pixel `dx` columns right of and `dy` rows below its top left corner.
pub proof fn lemma_block_pixel_at(
    raster: Raster,
    x0: int,
    y0: int,
    chunk_width: nat,
    chunk_height: nat,
    dx: int,
    dy: int,
)
    requires
        raster.wf(),
        0 <= x0,
        x0 + chunk_width <= raster.width,
        0 <= y0,
        y0 + chunk_height <= raster.height(),
        0 <= dx < chunk_width,
        0 <= dy < chunk_height,
    ensures
        0 <= dy * chunk_width + dx < block_pixels(
            raster.rows,
            x0,
            y0,
            chunk_width,
            chunk_height,
        ).len(),
        block_pixels(raster.rows, x0, y0, chunk_width, chunk_height)[dy * chunk_width + dx]
            == raster.rows[y0 + dy][x0 + dx],
    decreases chunk_height,
{
    let shorter = (chunk_height - 1) as nat;
    let cw = chunk_width as int;
    lemma_block_pixels_len(raster, x0, y0, chunk_width, chunk_height);
    lemma_block_pixels_len(raster, x0, y0, chunk_width, shorter);
    assert(cw * shorter + cw == cw * chunk_height) by (nonlinear_arith)
        requires
            shorter == chunk_height - 1,
    ;
    if dy < shorter {
        lemma_block_pixel_at(raster, x0, y0, chunk_width, shorter, dx, dy);
    } else {
        assert(dy * cw == cw * shorter) by (nonlinear_arith)
            requires
                dy == shorter,
        ;
    }
    assert(0 <= dy * cw) by (nonlinear_arith)
        requires
            0 <= dy,
            0 <= cw,
    ;
}

/// Whether the pixel in column `x` of row `y` lies in a whole block, and so
/// takes part in a cell of the grid: the cell in column `x / chunk_width` of
/// row `y / chunk_height`.
pub open spec fn in_grid(
    raster: Raster,
    chunk_width: nat,
    chunk_height: nat,
    x: int,
    y: int,
) -> bool {
    &&& 0 <= x < raster.width
    &&& 0 <= y < raster.height()
    &&& chunk_width > 0
    &&& chunk_height > 0
    &&& x / (chunk_width as int) < block_count(raster.width, chunk_width)
    &&& y / (chunk_height as int) < block_count(raster.height(), chunk_height)
}

/// Whether the block in column `bx` of row `by` of the tiling holds the pixel
/// in column `x` of row `y`.
pub open spec fn block_covers(
    chunk_width: nat,
    chunk_height: nat,
    bx: int,
    by: int,
    x: int,
    y: int,
) -> bool {
    &&& bx * chunk_width <= x < bx * chunk_width + chunk_width
    &&& by * chunk_height <= y < by * chunk_height + chunk_height
}

/// Each pixel lies in one block of the tiling and in no other: the block in
/// column `x / chunk_width` of row `y / chunk_height`. So a pixel takes part
/// in a cell of the grid exactly when that block is a whole one.
pub proof fn lemma_covering_block(chunk_width: nat, chunk_height: nat, x: int, y: int)
    requires
        chunk_width > 0,
        chunk_height > 0,
        0 <= x,
        0 <= y,
    ensures
        block_covers(
            chunk_width,
            chunk_height,
            x / (chunk_width as int),
            y / (chunk_height as int),
            x,
            y,
        ),
        forall|bx: int, by: int| #[trigger]
            block_covers(chunk_width, chunk_height, bx, by, x, y) ==> bx == x / (
            chunk_width as int) && by == y / (chunk_height as int),
{
    let cw = chunk_width as int;
    let ch = chunk_height as int;
    assert((x / cw) * cw <= x < (x / cw) * cw + cw) by (nonlinear_arith)
        requires
            cw > 0,
            0 <= x,
    ;
    assert((y / ch) * ch <= y < (y / ch) * ch + ch) by (nonlinear_arith)
        requires
            ch > 0,
            0 <= y,
    ;
    assert forall|bx: int, by: int| #[trigger]
        block_covers(chunk_width, chunk_height, bx, by, x, y) implies bx == x / cw && by == y
        / ch by {
        assert(bx == x / cw) by (nonlinear_arith)
            requires
                cw > 0,
                bx * cw <= x < bx * cw + cw,
        ;
        assert(by == y / ch) by (nonlinear_arith)
            requires
                ch > 0,
                by * ch <= y < by * ch + ch,
        ;
    }
}

/// A pixel lies in a whole block exactly when it lies left of the end of the
/// last whole block of its row and above the end of the last whole row of
/// blocks. All pixels beyond are dropped.
pub proof fn lemma_in_grid(raster: Raster, chunk_width: nat, chunk_height: nat, x: int, y: int)
    requires
        chunk_width > 0,
        chunk_height > 0,
        0 <= x < raster.width,
        0 <= y < raster.height(),
    ensures
        in_grid(raster, chunk_width, chunk_height, x, y) <==> x < block_count(
            raster.width,
            chunk_width,
        ) * chunk_width && y < block_count(raster.height(), chunk_height) * chunk_height,
{
    let cw = chunk_width as int;
    let ch = chunk_height as int;
    let w = raster.width as int;
    let h = raster.height() as int;
    assert((x / cw < w / cw) <==> (x < (w / cw) * cw)) by (nonlinear_arith)
        requires
            cw > 0,
            0 <= x,
            0 <= w,
    ;
    assert((y / ch < h / ch) <==> (y < (h / ch) * ch)) by (nonlinear_arith)
        requires
            ch > 0,
            0 <= y,
            0 <= h,
    ;
}

/// Where the width and the height of the image are exact multiples of the
/// chunk dimensions, the blocks tile the image: the grid has
/// `width / chunk_width` by `height / chunk_height` cells, they cover the
/// whole image, and every pixel lies in a block.
pub proof fn lemma_exact_tiling(raster: Raster, chunk_width: nat, chunk_height: nat)
    requires
        chunk_width > 0,
        chunk_height > 0,
        raster.width % chunk_width == 0,
        raster.height() % chunk_height == 0,
    ensures
        block_count(raster.width, chunk_width) * chunk_width == raster.width,
        block_count(raster.height(), chunk_height) * chunk_height == raster.height(),
        grid_of(raster, chunk_width, chunk_height).len() * chunk_height == raster.height(),
        forall|by: int|
            0 <= by < grid_of(raster, chunk_width, chunk_height).len() ==> (#[trigger] grid_of(
                raster,
                chunk_width,
                chunk_height,
            )[by]).len() * chunk_width == raster.width,
        forall|x: int, y: int|
            0 <= x < raster.width && 0 <= y < raster.height() ==> #[trigger] in_grid(
                raster,
                chunk_width,
                chunk_height,
                x,
                y,
            ),
{
    let cw = chunk_width as int;
    let ch = chunk_height as int;
    let w = raster.width as int;
    let h = raster.height() as int;
    assert((w / cw) * cw == w) by (nonlinear_arith)
        requires
            cw > 0,
            w % cw == 0,
    ;
    assert((h / ch) * ch == h) by (nonlinear_arith)
        requires
            ch > 0,
            h % ch == 0,
    ;
    assert forall|x: int, y: int|
        0 <= x < raster.width && 0 <= y < raster.height() implies #[trigger] in_grid(
        raster,
        chunk_width,
        chunk_height,
        x,
        y,
    ) by {
        lemma_in_grid(raster, chunk_width, chunk_height, x, y);
    }
}

/// The pixels of a block of a raster of one colour all have that colour.
proof fn lemma_block_uniform(
    raster: Raster,
    color: Rgb8,
    x0: int,
    y0: int,
    chunk_width: nat,
    chunk_height: nat,
)
    requires
        raster.wf(),
        0 <= x0,
        x0 + chunk_width <= raster.width,
        0 <= y0,
        y0 + chunk_height <= raster.height(),
        forall|y: int, x: int|
            0 <= y < raster.height() && 0 <= x < raster.width ==> #[trigger] raster.rows[y][x]
                == color,
    ensures
        forall|i: int|
            0 <= i < block_pixels(raster.rows, x0, y0, chunk_width, chunk_height).len()
                ==> block_pixels(raster.rows, x0, y0, chunk_width, chunk_height)[i] == color,
    decreases chunk_height,
{
    if chunk_height > 0 {
        let shorter = (chunk_height - 1) as nat;
        lemma_block_uniform(raster, color, x0, y0, chunk_width, shorter);
        let head = block_pixels(raster.rows, x0, y0, chunk_width, shorter);
        let row = raster.rows[y0 + chunk_height - 1];
        assert forall|i: int|
            0 <= i < block_pixels(
                raster.rows,
                x0,
                y0,
                chunk_width,
                chunk_height,
            ).len() implies block_pixels(raster.rows, x0, y0, chunk_width, chunk_height)[i]
            == color by {
            if i >= head.len() {
                assert(row.subrange(x0, x0 + chunk_width)[i - head.len()] == raster.rows[y0
                    + chunk_height - 1][x0 + (i - head.len())]);
            }
        }
    }
}

/// In the grid of a raster of one colour every cell has that colour.
pub proof fn lemma_uniform_grid(raster: Raster, color: Rgb8, chunk_width: nat, chunk_height: nat)
    requires
        raster.wf(),
        chunk_width > 0,
        chunk_height > 0,
        forall|y: int, x: int|
            0 <= y < raster.height() && 0 <= x < raster.width ==> #[trigger] raster.rows[y][x]
                == color,
    ensures
        forall|by: int, bx: int|
            0 <= by < block_count(raster.height(), chunk_height) && 0 <= bx < block_count(
                raster.width,
                chunk_width,
            ) ==> #[trigger] grid_of(raster, chunk_width, chunk_height)[by][bx] == color_of(color),
{
    let grid = grid_of(raster, chunk_width, chunk_height);
    let n_x = block_count(raster.width, chunk_width);
    let n_y = block_count(raster.height(), chunk_height);
    assert forall|by: int, bx: int| 0 <= by < n_y && 0 <= bx < n_x implies #[trigger] grid[by][bx]
        == color_of(color) by {
        lemma_block_inside(raster.width, chunk_width, bx as nat);
        lemma_block_inside(raster.height(), chunk_height, by as nat);
        let x0 = bx * chunk_width;
        let y0 = by * chunk_height;
        lemma_block_uniform(raster, color, x0, y0, chunk_width, chunk_height);
        lemma_block_pixels_len(raster, x0, y0, chunk_width, chunk_height);
        assert(chunk_width * chunk_height > 0) by (nonlinear_arith)
            requires
                chunk_width > 0,
                chunk_height > 0,
        ;
        lemma_uniform_mean(
            block_pixels(raster.rows, x0, y0, chunk_width, chunk_height),
            color,
        );
    }
}

/// The pixels of the block that spans the first `rows_taken` rows in full are
/// those rows, one after the other.
proof fn lemma_full_width_block(raster: Raster, rows_taken: nat)
    requires
        raster.wf(),
        rows_taken <= raster.height(),
    ensures
        block_pixels(raster.rows, 0, 0, raster.width, rows_taken) == raster.rows.take(
            rows_taken as int,
        ).flatten(),
    decreases rows_taken,
{
    if rows_taken == 0 {
        assert(raster.rows.take(0) =~= Seq::<Seq<Rgb8>>::empty());
    } else {
        let shorter = (rows_taken - 1) as nat;
        lemma_full_width_block(raster, shorter);
        let last = raster.rows[rows_taken - 1];
        assert(last.subrange(0, raster.width as int) =~= last);
        assert(raster.rows.take(rows_taken as int) =~= raster.rows.take(shorter as int).push(last));
        raster.rows.take(shorter as int).lemma_flatten_push(last);
    }
}

/// Where one block spans the whole image, the grid has one cell, and each of
/// its channels is the sum of that channel over all pixels of the image,
/// divided by their number and rounded down.
pub proof fn lemma_single_block(raster: Raster)
    requires
        raster.wf(),
        raster.width > 0,
        raster.height() > 0,
    ensures
        raster.rows.flatten().len() == raster.width * raster.height(),
        grid_of(raster, raster.width, raster.height()) == seq![
            seq![mean_color(raster.rows.flatten())],
        ],
{
    let w = raster.width;
    let h = raster.height();
    lemma_full_width_block(raster, h);
    lemma_block_pixels_len(raster, 0, 0, w, h);
    assert(raster.rows.take(h as int) =~= raster.rows);
    let grid = grid_of(raster, w, h);
    assert(w / w == 1 && h / h == 1) by (nonlinear_arith)
        requires
            w > 0,
            h > 0,
    ;
    assert(0 * w == 0 && 0 * h == 0);
    assert(grid[0] =~= seq![mean_color(raster.rows.flatten())]);
    assert(grid =~= seq![seq![mean_color(raster.rows.flatten())]]);
}

/// The sum of channel `c` over the first `blocks` blocks of row `by` of the
/// grid, each block counted by itself.
pub open spec fn strip_total(
    raster: Raster,
    by: int,
    chunk_width: nat,
    chunk_height: nat,
    blocks: nat,
    c: int,
) -> nat
    decreases blocks,
{
    if blocks == 0 {
        0
    } else {
        strip_total(raster, by, chunk_width, chunk_height, (blocks - 1) as nat, c) + channel_total(
            block_pixels(
                raster.rows,
                (blocks - 1) * chunk_width,
                by * chunk_height,
                chunk_width,
                chunk_height,
            ),
            c,
        )
    }
}

/// The sum of channel `c` over all blocks of the first `strips` rows of the
/// grid, each block counted by itself.
pub open spec fn grid_total(
    raster: Raster,
    chunk_width: nat,
    chunk_height: nat,
    strips: nat,
    c: int,
) -> nat
    decreases strips,
{
    if strips == 0 {
        0
    } else {
        grid_total(raster, chunk_width, chunk_height, (strips - 1) as nat, c) + strip_total(
            raster,
            strips - 1,
            chunk_width,
            chunk_height,
            block_count(raster.width, chunk_width),
            c,
        )
    }
}

/// Two blocks side by side sum to the block that spans both.
pub proof fn lemma_block_beside(
    raster: Raster,
    x0: int,
    y0: int,
    left: nat,
    right: nat,
    chunk_height: nat,
    c: int,
)
    requires
        raster.wf(),
        0 <= x0,
        x0 + left + right <= raster.width,
        0 <= y0,
        y0 + chunk_height <= raster.height(),
    ensures
        channel_total(block_pixels(raster.rows, x0, y0, left + right, chunk_height), c)
            == channel_total(block_pixels(raster.rows, x0, y0, left, chunk_height), c)
            + channel_total(block_pixels(raster.rows, x0 + left, y0, right, chunk_height), c),
    decreases chunk_height,
{
    if chunk_height > 0 {
        let shorter = (chunk_height - 1) as nat;
        let row = raster.rows[y0 + chunk_height - 1];
        lemma_block_beside(raster, x0, y0, left, right, shorter, c);
        assert(row.subrange(x0, x0 + left + right) =~= row.subrange(x0, x0 + left)
            + row.subrange(x0 + left, x0 + left + right));
        lemma_channel_total_concat(
            block_pixels(raster.rows, x0, y0, left + right, shorter),
            row.subrange(x0, x0 + left + right),
            c,
        );
        lemma_channel_total_concat(
            row.subrange(x0, x0 + left),
            row.subrange(x0 + left, x0 + left + right),
            c,
        );
        lemma_channel_total_concat(
            block_pixels(raster.rows, x0, y0, left, shorter),
            row.subrange(x0, x0 + left),
            c,
        );
        lemma_channel_total_concat(
            block_pixels(raster.rows, x0 + left, y0, right, shorter),
            row.subrange(x0 + left, x0 + left + right),
            c,
        );
    }
}

/// Two blocks one above the other hold the pixels of the block that spans
/// both, the upper block's first.
pub proof fn lemma_block_above(
    rows: Seq<Seq<Rgb8>>,
    x0: int,
    y0: int,
    chunk_width: nat,
    upper: nat,
    lower: nat,
)
    ensures
        block_pixels(rows, x0, y0, chunk_width, upper + lower) == block_pixels(
            rows,
            x0,
            y0,
            chunk_width,
            upper,
        ) + block_pixels(rows, x0, y0 + upper, chunk_width, lower),
    decreases lower,
{
    if lower == 0 {
        assert(block_pixels(rows, x0, y0, chunk_width, upper + lower) =~= block_pixels(
            rows,
            x0,
            y0,
            chunk_width,
            upper,
        ) + block_pixels(rows, x0, y0 + upper, chunk_width, lower));
    } else {
        lemma_block_above(rows, x0, y0, chunk_width, upper, (lower - 1) as nat);
        assert(block_pixels(rows, x0, y0, chunk_width, upper + lower) =~= block_pixels(
            rows,
            x0,
            y0,
            chunk_width,
            upper,
        ) + block_pixels(rows, x0, y0 + upper, chunk_width, lower));
    }
}

/// The blocks of one row of the grid, each counted by itself, sum to the
/// stretch of the image that they cover together.
pub proof fn lemma_strip_total(
    raster: Raster,
    by: int,
    chunk_width: nat,
    chunk_height: nat,
    blocks: nat,
    c: int,
)
    requires
        raster.wf(),
        chunk_width > 0,
        chunk_height > 0,
        0 <= by < block_count(raster.height(), chunk_height),
        blocks <= block_count(raster.width, chunk_width),
    ensures
        strip_total(raster, by, chunk_width, chunk_height, blocks, c) == channel_total(
            block_pixels(raster.rows, 0, by * chunk_height, blocks * chunk_width, chunk_height),
            c,
        ),
    decreases blocks,
{
    lemma_block_inside(raster.height(), chunk_height, by as nat);
    if blocks == 0 {
        assert(blocks * chunk_width == 0) by (nonlinear_arith)
            requires
                blocks == 0,
        ;
        lemma_block_pixels_len(raster, 0, by * chunk_height, 0, chunk_height);
        assert(0 * chunk_height == 0);
        assert(block_pixels(raster.rows, 0, by * chunk_height, 0, chunk_height)
            =~= Seq::<Rgb8>::empty());
    } else {
        let fewer = (blocks - 1) as nat;
        lemma_strip_total(raster, by, chunk_width, chunk_height, fewer, c);
        lemma_block_inside(raster.width, chunk_width, fewer);
        assert(fewer * chunk_width + chunk_width == blocks * chunk_width) by (nonlinear_arith)
            requires
                fewer == blocks - 1,
        ;
        assert(0 <= by * chunk_height) by (nonlinear_arith)
            requires
                0 <= by,
        ;
        lemma_block_beside(
            raster,
            0,
            by * chunk_height,
            fewer * chunk_width,
            chunk_width,
            chunk_height,
            c,
        );
    }
}

/// The cells of the grid take in every pixel of the stretch that the whole
/// blocks cover, once each, and no other: summed over all blocks, a channel
/// comes to its sum over the pixels of the first `block_count * chunk_width`
/// columns of the first `block_count * chunk_height` rows.
pub proof fn lemma_grid_total(
    raster: Raster,
    chunk_width: nat,
    chunk_height: nat,
    strips: nat,
    c: int,
)
    requires
        raster.wf(),
        chunk_width > 0,
        chunk_height > 0,
        strips <= block_count(raster.height(), chunk_height),
    ensures
        grid_total(raster, chunk_width, chunk_height, strips, c) == channel_total(
            block_pixels(
                raster.rows,
                0,
                0,
                block_count(raster.width, chunk_width) * chunk_width,
                strips * chunk_height,
            ),
            c,
        ),
    decreases strips,
{
    let n_x = block_count(raster.width, chunk_width);
    let wide = n_x * chunk_width;
    if strips == 0 {
        assert(strips * chunk_height == 0) by (nonlinear_arith)
            requires
                strips == 0,
        ;
    } else {
        let fewer = (strips - 1) as nat;
        lemma_grid_total(raster, chunk_width, chunk_height, fewer, c);
        lemma_strip_total(raster, fewer as int, chunk_width, chunk_height, n_x, c);
        assert(fewer * chunk_height + chunk_height == strips * chunk_height) by (nonlinear_arith)
            requires
                fewer == strips - 1,
        ;
        lemma_block_above(raster.rows, 0, 0, wide, fewer * chunk_height, chunk_height);
        lemma_channel_total_concat(
            block_pixels(raster.rows, 0, 0, wide, fewer * chunk_height),
            block_pixels(raster.rows, 0, (fewer * chunk_height) as int, wide, chunk_height),
            c,
        );
    }
}

/// Where the width and the height of the image are exact multiples of the
/// chunk dimensions, no pixel is dropped and none is counted twice: summed
/// over all blocks of the grid, a channel comes to its sum over all pixels of
/// the image.
pub proof fn lemma_exact_grid_total(raster: Raster, chunk_width: nat, chunk_height: nat, c: int)
    requires
        raster.wf(),
        chunk_width > 0,
        chunk_height > 0,
        raster.width % chunk_width == 0,
        raster.height() % chunk_height == 0,
    ensures
        grid_total(
            raster,
            chunk_width,
            chunk_height,
            block_count(raster.height(), chunk_height),
            c,
        ) == channel_total(raster.rows.flatten(), c),
{
    lemma_exact_tiling(raster, chunk_width, chunk_height);
    lemma_grid_total(
        raster,
        chunk_width,
        chunk_height,
        block_count(raster.height(), chunk_height),
        c,
    );
    lemma_full_width_block(raster, raster.height());
    assert(raster.rows.take(raster.height() as int) =~= raster.rows);
}

} // verus!
