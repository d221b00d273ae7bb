//! The whole way from an image to text: aggregate, encode, render.

use crate::aggregate::{blocks_fit, color_grid};
use crate::color::{color_of, Rgb8};
use crate::grid::{block_count, grid_of, lemma_uniform_grid, sums_fit, ColorGrid, GridError};
use crate::raster::{Raster, RgbBuffer};
use crate::render::{grid_text, render_grid};
use crate::rle::{lemma_uniform_row_runs, runs_of, RgbCount};
use vstd::prelude::*;

verus! {

/// Renders an image as text: the image is cut into blocks of `chunk_width` by
/// `chunk_height` pixels, each whole block becomes one glyph in the block's
/// mean colour, and each row of blocks becomes one line. A chunk dimension of
/// zero is refused.
pub fn render(image: &RgbBuffer, chunk_width: usize, chunk_height: usize) -> (res: Result<
    String,
    GridError,
>)
    requires
        sums_fit(image@, chunk_width as nat, chunk_height as nat),
    ensures
        chunk_width == 0 || chunk_height == 0 ==> res == Err::<String, GridError>(
            GridError::InvalidChunkDimension,
        ),
        chunk_width > 0 && chunk_height > 0 ==> res is Ok && res->Ok_0@ == grid_text(
            grid_of(image@, chunk_width as nat, chunk_height as nat),
        ),
{
    match color_grid(image, chunk_width, chunk_height) {
        Ok(grid) => Ok(render_grid(&grid)),
        Err(e) => Err(e),
    }
}

/// Renders an image of any size as text: `None` where a block is too large
/// for its channel sums to fit the accumulators, else what [`render`] gives.
pub fn try_render(image: &RgbBuffer, chunk_width: usize, chunk_height: usize) -> (res: Option<
    Result<String, GridError>,
>)
    ensures
        res is Some <==> sums_fit(image@, chunk_width as nat, chunk_height as nat),
        res is Some && (chunk_width == 0 || chunk_height == 0) ==> res == Some(
            Err::<String, GridError>(GridError::InvalidChunkDimension),
        ),
        res is Some && chunk_width > 0 && chunk_height > 0 ==> res->Some_0 is Ok
            && res->Some_0->Ok_0@ == grid_text(
                grid_of(image@, chunk_width as nat, chunk_height as nat),
            ),
{
    if blocks_fit(image, chunk_width, chunk_height) {
        Some(render(image, chunk_width, chunk_height))
    } else {
        None
    }
}

/// In the grid of an image of one colour every cell has that colour, and each
/// row that has a cell at all encodes to exactly one run, as long as the row.
pub proof fn lemma_uniform_image(raster: Raster, color: Rgb8, chunk_width: nat, chunk_height: nat)
    requires
        raster.wf(),
        raster.width <= usize::MAX,
        chunk_width > 0,
        chunk_height > 0,
        forall|y: int, x: int|
            0 <= y < raster.height() && 0 <= x < raster.width ==> #[trigger] raster.rows[y][x]
                == color,
    ensures
        forall|by: int, bx: int|
            0 <= by < block_count(raster.height(), chunk_height) && 0 <= bx < block_count(
                raster.width,
                chunk_width,
            ) ==> #[trigger] grid_of(raster, chunk_width, chunk_height)[by][bx] == color_of(color),
        forall|by: int|
            0 <= by < block_count(raster.height(), chunk_height) && block_count(
                raster.width,
                chunk_width,
            ) > 0 ==> runs_of(#[trigger] grid_of(raster, chunk_width, chunk_height)[by])
                == seq![
                RgbCount {
                    rgb_sum: color_of(color),
                    count: block_count(raster.width, chunk_width) as usize,
                },
            ],
{
    let grid = grid_of(raster, chunk_width, chunk_height);
    let n_x = block_count(raster.width, chunk_width);
    let n_y = block_count(raster.height(), chunk_height);
    lemma_uniform_grid(raster, color, chunk_width, chunk_height);
    assert(n_x <= raster.width) by (nonlinear_arith)
        requires
            n_x == raster.width / chunk_width,
            chunk_width > 0,
    ;
    assert forall|by: int| 0 <= by < n_y && n_x > 0 implies runs_of(#[trigger] grid[by])
        == seq![RgbCount { rgb_sum: color_of(color), count: n_x as usize }] by {
        assert forall|bx: int| 0 <= bx < grid[by].len() implies grid[by][bx] == color_of(
            color,
        ) by {
            assert(grid[by][bx] == color_of(color));
        }
        lemma_uniform_row_runs(grid[by], color_of(color));
    }
}

/// Rendering is a function of the image and the chunk dimensions: two grids
/// made of the same image with the same chunk dimensions are equal cell by
/// cell, and so are the runs of their rows and the text they are rendered as.
pub proof fn lemma_aggregation_repeatable(
    image: RgbBuffer,
    chunk_width: nat,
    chunk_height: nat,
    first: ColorGrid,
    second: ColorGrid,
)
    requires
        first@ == grid_of(image@, chunk_width, chunk_height),
        second@ == grid_of(image@, chunk_width, chunk_height),
    ensures
        first@ == second@,
        forall|by: int|
            0 <= by < first@.len() ==> runs_of(#[trigger] first@[by]) == runs_of(second@[by]),
        grid_text(first@) == grid_text(second@),
{
}

} // verus!
