//! The chunk aggregator: from a pixel buffer to the grid of mean block colours.

use crate::color::{
    channel_total, lemma_channel_total_bound, lemma_channel_total_concat, lemma_mean_is_color,
    totals, totals_fit, Aggregator, RGBSum, Rgb8,
};
use crate::grid::{
    all_colors, block_count, block_mean, block_pixels, grid_of, grid_row_of, lemma_block_inside,
    lemma_block_pixels_len, sums_fit, ColorGrid, GridError,
};
use crate::raster::{Raster, RgbBuffer};
use vstd::prelude::*;

verus! {

/// The accumulator `acc` after the `len` pixels of `row` that start at column
/// `start` have been folded into it from left to right.
pub open spec fn fold_span<A: Aggregator<Rgb8>>(acc: A, row: Seq<Rgb8>, start: int, len: nat) -> A
    decreases len,
{
    if len == 0 {
        acc
    } else {
        fold_span(acc, row, start, (len - 1) as nat).absorbed(&row[start + len - 1])
    }
}

/// Whether `acc` accepts each of those pixels in its turn.
pub open spec fn span_accepted<A: Aggregator<Rgb8>>(
    acc: A,
    row: Seq<Rgb8>,
    start: int,
    len: nat,
) -> bool
    decreases len,
{
    len == 0 || (span_accepted(acc, row, start, (len - 1) as nat) && fold_span(
        acc,
        row,
        start,
        (len - 1) as nat,
    ).accepts(&row[start + len - 1]))
}

/// An accumulator that accepts a span accepts each shorter span from the same
/// start.
pub proof fn lemma_span_prefix_accepted<A: Aggregator<Rgb8>>(
    acc: A,
    row: Seq<Rgb8>,
    start: int,
    len: nat,
    shorter: nat,
)
    requires
        span_accepted(acc, row, start, len),
        shorter <= len,
    ensures
        span_accepted(acc, row, start, shorter),
    decreases len,
{
    if shorter < len {
        lemma_span_prefix_accepted(acc, row, start, (len - 1) as nat, shorter);
    }
}

/// Folding a span of a row into the sums of `pixels` gives the sums of
/// `pixels` followed by that span, as long as those sums fit the
/// accumulator.
pub proof fn lemma_fold_totals(pixels: Seq<Rgb8>, row: Seq<Rgb8>, start: int, len: nat)
    requires
        0 <= start,
        start + len <= row.len(),
        totals_fit(pixels + row.subrange(start, start + len)),
    ensures
        span_accepted(totals(pixels), row, start, len),
        fold_span(totals(pixels), row, start, len) == totals(
            pixels + row.subrange(start, start + len),
        ),
    decreases len,
{
    if len == 0 {
        assert(pixels + row.subrange(start, start + len) =~= pixels);
    } else {
        let shorter = (len - 1) as nat;
        let before = pixels + row.subrange(start, start + shorter);
        let p = row[start + len - 1];
        let after = pixels + row.subrange(start, start + len);
        assert(after =~= before.push(p));
        assert(after.drop_last() =~= before);
        assert(channel_total(after, 0) == channel_total(before, 0) + p.0);
        assert(channel_total(after, 1) == channel_total(before, 1) + p.1);
        assert(channel_total(after, 2) == channel_total(before, 2) + p.2);
        lemma_fold_totals(pixels, row, start, shorter);
    }
}

/// As [`lemma_fold_totals`], for pixels so few that 255 for each of them
/// fits the accumulator whatever their colours.
pub proof fn lemma_fold_totals_bounded(pixels: Seq<Rgb8>, row: Seq<Rgb8>, start: int, len: nat)
    requires
        0 <= start,
        start + len <= row.len(),
        255 * (pixels.len() + len) <= u64::MAX,
    ensures
        span_accepted(totals(pixels), row, start, len),
        fold_span(totals(pixels), row, start, len) == totals(
            pixels + row.subrange(start, start + len),
        ),
{
    let all = pixels + row.subrange(start, start + len);
    lemma_channel_total_bound(all, 0);
    lemma_channel_total_bound(all, 1);
    lemma_channel_total_bound(all, 2);
    lemma_fold_totals(pixels, row, start, len);
}

/// The accumulator `acc` after the spans of `taken` pixel rows, one below the
/// other from row `y0` on and each from column `x0` on, have been folded into
/// it from top to bottom.
pub open spec fn fold_block<A: Aggregator<Rgb8>>(
    acc: A,
    rows: Seq<Seq<Rgb8>>,
    x0: int,
    y0: int,
    chunk_width: nat,
    taken: nat,
) -> A
    decreases taken,
{
    if taken == 0 {
        acc
    } else {
        fold_span(
            fold_block(acc, rows, x0, y0, chunk_width, (taken - 1) as nat),
            rows[y0 + taken - 1],
            x0,
            chunk_width,
        )
    }
}

/// Whether `acc` accepts each of those spans in its turn.
pub open spec fn block_accepted<A: Aggregator<Rgb8>>(
    acc: A,
    rows: Seq<Seq<Rgb8>>,
    x0: int,
    y0: int,
    chunk_width: nat,
    taken: nat,
) -> bool
    decreases taken,
{
    taken == 0 || (block_accepted(acc, rows, x0, y0, chunk_width, (taken - 1) as nat)
        && span_accepted(
        fold_block(acc, rows, x0, y0, chunk_width, (taken - 1) as nat),
        rows[y0 + taken - 1],
        x0,
        chunk_width,
    ))
}

/// Once the last pixel row of a block has been folded in, an accumulator that
/// began at zero holds the sums over the pixels of the block. All that this
/// asks is that those sums fit the accumulator.
pub proof fn lemma_fold_block_totals(
    raster: Raster,
    x0: int,
    y0: int,
    chunk_width: nat,
    chunk_height: nat,
)
    requires
        raster.wf(),
        0 <= x0,
        x0 + chunk_width <= raster.width,
        0 <= y0,
        y0 + chunk_height <= raster.height(),
        totals_fit(block_pixels(raster.rows, x0, y0, chunk_width, chunk_height)),
    ensures
        block_accepted(
            totals(Seq::<Rgb8>::empty()),
            raster.rows,
            x0,
            y0,
            chunk_width,
            chunk_height,
        ),
        fold_block(
            totals(Seq::<Rgb8>::empty()),
            raster.rows,
            x0,
            y0,
            chunk_width,
            chunk_height,
        ) == totals(block_pixels(raster.rows, x0, y0, chunk_width, chunk_height)),
    decreases chunk_height,
{
    if chunk_height > 0 {
        let shorter = (chunk_height - 1) as nat;
        let above = block_pixels(raster.rows, x0, y0, chunk_width, shorter);
        let row = raster.rows[y0 + chunk_height - 1];
        lemma_channel_total_concat(above, row.subrange(x0, x0 + chunk_width), 0);
        lemma_channel_total_concat(above, row.subrange(x0, x0 + chunk_width), 1);
        lemma_channel_total_concat(above, row.subrange(x0, x0 + chunk_width), 2);
        lemma_fold_block_totals(raster, x0, y0, chunk_width, shorter);
        lemma_fold_totals(above, row, x0, chunk_width);
    }
}

/// A fold reads the pixels of its span and no others: over two rows that
/// hold the same pixels in the span it gives the same accumulator, and it is
/// accepted on the one when it is on the other.
pub proof fn lemma_fold_reads_span<A: Aggregator<Rgb8>>(
    acc: A,
    first: Seq<Rgb8>,
    second: Seq<Rgb8>,
    start: int,
    len: nat,
)
    requires
        forall|x: int| start <= x < start + len ==> first[x] == second[x],
    ensures
        fold_span(acc, first, start, len) == fold_span(acc, second, start, len),
        span_accepted(acc, first, start, len) == span_accepted(acc, second, start, len),
    decreases len,
{
    if len > 0 {
        lemma_fold_reads_span(acc, first, second, start, (len - 1) as nat);
    }
}

/// The accumulators of one grid row after a pixel row has been folded into
/// them: each of the first `blocks` has taken in the `chunk_width` pixels of
/// its block, the others are as they were.
pub open spec fn chunk_sums<A: Aggregator<Rgb8>>(
    before: Seq<A>,
    row: Seq<Rgb8>,
    blocks: nat,
    chunk_width: nat,
) -> Seq<A> {
    Seq::new(
        before.len(),
        |idx: int|
            if idx < blocks {
                fold_span(before[idx], row, idx * chunk_width, chunk_width)
            } else {
                before[idx]
            },
    )
}

/// The accumulators do not depend on what lies right of the last whole block:
/// two pixel rows that hold the same pixels in the first
/// `blocks * chunk_width` columns leave the same accumulators.
pub proof fn lemma_chunk_sums_skip_residue<A: Aggregator<Rgb8>>(
    before: Seq<A>,
    first: Seq<Rgb8>,
    second: Seq<Rgb8>,
    blocks: nat,
    chunk_width: nat,
)
    requires
        forall|x: int| 0 <= x < blocks * chunk_width ==> first[x] == second[x],
    ensures
        chunk_sums(before, first, blocks, chunk_width) == chunk_sums(
            before,
            second,
            blocks,
            chunk_width,
        ),
{
    assert forall|idx: int| 0 <= idx < before.len() implies chunk_sums(
        before,
        first,
        blocks,
        chunk_width,
    )[idx] == chunk_sums(before, second, blocks, chunk_width)[idx] by {
        if idx < blocks {
            assert(idx * chunk_width + chunk_width <= blocks * chunk_width) by (nonlinear_arith)
                requires
                    0 <= idx < blocks,
            ;
            assert(0 <= idx * chunk_width) by (nonlinear_arith)
                requires
                    0 <= idx,
            ;
            lemma_fold_reads_span(before[idx], first, second, idx * chunk_width, chunk_width);
        }
    }
    assert(chunk_sums(before, first, blocks, chunk_width) =~= chunk_sums(
        before,
        second,
        blocks,
        chunk_width,
    ));
}

/// Folding a pixel row in is a function of the accumulators, the pixel row
/// and the chunk width: from equal accumulators two runs over the same row
/// leave equal accumulators.
pub proof fn lemma_chunk_sums_repeatable<A: Aggregator<Rgb8>>(
    before: Seq<A>,
    row: Seq<Rgb8>,
    blocks: nat,
    chunk_width: nat,
    first: Seq<A>,
    second: Seq<A>,
)
    requires
        first == chunk_sums(before, row, blocks, chunk_width),
        second == chunk_sums(before, row, blocks, chunk_width),
    ensures
        first == second,
{
}

/// Folds pixel row `row` of the image into the accumulators of one grid row:
/// accumulator `idx` takes in the `chunk_width` pixels of its block, from left
/// to right. Pixels to the right of the last whole block are left out, and so
/// are accumulators beyond the last block. `target` holds an accumulator for
/// each whole block, and each accepts the pixels of its block.
pub fn sum_chunks_inplace<Agg: Aggregator<Rgb8>>(
    image: &RgbBuffer,
    chunk_width: u32,
    row: u32,
    target: &mut [Agg],
)
    requires
        chunk_width > 0,
        row < image@.height(),
        old(target)@.len() >= block_count(image@.width, chunk_width as nat),
        forall|idx: int|
            0 <= idx < block_count(image@.width, chunk_width as nat) ==> span_accepted(
                #[trigger] old(target)@[idx],
                image@.rows[row as int],
                idx * chunk_width,
                chunk_width as nat,
            ),
    ensures
        final(target)@ == chunk_sums(
            old(target)@,
            image@.rows[row as int],
            block_count(image@.width, chunk_width as nat),
            chunk_width as nat,
        ),
{
    let (width, _) = image.dimensions();
    let n: u32 = width / chunk_width;
    let ghost pixels = image@.rows[row as int];
    let mut idx: u32 = 0;
    while idx < n
        invariant
            idx <= n,
            n == block_count(image@.width, chunk_width as nat),
            chunk_width > 0,
            width == image@.width,
            row < image@.height(),
            pixels == image@.rows[row as int],
            target@.len() == old(target)@.len(),
            target@.len() >= n,
            forall|j: int|
                0 <= j < n ==> span_accepted(
                    #[trigger] old(target)@[j],
                    pixels,
                    j * chunk_width,
                    chunk_width as nat,
                ),
            forall|j: int|
                0 <= j < idx ==> #[trigger] target@[j] == fold_span(
                    old(target)@[j],
                    pixels,
                    j * chunk_width,
                    chunk_width as nat,
                ),
            forall|j: int| idx <= j < target@.len() ==> #[trigger] target@[j] == old(target)@[j],
        decreases n - idx,
    {
        proof {
            lemma_block_inside(width as nat, chunk_width as nat, idx as nat);
        }
        let start: u32 = idx * chunk_width;
        let stop: u32 = start + chunk_width;
        let mut x: u32 = start;
        while x < stop
            invariant
                start <= x <= stop,
                stop == start + chunk_width,
                start == idx * chunk_width,
                stop <= width,
                idx < n,
                width == image@.width,
                row < image@.height(),
                pixels == image@.rows[row as int],
                target@.len() == old(target)@.len(),
                target@.len() >= n,
                span_accepted(old(target)@[idx as int], pixels, start as int, chunk_width as nat),
                target@[idx as int] == fold_span(
                    old(target)@[idx as int],
                    pixels,
                    start as int,
                    (x - start) as nat,
                ),
                forall|j: int|
                    0 <= j < idx ==> #[trigger] target@[j] == fold_span(
                        old(target)@[j],
                        pixels,
                        j * chunk_width,
                        chunk_width as nat,
                    ),
                forall|j: int|
                    idx < j < target@.len() ==> #[trigger] target@[j] == old(target)@[j],
            decreases stop - x,
        {
            let rgb = image.get_pixel(x, row);
            proof {
                lemma_span_prefix_accepted(
                    old(target)@[idx as int],
                    pixels,
                    start as int,
                    chunk_width as nat,
                    (x - start + 1) as nat,
                );
            }
            target[idx as usize].aggregate(&rgb);
            x = x + 1;
        }
        idx = idx + 1;
    }
    assert(target@ =~= chunk_sums(old(target)@, pixels, n as nat, chunk_width as nat));
}

/// Row `y_chunk` of the grid of an image: for each whole block of that row of
/// blocks, left to right, the mean colour of its pixels.
pub fn aggregate_row(image: &RgbBuffer, chunk_width: u32, chunk_height: u32, y_chunk: u32) -> (row:
    Vec<RGBSum>)
    requires
        chunk_width > 0,
        chunk_height > 0,
        y_chunk < block_count(image@.height(), chunk_height as nat),
        sums_fit(image@, chunk_width as nat, chunk_height as nat),
    ensures
        row@ == grid_row_of(image@, y_chunk as int, chunk_width as nat, chunk_height as nat),
        forall|bx: int| 0 <= bx < row@.len() ==> (#[trigger] row@[bx]).is_color(),
{
    let (width, height) = image.dimensions();
    let n_x: u32 = width / chunk_width;
    let ghost raster = image@;
    let ghost cw = chunk_width as nat;
    let ghost ch = chunk_height as nat;
    proof {
        lemma_block_inside(height as nat, ch, y_chunk as nat);
    }
    let start: u32 = y_chunk * chunk_height;
    let stop: u32 = start + chunk_height;
    let mut sums: Vec<RGBSum> = Vec::new();
    let mut i: u32 = 0;
    while i < n_x
        invariant
            i <= n_x,
            sums@.len() == i,
            forall|bx: int| 0 <= bx < i ==> #[trigger] sums@[bx] == totals(Seq::<Rgb8>::empty()),
        decreases n_x - i,
    {
        sums.push(RGBSum::zero());
        i = i + 1;
    }
    if n_x == 0 {
        assert(sums@ =~= grid_row_of(raster, y_chunk as int, cw, ch));
        return sums;
    }
    assert(255 * cw * ch <= u64::MAX);
    let mut y: u32 = start;
    while y < stop
        invariant
            start <= y <= stop,
            stop == start + chunk_height,
            start == y_chunk * chunk_height,
            stop <= height,
            chunk_width > 0,
            raster == image@,
            raster.wf(),
            width == raster.width,
            height == raster.height(),
            cw == chunk_width,
            ch == chunk_height,
            n_x == block_count(raster.width, cw),
            255 * cw * ch <= u64::MAX,
            sums@.len() == n_x,
            forall|bx: int|
                0 <= bx < n_x ==> #[trigger] sums@[bx] == totals(
                    block_pixels(raster.rows, bx * cw, start as int, cw, (y - start) as nat),
                ),
        decreases stop - y,
    {
        let ghost done = (y - start) as nat;
        let ghost before = sums@;
        proof {
            assert(255 * (cw * done + cw) <= u64::MAX) by (nonlinear_arith)
                requires
                    done < ch,
                    255 * cw * ch <= u64::MAX,
            ;
            assert forall|bx: int| 0 <= bx < n_x implies span_accepted(
                #[trigger] before[bx],
                raster.rows[y as int],
                bx * chunk_width,
                cw,
            ) && fold_span(before[bx], raster.rows[y as int], bx * cw, cw) == totals(
                block_pixels(raster.rows, bx * cw, start as int, cw, done + 1),
            ) by {
                lemma_block_inside(width as nat, cw, bx as nat);
                lemma_block_pixels_len(raster, bx * cw, start as int, cw, done);
                lemma_fold_totals_bounded(
                    block_pixels(raster.rows, bx * cw, start as int, cw, done),
                    raster.rows[y as int],
                    bx * cw,
                    cw,
                );
            }
        }
        sum_chunks_inplace(image, chunk_width, y, sums.as_mut_slice());
        assert forall|bx: int| 0 <= bx < n_x implies #[trigger] sums@[bx] == totals(
            block_pixels(raster.rows, bx * cw, start as int, cw, done + 1),
        ) by {
            assert(span_accepted(before[bx], raster.rows[y as int], bx * chunk_width, cw));
        }
        y = y + 1;
    }
    assert(cw * ch <= u64::MAX) by (nonlinear_arith)
        requires
            255 * cw * ch <= u64::MAX,
    ;
    assert(cw * ch > 0) by (nonlinear_arith)
        requires
            cw > 0,
            ch > 0,
    ;
    let n: u64 = chunk_width as u64 * chunk_height as u64;
    let mut bx: u32 = 0;
    while bx < n_x
        invariant
            bx <= n_x,
            raster == image@,
            raster.wf(),
            width == raster.width,
            stop <= raster.height(),
            stop == start + chunk_height,
            start == y_chunk * chunk_height,
            cw == chunk_width,
            ch == chunk_height,
            cw > 0,
            n == cw * ch,
            n > 0,
            255 * cw * ch <= u64::MAX,
            n_x == block_count(raster.width, cw),
            sums@.len() == n_x,
            forall|j: int|
                0 <= j < bx ==> #[trigger] sums@[j] == block_mean(
                    raster,
                    j,
                    y_chunk as int,
                    cw,
                    ch,
                ),
            forall|j: int| 0 <= j < bx ==> (#[trigger] sums@[j]).is_color(),
            forall|j: int|
                bx <= j < n_x ==> #[trigger] sums@[j] == totals(
                    block_pixels(raster.rows, j * cw, start as int, cw, ch),
                ),
        decreases n_x - bx,
    {
        proof {
            let pixels = block_pixels(raster.rows, bx * cw, start as int, cw, ch);
            lemma_block_inside(width as nat, cw, bx as nat);
            lemma_block_pixels_len(raster, bx * cw, start as int, cw, ch);
            lemma_channel_total_bound(pixels, 0);
            lemma_channel_total_bound(pixels, 1);
            lemma_channel_total_bound(pixels, 2);
            lemma_mean_is_color(pixels);
            assert(255 * (cw * ch) == 255 * cw * ch) by (nonlinear_arith);
        }
        sums[bx as usize].div(n);
        bx = bx + 1;
    }
    assert(sums@ =~= grid_row_of(raster, y_chunk as int, cw, ch));
    sums
}

/// Tells whether the channel sums of a block of this size fit the
/// accumulators, which [`aggregate`] and [`color_grid`] rely on.
pub fn blocks_fit(image: &RgbBuffer, chunk_width: usize, chunk_height: usize) -> (fit: bool)
    ensures
        fit == sums_fit(image@, chunk_width as nat, chunk_height as nat),
{
    let (width, height) = image.dimensions();
    if chunk_width == 0 || chunk_height == 0 || chunk_width > width as usize || chunk_height
        > height as usize {
        proof {
            let cw = chunk_width as int;
            let ch = chunk_height as int;
            let w = width as int;
            let h = height as int;
            assert(cw > w ==> w / cw == 0) by (nonlinear_arith)
                requires
                    0 <= w,
            ;
            assert(ch > h ==> h / ch == 0) by (nonlinear_arith)
                requires
                    0 <= h,
            ;
        }
        return true;
    }
    proof {
        let cw = chunk_width as int;
        let ch = chunk_height as int;
        let w = width as int;
        let h = height as int;
        assert(w / cw > 0) by (nonlinear_arith)
            requires
                0 < cw <= w,
        ;
        assert(h / ch > 0) by (nonlinear_arith)
            requires
                0 < ch <= h,
        ;
        assert(255 * cw * ch <= 255 * 0x1_0000_0000 * 0x1_0000_0000) by (nonlinear_arith)
            requires
                0 < cw <= 0xffff_ffff,
                0 < ch <= 0xffff_ffff,
        ;
        assert(255 * cw <= 255 * 0x1_0000_0000) by (nonlinear_arith)
            requires
                0 < cw <= 0xffff_ffff,
        ;
    }
    let wide: u128 = 255u128 * (chunk_width as u128) * (chunk_height as u128);
    wide <= u64::MAX as u128
}

/// The grid of mean block colours of an image, for chunk dimensions that are
/// known to be positive.
///
/// The image is cut into blocks of `chunk_width` by `chunk_height` pixels,
/// from the top left corner; each whole block gives one cell, the truncated
/// mean of its pixels. A chunk wider or higher than the image gives a grid
/// with no cell in that dimension.
pub fn aggregate(image: &RgbBuffer, chunk_width: usize, chunk_height: usize) -> (grid: ColorGrid)
    requires
        chunk_width > 0,
        chunk_height > 0,
        sums_fit(image@, chunk_width as nat, chunk_height as nat),
    ensures
        grid@ == grid_of(image@, chunk_width as nat, chunk_height as nat),
        all_colors(grid@),
{
    let (width, height) = image.dimensions();
    let ghost raster = image@;
    let ghost cw = chunk_width as nat;
    let ghost ch = chunk_height as nat;
    let mut rows: Vec<Vec<RGBSum>> = Vec::new();
    if chunk_height > height as usize {
        proof {
            let h = height as int;
            let c = chunk_height as int;
            assert(h / c == 0) by (nonlinear_arith)
                requires
                    0 <= h < c,
            ;
        }
        let grid = ColorGrid { rows };
        assert(grid@ =~= grid_of(raster, cw, ch));
        return grid;
    }
    let rows_per_block: u32 = chunk_height as u32;
    let n_y: u32 = height / rows_per_block;
    let narrow: bool = chunk_width <= width as usize;
    proof {
        if !narrow {
            let w = width as int;
            let c = chunk_width as int;
            assert(w / c == 0) by (nonlinear_arith)
                requires
                    0 <= w < c,
            ;
        }
    }
    let mut y_chunk: u32 = 0;
    while y_chunk < n_y
        invariant
            y_chunk <= n_y,
            raster == image@,
            cw == chunk_width,
            ch == chunk_height,
            rows_per_block == chunk_height,
            chunk_width > 0,
            chunk_height > 0,
            width == raster.width,
            narrow == (chunk_width <= width),
            !narrow ==> block_count(raster.width, cw) == 0,
            n_y == block_count(raster.height(), ch),
            sums_fit(raster, cw, ch),
            rows@.len() == y_chunk,
            forall|by: int|
                0 <= by < y_chunk ==> (#[trigger] rows@[by])@ == grid_row_of(raster, by, cw, ch),
            forall|by: int, bx: int|
                0 <= by < y_chunk && 0 <= bx < rows@[by]@.len()
                    ==> (#[trigger] rows@[by]@[bx]).is_color(),
        decreases n_y - y_chunk,
    {
        let row = if narrow {
            aggregate_row(image, chunk_width as u32, rows_per_block, y_chunk)
        } else {
            Vec::new()
        };
        assert(row@ =~= grid_row_of(raster, y_chunk as int, cw, ch));
        rows.push(row);
        y_chunk = y_chunk + 1;
    }
    let grid = ColorGrid { rows };
    assert(grid@ =~= grid_of(raster, cw, ch));
    grid
}

/// The grid of mean block colours of an image, or the reason why there is
/// none: a chunk dimension of zero.
pub fn color_grid(image: &RgbBuffer, chunk_width: usize, chunk_height: usize) -> (res: Result<
    ColorGrid,
    GridError,
>)
    requires
        sums_fit(image@, chunk_width as nat, chunk_height as nat),
    ensures
        chunk_width == 0 || chunk_height == 0 ==> res == Err::<ColorGrid, GridError>(
            GridError::InvalidChunkDimension,
        ),
        chunk_width > 0 && chunk_height > 0 ==> res is Ok && res->Ok_0@ == grid_of(
            image@,
            chunk_width as nat,
            chunk_height as nat,
        ) && all_colors(res->Ok_0@),
{
    if chunk_width == 0 || chunk_height == 0 {
        Err(GridError::InvalidChunkDimension)
    } else {
        Ok(aggregate(image, chunk_width, chunk_height))
    }
}

/// The grid of mean block colours of an image of any size: `None` where a
/// block is too large for its channel sums to fit the accumulators, else what
/// [`color_grid`] gives.
pub fn try_color_grid(image: &RgbBuffer, chunk_width: usize, chunk_height: usize) -> (res: Option<
    Result<ColorGrid, GridError>,
>)
    ensures
        res is Some <==> sums_fit(image@, chunk_width as nat, chunk_height as nat),
        res is Some && (chunk_width == 0 || chunk_height == 0) ==> res == Some(
            Err::<ColorGrid, GridError>(GridError::InvalidChunkDimension),
        ),
        res is Some && chunk_width > 0 && chunk_height > 0 ==> res->Some_0 is Ok
            && res->Some_0->Ok_0@ == grid_of(image@, chunk_width as nat, chunk_height as nat)
            && all_colors(res->Some_0->Ok_0@),
{
    if blocks_fit(image, chunk_width, chunk_height) {
        Some(color_grid(image, chunk_width, chunk_height))
    } else {
        None
    }
}

} // verus!
