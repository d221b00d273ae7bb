use tcolr::aggregate::aggregate;
use tcolr::grid::GridError;
use tcolr::pipeline::{render, try_render};
use tcolr::color::RGBSum;
use tcolr::raster::RgbBuffer;
use tcolr::render::{glyphs, join, render_grid, render_row, render_run, GLYPH};
use tcolr::rle::{encode_row, RgbCount};

fn buffer(width: u32, height: u32, pixels: &[(u8, u8, u8)]) -> RgbBuffer {
    let mut data = Vec::new();
    for p in pixels {
        data.push(p.0);
        data.push(p.1);
        data.push(p.2);
    }
    RgbBuffer::from_raw(width, height, data).unwrap()
}

fn rgb(r: u64, g: u64, b: u64) -> RGBSum {
    RGBSum { r, g, b }
}

#[test]
fn glyph_is_a_dollar_sign() {
    assert_eq!(GLYPH, '$');
    assert_eq!(glyphs(0), "");
    assert_eq!(glyphs(3), "$$$");
}

#[test]
fn run_is_painted_in_its_colour() {
    let text = render_run(&RgbCount { rgb_sum: rgb(7, 8, 9), count: 2 });
    assert_eq!(text, "\x1b[38;2;7;8;9m$$\x1b[0m");
}

#[test]
fn run_is_painted_as_ansi_term_paints_it() {
    let text = render_run(&RgbCount { rgb_sum: rgb(255, 0, 128), count: 4 });
    assert_eq!(text, ansi_term::Colour::RGB(255, 0, 128).paint("$$$$").to_string());
}

#[test]
fn channels_are_cut_to_eight_bits() {
    let text = render_run(&RgbCount { rgb_sum: rgb(256, 257, 511), count: 1 });
    assert_eq!(text, "\x1b[38;2;0;1;255m$\x1b[0m");
}

#[test]
fn row_of_two_runs_is_one_line() {
    let line = render_row(&[rgb(10, 10, 10), rgb(50, 50, 50)]);
    assert_eq!(line, "\x1b[38;2;10;10;10m$\x1b[0m\x1b[38;2;50;50;50m$\x1b[0m\n");
}

#[test]
fn row_of_one_run_is_one_line() {
    let line = render_row(&[rgb(7, 8, 9), rgb(7, 8, 9)]);
    assert_eq!(line, "\x1b[38;2;7;8;9m$$\x1b[0m\n");
}

#[test]
fn empty_row_is_an_empty_line() {
    assert_eq!(render_row(&[]), "\n");
}

#[test]
fn grid_is_rendered_row_after_row() {
    let image = buffer(2, 2, &[(1, 1, 1), (1, 1, 1), (2, 2, 2), (3, 3, 3)]);
    let grid = aggregate(&image, 1, 1);
    assert_eq!(
        render_grid(&grid),
        "\x1b[38;2;1;1;1m$$\x1b[0m\n\x1b[38;2;2;2;2m$\x1b[0m\x1b[38;2;3;3;3m$\x1b[0m\n"
    );
}

#[test]
fn equal_rows_are_not_merged() {
    let image = buffer(1, 2, &[(1, 1, 1), (1, 1, 1)]);
    let grid = aggregate(&image, 1, 1);
    assert_eq!(render_grid(&grid), "\x1b[38;2;1;1;1m$\x1b[0m\n\x1b[38;2;1;1;1m$\x1b[0m\n");
}

#[test]
fn four_by_two_image_in_two_by_two_chunks() {
    let a = (10, 10, 10);
    let b = (50, 50, 50);
    let image = buffer(4, 2, &[a, a, b, b, a, a, b, b]);
    let grid = aggregate(&image, 2, 2);
    assert_eq!(grid.rows.len(), 1);
    assert_eq!(grid.rows[0], vec![rgb(10, 10, 10), rgb(50, 50, 50)]);
    let runs = encode_row(&grid.rows[0]);
    assert_eq!(
        runs,
        vec![
            RgbCount { rgb_sum: rgb(10, 10, 10), count: 1 },
            RgbCount { rgb_sum: rgb(50, 50, 50), count: 1 }
        ]
    );
    assert_eq!(
        render(&image, 2, 2),
        Ok(String::from("\x1b[38;2;10;10;10m$\x1b[0m\x1b[38;2;50;50;50m$\x1b[0m\n"))
    );
}

#[test]
fn four_by_one_image_in_two_by_one_chunks() {
    let p = (7, 8, 9);
    let image = buffer(4, 1, &[p, p, p, p]);
    let grid = aggregate(&image, 2, 1);
    assert_eq!(grid.rows, vec![vec![rgb(7, 8, 9), rgb(7, 8, 9)]]);
    let runs = encode_row(&grid.rows[0]);
    assert_eq!(runs, vec![RgbCount { rgb_sum: rgb(7, 8, 9), count: 2 }]);
    assert_eq!(render(&image, 2, 1), Ok(String::from("\x1b[38;2;7;8;9m$$\x1b[0m\n")));
}

#[test]
fn five_by_one_image_in_chunks_of_two() {
    let image = buffer(5, 1, &[(4, 4, 4), (6, 6, 6), (4, 4, 4), (6, 6, 6), (250, 250, 250)]);
    let grid = aggregate(&image, 2, 1);
    assert_eq!(grid.rows, vec![vec![rgb(5, 5, 5), rgb(5, 5, 5)]]);
    assert_eq!(render(&image, 2, 1), Ok(String::from("\x1b[38;2;5;5;5m$$\x1b[0m\n")));
}

#[test]
fn uniform_image_is_one_run_in_each_row() {
    let p = (9, 9, 9);
    let image = buffer(6, 4, &[p; 24]);
    let grid = aggregate(&image, 2, 2);
    for row in &grid.rows {
        assert_eq!(encode_row(row), vec![RgbCount { rgb_sum: rgb(9, 9, 9), count: 3 }]);
    }
    assert_eq!(
        render(&image, 2, 2),
        Ok(String::from("\x1b[38;2;9;9;9m$$$\x1b[0m\n\x1b[38;2;9;9;9m$$$\x1b[0m\n"))
    );
}

#[test]
fn rendering_twice_gives_the_same_text() {
    let image = buffer(3, 2, &[(1, 2, 3), (4, 5, 6), (7, 8, 9), (1, 2, 3), (4, 5, 6), (7, 8, 9)]);
    assert_eq!(render(&image, 1, 2), render(&image, 1, 2));
}

#[test]
fn render_refuses_a_zero_chunk_dimension() {
    let image = buffer(1, 1, &[(1, 2, 3)]);
    assert_eq!(render(&image, 0, 1), Err(GridError::InvalidChunkDimension));
    assert_eq!(render(&image, 1, 0), Err(GridError::InvalidChunkDimension));
}

#[test]
fn image_smaller_than_a_chunk_renders_nothing() {
    let image = buffer(1, 1, &[(1, 2, 3)]);
    assert_eq!(render(&image, 1, 2), Ok(String::new()));
    assert_eq!(render(&image, 2, 1), Ok(String::from("\n")));
}

#[test]
fn strings_are_joined_in_their_order() {
    assert_eq!(join(&Vec::new()), "");
    assert_eq!(join(&vec![String::from("ab"), String::new(), String::from("c")]), "abc");
}

#[test]
fn image_of_any_size_is_rendered() {
    let image = buffer(2, 1, &[(1, 2, 3), (1, 2, 3)]);
    assert_eq!(try_render(&image, 1, 1), Some(Ok(String::from("\x1b[38;2;1;2;3m$$\x1b[0m\n"))));
    assert_eq!(try_render(&image, 0, 1), Some(Err(GridError::InvalidChunkDimension)));
    assert_eq!(try_render(&image, usize::MAX, usize::MAX), Some(Ok(String::new())));
}

#[test]
fn every_channel_value_is_written_in_decimal() {
    for v in 0..=255u64 {
        let text = render_run(&RgbCount { rgb_sum: rgb(v, 255 - v, (v * 7) % 256), count: 1 });
        assert_eq!(text, format!("\x1b[38;2;{};{};{}m$\x1b[0m", v, 255 - v, (v * 7) % 256));
    }
}

#[test]
fn run_without_a_cell_is_painted_without_a_glyph() {
    let text = render_run(&RgbCount { rgb_sum: rgb(1, 20, 255), count: 0 });
    assert_eq!(text, "\x1b[38;2;1;20;255m\x1b[0m");
}
