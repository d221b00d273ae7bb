use tcolr::color::RGBSum;
use tcolr::rle::{encode_row, RgbCount};

fn rgb(r: u64, g: u64, b: u64) -> RGBSum {
    RGBSum { r, g, b }
}

fn run(r: u64, g: u64, b: u64, count: usize) -> RgbCount {
    RgbCount { rgb_sum: rgb(r, g, b), count }
}

fn decode(runs: &[RgbCount]) -> Vec<RGBSum> {
    let mut row = Vec::new();
    for r in runs {
        for _ in 0..r.count {
            row.push(r.rgb_sum.clone());
        }
    }
    row
}

#[test]
fn two_different_cells_give_two_runs() {
    let runs = encode_row(&[rgb(10, 10, 10), rgb(50, 50, 50)]);
    assert_eq!(runs, vec![run(10, 10, 10, 1), run(50, 50, 50, 1)]);
}

#[test]
fn two_equal_cells_give_one_run() {
    let runs = encode_row(&[rgb(7, 8, 9), rgb(7, 8, 9)]);
    assert_eq!(runs, vec![run(7, 8, 9, 2)]);
}

#[test]
fn empty_row_gives_no_run() {
    assert_eq!(encode_row(&[]), Vec::new());
}

#[test]
fn single_cell_gives_one_run_of_one() {
    assert_eq!(encode_row(&[rgb(1, 2, 3)]), vec![run(1, 2, 3, 1)]);
}

#[test]
fn all_different_cells_give_one_run_each() {
    let row = [rgb(1, 1, 1), rgb(2, 2, 2), rgb(1, 1, 1), rgb(3, 3, 3)];
    let runs = encode_row(&row);
    assert_eq!(runs, vec![run(1, 1, 1, 1), run(2, 2, 2, 1), run(1, 1, 1, 1), run(3, 3, 3, 1)]);
}

#[test]
fn runs_are_maximal() {
    let a = rgb(1, 2, 3);
    let b = rgb(1, 2, 4);
    let row =
        [a.clone(), a.clone(), a.clone(), b.clone(), a.clone(), a.clone(), b.clone(), b.clone()];
    let runs = encode_row(&row);
    assert_eq!(runs, vec![run(1, 2, 3, 3), run(1, 2, 4, 1), run(1, 2, 3, 2), run(1, 2, 4, 2)]);
    for pair in runs.windows(2) {
        assert_ne!(pair[0].rgb_sum, pair[1].rgb_sum);
    }
}

#[test]
fn colours_differ_when_one_channel_differs() {
    let runs = encode_row(&[rgb(1, 2, 3), rgb(1, 2, 4), rgb(1, 3, 4), rgb(2, 3, 4)]);
    assert_eq!(runs.len(), 4);
}

#[test]
fn decoding_gives_the_row_back() {
    let mut row = Vec::new();
    for i in 0..40u64 {
        row.push(rgb(i / 3 % 4, i / 7 % 2, 0));
    }
    let runs = encode_row(&row);
    assert_eq!(decode(&runs), row);
    assert!(runs.iter().all(|r| r.count >= 1));
}

#[test]
fn cells_outside_the_colour_range_are_merged_like_any_other() {
    let runs = encode_row(&[rgb(256, 0, 0), rgb(256, 0, 0), rgb(1000, 0, 0)]);
    assert_eq!(runs, vec![run(256, 0, 0, 2), run(1000, 0, 0, 1)]);
}

#[test]
fn same_rgb_compares_all_channels() {
    let r = run(1, 2, 3, 5);
    assert!(r.is_same_rgb(&rgb(1, 2, 3)));
    assert!(!r.is_same_rgb(&rgb(0, 2, 3)));
    assert!(!r.is_same_rgb(&rgb(1, 0, 3)));
    assert!(!r.is_same_rgb(&rgb(1, 2, 0)));
}

#[test]
fn incr_adds_one_cell() {
    let mut r = run(1, 2, 3, 5);
    r.incr();
    assert_eq!(r, run(1, 2, 3, 6));
}

#[test]
fn set_rgb_starts_a_run_of_one() {
    let mut r = run(1, 2, 3, 5);
    r.set_rgb(rgb(9, 8, 7));
    assert_eq!(r, run(9, 8, 7, 1));
}

#[test]
fn invalid_run_holds_no_colour_and_no_cell() {
    let r = RgbCount::invalid();
    assert_eq!(r, run(256, 0, 0, 0));
    assert_eq!(r.count, 0);
    assert!(!r.is_valid());
}

#[test]
fn valid_run_has_eight_bit_channels() {
    assert!(run(255, 255, 255, 1).is_valid());
    assert!(run(0, 0, 0, 1).is_valid());
    assert!(!run(256, 0, 0, 1).is_valid());
    assert!(!run(0, 256, 0, 1).is_valid());
    assert!(!run(0, 0, 256, 1).is_valid());
}

#[test]
fn first_cell_with_the_colour_of_the_invalid_run_starts_a_run() {
    let runs = encode_row(&[rgb(256, 0, 0)]);
    assert_eq!(runs, vec![run(256, 0, 0, 1)]);
}
