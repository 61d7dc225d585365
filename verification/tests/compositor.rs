use pyxelxl::bitmap::Bitmap;
use pyxelxl::color::Rgb;
use pyxelxl::compositor::imprint_fits;
use pyxelxl::fontapi::{imprint_text, try_imprint_text, Palette};

fn rgb(red: u8, green: u8, blue: u8) -> Rgb {
    Rgb { red, green, blue }
}

fn black_white() -> Palette {
    Palette { palette: vec![rgb(0, 0, 0), rgb(255, 255, 255)] }
}

fn greys() -> Palette {
    Palette { palette: vec![rgb(0, 0, 0), rgb(255, 255, 255), rgb(128, 128, 128), rgb(64, 64, 64)] }
}

fn grid(rows: Vec<Vec<u8>>) -> Bitmap {
    Bitmap::from_rows(&rows).unwrap()
}

#[test]
fn end_to_end_example() {
    let palette = black_white();
    let bitmap = grid(vec![vec![255]]);
    let mut target = grid(vec![vec![0]]);
    imprint_text(&palette, &bitmap, 1, 0, 0, &mut target);
    assert_eq!(target.get(0, 0), Some(1));
}

#[test]
fn zero_coverage_leaves_target_unchanged() {
    let palette = greys();
    let bitmap = grid(vec![vec![0, 0, 0], vec![0, 0, 0]]);
    let before = vec![vec![0, 1, 2, 3], vec![3, 2, 1, 0], vec![1, 1, 2, 2]];
    let mut target = grid(before.clone());
    imprint_text(&palette, &bitmap, 1, 1, 0, &mut target);
    assert_eq!(target.to_rows(), before);
}

#[test]
fn zero_coverage_moves_repeated_color_to_its_first_index() {
    let palette = Palette { palette: vec![rgb(5, 5, 5), rgb(9, 9, 9), rgb(5, 5, 5)] };
    let bitmap = grid(vec![vec![0]]);
    let mut target = grid(vec![vec![2, 2]]);
    imprint_text(&palette, &bitmap, 1, 0, 0, &mut target);
    assert_eq!(target.to_rows(), vec![vec![0, 2]]);
}

#[test]
fn full_coverage_sets_text_color() {
    let palette = greys();
    let bitmap = grid(vec![vec![255, 255], vec![255, 255]]);
    let mut target = grid(vec![vec![0, 1, 2], vec![3, 0, 1], vec![2, 3, 0]]);
    imprint_text(&palette, &bitmap, 2, 1, 1, &mut target);
    assert_eq!(target.to_rows(), vec![vec![0, 1, 2], vec![3, 2, 2], vec![2, 2, 2]]);
}

#[test]
fn full_coverage_with_repeated_text_color_stores_first_index() {
    let palette = Palette { palette: vec![rgb(5, 5, 5), rgb(9, 9, 9), rgb(9, 9, 9)] };
    let bitmap = grid(vec![vec![255]]);
    let mut target = grid(vec![vec![0]]);
    imprint_text(&palette, &bitmap, 2, 0, 0, &mut target);
    assert_eq!(target.to_rows(), vec![vec![1]]);
}

#[test]
fn partial_coverage_blends_then_requantizes() {
    let palette = greys();
    // White over black: coverage c gives the grey (c, c, c).
    let bitmap = grid(vec![vec![0, 31, 32, 33, 95, 96, 97, 128, 191, 192, 255]]);
    let mut target = grid(vec![vec![0; 11]]);
    imprint_text(&palette, &bitmap, 1, 0, 0, &mut target);
    // Nearest of 0, 64, 128, 255; a tie goes to the lower index, and the
    // indices are 0 for black, 3 for (64), 2 for (128), 1 for white.
    assert_eq!(target.to_rows(), vec![vec![0, 0, 0, 3, 3, 2, 2, 2, 2, 1, 1]]);
}

#[test]
fn partial_coverage_over_a_lit_pixel() {
    let palette = greys();
    // Black at coverage 128 over white: 255 * 127 / 255 = 127, nearest 128.
    let bitmap = grid(vec![vec![128]]);
    let mut target = grid(vec![vec![1]]);
    imprint_text(&palette, &bitmap, 0, 0, 0, &mut target);
    assert_eq!(target.to_rows(), vec![vec![2]]);
}

#[test]
fn imprint_at_an_offset_uses_column_then_row() {
    let palette = black_white();
    let bitmap = grid(vec![vec![255, 0]]);
    let mut target = grid(vec![vec![0, 0, 0], vec![0, 0, 0]]);
    imprint_text(&palette, &bitmap, 1, 1, 0, &mut target);
    assert_eq!(target.to_rows(), vec![vec![0, 1, 0], vec![0, 0, 0]]);
    let mut other = grid(vec![vec![0, 0, 0], vec![0, 0, 0]]);
    imprint_text(&palette, &bitmap, 1, 0, 1, &mut other);
    assert_eq!(other.to_rows(), vec![vec![0, 0, 0], vec![1, 0, 0]]);
}

#[test]
fn clipping_keeps_writes_inside_the_target() {
    let palette = black_white();
    let bitmap = grid(vec![vec![255, 255, 255], vec![255, 255, 255], vec![255, 255, 255]]);
    let mut target = grid(vec![vec![0, 0, 0], vec![0, 0, 0]]);
    imprint_text(&palette, &bitmap, 1, 2, 1, &mut target);
    assert_eq!(target.nrows(), 2);
    assert_eq!(target.ncols(), 3);
    assert_eq!(target.to_rows(), vec![vec![0, 0, 0], vec![0, 0, 1]]);
}

#[test]
fn clipping_a_bitmap_wholly_outside_changes_nothing() {
    let palette = black_white();
    let bitmap = grid(vec![vec![255, 255], vec![255, 255]]);
    let before = vec![vec![0, 1, 0], vec![1, 0, 1]];
    let mut target = grid(before.clone());
    imprint_text(&palette, &bitmap, 1, 3, 0, &mut target);
    assert_eq!(target.to_rows(), before);
    imprint_text(&palette, &bitmap, 0, 3, 2, &mut target);
    assert_eq!(target.to_rows(), before);
    imprint_text(&palette, &bitmap, 0, 0, 2, &mut target);
    assert_eq!(target.to_rows(), before);
}

#[test]
fn clipping_at_the_largest_offsets_changes_nothing() {
    let palette = black_white();
    let bitmap = grid(vec![vec![255, 255], vec![255, 255]]);
    let before = vec![vec![0, 1, 0], vec![1, 0, 1]];
    let mut target = grid(before.clone());
    imprint_text(&palette, &bitmap, 1, u32::MAX, u32::MAX, &mut target);
    assert_eq!(target.to_rows(), before);
    imprint_text(&palette, &bitmap, 1, u32::MAX, 0, &mut target);
    assert_eq!(target.to_rows(), before);
    imprint_text(&palette, &bitmap, 1, 0, u32::MAX, &mut target);
    assert_eq!(target.to_rows(), before);
}

#[test]
fn clipping_a_bitmap_wholly_outside_asks_nothing_of_the_text_color() {
    let palette = black_white();
    let bitmap = grid(vec![vec![255, 255], vec![255, 255]]);
    let before = vec![vec![0, 1, 0], vec![1, 0, 1]];
    let mut target = grid(before.clone());
    imprint_text(&palette, &bitmap, 200, 3, 0, &mut target);
    assert_eq!(target.to_rows(), before);
}

#[test]
fn imprint_of_an_empty_bitmap_changes_nothing() {
    let palette = black_white();
    let bitmap = Bitmap::zeros(0, 0).unwrap();
    let before = vec![vec![0, 1], vec![1, 0]];
    let mut target = grid(before.clone());
    imprint_text(&palette, &bitmap, 1, 0, 0, &mut target);
    assert_eq!(target.to_rows(), before);
}

#[test]
fn imprint_onto_an_empty_target() {
    let palette = black_white();
    let bitmap = grid(vec![vec![255]]);
    let mut target = Bitmap::zeros(0, 4).unwrap();
    imprint_text(&palette, &bitmap, 1, 0, 0, &mut target);
    assert_eq!(target.nrows(), 0);
    assert_eq!(target.ncols(), 4);
}

#[test]
fn imprint_leaves_the_bitmap_as_it_was() {
    let palette = black_white();
    let bitmap = grid(vec![vec![255, 7]]);
    let mut target = grid(vec![vec![0, 0]]);
    imprint_text(&palette, &bitmap, 1, 0, 0, &mut target);
    assert_eq!(bitmap.to_rows(), vec![vec![255, 7]]);
}

fn long_palette(count: u32) -> Palette {
    let mut colors = Vec::new();
    for i in 0..count {
        colors.push(rgb((i % 256) as u8, (i / 256) as u8, 0));
    }
    Palette { palette: colors }
}

#[test]
fn imprint_stores_only_indices_of_the_palette() {
    let palette = greys();
    let mut cells = Vec::new();
    for c in 0..=255u8 {
        cells.push(c);
    }
    let bitmap = grid(vec![cells]);
    for under in 0..4u8 {
        for text in 0..4u8 {
            let mut target = grid(vec![vec![under; 256]]);
            imprint_text(&palette, &bitmap, text, 0, 0, &mut target);
            for index in &target.to_rows()[0] {
                assert!((*index as usize) < palette.palette.len());
            }
        }
    }
}

#[test]
fn imprint_with_256_entries_can_store_the_last_index() {
    let palette = long_palette(256);
    let bitmap = grid(vec![vec![255, 0]]);
    let mut target = grid(vec![vec![0, 255]]);
    imprint_text(&palette, &bitmap, 255, 0, 0, &mut target);
    assert_eq!(target.to_rows(), vec![vec![255, 255]]);
}

#[test]
fn try_imprint_text_agrees_with_imprint_text() {
    let palette = greys();
    let bitmap = grid(vec![vec![255, 96], vec![0, 33]]);
    let start = vec![vec![0, 1, 2], vec![3, 0, 1]];
    let mut tried = grid(start.clone());
    let mut plain = grid(start);
    assert!(try_imprint_text(&palette, &bitmap, 1, 1, 0, &mut tried));
    imprint_text(&palette, &bitmap, 1, 1, 0, &mut plain);
    assert_eq!(tried.to_rows(), plain.to_rows());
    assert_eq!(tried.to_rows(), vec![vec![0, 1, 2], vec![3, 0, 1]]);
}

#[test]
fn try_imprint_text_refuses_a_text_color_outside_the_palette() {
    let palette = black_white();
    let bitmap = grid(vec![vec![255]]);
    let before = vec![vec![0, 1]];
    let mut target = grid(before.clone());
    assert!(!try_imprint_text(&palette, &bitmap, 2, 0, 0, &mut target));
    assert_eq!(target.to_rows(), before);
    assert!(!imprint_fits(&palette, &bitmap, 2, 1, 0, &target));
    assert!(imprint_fits(&palette, &bitmap, 2, 2, 0, &target));
    assert!(try_imprint_text(&palette, &bitmap, 2, 2, 0, &mut target));
    assert_eq!(target.to_rows(), before);
}

#[test]
fn try_imprint_text_refuses_a_reached_cell_outside_the_palette() {
    let palette = black_white();
    let bitmap = grid(vec![vec![255, 255]]);
    let before = vec![vec![0, 1, 7]];
    let mut target = grid(before.clone());
    assert!(!try_imprint_text(&palette, &bitmap, 1, 1, 0, &mut target));
    assert_eq!(target.to_rows(), before);
    assert!(try_imprint_text(&palette, &bitmap, 1, 0, 0, &mut target));
    assert_eq!(target.to_rows(), vec![vec![1, 1, 7]]);
}

#[test]
fn try_imprint_text_refuses_a_palette_of_more_than_256_entries() {
    let palette = long_palette(257);
    let bitmap = grid(vec![vec![255]]);
    let before = vec![vec![0, 1]];
    let mut target = grid(before.clone());
    assert!(!try_imprint_text(&palette, &bitmap, 1, 0, 0, &mut target));
    assert_eq!(target.to_rows(), before);
    // Nothing is asked of a palette that the bitmap has no use for.
    assert!(try_imprint_text(&palette, &bitmap, 1, 2, 0, &mut target));
    assert_eq!(target.to_rows(), before);
    assert!(try_imprint_text(&long_palette(256), &bitmap, 1, 0, 0, &mut target));
    assert_eq!(target.to_rows(), vec![vec![1, 1]]);
}

#[test]
fn imprint_fits_with_an_empty_palette_only_where_nothing_is_reached() {
    let palette = Palette { palette: Vec::new() };
    let bitmap = grid(vec![vec![255]]);
    let target = grid(vec![vec![0]]);
    assert!(!imprint_fits(&palette, &bitmap, 0, 0, 0, &target));
    assert!(imprint_fits(&palette, &bitmap, 0, 1, 0, &target));
    assert!(imprint_fits(&palette, &Bitmap::zeros(0, 3).unwrap(), 0, 0, 0, &target));
}
