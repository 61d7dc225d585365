use pyxelxl::color::{color_dist, Rgb};
use pyxelxl::palette::Palette;

fn rgb(red: u8, green: u8, blue: u8) -> Rgb {
    Rgb { red, green, blue }
}

fn sixteen() -> Palette {
    let mut colors = Vec::new();
    for i in 0..16u8 {
        colors.push(rgb(i * 16, 255 - i * 16, (i % 4) * 60));
    }
    Palette { palette: colors }
}

#[test]
fn color_dist_exact_value() {
    assert_eq!(color_dist(rgb(10, 20, 30), rgb(13, 18, 35)), 8100 + 13924 + 3025);
}

#[test]
fn color_dist_of_a_color_to_itself_is_zero() {
    assert_eq!(color_dist(rgb(7, 200, 31), rgb(7, 200, 31)), 0);
}

#[test]
fn color_dist_is_symmetric() {
    assert_eq!(color_dist(rgb(0, 255, 3), rgb(255, 0, 9)), color_dist(rgb(255, 0, 9), rgb(0, 255, 3)));
}

#[test]
fn color_dist_largest_value() {
    assert_eq!(color_dist(rgb(0, 0, 0), rgb(255, 255, 255)), 292_742_550);
}

#[test]
fn color_dist_weighs_green_over_red_over_blue() {
    let origin = rgb(100, 100, 100);
    assert_eq!(color_dist(origin, rgb(110, 100, 100)), 90_000);
    assert_eq!(color_dist(origin, rgb(100, 110, 100)), 348_100);
    assert_eq!(color_dist(origin, rgb(100, 100, 110)), 12_100);
}

#[test]
fn closest_color_finds_exact_entry() {
    let palette = Palette { palette: vec![rgb(0, 0, 0), rgb(255, 255, 255), rgb(255, 0, 0)] };
    assert_eq!(palette.closest_color(rgb(255, 0, 0)), 2);
    assert_eq!(palette.closest_color(rgb(255, 255, 255)), 1);
    assert_eq!(palette.closest_color(rgb(0, 0, 0)), 0);
}

#[test]
fn closest_color_picks_least_weighted_distance() {
    let palette = Palette { palette: vec![rgb(0, 0, 0), rgb(0, 0, 255), rgb(0, 60, 0)] };
    // Blue counts little: (0, 0, 200) is nearer to black than plain
    // distance suggests, yet nearest to pure blue.
    assert_eq!(palette.closest_color(rgb(0, 0, 200)), 1);
    // Green counts most: 40 steps of green outweigh 120 steps of blue.
    assert_eq!(palette.closest_color(rgb(0, 40, 120)), 2);
    assert_eq!(palette.closest_color(rgb(0, 20, 120)), 0);
}

#[test]
fn closest_color_resolves_ties_to_first_entry() {
    let palette = Palette { palette: vec![rgb(10, 0, 0), rgb(30, 0, 0), rgb(10, 0, 0)] };
    assert_eq!(palette.closest_color(rgb(20, 0, 0)), 0);
    let swapped = Palette { palette: vec![rgb(30, 0, 0), rgb(10, 0, 0)] };
    assert_eq!(swapped.closest_color(rgb(20, 0, 0)), 0);
}

#[test]
fn closest_color_of_repeated_entry_is_first_occurrence() {
    let palette = Palette { palette: vec![rgb(0, 0, 0), rgb(9, 9, 9), rgb(0, 0, 0), rgb(9, 9, 9)] };
    assert_eq!(palette.closest_color(rgb(9, 9, 9)), 1);
    assert_eq!(palette.closest_color(rgb(0, 0, 0)), 0);
}

#[test]
fn closest_color_of_empty_palette_is_zero() {
    let palette = Palette { palette: Vec::new() };
    assert_eq!(palette.closest_color(rgb(1, 2, 3)), 0);
}

#[test]
fn closest_color_with_one_entry() {
    let palette = Palette { palette: vec![rgb(200, 100, 0)] };
    assert_eq!(palette.closest_color(rgb(0, 0, 255)), 0);
}

#[test]
fn every_distinct_entry_is_its_own_closest_color() {
    let palette = sixteen();
    for i in 0..palette.palette.len() {
        assert_eq!(palette.closest_color(palette.palette[i]) as usize, i);
    }
}

fn distinct(count: u32) -> Palette {
    let mut colors = Vec::new();
    for i in 0..count {
        colors.push(rgb((i % 256) as u8, (i / 256) as u8, 0));
    }
    Palette { palette: colors }
}

#[test]
fn closest_color_reaches_the_last_of_256_entries() {
    let palette = distinct(256);
    assert_eq!(palette.closest_color(rgb(255, 0, 0)), 255);
    assert_eq!(palette.closest_color(rgb(255, 0, 9)), 255);
    assert_eq!(palette.closest_color(rgb(43, 0, 0)), 43);
    for i in 0..256usize {
        assert_eq!(palette.closest_color(palette.palette[i]) as usize, i);
    }
}

#[test]
fn try_closest_color_agrees_with_closest_color() {
    let palette = sixteen();
    for color in [rgb(0, 0, 0), rgb(17, 200, 3), rgb(255, 255, 255), rgb(128, 127, 60)] {
        assert_eq!(palette.try_closest_color(color), Some(palette.closest_color(color)));
    }
    let empty = Palette { palette: Vec::new() };
    assert_eq!(empty.try_closest_color(rgb(1, 2, 3)), Some(0));
    assert_eq!(distinct(256).try_closest_color(rgb(255, 0, 0)), Some(255));
}

#[test]
fn try_closest_color_refuses_more_than_256_entries() {
    assert_eq!(distinct(257).try_closest_color(rgb(0, 1, 0)), None);
    assert_eq!(distinct(257).try_closest_color(rgb(0, 0, 0)), None);
    assert_eq!(distinct(300).try_closest_color(rgb(43, 1, 0)), None);
}

#[test]
fn palette_clone_keeps_entries() {
    let palette = sixteen();
    let copy = palette.clone();
    assert_eq!(copy.palette, palette.palette);
}
