use pyxelxl::color::{blend_mode, PreAlpha, Rgb, PREMULTIPLIED_MAX};

fn rgb(red: u8, green: u8, blue: u8) -> Rgb {
    Rgb { red, green, blue }
}

#[test]
fn premultiply_scales_each_channel() {
    let c = rgb(200, 100, 50).premultiply(128);
    assert_eq!(c, PreAlpha { red: 25_600, green: 12_800, blue: 6_400, alpha: 128 });
}

#[test]
fn premultiply_by_zero_is_transparent_black() {
    assert_eq!(rgb(200, 100, 50).premultiply(0), PreAlpha { red: 0, green: 0, blue: 0, alpha: 0 });
}

#[test]
fn premultiply_at_full_opacity() {
    let c = rgb(255, 1, 0).premultiply(255);
    assert_eq!(c, PreAlpha { red: PREMULTIPLIED_MAX, green: 255, blue: 0, alpha: 255 });
    assert_eq!(PREMULTIPLIED_MAX, 255 * 255);
}

#[test]
fn blend_mode_exact_value() {
    let src = rgb(200, 100, 50).premultiply(128);
    let dst = rgb(10, 20, 30).premultiply(255);
    let out = blend_mode(src, dst);
    assert_eq!(out, PreAlpha { red: 26_870, green: 15_340, blue: 10_210, alpha: 255 });
    assert_eq!(out.color(), rgb(105, 60, 40));
}

#[test]
fn blend_mode_keeps_destination_opacity() {
    let src = rgb(255, 255, 255).premultiply(255);
    let dst = rgb(0, 0, 0).premultiply(100);
    assert_eq!(blend_mode(src, dst).alpha, 100);
}

#[test]
fn blend_mode_with_transparent_source_gives_destination() {
    let src = rgb(200, 100, 50).premultiply(0);
    let dst = rgb(10, 20, 30).premultiply(255);
    assert_eq!(blend_mode(src, dst), dst);
    assert_eq!(blend_mode(src, dst).color(), rgb(10, 20, 30));
}

#[test]
fn blend_mode_with_opaque_source_gives_source() {
    let src = rgb(200, 100, 50).premultiply(255);
    let dst = rgb(10, 20, 30).premultiply(255);
    assert_eq!(blend_mode(src, dst).color(), rgb(200, 100, 50));
}

#[test]
fn blend_mode_rounds_the_destination_share_down() {
    let src = rgb(0, 0, 0).premultiply(1);
    let dst = PreAlpha { red: 1, green: 255, blue: 256, alpha: 255 };
    // 254/255 of 1, 255 and 256, rounded down.
    assert_eq!(blend_mode(src, dst), PreAlpha { red: 0, green: 254, blue: 254, alpha: 255 });
}

#[test]
fn color_rounds_down() {
    let c = PreAlpha { red: 254, green: 255, blue: 509, alpha: 255 };
    assert_eq!(c.color(), rgb(0, 1, 1));
}

#[test]
fn color_caps_at_full_intensity() {
    let c = PreAlpha { red: 70_000, green: u32::MAX, blue: PREMULTIPLIED_MAX, alpha: 255 };
    assert_eq!(c.color(), rgb(255, 255, 255));
}

#[test]
fn color_does_not_divide_by_opacity() {
    assert_eq!(rgb(200, 100, 50).premultiply(128).color(), rgb(100, 50, 25));
}
