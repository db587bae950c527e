use system_monitor::color::{brush_to_hex, color_brush, color_channels, hex_to_color};

#[test]
fn hex_to_color_reads_channels() {
    let c = hex_to_color("#1a2B3c");
    assert_eq!((c.red(), c.green(), c.blue(), c.alpha()), (0x1a, 0x2b, 0x3c, 255));
}

#[test]
fn hex_to_color_falls_back_to_grey() {
    let c = hex_to_color("blue");
    assert_eq!((c.red(), c.green(), c.blue()), (100, 100, 100));
}

#[test]
fn brush_to_hex_writes_solid_colour() {
    let brush = slint::Brush::SolidColor(slint::Color::from_rgb_u8(1, 2, 255));
    assert_eq!(brush_to_hex(brush), "#0102ff");
}

#[test]
fn colour_round_trip() {
    let code = "#a0b1c2";
    let brush = slint::Brush::SolidColor(hex_to_color(code));
    assert_eq!(brush_to_hex(brush), code);
}

#[test]
fn hex_to_color_unreadable_digits_give_grey() {
    let c = hex_to_color("#zz0000");
    assert_eq!((c.red(), c.green(), c.blue()), (100, 100, 100));
    let c = hex_to_color("#a\u{e9}\u{e9}b");
    assert_eq!((c.red(), c.green(), c.blue()), (100, 100, 100));
}

#[test]
fn color_channels_reads_back() {
    assert_eq!(color_channels(slint::Color::from_rgb_u8(9, 200, 17)), (9, 200, 17));
    assert_eq!(color_channels(hex_to_color("#0A0b0C")), (10, 11, 12));
}

#[test]
fn color_brush_is_solid() {
    let c = slint::Color::from_rgb_u8(4, 5, 6);
    let b = color_brush(c);
    assert_eq!(b.color(), c);
    assert_eq!(brush_to_hex(b), "#040506");
}

#[test]
fn brush_hex_colour_round_trip() {
    let b = slint::Brush::SolidColor(slint::Color::from_rgb_u8(250, 0, 33));
    let c = hex_to_color(&brush_to_hex(b.clone()));
    let orig = b.color();
    assert_eq!(color_channels(c), (orig.red(), orig.green(), orig.blue()));
    assert_eq!(c.alpha(), 255);
}
