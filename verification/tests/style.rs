use voidtui::style::attributes::Attributes;
use voidtui::style::color::Color;
use voidtui::style::color::ColorSystem;
use voidtui::style::palette::eight_bit_palette;
use voidtui::style::palette::legacy_windows_palette;
use voidtui::style::palette::standard_palette;
use voidtui::style::rgb::RGB;
use voidtui::style::style::Style;
use voidtui::style::theme::Theme;

#[test]
fn attributes_ansi_codes() {
    let attributes = Attributes::new().italic().strike().underline();
    println!("\x1b[{}mHello, world!\x1b[0m", attributes.ansi_codes());
    assert_eq!(attributes.ansi_codes(), "3;4;9");
}

#[test]
fn from_hex() {
    let color1 = RGB::from_hex(0x1f1e33);
    let color2 = RGB::from_rgb(31, 30, 51);
    assert_eq!(color1, color2);
}

#[test]
fn rgb_ansi_codes() {
    let color = RGB::from_rgb(123, 219, 89);
    println!("\x1b[{}m██\x1b[0m", color.ansi_codes(ColorSystem::Disabled, true));
    println!("\x1b[{}m██\x1b[0m", color.ansi_codes(ColorSystem::LegacyWindows, true));
    println!("\x1b[{}m██\x1b[0m", color.ansi_codes(ColorSystem::Standard, true));
    println!("\x1b[{}m██\x1b[0m", color.ansi_codes(ColorSystem::EightBit, true));
    println!("\x1b[{}m██\x1b[0m", color.ansi_codes(ColorSystem::TrueColor, true));
    assert_eq!(color.ansi_codes(ColorSystem::Disabled, true), "");
    assert_eq!(color.ansi_codes(ColorSystem::TrueColor, true), "38;2;123;219;89");
    assert_eq!(color.ansi_codes(ColorSystem::TrueColor, false), "48;2;123;219;89");
}

#[test]
fn style_ansi_codes() {
    let style = Style::new().foreground(Color::Text).background(Color::Background).strike();
    println!(
        "\x1b[{}mHello, world!\x1b[0m",
        style.ansi_codes(ColorSystem::TrueColor, &Theme::tokyo_night())
    );
    assert_eq!(
        style.ansi_codes(ColorSystem::TrueColor, &Theme::tokyo_night()),
        "38;2;169;177;214;48;2;26;27;38;9"
    );
}

#[test]
fn nearest_exact_member() {
    let palette = standard_palette();
    // an exact catalog member matches itself, at distance zero
    let target = RGB::from_rgb(170, 85, 0);
    let idx = palette.nearest(target);
    assert_eq!(idx, 3);
    assert_eq!(palette.colors[idx].distance2(target), 0);
    let legacy = legacy_windows_palette();
    assert_eq!(legacy.nearest(RGB::from_rgb(197, 15, 31)), 1);
    let extended = eight_bit_palette();
    assert_eq!(extended.colors.len(), 256);
    assert_eq!(extended.nearest(RGB::from_rgb(0, 95, 135)), 24);
}

#[test]
fn nearest_picks_closest() {
    let palette = standard_palette();
    let idx = palette.nearest(RGB::from_rgb(250, 80, 90));
    let d = palette.colors[idx].distance2(RGB::from_rgb(250, 80, 90));
    for c in palette.colors.iter() {
        assert!(d <= c.distance2(RGB::from_rgb(250, 80, 90)));
    }
}

#[test]
fn alpha_blend() {
    let mut c = RGB::from_rgb(100, 200, 50);
    c.alpha_on(51, RGB::from_rgb(0, 0, 0));
    // each channel is blended to a fifth of its value, rounded
    assert_eq!(c, RGB::from_rgb(20, 40, 10));
    let mut d = RGB::from_rgb(0, 0, 0);
    d.alpha_on(0, RGB::from_rgb(255, 255, 255));
    assert_eq!(d, RGB::from_rgb(255, 255, 255));
}

#[test]
fn theme_lookup() {
    let theme = Theme::tokyo_night();
    assert_eq!(Color::Danger.on_theme(&theme), RGB::from_hex(0xF7768E));
    assert_eq!(Color::RGB(RGB::from_rgb(1, 2, 3)).on_theme(&theme), RGB::from_rgb(1, 2, 3));
}
