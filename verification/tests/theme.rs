use cabin::cli::theme::{validate_hex_color, Color, ColorLike, Hex, ParseableTheme, Style, Styled};

fn rgb(color: Color) -> (u8, u8, u8) {
    (color.red(), color.green(), color.blue())
}

#[test]
fn rgb_colors_keep_their_components() {
    assert_eq!(rgb(Color::rgb(1, 2, 3).to_color()), (1, 2, 3));
}

#[test]
fn hex_colors_convert() {
    let hex = Hex::create_unsafely_from_raw_unvalidated_hex_string("#FF8000");
    assert_eq!(rgb(hex.to_color()), (255, 128, 0));
    assert_eq!(rgb(ColorLike::Hex(Hex::create_unsafely_from_raw_unvalidated_hex_string("#0a0B0c")).to_color()), (10, 11, 12));
}

#[test]
fn validation_returns_the_input() {
    assert_eq!(validate_hex_color("#a1b2c3"), "#a1b2c3");
}

#[test]
fn styles_carry_their_flags_and_color() {
    let styled = Style::foreground().color(Color::rgb(1, 2, 3)).bold().underline().on("x");
    assert_eq!(styled.text, "x");
    assert!(styled.bold && styled.underline && !styled.italic && !styled.strikethrough);
    assert_eq!(styled.foreground.map(rgb), Some((1, 2, 3)));
    assert!(styled.background.is_none());
}

#[test]
fn background_styles_color_the_background() {
    let styled = "y".style(&Style::background().color(Color::rgb(9, 8, 7)).italic().strikethrough());
    assert!(styled.italic && styled.strikethrough);
    assert!(styled.foreground.is_none());
    assert_eq!(styled.background.map(rgb), Some((9, 8, 7)));
}

#[test]
fn one_midnight_theme_colors() {
    let theme = ParseableTheme::OneMidnight.get_theme();
    assert_eq!(theme.keyword().on("k").foreground.map(rgb), Some((0xC6, 0x78, 0xDD)));
    assert_eq!(theme.line_numbers().on("1").foreground.map(rgb), Some((60, 50, 90)));
    assert_eq!(theme.background().on("b").background.map(rgb), Some((0x06, 0x01, 0x15)));
}

#[test]
fn no_theme_is_plain() {
    let theme = ParseableTheme::NoTheme.get_theme();
    let styled = String::from("plain").style(theme.keyword());
    assert!(styled.foreground.is_none() && styled.background.is_none() && !styled.bold);
}
