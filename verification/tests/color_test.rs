use oscarv2::model::builder::parse_color;
use oscarv2::utils::color::{
    argb_to_rgb, color_of_name, hex_to_rgb, named_color_to_rgb, parse_hex_color, BLACK, BLUE,
    BROWN, CYAN, DARK_GRAY, GRAY, GREEN, LIGHT_GRAY, LIME, MAGENTA, MAROON, NAVY, OLIVE, ORANGE,
    PINK, PURPLE, RED, SILVER, TEAL, TRACE_COLOR, WHITE, YELLOW,
};

#[test]
fn test_parse_color() {
    assert_eq!(parse_color("FF0000").unwrap(), 0xFF0000);
    assert_eq!(parse_color("#00FF00").unwrap(), 0x00FF00);
    assert_eq!(parse_color("red").unwrap(), 0xFF0000);
    assert_eq!(parse_color("0F0").unwrap(), 0x00FF00);
}

#[test]
fn test_hex_to_rgb() {
    assert_eq!(hex_to_rgb("#FF0000"), RED);
    assert_eq!(hex_to_rgb("#00FF00"), GREEN);
    assert_eq!(hex_to_rgb("#0000FF"), BLUE);
    assert_eq!(hex_to_rgb("white"), WHITE);
    assert_eq!(hex_to_rgb("black"), BLACK);
}

#[test]
fn test_argb_to_rgb() {
    assert_eq!(argb_to_rgb(0xFF_FF0000), RED);
    assert_eq!(argb_to_rgb(0x80_00FF00), GREEN);
}

#[test]
fn argb_to_rgb_keeps_the_low_24_bits() {
    assert_eq!(argb_to_rgb(0xFFFF_FFFF), 0x00FF_FFFF);
    assert_eq!(argb_to_rgb(0x1234_5678), 0x0034_5678);
    assert_eq!(argb_to_rgb(0), 0);
}

#[test]
fn every_colour_name_has_its_value() {
    let table = [
        ("white", WHITE),
        ("black", BLACK),
        ("red", RED),
        ("green", GREEN),
        ("blue", BLUE),
        ("cyan", CYAN),
        ("yellow", YELLOW),
        ("magenta", MAGENTA),
        ("gray", GRAY),
        ("grey", GRAY),
        ("light_gray", LIGHT_GRAY),
        ("dark_gray", DARK_GRAY),
        ("orange", ORANGE),
        ("pink", PINK),
        ("purple", PURPLE),
        ("brown", BROWN),
        ("lime", LIME),
        ("navy", NAVY),
        ("olive", OLIVE),
        ("teal", TEAL),
        ("silver", SILVER),
        ("maroon", MAROON),
    ];
    for (name, value) in table {
        assert_eq!(color_of_name(name), Some(value), "{}", name);
        assert_eq!(named_color_to_rgb(name), value, "{}", name);
        assert_eq!(parse_color(name).unwrap(), value, "{}", name);
    }
    assert_eq!(ORANGE, 0xFFA500);
    assert_eq!(BROWN, 0x8B4513);
    assert_eq!(TRACE_COLOR, 0xFF0000);
}

#[test]
fn colour_names_ignore_case() {
    // The lowercase form is what is looked up, so a name in capitals is found.
    assert_eq!(named_color_to_rgb("RED"), RED);
    assert_eq!(named_color_to_rgb("Navy"), NAVY);
    assert_eq!(parse_color("Light_Gray").unwrap(), LIGHT_GRAY);
    assert_eq!(hex_to_rgb("WHITE"), WHITE);
    // Looking up a name that is not lowercase finds nothing.
    assert_eq!(color_of_name("RED"), None);
}

#[test]
fn unknown_colour_names_are_gray() {
    assert_eq!(named_color_to_rgb("chartreuse"), GRAY);
    assert_eq!(named_color_to_rgb(""), GRAY);
    assert_eq!(hex_to_rgb("chartreuse"), GRAY);
    // The table spells these two one way only.
    assert_eq!(color_of_name("light_grey"), None);
    assert_eq!(named_color_to_rgb("dark_grey"), GRAY);
    assert_eq!(parse_color("light_grey").unwrap(), GRAY);
    assert_eq!(parse_color("chartreuse").unwrap(), GRAY);
    assert_eq!(parse_color("").unwrap(), GRAY);
    assert_eq!(parse_color("#").unwrap(), GRAY);
}

#[test]
fn hex_notation_takes_three_or_six_digits() {
    assert_eq!(parse_hex_color("123456"), Some(0x123456));
    assert_eq!(parse_hex_color("#abcdef"), Some(0xABCDEF));
    assert_eq!(parse_hex_color("FFFFFF"), Some(0xFFFFFF));
    assert_eq!(parse_hex_color("000000"), Some(0));
    assert_eq!(parse_hex_color("AbC"), Some(0xAABBCC));
    assert_eq!(parse_hex_color("#fff"), Some(0xFFFFFF));
    assert_eq!(parse_hex_color("000"), Some(0));
    assert_eq!(parse_hex_color("378"), Some(0x337788));
    assert_eq!(parse_hex_color("#0F0"), Some(0x00FF00));
    // Any other length, a sign, or a character that is no digit: no colour.
    for text in [
        "", "#", "0", "DE", "12", "1234", "#1234", "12345", "1E240", "1234567", "FFFFFFFF", "+FF00",
        "+12", "+12345", "-12", "12345G", "G00", "##123", "#12345#", "1 2", "12 456", "0x1234",
        "12_456", "\u{FF11}23", "12345\u{0663}",
    ] {
        assert_eq!(parse_hex_color(text), None, "{:?}", text);
        assert_eq!(parse_color(text).unwrap(), GRAY, "{:?}", text);
    }
}

#[test]
fn hex_to_rgb_reads_names_and_notation() {
    // With or without `#`, three digits or six: the same colour.
    assert_eq!(hex_to_rgb("0F0"), 0x00FF00);
    assert_eq!(hex_to_rgb("#0F0"), 0x00FF00);
    assert_eq!(hex_to_rgb("00FF00"), 0x00FF00);
    assert_eq!(hex_to_rgb("#00FF00"), 0x00FF00);
    assert_eq!(hex_to_rgb("#00ff00"), 0x00FF00);
    assert_eq!(hex_to_rgb("FFF"), WHITE);
    assert_eq!(hex_to_rgb("FF0000"), RED);
    assert_eq!(hex_to_rgb("abc"), 0xAABBCC);
    assert_eq!(hex_to_rgb("Green"), GREEN);
    assert_eq!(hex_to_rgb("grey"), GRAY);
    // A name is looked up first; a name after `#` is no name.
    assert_eq!(hex_to_rgb("#red"), GRAY);
    // Anything else is gray: other lengths, signs, numbers too large for a colour.
    for text in ["", "#", "#0", "#ff", "0", "1E240", "#+10", "#FFFFFFFF", "FFFFFFFF", "#100000000", "#-1", "#12G", "#0F0F", "0F 0"] {
        assert_eq!(hex_to_rgb(text), GRAY, "{:?}", text);
    }
    // It reads what `parse_color` reads.
    for text in ["0F0", "#abc", "navy", "NAVY", "12345", "", "teal ", "#FFFFFF"] {
        assert_eq!(Ok(hex_to_rgb(text)), parse_color(text), "{:?}", text);
    }
}
