use backgif::fmtr::{EmojiEntry, EmojiFrameFormatter, FrameFormatter, TrueColorFrameFormatter};
use backgif::text::{to_decimal, to_hex_padded, to_lower_hex};

#[test]
fn hex_and_decimal_rendering() {
    assert_eq!(to_lower_hex(0), "0");
    assert_eq!(to_lower_hex(0x1f), "1f");
    assert_eq!(to_lower_hex(u64::MAX), "ffffffffffffffff");
    assert_eq!(to_hex_padded(5, 8), "00000005");
    assert_eq!(to_hex_padded(0x123456789, 8), "123456789");
    assert_eq!(to_decimal(0), "0");
    assert_eq!(to_decimal(255), "255");
    assert_eq!(to_decimal(1000), "1000");
}

#[test]
fn truecolor_dots() {
    let f = TrueColorFrameFormatter;
    assert_eq!(f.blank(), "  ");
    assert_eq!(f.placeholder(), "000:000:000");
    assert_eq!(
        f.to_framedot(Some(vec![255, 0, 16, 255])),
        "\x1b[48:2::255:0:16m  \x1b[49m"
    );
    assert_eq!(f.to_framedot(Some(vec![1, 2, 3, 0])), "  ");
    assert_eq!(f.to_framedot(None), "\x1b[48:2::000:000:000m  \x1b[49m");
}

#[test]
fn truecolor_lines() {
    let f = TrueColorFrameFormatter;
    let name = String::from("xy");
    assert_eq!(
        f.to_frameline_at_origin(&name, true),
        "\x1b[1;1H\x1b[2Kxy\x1b[8m\x1b[?25l"
    );
    assert_eq!(
        f.to_frameline_at_origin(&name, false),
        "\x1b[1;1H\x1b[2Jxy\x1b[8m\x1b[?25l"
    );
    assert_eq!(f.to_frameline(&name), "\x1b[1K\x1b[99Dxy\x1b[3K\x1b[8m\x1b[?25l");
}

#[test]
fn emoji_dots_by_table() {
    let f = EmojiFrameFormatter::new(vec![
        EmojiEntry { rgb: (255, 0, 0), emoji: String::from("🟥") },
        EmojiEntry { rgb: (0, 0, 255), emoji: String::from("🟦") },
    ]);
    assert_eq!(f.to_framedot(Some(vec![0, 0, 255, 255])), "🟦");
    assert_eq!(f.to_framedot(Some(vec![255, 0, 0, 9])), "🟥");
    assert_eq!(f.to_framedot(Some(vec![255, 0, 0, 0])), "🫥");
    assert_eq!(f.to_framedot(Some(vec![1, 2, 3, 255])), "🫥");
    assert_eq!(f.to_framedot(None), "🫥");
    assert_eq!(f.lookup(vec![255, 0, 0]), "🟥");
    let name = String::from("🟥🟦");
    assert_eq!(f.to_frameline(&name), "🟥🟦");
    assert_eq!(f.to_frameline_at_origin(&name, false), "🟥🟦");
}
