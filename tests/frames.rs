use backgif::fmtr::{EmojiFrameFormatter, TrueColorFrameFormatter};
use backgif::names::{prepare_frame, to_frameline_names, FrameInfo};
use backgif::parse::{CustomFrameParser, GifFrame, GifFrameParser, InputError};
use std::collections::HashSet;

#[test]
fn tmp_name_is_nine_chars_for_short_lines() {
    let f = EmojiFrameFormatter::new(vec![]);
    let (line, tmp) = to_frameline_names(&f, &String::from("ab"), 1, false, false);
    assert_eq!(line, "ab");
    assert_eq!(tmp, "A00000001");
    let (_, tmp) = to_frameline_names(&f, &String::from("abcdefghi"), 0x2a, true, false);
    assert_eq!(tmp, "A0000002a");
}

#[test]
fn tmp_name_covers_long_lines() {
    let f = TrueColorFrameFormatter;
    let (line, tmp) = to_frameline_names(&f, &String::from("ab"), 1, false, false);
    assert_eq!(tmp, format!("{}{:08x}", "A".repeat(line.len() - 8), 1));
}

#[test]
fn tmp_name_never_shorter_than_line() {
    let f = TrueColorFrameFormatter;
    for text in ["", "a", "abcdefghijklmnop", "🫥🫥🫥"] {
        for at_origin in [false, true] {
            let (line, tmp) = to_frameline_names(&f, &String::from(text), 0x1234, at_origin, true);
            assert!(tmp.len() >= line.len());
            assert!(tmp.ends_with("00001234"));
        }
    }
}

#[test]
fn prepare_frame_allocates_bottom_line_first() {
    let f = TrueColorFrameFormatter;
    let mut idx: usize = 7;
    let lines = vec![String::from("top"), String::from("mid"), String::from("bot")];
    let fr = prepare_frame(&f, lines, &mut idx, 12, true);
    assert_eq!(idx, 10);
    assert_eq!(fr.delay, 12);
    assert_eq!(fr.tmp_names.len(), 3);
    assert_eq!(fr.framelines[0], "\x1b[1K\x1b[99Dbot\x1b[3K\x1b[8m\x1b[?25l");
    assert_eq!(fr.framelines[1], "\x1b[1K\x1b[99Dmid\x1b[3K\x1b[8m\x1b[?25l");
    assert_eq!(fr.framelines[2], "\x1b[1;1H\x1b[2Ktop\x1b[8m\x1b[?25l");
    assert!(fr.tmp_names[0].ends_with("00000007"));
    assert!(fr.tmp_names[2].ends_with("00000009"));
    assert_eq!(fr.first_name, fr.tmp_names[0]);
    assert_eq!(fr.last_name, fr.tmp_names[2]);
    for k in 0..3 {
        assert!(fr.tmp_names[k].len() >= fr.framelines[k].len());
    }
}

#[test]
fn empty_frame_has_empty_chain() {
    let f = TrueColorFrameFormatter;
    let mut idx: usize = 4;
    let fr = prepare_frame(&f, vec![], &mut idx, 3, false);
    assert_eq!(idx, 4);
    assert!(fr.tmp_names.is_empty());
    assert!(fr.framelines.is_empty());
    assert_eq!(fr.first_name, "");
    assert_eq!(fr.last_name, "");
}

fn transparent_pixel_frame() -> GifFrame {
    GifFrame { left: 0, top: 0, width: 1, height: 1, delay: 5, buffer: vec![0, 0, 0, 0] }
}

#[test]
fn single_transparent_pixel_frame() {
    let p = GifFrameParser { formatter: TrueColorFrameFormatter };
    let frames = p.from_input(&vec![transparent_pixel_frame()], 1, 1, false, None);
    assert_eq!(frames.len(), 1);
    assert_eq!(frames[0].framelines, vec![String::from("\x1b[1;1H\x1b[2J  \x1b[8m\x1b[?25l")]);
    assert_eq!(frames[0].tmp_names, vec![String::from("AAAAAAAAAAAAAA00000001")]);
    assert_eq!(frames[0].delay, 5);
}

#[test]
fn gif_frame_is_padded_to_canvas() {
    let p = GifFrameParser { formatter: TrueColorFrameFormatter };
    let fr = GifFrame { left: 1, top: 1, width: 1, height: 1, delay: 2, buffer: vec![10, 20, 30, 255] };
    let lines = p.prepare_names(&fr, 3, 3);
    assert_eq!(
        lines,
        vec![
            String::from("      "),
            String::from("  \x1b[48:2::10:20:30m  \x1b[49m  "),
            String::from("      "),
        ]
    );
}

#[test]
fn names_are_distinct_across_frames() {
    let p = GifFrameParser { formatter: TrueColorFrameFormatter };
    let fr = GifFrame { left: 0, top: 0, width: 2, height: 2, delay: 1, buffer: vec![255; 16] };
    let frames = p.from_input(&vec![fr, transparent_pixel_frame(), transparent_pixel_frame()], 2, 2, true, Some(9));
    let mut seen = HashSet::new();
    let mut count = 0;
    for f in &frames {
        assert_eq!(f.delay, 9);
        for n in &f.tmp_names {
            assert!(seen.insert(n.clone()));
            count += 1;
        }
    }
    assert_eq!(count, 6);
}

#[test]
fn custom_parser_needs_both_dimensions() {
    let r = CustomFrameParser::new(TrueColorFrameFormatter, None, Some(3));
    assert!(matches!(r, Err(InputError::MissingHeight)));
    let r = CustomFrameParser::new(TrueColorFrameFormatter, Some(2), None);
    assert!(matches!(r, Err(InputError::MissingWidth)));
    let r = CustomFrameParser::new(TrueColorFrameFormatter, None, None);
    assert!(matches!(r, Err(InputError::MissingHeight)));
}

#[test]
fn custom_parser_single_placeholder_frame() {
    let p = match CustomFrameParser::new(TrueColorFrameFormatter, Some(2), Some(1)) {
        Ok(p) => p,
        Err(_) => panic!("dimensions were given"),
    };
    let frames: Vec<FrameInfo> = p.from_input(true, None);
    assert_eq!(frames.len(), 1);
    assert_eq!(frames[0].delay, 100);
    let dot = "\x1b[48:2::000:000:000m  \x1b[49m";
    assert_eq!(frames[0].framelines[0], format!("\x1b[1K\x1b[99D{}\x1b[3K\x1b[8m\x1b[?25l", dot));
    assert_eq!(frames[0].framelines[1], format!("\x1b[1;1H\x1b[2K{}\x1b[8m\x1b[?25l", dot));
}
