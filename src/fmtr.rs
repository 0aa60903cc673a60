//! Rendering of pixels and lines into the text that a symbol name will hold.

use crate::text::{decimal, to_decimal};
use vstd::prelude::*;

verus! {

/// Renders pixels ("frame dots") and whole lines ("frame lines").
///
/// A pixel is four bytes, red, green, blue and alpha; `None` stands for a
/// cell whose content is computed later, at run time.
pub trait FrameFormatter {
    /// The text of an empty cell.
    spec fn blank_spec(&self) -> Seq<char>;

    /// The text of a cell to be filled at run time.
    spec fn placeholder_spec(&self) -> Seq<char>;

    /// The text of one pixel.
    spec fn framedot_spec(&self, rgba: Option<Seq<u8>>) -> Seq<char>;

    /// The first line of a frame, which also moves the cursor to the origin.
    spec fn frameline_at_origin_spec(&self, name: Seq<char>, clear_line: bool) -> Seq<char>;

    /// Any other line of a frame.
    spec fn frameline_spec(&self, name: Seq<char>) -> Seq<char>;

    fn blank(&self) -> (r: &str)
        ensures
            r@ == self.blank_spec(),
    ;

    fn placeholder(&self) -> (r: &str)
        ensures
            r@ == self.placeholder_spec(),
    ;

    fn to_framedot(&self, rgba: Option<Vec<u8>>) -> (r: String)
        requires
            rgba matches Some(c) ==> c@.len() >= 4,
        ensures
            r@ == self.framedot_spec(
                match rgba {
                    Some(c) => Some(c@),
                    None => None,
                },
            ),
    ;

    fn to_frameline_at_origin(&self, name: &String, clear_line: bool) -> (r: String)
        ensures
            r@ == self.frameline_at_origin_spec(name@, clear_line),
    ;

    fn to_frameline(&self, name: &String) -> (r: String)
        ensures
            r@ == self.frameline_spec(name@),
    ;
}

/// Renders pixels as terminal background colours in 24-bit "truecolor".
pub struct TrueColorFrameFormatter;

/// A coloured two-column cell: background set to `rgb`, then reset.
pub open spec fn truecolor_cell(rgb: Seq<char>) -> Seq<char> {
    "\x1b[48:2::"@ + rgb + "m"@ + "  "@ + "\x1b[49m"@
}

/// The three colour components in decimal, separated by colons.
pub open spec fn rgb_components(c: Seq<u8>) -> Seq<char> {
    decimal(c[0] as nat) + ":"@ + decimal(c[1] as nat) + ":"@ + decimal(c[2] as nat)
}

impl FrameFormatter for TrueColorFrameFormatter {
    open spec fn blank_spec(&self) -> Seq<char> {
        "  "@
    }

    open spec fn placeholder_spec(&self) -> Seq<char> {
        "000:000:000"@
    }

    /// A transparent pixel is blank; a placeholder cell is coloured black.
    open spec fn framedot_spec(&self, rgba: Option<Seq<u8>>) -> Seq<char> {
        match rgba {
            None => truecolor_cell("000:000:000"@),
            Some(c) => if c[3] == 0 {
                "  "@
            } else {
                truecolor_cell(rgb_components(c))
            },
        }
    }

    /// Cursor to the origin, erase the line (or the whole display), then the
    /// text, then hide what follows it and the cursor.
    open spec fn frameline_at_origin_spec(&self, name: Seq<char>, clear_line: bool) -> Seq<char> {
        "\x1b[1;1H\x1b[2"@ + (if clear_line {
            "K"@
        } else {
            "J"@
        }) + name + "\x1b[8m\x1b[?25l"@
    }

    /// Erase to the left, move back to the first column, then the text, then
    /// erase to the right and hide what follows it and the cursor.
    open spec fn frameline_spec(&self, name: Seq<char>) -> Seq<char> {
        "\x1b[1K\x1b[99D"@ + name + "\x1b[3K\x1b[8m\x1b[?25l"@
    }

    fn blank(&self) -> (r: &str) {
        "  "
    }

    fn placeholder(&self) -> (r: &str) {
        "000:000:000"
    }

    fn to_framedot(&self, rgba: Option<Vec<u8>>) -> (r: String) {
        match rgba {
            None => {
                let mut s = String::from_str("\x1b[48:2::");
                s.append("000:000:000");
                s.append("m");
                s.append("  ");
                s.append("\x1b[49m");
                s
            },
            Some(c) => {
                if c[3] == 0 {
                    String::from_str("  ")
                } else {
                    let mut s = String::from_str("\x1b[48:2::");
                    let r = to_decimal(c[0] as u64);
                    let g = to_decimal(c[1] as u64);
                    let b = to_decimal(c[2] as u64);
                    s.append(r.as_str());
                    s.append(":");
                    s.append(g.as_str());
                    s.append(":");
                    s.append(b.as_str());
                    s.append("m");
                    s.append("  ");
                    s.append("\x1b[49m");
                    assert(s@ =~= truecolor_cell(rgb_components(c@)));
                    s
                }
            },
        }
    }

    fn to_frameline_at_origin(&self, name: &String, clear_line: bool) -> (r: String) {
        let mut s = String::from_str("\x1b[1;1H\x1b[2");
        if clear_line {
            s.append("K");
        } else {
            s.append("J");
        }
        s.append(name.as_str());
        s.append("\x1b[8m\x1b[?25l");
        s
    }

    fn to_frameline(&self, name: &String) -> (r: String) {
        let mut s = String::from_str("\x1b[1K\x1b[99D");
        s.append(name.as_str());
        s.append("\x1b[3K\x1b[8m\x1b[?25l");
        s
    }
}

/// The emoji chosen for one colour.
pub struct EmojiEntry {
    pub rgb: (u8, u8, u8),
    pub emoji: String,
}

/// Renders pixels as emoji, by a table from colour to emoji; a colour that
/// the table lacks, a transparent pixel and a placeholder cell show the
/// blank emoji. Lines carry no cursor control.
pub struct EmojiFrameFormatter {
    pub table: Vec<EmojiEntry>,
}

/// The emoji of the first entry of `table` for colour `rgb`.
pub open spec fn emoji_of(table: Seq<EmojiEntry>, rgb: (u8, u8, u8)) -> Option<Seq<char>>
    decreases table.len(),
{
    if table.len() == 0 {
        None
    } else if table[0].rgb == rgb {
        Some(table[0].emoji@)
    } else {
        emoji_of(table.drop_first(), rgb)
    }
}

impl EmojiFrameFormatter {
    pub fn new(table: Vec<EmojiEntry>) -> (r: Self)
        ensures
            r.table@ == table@,
    {
        EmojiFrameFormatter { table }
    }

    /// The emoji for the colour of `rgba`, or the blank emoji.
    pub fn lookup(&self, rgba: Vec<u8>) -> (r: String)
        requires
            rgba@.len() >= 3,
        ensures
            r@ == match emoji_of(self.table@, (rgba@[0], rgba@[1], rgba@[2])) {
                Some(e) => e,
                None => "🫥"@,
            },
    {
        let rgb = (rgba[0], rgba[1], rgba[2]);
        let mut i: usize = 0;
        assert(self.table@.subrange(0, self.table@.len() as int) =~= self.table@);
        while i < self.table.len()
            invariant
                i <= self.table@.len(),
                rgb == (rgba@[0], rgba@[1], rgba@[2]),
                emoji_of(self.table@, rgb) == emoji_of(self.table@.subrange(i as int, self.table@.len() as int), rgb),
            decreases self.table@.len() - i,
        {
            let ghost rest = self.table@.subrange(i as int, self.table@.len() as int);
            assert(rest.drop_first() =~= self.table@.subrange(i + 1, self.table@.len() as int));
            let e = &self.table[i];
            assert(rest[0] == *e);
            if e.rgb.0 == rgb.0 && e.rgb.1 == rgb.1 && e.rgb.2 == rgb.2 {
                return e.emoji.clone();
            }
            i = i + 1;
        }
        assert(self.table@.subrange(i as int, self.table@.len() as int).len() == 0);
        String::from_str("🫥")
    }
}

impl FrameFormatter for EmojiFrameFormatter {
    open spec fn blank_spec(&self) -> Seq<char> {
        "🫥"@
    }

    open spec fn placeholder_spec(&self) -> Seq<char> {
        "🫥"@
    }

    open spec fn framedot_spec(&self, rgba: Option<Seq<u8>>) -> Seq<char> {
        match rgba {
            None => "🫥"@,
            Some(c) => if c[3] == 0 {
                "🫥"@
            } else {
                match emoji_of(self.table@, (c[0], c[1], c[2])) {
                    Some(e) => e,
                    None => "🫥"@,
                }
            },
        }
    }

    open spec fn frameline_at_origin_spec(&self, name: Seq<char>, clear_line: bool) -> Seq<char> {
        name
    }

    open spec fn frameline_spec(&self, name: Seq<char>) -> Seq<char> {
        name
    }

    fn blank(&self) -> (r: &str) {
        "🫥"
    }

    fn placeholder(&self) -> (r: &str) {
        "🫥"
    }

    fn to_framedot(&self, rgba: Option<Vec<u8>>) -> (r: String) {
        match rgba {
            None => String::from_str("🫥"),
            Some(c) => {
                if c[3] == 0 {
                    String::from_str("🫥")
                } else {
                    self.lookup(c)
                }
            },
        }
    }

    fn to_frameline_at_origin(&self, name: &String, clear_line: bool) -> (r: String) {
        name.clone()
    }

    fn to_frameline(&self, name: &String) -> (r: String) {
        name.clone()
    }
}

} // verus!
