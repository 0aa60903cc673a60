//! The two frame sources: decoded GIF frames, and a blank grid whose
//! content is drawn at run time by guest code.

use crate::fmtr::FrameFormatter;
use crate::names::{prepare_frame, frame_line, FrameInfo};
use vstd::prelude::*;

verus! {

/// One decoded GIF frame: a sub-rectangle of the canvas, its pixels as RGBA
/// bytes row by row, and its delay in hundredths of a second.
pub struct GifFrame {
    pub left: u16,
    pub top: u16,
    pub width: u16,
    pub height: u16,
    pub delay: u16,
    pub buffer: Vec<u8>,
}

impl GifFrame {
    /// The buffer holds exactly `width * height` pixels of four bytes, and
    /// the rectangle's far edges fit in 16 bits.
    pub open spec fn wf(&self) -> bool {
        &&& self.width > 0
        &&& self.buffer@.len() == 4 * (self.width as int) * (self.height as int)
        &&& self.left + self.width <= u16::MAX
        &&& self.top + self.height <= u16::MAX
    }
}

/// `k` copies of `s`, concatenated.
pub open spec fn repeat_text(s: Seq<char>, k: nat) -> Seq<char>
    decreases k,
{
    if k == 0 {
        Seq::empty()
    } else {
        repeat_text(s, (k - 1) as nat) + s
    }
}

/// The first `x` pixels of the row that starts at byte `base` of `buf`,
/// rendered and concatenated.
pub open spec fn row_dots<F: FrameFormatter>(f: &F, buf: Seq<u8>, base: int, x: nat) -> Seq<char>
    decreases x,
{
    if x == 0 {
        Seq::empty()
    } else {
        row_dots(f, buf, base, (x - 1) as nat) + f.framedot_spec(
            Some(buf.subrange(base + 4 * (x - 1), base + 4 * x)),
        )
    }
}

/// The number of blank cells right of a frame's rectangle on a canvas of
/// width `w`.
pub open spec fn right_margin(fr: GifFrame, w: u16) -> nat {
    if fr.left + fr.width < w {
        (w - (fr.left + fr.width)) as nat
    } else {
        0
    }
}

/// The number of blank lines below a frame's rectangle on a canvas of
/// height `h`.
pub open spec fn bottom_margin(fr: GifFrame, h: u16) -> nat {
    if fr.top + fr.height < h {
        (h - (fr.top + fr.height)) as nat
    } else {
        0
    }
}

/// Row `y` of the frame's rectangle, padded with blanks to the canvas.
pub open spec fn pixel_line<F: FrameFormatter>(f: &F, fr: GifFrame, w: u16, y: int) -> Seq<char> {
    repeat_text(f.blank_spec(), fr.left as nat) + row_dots(
        f,
        fr.buffer@,
        4 * y * fr.width,
        fr.width as nat,
    ) + repeat_text(f.blank_spec(), right_margin(fr, w))
}

/// Line `j` of the frame on a canvas of `w` by `h` cells: blank above and
/// below the frame's rectangle.
pub open spec fn gif_line<F: FrameFormatter>(f: &F, fr: GifFrame, w: u16, h: u16, j: int) -> Seq<
    char,
> {
    if j < fr.top || j >= fr.top + fr.height {
        repeat_text(f.blank_spec(), w as nat)
    } else {
        pixel_line(f, fr, w, j - fr.top)
    }
}

/// The number of lines of a frame on a canvas of height `h`.
pub open spec fn gif_line_count(fr: GifFrame, h: u16) -> nat {
    (fr.top + fr.height + bottom_margin(fr, h)) as nat
}

/// The number of temporary names that the frames `frames[..f]` hold.
pub open spec fn names_before(frames: Seq<FrameInfo>, f: int) -> nat
    decreases f,
{
    if f <= 0 {
        0
    } else {
        names_before(frames, f - 1) + frames[f - 1].tmp_names@.len()
    }
}

/// Appends `k` copies of `s` to `out`.
fn push_repeated(out: &mut String, s: &str, k: u16)
    ensures
        final(out)@ == old(out)@ + repeat_text(s@, k as nat),
{
    let mut i: u16 = 0;
    while i < k
        invariant
            i <= k,
            out@ == old(out)@ + repeat_text(s@, i as nat),
        decreases k - i,
    {
        out.append(s);
        proof {
            assert(old(out)@ + repeat_text(s@, (i + 1) as nat) =~= old(out)@ + repeat_text(
                s@,
                i as nat,
            ) + s@);
        }
        i = i + 1;
    }
}

/// Reads frames from decoded GIF frames, rendering each pixel with the
/// formatter.
pub struct GifFrameParser<F: FrameFormatter> {
    pub formatter: F,
}

impl<F: FrameFormatter> GifFrameParser<F> {
    /// The lines of one frame on a canvas of `w` by `h` cells, top first.
    pub fn prepare_names(&self, frame: &GifFrame, w: u16, h: u16) -> (r: Vec<String>)
        requires
            frame.wf(),
        ensures
            r@.len() == gif_line_count(*frame, h),
            forall|j: int|
                0 <= j < r@.len() ==> #[trigger] r@[j]@ == gif_line(&self.formatter, *frame, w, h, j),
    {
        let blank = self.formatter.blank();
        let mut lines_out: Vec<String> = Vec::new();
        let mut t: u16 = 0;
        while t < frame.top
            invariant
                t <= frame.top,
                frame.wf(),
                blank@ == self.formatter.blank_spec(),
                lines_out@.len() == t,
                forall|j: int|
                    0 <= j < t ==> #[trigger] lines_out@[j]@ == gif_line(
                        &self.formatter,
                        *frame,
                        w,
                        h,
                        j,
                    ),
            decreases frame.top - t,
        {
            let mut line = String::new();
            push_repeated(&mut line, blank, w);
            lines_out.push(line);
            t = t + 1;
        }
        let width = frame.width as usize;
        let buf_len = frame.buffer.len();
        let mut y: u16 = 0;
        let mut p: usize = 0;
        assert(4 * (y as int) * (width as int) == 0) by (nonlinear_arith)
            requires y == 0;
        while y < frame.height
            invariant
                y <= frame.height,
                frame.wf(),
                width == frame.width,
                buf_len == frame.buffer@.len(),
                p == 4 * (y as int) * (width as int),
                blank@ == self.formatter.blank_spec(),
                lines_out@.len() == frame.top + y,
                forall|j: int|
                    0 <= j < frame.top + y ==> #[trigger] lines_out@[j]@ == gif_line(
                        &self.formatter,
                        *frame,
                        w,
                        h,
                        j,
                    ),
            decreases frame.height - y,
        {
            let mut line = String::new();
            push_repeated(&mut line, blank, frame.left);
            let ghost before = line@;
            proof {
                assert(4 * (y as int) * (width as int) + 4 * (width as int) == 4 * ((y + 1) as int)
                    * (width as int)) by (nonlinear_arith);
                assert(4 * ((y + 1) as int) * (width as int) <= 4 * (width as int) * (
                frame.height as int)) by (nonlinear_arith)
                    requires y + 1 <= frame.height, width >= 0;
            }
            let mut x: usize = 0;
            while x < width
                invariant
                    x <= width,
                    width == frame.width,
                    buf_len == frame.buffer@.len(),
                    frame.wf(),
                    p == 4 * (y as int) * (width as int),
                    p + 4 * width <= frame.buffer@.len(),
                    line@ == before + row_dots(&self.formatter, frame.buffer@, p as int, x as nat),
                decreases width - x,
            {
                let q = p + 4 * x;
                let mut rgba: Vec<u8> = Vec::new();
                rgba.push(frame.buffer[q]);
                rgba.push(frame.buffer[q + 1]);
                rgba.push(frame.buffer[q + 2]);
                rgba.push(frame.buffer[q + 3]);
                assert(rgba@ =~= frame.buffer@.subrange(q as int, q + 4));
                let dot = self.formatter.to_framedot(Some(rgba));
                line.append(dot.as_str());
                x = x + 1;
            }
            let right: u16 = if frame.left + frame.width < w {
                w - (frame.left + frame.width)
            } else {
                0
            };
            push_repeated(&mut line, blank, right);
            proof {
                let j = frame.top + y;
                assert(line@ =~= gif_line(&self.formatter, *frame, w, h, j as int));
            }
            lines_out.push(line);
            p = p + 4 * width;
            y = y + 1;
        }
        let mut b: u16 = frame.top + frame.height;
        while b < h
            invariant
                frame.top + frame.height <= b <= h || (b == frame.top + frame.height && b >= h),
                frame.wf(),
                blank@ == self.formatter.blank_spec(),
                lines_out@.len() == b,
                forall|j: int|
                    0 <= j < b ==> #[trigger] lines_out@[j]@ == gif_line(
                        &self.formatter,
                        *frame,
                        w,
                        h,
                        j,
                    ),
            decreases h - b,
        {
            let mut line = String::new();
            push_repeated(&mut line, blank, w);
            lines_out.push(line);
            b = b + 1;
        }
        lines_out
    }

    /// Builds one frame per decoded frame, in order, on a canvas of `w` by
    /// `h` cells; temporary names are allocated from index 1 on, across the
    /// whole run. `delay`, when given, overrides every frame's own delay.
    pub fn from_input(
        &self,
        frames: &Vec<GifFrame>,
        w: u16,
        h: u16,
        clear_line: bool,
        delay: Option<u16>,
    ) -> (r: Vec<FrameInfo>)
        requires
            forall|f: int| 0 <= f < frames@.len() ==> (#[trigger] frames@[f]).wf(),
            1 + 65535 * frames@.len() <= usize::MAX,
        ensures
            r@.len() == frames@.len(),
            forall|f: int|
                #![trigger r@[f]]
                0 <= f < r@.len() ==> {
                    &&& r@[f].wf()
                    &&& r@[f].allocated_from(1 + names_before(r@, f))
                    &&& r@[f].delay == (match delay {
                        Some(d) => d,
                        None => frames@[f].delay,
                    })
                    &&& r@[f].tmp_names@.len() == gif_line_count(frames@[f], h)
                    &&& forall|j: int|
                        0 <= j < r@[f].framelines@.len() ==> #[trigger] r@[f].framelines@[j]@
                            == frame_line(
                            &self.formatter,
                            Seq::new(
                                gif_line_count(frames@[f], h),
                                |k: int| gif_line(&self.formatter, frames@[f], w, h, k),
                            ),
                            j,
                            clear_line,
                        )
                },
    {
        let mut fn_idx: usize = 1;
        let mut frame_infos: Vec<FrameInfo> = Vec::new();
        let mut f: usize = 0;
        while f < frames.len()
            invariant
                f <= frames@.len(),
                forall|g: int| 0 <= g < frames@.len() ==> (#[trigger] frames@[g]).wf(),
                1 + 65535 * frames@.len() <= usize::MAX,
                frame_infos@.len() == f,
                fn_idx == 1 + names_before(frame_infos@, f as int),
                names_before(frame_infos@, f as int) <= 65535 * f,
                forall|g: int|
                    #![trigger frame_infos@[g]]
                    0 <= g < f ==> {
                        &&& frame_infos@[g].wf()
                        &&& frame_infos@[g].allocated_from(1 + names_before(frame_infos@, g))
                        &&& frame_infos@[g].delay == (match delay {
                            Some(d) => d,
                            None => frames@[g].delay,
                        })
                        &&& frame_infos@[g].tmp_names@.len() == gif_line_count(frames@[g], h)
                        &&& forall|j: int|
                            0 <= j < frame_infos@[g].framelines@.len()
                                ==> #[trigger] frame_infos@[g].framelines@[j]@ == frame_line(
                                &self.formatter,
                                Seq::new(
                                    gif_line_count(frames@[g], h),
                                    |k: int| gif_line(&self.formatter, frames@[g], w, h, k),
                                ),
                                j,
                                clear_line,
                            )
                    },
            decreases frames@.len() - f,
        {
            let frame = &frames[f];
            let fn_names = self.prepare_names(frame, w, h);
            let ghost lines = fn_names@.map_values(|s: String| s@);
            assert(lines =~= Seq::new(
                gif_line_count(frames@[f as int], h),
                |k: int| gif_line(&self.formatter, frames@[f as int], w, h, k),
            ));
            let d = match delay {
                Some(d) => d,
                None => frame.delay,
            };
            proof {
                assert(65535 * f + 65535 == 65535 * (f + 1));
                assert(65535 * (f + 1) <= 65535 * frames@.len()) by (nonlinear_arith)
                    requires f + 1 <= frames@.len();
            }
            let ghost old_infos = frame_infos@;
            let info = prepare_frame(&self.formatter, fn_names, &mut fn_idx, d, clear_line);
            proof {
                assert forall|j: int|
                    0 <= j < info.framelines@.len() implies #[trigger] info.framelines@[j]@
                    == frame_line(
                    &self.formatter,
                    Seq::new(
                        gif_line_count(frames@[f as int], h),
                        |k: int| gif_line(&self.formatter, frames@[f as int], w, h, k),
                    ),
                    j,
                    clear_line,
                ) by {
                    assert(info.framelines@[j]@ == frame_line(&self.formatter, lines, j, clear_line));
                }
            }
            frame_infos.push(info);
            proof {
                lemma_names_before_push(old_infos, info, f as int);
                assert forall|g: int| 0 <= g < f implies names_before(frame_infos@, g)
                    == names_before(old_infos, g) by {
                    lemma_names_before_push(old_infos, info, g);
                }
                assert(frame_infos@[f as int] == info);
            }
            f = f + 1;
        }
        frame_infos
    }
}

/// Appending a frame leaves the counts before the old frames unchanged.
proof fn lemma_names_before_push(frames: Seq<FrameInfo>, x: FrameInfo, f: int)
    requires
        0 <= f <= frames.len(),
    ensures
        names_before(frames.push(x), f) == names_before(frames, f),
        f == frames.len() ==> names_before(frames.push(x), f + 1) == names_before(frames, f)
            + x.tmp_names@.len(),
    decreases f,
{
    if f > 0 {
        lemma_names_before_push(frames, x, f - 1);
        assert(frames.push(x)[f - 1] == frames[f - 1]);
    }
    if f == frames.len() {
        assert(frames.push(x)[f] == x);
        assert(names_before(frames.push(x), f + 1) == names_before(frames.push(x), f)
            + frames.push(x)[f].tmp_names@.len());
    }
}

/// A grid of `width` by `height` cells whose content guest code draws at run
/// time: every cell holds the formatter's placeholder dot.
pub struct CustomFrameParser<F: FrameFormatter> {
    pub formatter: F,
    pub height: u16,
    pub width: u16,
}

/// Why the input could not be read.
#[derive(PartialEq, Eq, Structural, Clone, Copy, Debug)]
pub enum InputError {
    /// The runtime-driven variant needs a height.
    MissingHeight,
    /// The runtime-driven variant needs a width.
    MissingWidth,
}

impl<F: FrameFormatter> CustomFrameParser<F> {
    /// A grid of the given size; both dimensions must be given.
    pub fn new(formatter: F, height: Option<u16>, width: Option<u16>) -> (r: Result<
        Self,
        InputError,
    >)
        ensures
            match (height, width) {
                (Some(h), Some(w)) => r matches Ok(p) && p.height == h && p.width == w,
                (None, _) => r matches Err(e) && e == InputError::MissingHeight,
                (Some(_), None) => r matches Err(e) && e == InputError::MissingWidth,
            },
    {
        match (height, width) {
            (Some(h), Some(w)) => Ok(CustomFrameParser { formatter, height: h, width: w }),
            (None, _) => Err(InputError::MissingHeight),
            (Some(_), None) => Err(InputError::MissingWidth),
        }
    }

    /// A row of placeholder dots.
    pub open spec fn placeholder_line(&self) -> Seq<char> {
        repeat_text(self.formatter.framedot_spec(None), self.width as nat)
    }

    /// The single frame of the grid, its names allocated from index 1 on;
    /// its delay is `delay`, or one second when none is given.
    pub fn from_input(&self, clear_line: bool, delay: Option<u16>) -> (r: Vec<FrameInfo>)
        ensures
            r@.len() == 1,
            r@[0].wf(),
            r@[0].allocated_from(1),
            r@[0].delay == (match delay {
                Some(d) => d,
                None => 100,
            }),
            r@[0].tmp_names@.len() == self.height,
            forall|j: int|
                0 <= j < self.height ==> #[trigger] r@[0].framelines@[j]@ == frame_line(
                    &self.formatter,
                    Seq::new(self.height as nat, |k: int| self.placeholder_line()),
                    j,
                    clear_line,
                ),
    {
        let mut fn_idx: usize = 1;
        let mut fn_names: Vec<String> = Vec::new();
        let mut y: u16 = 0;
        while y < self.height
            invariant
                y <= self.height,
                fn_names@.len() == y,
                forall|k: int| 0 <= k < y ==> #[trigger] fn_names@[k]@ == self.placeholder_line(),
            decreases self.height - y,
        {
            let mut line = String::new();
            let mut x: u16 = 0;
            while x < self.width
                invariant
                    x <= self.width,
                    line@ == repeat_text(self.formatter.framedot_spec(None), x as nat),
                decreases self.width - x,
            {
                let dot = self.formatter.to_framedot(None);
                line.append(dot.as_str());
                x = x + 1;
            }
            fn_names.push(line);
            y = y + 1;
        }
        let ghost lines = fn_names@.map_values(|s: String| s@);
        assert(lines =~= Seq::new(self.height as nat, |k: int| self.placeholder_line()));
        let d = match delay {
            Some(d) => d,
            None => 100,
        };
        let info = prepare_frame(&self.formatter, fn_names, &mut fn_idx, d, clear_line);
        proof {
            assert forall|j: int| 0 <= j < self.height implies #[trigger] info.framelines@[j]@
                == frame_line(
                &self.formatter,
                Seq::new(self.height as nat, |k: int| self.placeholder_line()),
                j,
                clear_line,
            ) by {
                assert(info.framelines@[j]@ == frame_line(&self.formatter, lines, j, clear_line));
            }
        }
        let mut frame_infos: Vec<FrameInfo> = Vec::new();
        frame_infos.push(info);
        frame_infos
    }
}

} // verus!
