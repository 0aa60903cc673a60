//! Allocation of temporary symbol names and their frame-line texts.

use crate::fmtr::FrameFormatter;
use crate::text::{
    digit_char, hex_padded, lemma_lower_hex_digits, lower_hex, repeat_char, to_hex_padded,
};
use vstd::prelude::*;
use vstd::utf8::encode_utf8;

verus! {

/// The number of bytes that `s` takes in UTF-8.
pub open spec fn byte_len(s: Seq<char>) -> nat {
    encode_utf8(s).len()
}

/// The number of filler characters in front of the index of a temporary
/// name whose frame line takes `line_len` bytes.
pub open spec fn filler_len(line_len: nat) -> nat {
    if line_len < 9 {
        1
    } else {
        (line_len - 8) as nat
    }
}

/// The temporary name of index `i` for a frame line of `line_len` bytes:
/// filler `A`s, then the index in hexadecimal on at least eight digits.
pub open spec fn tmp_name(line_len: nat, i: nat) -> Seq<char> {
    repeat_char('A', filler_len(line_len)) + hex_padded(i, 8)
}

/// One frame: its temporary names in call order and the text that replaces
/// each of them.
pub struct FrameInfo {
    /// Display time, in hundredths of a second.
    pub delay: u16,
    /// The name that the dispatch loop calls.
    pub first_name: String,
    /// The name of the innermost call, where the breakpoint goes.
    pub last_name: String,
    /// Temporary names, outermost call first.
    pub tmp_names: Vec<String>,
    /// `framelines[k]` replaces `tmp_names[k]` in the patched binary.
    pub framelines: Vec<String>,
}

impl FrameInfo {
    /// Names and texts pair up; the first and last names are those of the
    /// chain's ends, or empty for a frame without lines.
    pub open spec fn wf(&self) -> bool {
        &&& self.tmp_names@.len() == self.framelines@.len()
        &&& forall|k: int|
            0 <= k < self.tmp_names@.len() ==> byte_len(#[trigger] self.framelines@[k]@)
                <= self.tmp_names@[k]@.len()
        &&& if self.tmp_names@.len() > 0 {
            &&& self.first_name@ == self.tmp_names@[0]@
            &&& self.last_name@ == self.tmp_names@.last()@
        } else {
            &&& self.first_name@.len() == 0
            &&& self.last_name@.len() == 0
        }
    }

    /// Each name `k` is the temporary name of index `base + k` for its text.
    pub open spec fn allocated_from(&self, base: nat) -> bool {
        forall|k: int|
            0 <= k < self.tmp_names@.len() ==> #[trigger] self.tmp_names@[k]@ == tmp_name(
                byte_len(self.framelines@[k]@),
                base + k as nat,
            )
    }
}

/// The frame-line text of the line at position `j` in call order (the
/// lines of `lines` are in display order, so call order is reversed; the
/// last in call order is the top line, which moves to the origin).
pub open spec fn frame_line<F: FrameFormatter>(
    f: &F,
    lines: Seq<Seq<char>>,
    j: int,
    clear_line: bool,
) -> Seq<char> {
    let name = lines[lines.len() - 1 - j];
    if j == lines.len() - 1 {
        f.frameline_at_origin_spec(name, clear_line)
    } else {
        f.frameline_spec(name)
    }
}

/// Renders the line `name` and allocates the temporary name of index `i`
/// for it; returns the frame line and the temporary name.
pub fn to_frameline_names<F: FrameFormatter>(
    formatter: &F,
    name: &String,
    i: usize,
    at_origin: bool,
    clear_line: bool,
) -> (r: (String, String))
    ensures
        r.0@ == (if at_origin {
            formatter.frameline_at_origin_spec(name@, clear_line)
        } else {
            formatter.frameline_spec(name@)
        }),
        r.1@ == tmp_name(byte_len(r.0@), i as nat),
{
    let frameline_name = if at_origin {
        formatter.to_frameline_at_origin(name, clear_line)
    } else {
        formatter.to_frameline(name)
    };
    let len = frameline_name.as_str().as_bytes().len();
    let fill: usize = if len < 9 {
        1
    } else {
        len - 8
    };
    let mut tmp_name_s = String::new();
    let mut k: usize = 0;
    while k < fill
        invariant
            k <= fill,
            tmp_name_s@ =~= repeat_char('A', k as nat),
        decreases fill - k,
    {
        tmp_name_s.append("A");
        proof {
            reveal_strlit("A");
        }
        k = k + 1;
    }
    let hex = to_hex_padded(i as u64, 8);
    tmp_name_s.append(hex.as_str());
    assert(len == byte_len(frameline_name@));
    assert(tmp_name_s@ =~= tmp_name(byte_len(frameline_name@), i as nat));
    (frameline_name, tmp_name_s)
}

/// Builds the frame whose lines are `fn_names` (display order, top first),
/// allocating consecutive temporary names from `*fn_idx` on, bottom line
/// first.
pub fn prepare_frame<F: FrameFormatter>(
    formatter: &F,
    fn_names: Vec<String>,
    fn_idx: &mut usize,
    delay: u16,
    clear_line: bool,
) -> (r: FrameInfo)
    requires
        *old(fn_idx) + fn_names@.len() <= usize::MAX,
    ensures
        r.wf(),
        r.allocated_from(*old(fn_idx) as nat),
        *final(fn_idx) == *old(fn_idx) + fn_names@.len(),
        r.delay == delay,
        r.tmp_names@.len() == fn_names@.len(),
        forall|j: int|
            0 <= j < fn_names@.len() ==> #[trigger] r.framelines@[j]@ == frame_line(
                formatter,
                fn_names@.map_values(|s: String| s@),
                j,
                clear_line,
            ),
{
    let n = fn_names.len();
    let ghost base = *fn_idx as nat;
    let mut frame_info = FrameInfo {
        tmp_names: Vec::new(),
        framelines: Vec::new(),
        first_name: String::new(),
        last_name: String::new(),
        delay,
    };
    let mut i: usize = 0;
    while i < n
        invariant
            n == fn_names@.len(),
            i <= n,
            *fn_idx == base + i,
            base + n <= usize::MAX,
            frame_info.delay == delay,
            frame_info.tmp_names@.len() == i,
            frame_info.framelines@.len() == i,
            frame_info.wf(),
            frame_info.allocated_from(base),
            forall|j: int|
                0 <= j < i ==> #[trigger] frame_info.framelines@[j]@ == frame_line(
                    formatter,
                    fn_names@.map_values(|s: String| s@),
                    j,
                    clear_line,
                ),
        decreases n - i,
    {
        let (frameline_name, tmp_name_s) = to_frameline_names(
            formatter,
            &fn_names[n - 1 - i],
            *fn_idx,
            i == n - 1,
            clear_line,
        );
        proof {
            lemma_tmp_name_len(byte_len(frameline_name@), *fn_idx as nat);
        }
        *fn_idx = *fn_idx + 1;
        if i == 0 {
            frame_info.first_name = tmp_name_s.clone();
        }
        frame_info.tmp_names.push(tmp_name_s.clone());
        frame_info.framelines.push(frameline_name);
        frame_info.last_name = tmp_name_s;
        i = i + 1;
    }
    frame_info
}

/// A temporary name is never shorter than the frame line it stands for,
/// and is exactly nine characters long for a short line and an index of at
/// most eight hexadecimal digits.
pub proof fn lemma_tmp_name_len(line_len: nat, i: nat)
    ensures
        tmp_name(line_len, i).len() >= line_len,
        tmp_name(line_len, i).len() >= 9,
        line_len < 9 && lower_hex(i).len() <= 8 ==> tmp_name(line_len, i).len() == 9,
{
}

/// The value of a hexadecimal digit.
pub open spec fn digit_value(c: char) -> nat {
    if c == '0' {
        0
    } else if c == '1' {
        1
    } else if c == '2' {
        2
    } else if c == '3' {
        3
    } else if c == '4' {
        4
    } else if c == '5' {
        5
    } else if c == '6' {
        6
    } else if c == '7' {
        7
    } else if c == '8' {
        8
    } else if c == '9' {
        9
    } else if c == 'a' {
        10
    } else if c == 'b' {
        11
    } else if c == 'c' {
        12
    } else if c == 'd' {
        13
    } else if c == 'e' {
        14
    } else {
        15
    }
}

/// The value of a string of hexadecimal digits.
pub open spec fn hex_value(s: Seq<char>) -> nat
    decreases s.len(),
{
    if s.len() == 0 {
        0
    } else {
        hex_value(s.drop_last()) * 16 + digit_value(s.last())
    }
}

proof fn lemma_digit(d: int)
    requires
        0 <= d < 16,
    ensures
        digit_value(digit_char(d)) == d,
        digit_char(d) != 'A',
{
    if d == 0 {
    } else if d == 1 {
    } else if d == 2 {
    } else if d == 3 {
    } else if d == 4 {
    } else if d == 5 {
    } else if d == 6 {
    } else if d == 7 {
    } else if d == 8 {
    } else if d == 9 {
    } else if d == 10 {
    } else if d == 11 {
    } else if d == 12 {
    } else if d == 13 {
    } else if d == 14 {
    } else {
    }
}

proof fn lemma_hex_value(n: nat)
    ensures
        hex_value(lower_hex(n)) == n,
    decreases n,
{
    vstd::arithmetic::div_mod::lemma_fundamental_div_mod(n as int, 16);
    if n < 16 {
        lemma_digit(n as int);
        assert(lower_hex(n).drop_last() =~= Seq::<char>::empty());
        assert(hex_value(lower_hex(n)) == hex_value(lower_hex(n).drop_last()) * 16 + digit_value(
            lower_hex(n).last(),
        ));
    } else {
        lemma_digit((n % 16) as int);
        lemma_hex_value(n / 16);
        assert(lower_hex(n).drop_last() =~= lower_hex(n / 16));
        assert(lower_hex(n).last() == digit_char((n % 16) as int));
        assert(hex_value(lower_hex(n)) == hex_value(lower_hex(n).drop_last()) * 16 + digit_value(
            lower_hex(n).last(),
        ));
        assert(hex_value(lower_hex(n)) == (n / 16) * 16 + n % 16);
    }
}

proof fn lemma_zeros_value(z: nat, h: Seq<char>)
    ensures
        hex_value(repeat_char('0', z) + h) == hex_value(h),
    decreases h.len(), z,
{
    if h.len() == 0 {
        if z > 0 {
            lemma_zeros_value((z - 1) as nat, h);
            assert((repeat_char('0', z) + h).drop_last() =~= repeat_char('0', (z - 1) as nat) + h);
        } else {
            assert(repeat_char('0', z) + h =~= h);
        }
    } else {
        lemma_zeros_value(z, h.drop_last());
        assert((repeat_char('0', z) + h).drop_last() =~= repeat_char('0', z) + h.drop_last());
    }
}

proof fn lemma_padded_digits(n: nat, w: nat)
    ensures
        hex_value(hex_padded(n, w)) == n,
        hex_padded(n, w).len() >= 1,
        forall|i: int|
            0 <= i < hex_padded(n, w).len() ==> #[trigger] hex_padded(n, w)[i] != 'A',
{
    lemma_hex_value(n);
    lemma_lower_hex_digits(n);
    let h = lower_hex(n);
    if h.len() < w {
        lemma_zeros_value((w - h.len()) as nat, h);
        lemma_digit(0);
    }
    assert forall|i: int| 0 <= i < hex_padded(n, w).len() implies #[trigger] hex_padded(n, w)[i]
        != 'A' by {
        if h.len() >= w {
            let d = choose|d: int| 0 <= d < 16 && h[i] == digit_char(d);
            lemma_digit(d);
        } else {
            let k = w - h.len();
            if i >= k {
                let d = choose|d: int| 0 <= d < 16 && h[i - k] == digit_char(d);
                lemma_digit(d);
            }
        }
    }
}

/// Temporary names are injective in their index: two names with different
/// indices differ, whatever the lengths of their frame lines.
pub proof fn lemma_tmp_name_injective(l1: nat, i1: nat, l2: nat, i2: nat)
    requires
        tmp_name(l1, i1) == tmp_name(l2, i2),
    ensures
        i1 == i2,
{
    let s = tmp_name(l1, i1);
    let k1 = filler_len(l1) as int;
    let k2 = filler_len(l2) as int;
    let h1 = hex_padded(i1, 8);
    let h2 = hex_padded(i2, 8);
    lemma_padded_digits(i1, 8);
    lemma_padded_digits(i2, 8);
    if k1 < k2 {
        assert(s[k1] == h1[0]);
        assert(s[k1] == tmp_name(l2, i2)[k1]);
        assert(tmp_name(l2, i2)[k1] == 'A');
    } else if k2 < k1 {
        assert(s[k2] == h2[0]);
        assert(s[k2] == tmp_name(l1, i1)[k2]);
        assert(tmp_name(l1, i1)[k2] == 'A');
    } else {
        assert(h1 =~= s.subrange(k1, s.len() as int));
        assert(h2 =~= tmp_name(l2, i2).subrange(k2, s.len() as int));
    }
}

/// Across a run, the temporary names of all frames are pairwise distinct:
/// the frames' names are allocated from consecutive, disjoint ranges of
/// indices.
pub proof fn lemma_run_names_distinct(
    frames: Seq<FrameInfo>,
    base: nat,
    f1: int,
    k1: int,
    f2: int,
    k2: int,
)
    requires
        forall|f: int|
            0 <= f < frames.len() ==> #[trigger] frames[f].allocated_from(
                base + crate::parse::names_before(frames, f),
            ),
        0 <= f1 < frames.len(),
        0 <= f2 < frames.len(),
        0 <= k1 < frames[f1].tmp_names@.len(),
        0 <= k2 < frames[f2].tmp_names@.len(),
        f1 != f2 || k1 != k2,
    ensures
        frames[f1].tmp_names@[k1]@ != frames[f2].tmp_names@[k2]@,
{
    let b1 = base + crate::parse::names_before(frames, f1);
    let b2 = base + crate::parse::names_before(frames, f2);
    assert(frames[f1].allocated_from(b1));
    assert(frames[f2].allocated_from(b2));
    if f1 < f2 {
        lemma_names_before_grows(frames, f1 + 1, f2);
    } else if f2 < f1 {
        lemma_names_before_grows(frames, f2 + 1, f1);
    }
    if frames[f1].tmp_names@[k1]@ == frames[f2].tmp_names@[k2]@ {
        lemma_tmp_name_injective(
            byte_len(frames[f1].framelines@[k1]@),
            b1 + k1 as nat,
            byte_len(frames[f2].framelines@[k2]@),
            b2 + k2 as nat,
        );
    }
}

proof fn lemma_names_before_grows(frames: Seq<FrameInfo>, a: int, b: int)
    requires
        0 <= a <= b <= frames.len(),
    ensures
        crate::parse::names_before(frames, a) <= crate::parse::names_before(frames, b),
    decreases b - a,
{
    if a < b {
        lemma_names_before_grows(frames, a, b - 1);
    }
}

} // verus!
