//! Generation of the C source whose functions carry the temporary names,
//! and of the compiler's arguments.

use crate::names::FrameInfo;
use crate::text::{decimal, to_decimal};
use vstd::prelude::*;

verus! {

/// Placeholder address that guest code receives for a name in `.symtab`.
pub const PLACEHOLDER_SYMTAB_ADDR: u64 = 0x01020304;

/// Placeholder address that guest code receives for a name in `.debug_str`.
pub const PLACEHOLDER_DEBUGSTR_ADDR: u64 = 0x05060708;

/// One generated function: its name and the one function it calls, if any.
pub struct CallDef {
    pub name: String,
    pub callee: Option<String>,
}

impl CallDef {
    pub open spec fn model(&self) -> (Seq<char>, Option<Seq<char>>) {
        (
            self.name@,
            match self.callee {
                Some(c) => Some(c@),
                None => None,
            },
        )
    }
}

/// The functions of a frame whose names are `names` (outermost first), in
/// the order they are written: first the innermost, which returns at once,
/// then each enclosing function, calling the one written just before it.
pub open spec fn chain_defs(names: Seq<Seq<char>>) -> Seq<(Seq<char>, Option<Seq<char>>)> {
    Seq::new(
        names.len(),
        |i: int|
            if i == 0 {
                (names[names.len() - 1], None)
            } else {
                (names[names.len() - 1 - i], Some(names[names.len() - i]))
            },
    )
}

/// Builds the call chain of a frame with at least one name.
pub fn frame_chain(tmp_names: &Vec<String>) -> (r: Vec<CallDef>)
    requires
        tmp_names@.len() >= 1,
    ensures
        r@.map_values(|d: CallDef| d.model()) == chain_defs(
            tmp_names@.map_values(|s: String| s@),
        ),
{
    let n = tmp_names.len();
    let ghost names = tmp_names@.map_values(|s: String| s@);
    let mut defs: Vec<CallDef> = Vec::new();
    defs.push(CallDef { name: tmp_names[n - 1].clone(), callee: None });
    let mut i: usize = 1;
    while i < n
        invariant
            1 <= i <= n,
            n == tmp_names@.len(),
            names == tmp_names@.map_values(|s: String| s@),
            defs@.map_values(|d: CallDef| d.model()) =~= chain_defs(names).subrange(0, i as int),
        decreases n - i,
    {
        let ghost before = defs@;
        defs.push(
            CallDef { name: tmp_names[n - 1 - i].clone(), callee: Some(tmp_names[n - i].clone()) },
        );
        assert(defs@.map_values(|d: CallDef| d.model()) =~= before.map_values(
            |d: CallDef| d.model(),
        ).push(chain_defs(names)[i as int]));
        i = i + 1;
    }
    defs
}

/// The call chain of a frame of `n` distinct names holds `n` functions;
/// the first written calls nothing, and every other calls exactly the
/// function written just before it, so that the calls form one chain
/// without a cycle and no function is called twice.
pub proof fn lemma_call_chain(names: Seq<Seq<char>>)
    requires
        names.len() >= 1,
        forall|a: int, b: int| 0 <= a < b < names.len() ==> names[a] != names[b],
    ensures
        chain_defs(names).len() == names.len(),
        chain_defs(names)[0].1 is None,
        forall|i: int|
            1 <= i < names.len() ==> #[trigger] chain_defs(names)[i].1 == Some(
                chain_defs(names)[i - 1].0,
            ),
        forall|a: int, b: int|
            0 <= a < b < names.len() ==> chain_defs(names)[a].0 != chain_defs(names)[b].0,
        forall|a: int, b: int|
            1 <= a < b < names.len() ==> chain_defs(names)[a].1 != chain_defs(names)[b].1,
{
    let d = chain_defs(names);
    let n = names.len();
    assert forall|a: int, b: int| 0 <= a < b < n implies d[a].0 != d[b].0 by {
        assert(d[a].0 == names[n - 1 - a]);
        assert(d[b].0 == names[n - 1 - b]);
    }
    assert forall|a: int, b: int| 1 <= a < b < n implies d[a].1 != d[b].1 by {
        assert(d[a].1 == Some(names[n - a]));
        assert(d[b].1 == Some(names[n - b]));
        assert(names[n - b] != names[n - a]);
    }
}

/// The text of one generated function.
pub open spec fn def_text(d: (Seq<char>, Option<Seq<char>>)) -> Seq<char> {
    "\nvoid "@ + d.0 + "() {\n    "@ + match d.1 {
        Some(c) => c + "();"@,
        None => "return;"@,
    } + "\n}\n"@
}

/// The texts of `defs`, concatenated.
pub open spec fn defs_text(defs: Seq<(Seq<char>, Option<Seq<char>>)>) -> Seq<char>
    decreases defs.len(),
{
    if defs.len() == 0 {
        Seq::empty()
    } else {
        defs_text(defs.drop_last()) + def_text(defs.last())
    }
}

/// The elements of `s` with `sep` between each two.
pub open spec fn join(s: Seq<Seq<char>>, sep: Seq<char>) -> Seq<char>
    decreases s.len(),
{
    if s.len() == 0 {
        Seq::empty()
    } else if s.len() == 1 {
        s[0]
    } else {
        join(s.drop_last(), sep) + sep + s.last()
    }
}

/// The source text of a frame's call chain.
pub open spec fn frame_text(fr: FrameInfo) -> Seq<char> {
    defs_text(chain_defs(fr.tmp_names@.map_values(|s: String| s@)))
}

/// The call chains of all frames, separated by empty lines.
pub open spec fn calls_text(frames: Seq<FrameInfo>) -> Seq<char> {
    join(frames.map_values(|f: FrameInfo| frame_text(f)), "\n"@)
}

/// The calls of the frames' entry functions, one per line.
pub open spec fn heads_text(frames: Seq<FrameInfo>) -> Seq<char> {
    join(frames.map_values(|f: FrameInfo| f.first_name@ + "();"@), "\n    "@)
}

/// The whole program: the call chains, then the entry function, which calls
/// every frame's entry in turn, forever.
pub open spec fn program_text(frames: Seq<FrameInfo>, start: Seq<char>) -> Seq<char> {
    "\n"@ + calls_text(frames) + "\n\nvoid "@ + start + "() {\nloop:\n    "@ + heads_text(frames)
        + "\n    goto loop;\n}"@
}

fn def_to_text(d: &CallDef, out: &mut String)
    ensures
        final(out)@ == old(out)@ + def_text(d.model()),
{
    out.append("\nvoid ");
    out.append(d.name.as_str());
    out.append("() {\n    ");
    match &d.callee {
        Some(c) => {
            out.append(c.as_str());
            out.append("();");
        },
        None => {
            out.append("return;");
        },
    }
    out.append("\n}\n");
    assert(final(out)@ =~= old(out)@ + def_text(d.model()));
}

/// Appends the call-chain source of one frame.
fn frame_to_text(fr: &FrameInfo, out: &mut String)
    requires
        fr.tmp_names@.len() >= 1,
    ensures
        final(out)@ == old(out)@ + frame_text(*fr),
{
    let defs = frame_chain(&fr.tmp_names);
    let ghost ds = defs@.map_values(|d: CallDef| d.model());
    let mut i: usize = 0;
    while i < defs.len()
        invariant
            i <= defs@.len(),
            ds == defs@.map_values(|d: CallDef| d.model()),
            out@ == old(out)@ + defs_text(ds.subrange(0, i as int)),
        decreases defs@.len() - i,
    {
        def_to_text(&defs[i], out);
        assert(ds.subrange(0, i + 1).drop_last() =~= ds.subrange(0, i as int));
        i = i + 1;
    }
    assert(ds.subrange(0, i as int) =~= ds);
}

/// Appends the call chains of all frames, separated by empty lines.
fn calls_to_text(frames: &Vec<FrameInfo>, out: &mut String)
    requires
        forall|f: int| 0 <= f < frames@.len() ==> (#[trigger] frames@[f]).tmp_names@.len() >= 1,
    ensures
        final(out)@ == old(out)@ + calls_text(frames@),
{
    let ghost all = frames@.map_values(|f: FrameInfo| frame_text(f));
    let mut f: usize = 0;
    while f < frames.len()
        invariant
            f <= frames@.len(),
            forall|g: int| 0 <= g < frames@.len() ==> (#[trigger] frames@[g]).tmp_names@.len() >= 1,
            all == frames@.map_values(|f: FrameInfo| frame_text(f)),
            out@ == old(out)@ + join(all.subrange(0, f as int), "\n"@),
        decreases frames@.len() - f,
    {
        proof {
            reveal_strlit("\n");
        }
        if f > 0 {
            out.append("\n");
        }
        frame_to_text(&frames[f], out);
        assert(all.subrange(0, f + 1).drop_last() =~= all.subrange(0, f as int));
        f = f + 1;
    }
    assert(all.subrange(0, f as int) =~= all);
}

/// Appends the calls of the frames' entry functions.
fn heads_to_text(frames: &Vec<FrameInfo>, out: &mut String)
    ensures
        final(out)@ == old(out)@ + heads_text(frames@),
{
    let ghost all = frames@.map_values(|f: FrameInfo| f.first_name@ + "();"@);
    let mut f: usize = 0;
    while f < frames.len()
        invariant
            f <= frames@.len(),
            all == frames@.map_values(|f: FrameInfo| f.first_name@ + "();"@),
            out@ == old(out)@ + join(all.subrange(0, f as int), "\n    "@),
        decreases frames@.len() - f,
    {
        if f > 0 {
            out.append("\n    ");
        }
        out.append(frames[f].first_name.as_str());
        out.append("();");
        assert(all.subrange(0, f + 1).drop_last() =~= all.subrange(0, f as int));
        assert(out@ =~= old(out)@ + join(all.subrange(0, f + 1), "\n    "@));
        f = f + 1;
    }
    assert(all.subrange(0, f as int) =~= all);
}

/// Why no source could be generated.
#[derive(PartialEq, Eq, Structural, Clone, Copy, Debug)]
pub enum SourceError {
    /// A frame has no lines, so it has no call chain.
    EmptyFrame,
}

/// Every frame has at least one line.
pub open spec fn frames_nonempty(frames: Seq<FrameInfo>) -> bool {
    forall|f: int| 0 <= f < frames.len() ==> (#[trigger] frames[f]).tmp_names@.len() >= 1
}

fn check_frames(frame_infos: &Vec<FrameInfo>) -> (r: bool)
    ensures
        r == frames_nonempty(frame_infos@),
{
    let mut f: usize = 0;
    while f < frame_infos.len()
        invariant
            f <= frame_infos@.len(),
            forall|g: int| 0 <= g < f ==> (#[trigger] frame_infos@[g]).tmp_names@.len() >= 1,
        decreases frame_infos@.len() - f,
    {
        if frame_infos[f].tmp_names.len() == 0 {
            assert(frame_infos@[f as int].tmp_names@.len() == 0);
            return false;
        }
        f = f + 1;
    }
    true
}

/// The C source of the program (see `program_text`); a frame without
/// lines is an error, as it would have no chain.
pub fn prepare_src(frame_infos: &Vec<FrameInfo>, start_tmp_name: &str) -> (r: Result<
    String,
    SourceError,
>)
    ensures
        frames_nonempty(frame_infos@) ==> (r matches Ok(t) && t@ == program_text(
            frame_infos@,
            start_tmp_name@,
        )),
        !frames_nonempty(frame_infos@) ==> r == Err::<String, SourceError>(SourceError::EmptyFrame),
{
    if check_frames(frame_infos) {
        Ok(program_src(frame_infos, start_tmp_name))
    } else {
        Err(SourceError::EmptyFrame)
    }
}

/// The C source of the runtime-driven variant (see `custom_program_text`);
/// a frame without lines is an error.
pub fn prepare_custom_src(
    frame_infos: &Vec<FrameInfo>,
    start_tmp_name: &str,
    input_src: &str,
    width: u16,
    height: u16,
    has_debug_info: bool,
) -> (r: Result<String, SourceError>)
    ensures
        frames_nonempty(frame_infos@) ==> (r matches Ok(t) && t@ == custom_program_text(
            frame_infos@,
            start_tmp_name@,
            input_src@,
            width,
            height,
            has_debug_info,
        )),
        !frames_nonempty(frame_infos@) ==> r == Err::<String, SourceError>(SourceError::EmptyFrame),
{
    if check_frames(frame_infos) {
        Ok(custom_program_src(frame_infos, start_tmp_name, input_src, width, height, has_debug_info))
    } else {
        Err(SourceError::EmptyFrame)
    }
}

/// The chains of a runtime-driven program are those of the plain program
/// for the same frames: both start with the same call-chain text.
pub proof fn lemma_same_chains(
    frames: Seq<FrameInfo>,
    start: Seq<char>,
    input_src: Seq<char>,
    width: u16,
    height: u16,
    debug: bool,
)
    ensures
        program_text(frames, start).subrange(0, 1 + calls_text(frames).len() as int) == "\n"@
            + calls_text(frames),
        custom_program_text(frames, start, input_src, width, height, debug).subrange(
            0,
            1 + calls_text(frames).len() as int,
        ) == "\n"@ + calls_text(frames),
{
    reveal_strlit("\n");
    let c = "\n"@ + calls_text(frames);
    assert(program_text(frames, start).subrange(0, c.len() as int) =~= c);
    assert(custom_program_text(frames, start, input_src, width, height, debug).subrange(
        0,
        c.len() as int,
    ) =~= c);
}

/// The C source of the program: one chain of functions per frame, named
/// by the frame's temporary names, and the entry function `start_tmp_name`
/// that calls every frame's entry in a loop.
fn program_src(frame_infos: &Vec<FrameInfo>, start_tmp_name: &str) -> (r: String)
    requires
        forall|f: int|
            0 <= f < frame_infos@.len() ==> (#[trigger] frame_infos@[f]).tmp_names@.len() >= 1,
    ensures
        r@ == program_text(frame_infos@, start_tmp_name@),
{
    let mut o = String::from_str("\n");
    calls_to_text(frame_infos, &mut o);
    o.append("\n\nvoid ");
    o.append(start_tmp_name);
    o.append("() {\nloop:\n    ");
    heads_to_text(frame_infos, &mut o);
    o.append("\n    goto loop;\n}");
    assert(o@ =~= program_text(frame_infos@, start_tmp_name@));
    o
}

/// One call of the guest's `draw_line` with a placeholder address.
pub open spec fn draw_line_text(addr: Seq<char>, prefix: nat, row: nat) -> Seq<char> {
    "\n    draw_line((uint8_t*)"@ + addr + "UL, "@ + decimal(prefix) + ", "@ + decimal(row) + ");"@
}

/// The number of bytes of cursor control in front of a line's first dot:
/// the top line (the last drawn) moves to the origin first.
pub open spec fn prefix_offset(height: nat, i: nat) -> nat {
    if i == height - 1 {
        10
    } else {
        9
    }
}

/// The `draw_line` calls for the first `i` lines of a frame of `height`
/// lines, bottom line first: one for the name in `.symtab`, and one more
/// for the name in `.debug_str` when debug sections are requested.
pub open spec fn draw_calls_text(height: nat, debug: bool, i: nat) -> Seq<char>
    decreases i,
{
    if i == 0 {
        Seq::empty()
    } else {
        let k = (i - 1) as nat;
        let row = (height - 1 - k) as nat;
        draw_calls_text(height, debug, k) + draw_line_text(
            "0x01020304"@,
            prefix_offset(height, k),
            row,
        ) + if debug {
            draw_line_text("0x05060708"@, prefix_offset(height, k), row)
        } else {
            Seq::empty()
        }
    }
}

/// The whole program of the runtime-driven variant: the call chains, the
/// guest code, then the entry function, which initialises the guest, and
/// then in a loop updates the frame, draws each line into the symbol names
/// and calls every frame's entry.
pub open spec fn custom_program_text(
    frames: Seq<FrameInfo>,
    start: Seq<char>,
    input_src: Seq<char>,
    width: u16,
    height: u16,
    debug: bool,
) -> Seq<char> {
    "\n"@ + calls_text(frames) + "\n\n"@ + input_src + "\n\nvoid "@ + start
        + "() {\n    init(123, "@ + decimal(width as nat) + ", "@ + decimal(height as nat)
        + ");\nloop:\n    update_frame();\n    "@ + join(
        Seq::new(frames.len(), |f: int| draw_calls_text(height as nat, debug, height as nat)),
        "\n"@,
    ) + "\n    "@ + heads_text(frames) + "\n    goto loop;\n}"@
}

fn push_draw_line(out: &mut String, addr: &str, prefix: u16, row: u16)
    ensures
        final(out)@ == old(out)@ + draw_line_text(addr@, prefix as nat, row as nat),
{
    out.append("\n    draw_line((uint8_t*)");
    out.append(addr);
    out.append("UL, ");
    let p = to_decimal(prefix as u64);
    out.append(p.as_str());
    out.append(", ");
    let r = to_decimal(row as u64);
    out.append(r.as_str());
    out.append(");");
    assert(final(out)@ =~= old(out)@ + draw_line_text(addr@, prefix as nat, row as nat));
}

fn push_draw_calls(out: &mut String, height: u16, debug: bool)
    ensures
        final(out)@ == old(out)@ + draw_calls_text(height as nat, debug, height as nat),
{
    let mut i: u16 = 0;
    while i < height
        invariant
            i <= height,
            out@ == old(out)@ + draw_calls_text(height as nat, debug, i as nat),
        decreases height - i,
    {
        let prefix: u16 = if i == height - 1 {
            10
        } else {
            9
        };
        let row = height - 1 - i;
        let ghost before = out@;
        push_draw_line(out, "0x01020304", prefix, row);
        if debug {
            push_draw_line(out, "0x05060708", prefix, row);
        }
        assert(out@ =~= old(out)@ + draw_calls_text(height as nat, debug, (i + 1) as nat));
        i = i + 1;
    }
}

/// The C source of the runtime-driven variant, around the guest code
/// `input_src`; see `custom_program_text`. The `draw_line` calls of each
/// frame come in the order in which its names were allocated, bottom line
/// first, which is the order in which the placeholders are matched later.
fn custom_program_src(
    frame_infos: &Vec<FrameInfo>,
    start_tmp_name: &str,
    input_src: &str,
    width: u16,
    height: u16,
    has_debug_info: bool,
) -> (r: String)
    requires
        forall|f: int|
            0 <= f < frame_infos@.len() ==> (#[trigger] frame_infos@[f]).tmp_names@.len() >= 1,
    ensures
        r@ == custom_program_text(
            frame_infos@,
            start_tmp_name@,
            input_src@,
            width,
            height,
            has_debug_info,
        ),
{
    let mut o = String::from_str("\n");
    calls_to_text(frame_infos, &mut o);
    o.append("\n\n");
    o.append(input_src);
    o.append("\n\nvoid ");
    o.append(start_tmp_name);
    o.append("() {\n    init(123, ");
    let w = to_decimal(width as u64);
    o.append(w.as_str());
    o.append(", ");
    let h = to_decimal(height as u64);
    o.append(h.as_str());
    o.append(");\nloop:\n    update_frame();\n    ");
    let ghost draws = Seq::new(
        frame_infos@.len(),
        |f: int| draw_calls_text(height as nat, has_debug_info, height as nat),
    );
    let ghost mid = o@;
    let mut f: usize = 0;
    while f < frame_infos.len()
        invariant
            f <= frame_infos@.len(),
            draws == Seq::new(
                frame_infos@.len(),
                |f: int| draw_calls_text(height as nat, has_debug_info, height as nat),
            ),
            o@ == mid + join(draws.subrange(0, f as int), "\n"@),
        decreases frame_infos@.len() - f,
    {
        if f > 0 {
            o.append("\n");
        }
        push_draw_calls(&mut o, height, has_debug_info);
        assert(draws.subrange(0, f + 1).drop_last() =~= draws.subrange(0, f as int));
        f = f + 1;
    }
    assert(draws.subrange(0, f as int) =~= draws);
    o.append("\n    ");
    heads_to_text(frame_infos, &mut o);
    o.append("\n    goto loop;\n}");
    assert(o@ =~= custom_program_text(
        frame_infos@,
        start_tmp_name@,
        input_src@,
        width,
        height,
        has_debug_info,
    ));
    o
}

/// The flags passed to the compiler in every build.
pub open spec fn compiler_flags() -> Seq<Seq<char>> {
    seq![
        "-fdiagnostics-color=always"@,
        "-std=gnu99"@,
        "-O0"@,
        "-nostdlib"@,
        "-static"@,
        "-Wall"@,
        "-Werror"@,
    ]
}

/// `-g` when debug sections are requested, then the common flags.
pub open spec fn base_args(debug: bool) -> Seq<Seq<char>> {
    (if debug {
        seq!["-g"@]
    } else {
        seq![]
    }) + compiler_flags()
}

fn push_str_arg(v: &mut Vec<String>, s: &str)
    ensures
        final(v)@.map_values(|a: String| a@) == old(v)@.map_values(|a: String| a@).push(s@),
{
    v.push(String::from_str(s));
    assert(final(v)@.map_values(|a: String| a@) =~= old(v)@.map_values(|a: String| a@).push(s@));
}

fn base_compiler_args(include_debug_info: bool) -> (r: Vec<String>)
    ensures
        r@.map_values(|a: String| a@) == base_args(include_debug_info),
{
    let mut v: Vec<String> = Vec::new();
    if include_debug_info {
        push_str_arg(&mut v, "-g");
    }
    push_str_arg(&mut v, "-fdiagnostics-color=always");
    push_str_arg(&mut v, "-std=gnu99");
    push_str_arg(&mut v, "-O0");
    push_str_arg(&mut v, "-nostdlib");
    push_str_arg(&mut v, "-static");
    push_str_arg(&mut v, "-Wall");
    push_str_arg(&mut v, "-Werror");
    assert(v@.map_values(|a: String| a@) =~= base_args(include_debug_info));
    v
}

/// The compiler's arguments to build `a.c` into an executable whose entry
/// is `start_tmp_name`, with a build id.
pub fn compile_args(include_debug_info: bool, start_tmp_name: &str) -> (r: Vec<String>)
    ensures
        r@.map_values(|a: String| a@) == base_args(include_debug_info) + seq![
            "-Wl,--build-id"@,
            "-Wl,--entry="@ + start_tmp_name@,
            "a.c"@,
        ],
{
    let mut v = base_compiler_args(include_debug_info);
    push_str_arg(&mut v, "-Wl,--build-id");
    let mut entry = String::from_str("-Wl,--entry=");
    entry.append(start_tmp_name);
    let ghost before = v@.map_values(|a: String| a@);
    v.push(entry);
    assert(v@.map_values(|a: String| a@) =~= before.push("-Wl,--entry="@ + start_tmp_name@));
    push_str_arg(&mut v, "a.c");
    assert(v@.map_values(|a: String| a@) =~= base_args(include_debug_info) + seq![
        "-Wl,--build-id"@,
        "-Wl,--entry="@ + start_tmp_name@,
        "a.c"@,
    ]);
    v
}

/// The compiler's arguments to build `a.c` into the object file `a.o`.
pub fn compile_object_args(include_debug_info: bool) -> (r: Vec<String>)
    ensures
        r@.map_values(|a: String| a@) == base_args(include_debug_info) + seq![
            "-c"@,
            "-o"@,
            "a.o"@,
            "a.c"@,
        ],
{
    let mut v = base_compiler_args(include_debug_info);
    push_str_arg(&mut v, "-c");
    push_str_arg(&mut v, "-o");
    push_str_arg(&mut v, "a.o");
    push_str_arg(&mut v, "a.c");
    assert(v@.map_values(|a: String| a@) =~= base_args(include_debug_info) + seq![
        "-c"@,
        "-o"@,
        "a.o"@,
        "a.c"@,
    ]);
    v
}

/// The linker's arguments to link `a.o` into `output` with the linker
/// script `script`, entry `start_tmp_name` and a build id.
pub fn link_args(start_tmp_name: &str, output: &str, script: &str) -> (r: Vec<String>)
    ensures
        r@.map_values(|a: String| a@) == seq![
            "--build-id"@,
            "-e"@,
            start_tmp_name@,
            "-o"@,
            output@,
            "a.o"@,
            "-T"@,
            script@,
        ],
{
    let mut v: Vec<String> = Vec::new();
    push_str_arg(&mut v, "--build-id");
    push_str_arg(&mut v, "-e");
    push_str_arg(&mut v, start_tmp_name);
    push_str_arg(&mut v, "-o");
    push_str_arg(&mut v, output);
    push_str_arg(&mut v, "a.o");
    push_str_arg(&mut v, "-T");
    push_str_arg(&mut v, script);
    assert(v@.map_values(|a: String| a@) =~= seq![
        "--build-id"@,
        "-e"@,
        start_tmp_name@,
        "-o"@,
        output@,
        "a.o"@,
        "-T"@,
        script@,
    ]);
    v
}

} // verus!
