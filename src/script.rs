//! The debugger scripts that play the frames back: a circular chain of
//! breakpoints, one at each frame's innermost call.

use crate::elf::{BinError, NamedSymbol, SymbolModel};
use crate::names::FrameInfo;
use crate::patch::{last_symbol, lookup_symbol};
use crate::source::join;
use crate::text::{decimal, hex_padded, to_decimal, to_hex_padded};
use vstd::prelude::*;
use vstd::utf8::encode_utf8;

verus! {

/// A breakpoint at `addr`; when hit, the frame shows for `delay`
/// hundredths of a second and the breakpoint at `next_addr` is armed.
pub struct BreakpointPair {
    pub addr: u64,
    pub next_addr: u64,
    pub delay: u16,
}

impl BreakpointPair {
    pub open spec fn model(&self) -> (u64, u64, u16) {
        (self.addr, self.next_addr, self.delay)
    }
}

/// Each breakpoint with the one after it, the last followed by the first.
pub open spec fn circular_pairs(bps: Seq<(u64, u16)>) -> Seq<(u64, u64, u16)> {
    Seq::new(bps.len(), |i: int| (bps[i].0, bps[(i + 1) % (bps.len() as int)].0, bps[i].1))
}

/// Pairs each breakpoint (address, delay) with the next, circularly.
pub fn breakpoint_pairs(bps: &Vec<(u64, u16)>) -> (r: Vec<BreakpointPair>)
    ensures
        r@.map_values(|p: BreakpointPair| p.model()) == circular_pairs(bps@),
        forall|i: int|
            0 <= i < r@.len() ==> (#[trigger] r@[i]).next_addr == r@[(i + 1) % (r@.len() as int)].addr,
{
    let n = bps.len();
    let mut r: Vec<BreakpointPair> = Vec::new();
    let mut i: usize = 0;
    while i < n
        invariant
            n == bps@.len(),
            i <= n,
            r@.map_values(|p: BreakpointPair| p.model()) =~= circular_pairs(bps@).subrange(0, i as int),
        decreases n - i,
    {
        let next = if i + 1 == n {
            0
        } else {
            i + 1
        };
        assert(next as int == (i + 1) % (n as int)) by (nonlinear_arith)
            requires
                i < n,
                next == (if i + 1 == n {
                    0
                } else {
                    i + 1
                }),
        ;
        let ghost before = r@;
        r.push(BreakpointPair { addr: bps[i].0, next_addr: bps[next].0, delay: bps[i].1 });
        assert(r@.map_values(|p: BreakpointPair| p.model()) =~= before.map_values(
            |p: BreakpointPair| p.model(),
        ).push(circular_pairs(bps@)[i as int]));
        i = i + 1;
    }
    proof {
        let m = r@.map_values(|p: BreakpointPair| p.model());
        assert(m =~= circular_pairs(bps@));
        assert forall|i: int| 0 <= i < r@.len() implies (#[trigger] r@[i]).next_addr == r@[(i + 1)
            % (r@.len() as int)].addr by {
            assert(m[i] == r@[i].model());
            let j = (i + 1) % (r@.len() as int);
            assert(0 <= j < r@.len());
            assert(m[j] == r@[j].model());
        }
    }
    r
}

/// The breakpoint of each frame: the address of its innermost call, with
/// its delay; `None` when a frame's innermost name is not a symbol.
pub open spec fn frame_breakpoints(syms: Seq<SymbolModel>, frames: Seq<FrameInfo>) -> Option<
    Seq<(u64, u16)>,
> {
    if forall|f: int|
        0 <= f < frames.len() ==> last_symbol(syms, encode_utf8(#[trigger] frames[f].last_name@))
            is Some {
        Some(
            Seq::new(
                frames.len(),
                |f: int|
                    (
                        syms[last_symbol(syms, encode_utf8(frames[f].last_name@))->0].1,
                        frames[f].delay,
                    ),
            ),
        )
    } else {
        None
    }
}

/// Finds each frame's breakpoint; see `frame_breakpoints`.
pub fn breakpoints(name_to_info: &Vec<NamedSymbol>, frame_infos: &Vec<FrameInfo>) -> (r: Result<
    Vec<(u64, u16)>,
    BinError,
>)
    ensures
        match frame_breakpoints(
            name_to_info@.map_values(|e: NamedSymbol| e.model()),
            frame_infos@,
        ) {
            Some(b) => r matches Ok(v) && v@ == b,
            None => r == Err::<Vec<(u64, u16)>, BinError>(BinError::UnresolvedSymbol),
        },
{
    let ghost syms = name_to_info@.map_values(|e: NamedSymbol| e.model());
    let mut v: Vec<(u64, u16)> = Vec::new();
    let mut f: usize = 0;
    while f < frame_infos.len()
        invariant
            f <= frame_infos@.len(),
            syms == name_to_info@.map_values(|e: NamedSymbol| e.model()),
            v@.len() == f,
            forall|g: int|
                0 <= g < f ==> last_symbol(syms, encode_utf8(#[trigger] frame_infos@[g].last_name@))
                    is Some,
            forall|g: int|
                0 <= g < f ==> #[trigger] v@[g] == (
                    syms[last_symbol(syms, encode_utf8(frame_infos@[g].last_name@))->0].1,
                    frame_infos@[g].delay,
                ),
        decreases frame_infos@.len() - f,
    {
        let fr = &frame_infos[f];
        match lookup_symbol(name_to_info, fr.last_name.as_str().as_bytes()) {
            Some(k) => {
                assert(syms[k as int] == name_to_info@[k as int].model());
                v.push((name_to_info[k].info.addr, fr.delay));
            },
            None => {
                return Err(BinError::UnresolvedSymbol);
            },
        }
        f = f + 1;
    }
    proof {
        let b = frame_breakpoints(syms, frame_infos@);
        assert(b is Some);
        assert(v@ =~= b->0);
    }
    Ok(v)
}

/// One line of the breakpoint list: address, next address, delay in ms.
pub open spec fn bp_line(p: (u64, u64, u16)) -> Seq<char> {
    "    [0x"@ + hex_padded(p.0 as nat, 8) + ", 0x"@ + hex_padded(p.1 as nat, 8) + ", "@ + decimal(
        (p.2 * 10) as nat,
    ) + "],"@
}

/// The breakpoint list, one per line.
pub open spec fn bps_text(pairs: Seq<(u64, u64, u16)>) -> Seq<char>
    decreases pairs.len(),
{
    if pairs.len() == 0 {
        Seq::empty()
    } else if pairs.len() == 1 {
        bp_line(pairs[0])
    } else {
        bps_text(pairs.drop_last()) + "\n"@ + bp_line(pairs.last())
    }
}

fn push_bps(o: &mut String, pairs: &Vec<BreakpointPair>)
    ensures
        final(o)@ == old(o)@ + bps_text(pairs@.map_values(|p: BreakpointPair| p.model())),
{
    let ghost all = pairs@.map_values(|p: BreakpointPair| p.model());
    let mut i: usize = 0;
    while i < pairs.len()
        invariant
            i <= pairs@.len(),
            all == pairs@.map_values(|p: BreakpointPair| p.model()),
            o@ == old(o)@ + bps_text(all.subrange(0, i as int)),
        decreases pairs@.len() - i,
    {
        if i > 0 {
            o.append("\n");
        }
        let p = &pairs[i];
        o.append("    [0x");
        let a = to_hex_padded(p.addr, 8);
        o.append(a.as_str());
        o.append(", 0x");
        let b = to_hex_padded(p.next_addr, 8);
        o.append(b.as_str());
        o.append(", ");
        let d = to_decimal(p.delay as u64 * 10);
        o.append(d.as_str());
        o.append("],");
        assert(all.subrange(0, i + 1).drop_last() =~= all.subrange(0, i as int));
        assert(all[i as int] == p.model());
        assert(o@ =~= old(o)@ + bps_text(all.subrange(0, i + 1)));
        i = i + 1;
    }
    assert(all.subrange(0, i as int) =~= all);
}

/// A command-line option that sets a breakpoint at `addr`.
pub open spec fn bp_option(prefix: Seq<char>, addr: u64) -> Seq<char> {
    prefix + "'b *0x"@ + hex_padded(addr as nat, 8) + "'"@
}

/// GDB's options: stop at the entry point, then a breakpoint at each
/// address.
pub open spec fn gdb_bp_lines(addrs: Seq<u64>) -> Seq<Seq<char>> {
    seq!["    -ex 'starti'"@] + addrs.map_values(|a: u64| bp_option("    -ex "@, a))
}

/// LLDB's options: a breakpoint at each address.
pub open spec fn lldb_bp_lines(addrs: Seq<u64>) -> Seq<Seq<char>> {
    addrs.map_values(|a: u64| bp_option("    --one-line "@, a))
}

fn join_strings(lines: &Vec<String>, sep: &str) -> (r: String)
    ensures
        r@ == join(lines@.map_values(|s: String| s@), sep@),
{
    let ghost all = lines@.map_values(|s: String| s@);
    let mut o = String::new();
    let mut i: usize = 0;
    while i < lines.len()
        invariant
            i <= lines@.len(),
            all == lines@.map_values(|s: String| s@),
            o@ == join(all.subrange(0, i as int), sep@),
        decreases lines@.len() - i,
    {
        if i > 0 {
            o.append(sep);
        }
        o.append(lines[i].as_str());
        assert(all.subrange(0, i + 1).drop_last() =~= all.subrange(0, i as int));
        assert(o@ =~= join(all.subrange(0, i + 1), sep@));
        i = i + 1;
    }
    assert(all.subrange(0, i as int) =~= all);
    o
}

fn bp_option_string(prefix: &str, addr: u64) -> (r: String)
    ensures
        r@ == bp_option(prefix@, addr),
{
    let mut s = String::from_str(prefix);
    s.append("'b *0x");
    let h = to_hex_padded(addr, 8);
    s.append(h.as_str());
    s.append("'");
    s
}

/// The command-line options that set the breakpoints by hand, one per
/// continued line: GDB's after a stop at the entry point, or LLDB's.
pub fn breakpoint_commands(addrs: &Vec<u64>, gdb: bool) -> (r: String)
    ensures
        r@ == join(
            if gdb {
                gdb_bp_lines(addrs@)
            } else {
                lldb_bp_lines(addrs@)
            },
            " \\\n"@,
        ),
{
    let mut lines: Vec<String> = Vec::new();
    if gdb {
        lines.push(String::from_str("    -ex 'starti'"));
    }
    let ghost head = lines@.map_values(|s: String| s@);
    let prefix = if gdb {
        "    -ex "
    } else {
        "    --one-line "
    };
    let mut i: usize = 0;
    while i < addrs.len()
        invariant
            i <= addrs@.len(),
            head == (if gdb {
                seq!["    -ex 'starti'"@]
            } else {
                Seq::<Seq<char>>::empty()
            }),
            prefix@ == (if gdb {
                "    -ex "@
            } else {
                "    --one-line "@
            }),
            lines@.map_values(|s: String| s@) =~= head + addrs@.subrange(0, i as int).map_values(
                |a: u64| bp_option(prefix@, a),
            ),
        decreases addrs@.len() - i,
    {
        let line = bp_option_string(prefix, addrs[i]);
        let ghost before = lines@.map_values(|s: String| s@);
        lines.push(line);
        assert(lines@.map_values(|s: String| s@) =~= before.push(bp_option(prefix@, addrs@[i as int])));
        assert(addrs@.subrange(0, i + 1).map_values(|a: u64| bp_option(prefix@, a)) =~= addrs@.subrange(
            0,
            i as int,
        ).map_values(|a: u64| bp_option(prefix@, a)).push(bp_option(prefix@, addrs@[i as int])));
        i = i + 1;
    }
    assert(addrs@.subrange(0, i as int) =~= addrs@);
    proof {
        if gdb {
            assert(lines@.map_values(|s: String| s@) =~= gdb_bp_lines(addrs@));
        } else {
            assert(lines@.map_values(|s: String| s@) =~= lldb_bp_lines(addrs@));
        }
    }
    join_strings(&lines, " \\\n")
}

/// The GDB commands that reload the symbols from the live process.
pub open spec fn gdb_reload_text(is_updated: bool) -> Seq<char> {
    if is_updated {
        "\n"@
            + "        gdb.execute(f\"symbol-file a2.out\")\n"@
            + "        gdb.execute(f\"symbol-file /proc/{gdb.selected_inferior().pid}/mem\")"@
    } else {
        Seq::empty()
    }
}

fn push_gdb_reload(o: &mut String, is_updated: bool)
    ensures
        final(o)@ == old(o)@ + gdb_reload_text(is_updated),
{
    if is_updated {
        o.append("\n");
        o.append("        gdb.execute(f\"symbol-file a2.out\")\n");
        o.append("        gdb.execute(f\"symbol-file /proc/{gdb.selected_inferior().pid}/mem\")");
    }
    assert(final(o)@ =~= old(o)@ + gdb_reload_text(is_updated));
}

/// The LLDB commands that dump the process's copy of the binary and
/// reload the symbols from it.
pub open spec fn lldb_reload_text(is_updated: bool, size: u64, data_addr: u64) -> Seq<char> {
    if is_updated {
        "\n"@
            + "    debugger.HandleCommand(\"target symbols add a2.out\")\n"@
            + "    debugger.HandleCommand(\"memory read --binary --outfile /tmp/mem --count 0x"@
            + hex_padded(size as nat, 8)
            + " 0x"@
            + hex_padded(data_addr as nat, 8)
            + "\")\n"@
            + "    debugger.HandleCommand(\"target symbols add /tmp/mem\")\n"@
            + "    "@
    } else {
        Seq::empty()
    }
}

fn push_lldb_reload(out: &mut String, is_updated: bool, size: u64, data_addr: u64)
    ensures
        final(out)@ == old(out)@ + lldb_reload_text(is_updated, size, data_addr),
{
    if is_updated {
        out.append("\n");
        out.append("    debugger.HandleCommand(\"target symbols add a2.out\")\n");
        out.append("    debugger.HandleCommand(\"memory read --binary --outfile /tmp/mem --count 0x");
        let s = to_hex_padded(size, 8);
        out.append(s.as_str());
        out.append(" 0x");
        let a = to_hex_padded(data_addr, 8);
        out.append(a.as_str());
        out.append("\")\n");
        out.append("    debugger.HandleCommand(\"target symbols add /tmp/mem\")\n");
        out.append("    ");
    }
    assert(final(out)@ =~= old(out)@ + lldb_reload_text(is_updated, size, data_addr));
}

/// The GDB script: options, a stop at the entry point, then a hardware
/// breakpoint that, on each hit, optionally reloads the symbols, re-arms
/// only the next breakpoint, prints the backtrace and sleeps.
pub open spec fn gdb_script_text(pairs: Seq<(u64, u64, u16)>, is_updated: bool) -> Seq<char> {
    let n = pairs.len();
    "\n"@
        + "#!/usr/bin/env python3\n"@
        + "\n"@
        + "import gdb\n"@
        + "import time\n"@
        + "\n"@
        + "class B(gdb.Breakpoint):\n"@
        + "    def __init__(self, offset, next_offset, delay):\n"@
        + "        self.delay = delay\n"@
        + "        gdb.Breakpoint.__init__(self, f\"*{offset}\", gdb.BP_HARDWARE_BREAKPOINT)\n"@
        + "\n"@
        + "    def stop(self):\n"@
        + "        "@
        + gdb_reload_text(is_updated)
        + "\n"@
        + "\n"@
        + "        gdb.execute(\"delete breakpoints\")\n"@
        + "        global bp_i\n"@
        + "        bp_i = (bp_i + 1) % "@
        + decimal(n)
        + "\n"@
        + "        B(*bps[bp_i])\n"@
        + "\n"@
        + "        gdb.execute(\"bt\")\n"@
        + "        time.sleep(self.delay / 1000)\n"@
        + "        return False\n"@
        + "\n"@
        + "gdb.execute(\"set pagination off\")\n"@
        + "gdb.execute(\"set style enabled off\")\n"@
        + "gdb.execute(\"set startup-with-shell off\")\n"@
        + "\n"@
        + "gdb.execute(\"starti\")\n"@
        + "bp_i = 0\n"@
        + "bps = [\n"@
        + bps_text(pairs)
        + "\n"@
        + "]\n"@
        + "B(*bps[bp_i])\n"@
        + "gdb.execute(\"c\")\n"@
}

/// The LLDB script: options, a launch stopped at the entry point, then a
/// breakpoint at the first frame; on each hit its callback optionally
/// reloads the symbols, removes every breakpoint, arms only the next one,
/// prints the backtrace and sleeps for the hit breakpoint's delay.
pub open spec fn lldb_script_text(
    pairs: Seq<(u64, u64, u16)>,
    size: u64,
    is_updated: bool,
    data_addr: u64,
) -> Seq<char> {
    "\n"@
        + "#!/usr/bin/env python3\n"@
        + "\n"@
        + "import lldb\n"@
        + "import os\n"@
        + "import sys\n"@
        + "import time\n"@
        + "\n"@
        + "bp_i = 0\n"@
        + "bps = [\n"@
        + bps_text(pairs)
        + "\n"@
        + "]\n"@
        + "\n"@
        + "def arm(target, addr, next_addr, delay):\n"@
        + "    extra_args = lldb.SBStructuredData()\n"@
        + "    stream = lldb.SBStream()\n"@
        + "    stream.Print(f'{{\"delay\" : {delay}}}')\n"@
        + "    extra_args.SetFromJSON(stream)\n"@
        + "    bp = target.BreakpointCreateByAddress(addr)\n"@
        + "    bp.SetAutoContinue(True)\n"@
        + "    bp.SetScriptCallbackFunction(\"a_lldb.b\", extra_args)\n"@
        + "\n"@
        + "def b(frame, bp_loc, extra_args, dict):\n"@
        + "    target = frame.GetThread().GetProcess().GetTarget()\n"@
        + "    debugger = target.GetDebugger()\n"@
        + "    delay = extra_args.GetValueForKey(\"delay\").GetIntegerValue()\n"@
        + "    "@
        + lldb_reload_text(is_updated, size, data_addr)
        + "\n"@
        + "    target.DeleteAllBreakpoints()\n"@
        + "    global bp_i\n"@
        + "    bp_i = (bp_i + 1) % "@
        + decimal(pairs.len())
        + "\n"@
        + "    arm(target, *bps[bp_i])\n"@
        + "\n"@
        + "    debugger.HandleCommand(\"bt\")\n"@
        + "    time.sleep(delay / 1000)\n"@
        + "\n"@
        + "def a(debugger, command, ctx, result, dict):\n"@
        + "    # https://github.com/llvm/llvm-project/blob/6e3c7b8244e9067721ccd0d786755f2ae9c96a87/lldb/include/lldb/lldb-enumerations.h#L99\n"@
        + "    flags = lldb.eLaunchFlagDisableASLR | lldb.eLaunchFlagDisableSTDIO | lldb.eLaunchFlagDebug\n"@
        + "    process = ctx.GetTarget().Launch(debugger.GetListener(), None, None, \"/dev/null\", None, None, os.getcwd(), flags, True, lldb.SBError())\n"@
        + "    if not process:\n"@
        + "        raise RuntimeError(\"Process not launched.\")\n"@
        + "    if process.GetState() != lldb.eStateStopped:\n"@
        + "        raise RuntimeError(\"Process not stopped.\")\n"@
        + "\n"@
        + "    arm(process.GetTarget(), *bps[bp_i])\n"@
        + "    debugger.SetAsync(True)\n"@
        + "    process.Continue()\n"@
        + "\n"@
        + "\n"@
        + "def __lldb_init_module(debugger, dict):\n"@
        + "    debugger.HandleCommand(\"settings set use-color false\")\n"@
        + "    debugger.HandleCommand(\"settings set show-statusline false\")\n"@
        + "    debugger.HandleCommand(\"command script add -f a_lldb.a a\")\n"@
        + "    debugger.HandleCommand(\"a\")\n"@
}

/// Generates scripts for GDB; its `.data` section is linked at address 0.
pub struct GdbFrameConverter;

/// Generates scripts for LLDB; its `.data` section is linked at address
/// 0x1000, above the zero page.
pub struct LldbFrameConverter;

/// The `.text` address that the linker scripts define.
pub const TEXT_SECTION_ADDR: u64 = 0x401000;

impl GdbFrameConverter {
    /// The `.data` address that the linker script defines.
    pub fn data_section_addr(&self) -> (r: u64)
        ensures
            r == 0,
    {
        0
    }

    /// The `.text` address that the linker script defines.
    pub fn text_section_addr(&self) -> (r: u64)
        ensures
            r == TEXT_SECTION_ADDR,
    {
        TEXT_SECTION_ADDR
    }

    /// The GDB automation script for the breakpoint cycle `pairs`.
    pub fn write_dbg_script(&self, pairs: &Vec<BreakpointPair>, is_updated: bool) -> (r: String)
        ensures
            r@ == gdb_script_text(pairs@.map_values(|p: BreakpointPair| p.model()), is_updated),
    {
        let mut o = String::new();
        o.append("\n");
        o.append("#!/usr/bin/env python3\n");
        o.append("\n");
        o.append("import gdb\n");
        o.append("import time\n");
        o.append("\n");
        o.append("class B(gdb.Breakpoint):\n");
        o.append("    def __init__(self, offset, next_offset, delay):\n");
        o.append("        self.delay = delay\n");
        o.append("        gdb.Breakpoint.__init__(self, f\"*{offset}\", gdb.BP_HARDWARE_BREAKPOINT)\n");
        o.append("\n");
        o.append("    def stop(self):\n");
        o.append("        ");
        push_gdb_reload(&mut o, is_updated);
        o.append("\n");
        o.append("\n");
        o.append("        gdb.execute(\"delete breakpoints\")\n");
        o.append("        global bp_i\n");
        o.append("        bp_i = (bp_i + 1) % ");
        let c = to_decimal(pairs.len() as u64);
        o.append(c.as_str());
        o.append("\n");
        o.append("        B(*bps[bp_i])\n");
        o.append("\n");
        o.append("        gdb.execute(\"bt\")\n");
        o.append("        time.sleep(self.delay / 1000)\n");
        o.append("        return False\n");
        o.append("\n");
        o.append("gdb.execute(\"set pagination off\")\n");
        o.append("gdb.execute(\"set style enabled off\")\n");
        o.append("gdb.execute(\"set startup-with-shell off\")\n");
        o.append("\n");
        o.append("gdb.execute(\"starti\")\n");
        o.append("bp_i = 0\n");
        o.append("bps = [\n");
        push_bps(&mut o, pairs);
        o.append("\n");
        o.append("]\n");
        o.append("B(*bps[bp_i])\n");
        o.append("gdb.execute(\"c\")\n");
        assert(o@ =~= gdb_script_text(pairs@.map_values(|p: BreakpointPair| p.model()), is_updated));
        o
    }
}

impl LldbFrameConverter {
    /// The `.data` address that the linker script defines.
    pub fn data_section_addr(&self) -> (r: u64)
        ensures
            r == 0x1000,
    {
        0x1000
    }

    /// The `.text` address that the linker script defines.
    pub fn text_section_addr(&self) -> (r: u64)
        ensures
            r == TEXT_SECTION_ADDR,
    {
        TEXT_SECTION_ADDR
    }

    /// The LLDB automation script for the breakpoint cycle `pairs`; `size`
    /// is the size of the binary that the process holds a copy of.
    pub fn write_dbg_script(&self, pairs: &Vec<BreakpointPair>, size: u64, is_updated: bool) -> (r:
        String)
        ensures
            r@ == lldb_script_text(
                pairs@.map_values(|p: BreakpointPair| p.model()),
                size,
                is_updated,
                0x1000,
            ),
    {
        let data_addr = self.data_section_addr();
        let mut o = String::new();
        o.append("\n");
        o.append("#!/usr/bin/env python3\n");
        o.append("\n");
        o.append("import lldb\n");
        o.append("import os\n");
        o.append("import sys\n");
        o.append("import time\n");
        o.append("\n");
        o.append("bp_i = 0\n");
        o.append("bps = [\n");
        push_bps(&mut o, pairs);
        o.append("\n");
        o.append("]\n");
        o.append("\n");
        o.append("def arm(target, addr, next_addr, delay):\n");
        o.append("    extra_args = lldb.SBStructuredData()\n");
        o.append("    stream = lldb.SBStream()\n");
        o.append("    stream.Print(f'{{\"delay\" : {delay}}}')\n");
        o.append("    extra_args.SetFromJSON(stream)\n");
        o.append("    bp = target.BreakpointCreateByAddress(addr)\n");
        o.append("    bp.SetAutoContinue(True)\n");
        o.append("    bp.SetScriptCallbackFunction(\"a_lldb.b\", extra_args)\n");
        o.append("\n");
        o.append("def b(frame, bp_loc, extra_args, dict):\n");
        o.append("    target = frame.GetThread().GetProcess().GetTarget()\n");
        o.append("    debugger = target.GetDebugger()\n");
        o.append("    delay = extra_args.GetValueForKey(\"delay\").GetIntegerValue()\n");
        o.append("    ");
        push_lldb_reload(&mut o, is_updated, size, data_addr);
        o.append("\n");
        o.append("    target.DeleteAllBreakpoints()\n");
        o.append("    global bp_i\n");
        o.append("    bp_i = (bp_i + 1) % ");
        let c = to_decimal(pairs.len() as u64);
        o.append(c.as_str());
        o.append("\n");
        o.append("    arm(target, *bps[bp_i])\n");
        o.append("\n");
        o.append("    debugger.HandleCommand(\"bt\")\n");
        o.append("    time.sleep(delay / 1000)\n");
        o.append("\n");
        o.append("def a(debugger, command, ctx, result, dict):\n");
        o.append("    # https://github.com/llvm/llvm-project/blob/6e3c7b8244e9067721ccd0d786755f2ae9c96a87/lldb/include/lldb/lldb-enumerations.h#L99\n");
        o.append("    flags = lldb.eLaunchFlagDisableASLR | lldb.eLaunchFlagDisableSTDIO | lldb.eLaunchFlagDebug\n");
        o.append("    process = ctx.GetTarget().Launch(debugger.GetListener(), None, None, \"/dev/null\", None, None, os.getcwd(), flags, True, lldb.SBError())\n");
        o.append("    if not process:\n");
        o.append("        raise RuntimeError(\"Process not launched.\")\n");
        o.append("    if process.GetState() != lldb.eStateStopped:\n");
        o.append("        raise RuntimeError(\"Process not stopped.\")\n");
        o.append("\n");
        o.append("    arm(process.GetTarget(), *bps[bp_i])\n");
        o.append("    debugger.SetAsync(True)\n");
        o.append("    process.Continue()\n");
        o.append("\n");
        o.append("\n");
        o.append("def __lldb_init_module(debugger, dict):\n");
        o.append("    debugger.HandleCommand(\"settings set use-color false\")\n");
        o.append("    debugger.HandleCommand(\"settings set show-statusline false\")\n");
        o.append("    debugger.HandleCommand(\"command script add -f a_lldb.a a\")\n");
        o.append("    debugger.HandleCommand(\"a\")\n");
        assert(o@ =~= lldb_script_text(
            pairs@.map_values(|p: BreakpointPair| p.model()),
            size,
            is_updated,
            0x1000,
        ));
        o
    }
}

} // verus!
