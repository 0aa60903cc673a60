//! Patching of the shadow binary: the placeholder addresses that the
//! generated code passes to guest code are replaced by the addresses of the
//! symbol names in the copy of the binary that the process holds.

use crate::elf::{BinError, NamedSymbol, SymbolModel};
use crate::names::FrameInfo;
use crate::patch::{all_renames, last_symbol, lookup_symbol, Patch};
use crate::script::TEXT_SECTION_ADDR;
use crate::source::{PLACEHOLDER_DEBUGSTR_ADDR, PLACEHOLDER_SYMTAB_ADDR};
use crate::text::{hex_padded, to_hex_padded};
use iced_x86::{Decoder, DecoderOptions, InstructionInfoFactory, Mnemonic, OpAccess, OpKind};
use vstd::prelude::*;
use vstd::utf8::encode_utf8;

verus! {

/// What the patcher reads of one decoded x86-64 instruction.
#[derive(Clone, Copy)]
pub struct InsnFacts {
    /// Length in bytes.
    pub len: usize,
    pub op_count: u32,
    /// The number of registers that it reads or writes.
    pub used_regs: usize,
    /// Whether the first of those registers is written and not read.
    pub first_reg_written: bool,
    pub op0_register: bool,
    pub op1_imm32: bool,
    pub op0_near_branch64: bool,
    /// The immediate value of operand 1, if it has one.
    pub imm1: Option<u64>,
    pub is_call: bool,
}

/// What the decoder reads from the start of `bytes`, at address `ip`.
pub uninterp spec fn decoded_facts(bytes: Seq<u8>, ip: u64) -> InsnFacts;

/// Relies on iced_x86's `Decoder::decode` (64-bit mode) and on
/// `InstructionInfoFactory::info` for the registers used: the facts of the
/// instruction at `code[pos..]`, decoded at address `pos`.
#[verifier::external_body]
fn decode_insn(code: &[u8], pos: usize) -> (r: InsnFacts)
    requires
        pos < code@.len(),
    ensures
        r == decoded_facts(code@.subrange(pos as int, code@.len() as int), pos as u64),
{
    let instr = Decoder::with_ip(64, &code[pos..], pos as u64, DecoderOptions::NONE).decode();
    let mut factory = InstructionInfoFactory::new();
    let regs = factory.info(&instr).used_registers();
    InsnFacts {
        len: instr.len(),
        op_count: instr.op_count(),
        used_regs: regs.len(),
        first_reg_written: regs.first().map_or(false, |r| matches!(r.access(), OpAccess::Write)),
        op0_register: matches!(instr.op0_kind(), OpKind::Register),
        op1_imm32: matches!(instr.op1_kind(), OpKind::Immediate32),
        op0_near_branch64: matches!(instr.op0_kind(), OpKind::NearBranch64),
        imm1: instr.try_immediate(1).ok(),
        is_call: matches!(instr.mnemonic(), Mnemonic::Call),
    }
}

/// A `mov register, placeholder` that loads `v`.
pub open spec fn is_placeholder_load(f: InsnFacts, v: u64) -> bool {
    &&& f.op_count == 2
    &&& f.used_regs == 1
    &&& f.first_reg_written
    &&& f.op0_register
    &&& f.op1_imm32
    &&& f.imm1 == Some(v)
}

/// A direct near call.
pub open spec fn is_near_call(f: InsnFacts) -> bool {
    f.op_count == 1 && f.op0_near_branch64 && f.is_call
}

/// The facts of the instruction at `pos`.
pub open spec fn facts_at(code: Seq<u8>, pos: int) -> InsnFacts {
    decoded_facts(code.subrange(pos, code.len() as int), pos as u64)
}

/// Decoding from `pos` on, the offset of the immediate of the last load of
/// placeholder `v` before the next call that follows such a load, and the
/// position after that call. `Err` when the code ends before a load of the
/// placeholder is followed by a call, or an instruction does not fit in the
/// code.
pub open spec fn scan(code: Seq<u8>, pos: int, v: u64, target: Option<int>) -> Result<
    (int, int),
    (),
>
    decreases code.len() - pos,
{
    if pos < 0 || pos >= code.len() {
        Err(())
    } else {
        let f = facts_at(code, pos);
        if f.len == 0 || pos + f.len > code.len() {
            Err(())
        } else if is_placeholder_load(f, v) {
            scan(code, pos + f.len, v, Some(pos + 1))
        } else if is_near_call(f) && target is Some {
            Ok((target->0, pos + f.len))
        } else {
            scan(code, pos + f.len, v, target)
        }
    }
}

/// Runs `scan` from `pos`.
fn find_target(code: &[u8], pos: usize, v: u64) -> (r: Result<(usize, usize), BinError>)
    requires
        pos <= code@.len(),
    ensures
        match scan(code@, pos as int, v, None) {
            Ok((t, p)) => r matches Ok((rt, rp)) && rt as int == t && rp == p && p <= code@.len(),
            Err(_) => r == Err::<(usize, usize), BinError>(BinError::UnexpectedCode),
        },
{
    let len = code.len();
    let mut p = pos;
    let mut target: Option<usize> = None;
    while p < len
        invariant
            len == code@.len(),
            pos <= p <= len,
            target matches Some(t) ==> t <= len,
            scan(code@, pos as int, v, None) == scan(
                code@,
                p as int,
                v,
                match target {
                    Some(t) => Some(t as int),
                    None => None,
                },
            ),
        decreases len - p,
    {
        let f = decode_insn(code, p);
        if f.len == 0 || f.len > len - p {
            return Err(BinError::UnexpectedCode);
        }
        if f.op_count == 2 && f.used_regs == 1 && f.first_reg_written && f.op0_register
            && f.op1_imm32 && f.imm1 == Some(v) {
            target = Some(p + 1);
        } else if f.op_count == 1 && f.op0_near_branch64 && f.is_call {
            if let Some(t) = target {
                return Ok((t, p + f.len));
            }
        }
        p = p + f.len;
    }
    Err(BinError::UnexpectedCode)
}

/// The low four bytes, little-endian, of `x`.
pub open spec fn low4(x: int) -> Seq<u8> {
    let l = x % 0x1_0000_0000;
    seq![(l % 256) as u8, ((l / 256) % 256) as u8, ((l / 65536) % 256) as u8, (l / 16777216) as u8]
}

fn low4_bytes(offs: u64, data_addr: u64) -> (r: Vec<u8>)
    ensures
        r@ == low4(offs + data_addr),
{
    let l: u64 = (offs % 0x1_0000_0000 + data_addr % 0x1_0000_0000) % 0x1_0000_0000;
    proof {
        vstd::arithmetic::div_mod::lemma_add_mod_noop(offs as int, data_addr as int, 0x1_0000_0000);
    }
    let mut r: Vec<u8> = Vec::new();
    r.push((l % 256) as u8);
    r.push(((l / 256) % 256) as u8);
    r.push(((l / 65536) % 256) as u8);
    r.push((l / 16777216) as u8);
    assert(r@ =~= low4(offs + data_addr));
    r
}

/// The placeholder for a name's `k`-th stored copy: `.symtab`, then
/// `.debug_str`.
pub open spec fn placeholder(k: int) -> u64 {
    if k == 0 {
        PLACEHOLDER_SYMTAB_ADDR
    } else {
        PLACEHOLDER_DEBUGSTR_ADDR
    }
}

/// The stored copies of `name` as (file offset, copy index); `None` when
/// the name is not a symbol or has more than two copies.
pub open spec fn name_jobs(syms: Seq<SymbolModel>, name: Seq<char>) -> Option<Seq<(u64, int)>> {
    match last_symbol(syms, encode_utf8(name)) {
        None => None,
        Some(i) => if syms[i].2.len() > 2 {
            None
        } else {
            Some(Seq::new(syms[i].2.len(), |k: int| (syms[i].2[k], k)))
        },
    }
}

/// The copies of all the names of `rs`, in order.
pub open spec fn all_jobs(syms: Seq<SymbolModel>, rs: Seq<(Seq<char>, Seq<char>)>) -> Option<
    Seq<(u64, int)>,
>
    decreases rs.len(),
{
    if rs.len() == 0 {
        Some(seq![])
    } else {
        match (all_jobs(syms, rs.drop_last()), name_jobs(syms, rs.last().0)) {
            (Some(a), Some(b)) => Some(a + b),
            _ => None,
        }
    }
}

/// The patches for `jobs`, scanning the code from `pos` on: each job's
/// placeholder immediate is overwritten with the low four bytes of its
/// offset plus the `.data` address.
pub open spec fn addr_plan(code: Seq<u8>, jobs: Seq<(u64, int)>, pos: int, data_addr: u64) -> Option<
    Seq<(u64, Seq<u8>)>,
>
    decreases jobs.len(),
{
    if jobs.len() == 0 {
        Some(seq![])
    } else {
        match scan(code, pos, placeholder(jobs[0].1), None) {
            Ok((t, p)) => match addr_plan(code, jobs.drop_first(), p, data_addr) {
                Some(rest) => Some(seq![(t as u64, low4(jobs[0].0 + data_addr))] + rest),
                None => None,
            },
            _ => None,
        }
    }
}

/// Gathers the copies of every frame name; see `all_jobs`.
fn collect_jobs(name_to_info: &Vec<NamedSymbol>, frame_infos: &Vec<FrameInfo>) -> (r: Result<
    Vec<(u64, usize)>,
    BinError,
>)
    requires
        forall|f: int| 0 <= f < frame_infos@.len() ==> (#[trigger] frame_infos@[f]).wf(),
    ensures
        match all_jobs(
            name_to_info@.map_values(|e: NamedSymbol| e.model()),
            all_renames(frame_infos@, frame_infos@.len() as int),
        ) {
            Some(js) => r matches Ok(v) && v@.map_values(|j: (u64, usize)| (j.0, j.1 as int))
                == js,
            None => r is Err,
        },
        r matches Ok(v) ==> forall|q: int| 0 <= q < v@.len() ==> (#[trigger] v@[q]).1 < 2,
{
    let ghost syms = name_to_info@.map_values(|e: NamedSymbol| e.model());
    let mut out: Vec<(u64, usize)> = Vec::new();
    let mut f: usize = 0;
    while f < frame_infos.len()
        invariant
            f <= frame_infos@.len(),
            forall|g: int| 0 <= g < frame_infos@.len() ==> (#[trigger] frame_infos@[g]).wf(),
            syms == name_to_info@.map_values(|e: NamedSymbol| e.model()),
            all_jobs(syms, all_renames(frame_infos@, f as int)) == Some(
                out@.map_values(|j: (u64, usize)| (j.0, j.1 as int)),
            ),
            forall|q: int| 0 <= q < out@.len() ==> (#[trigger] out@[q]).1 < 2,
        decreases frame_infos@.len() - f,
    {
        let fr = &frame_infos[f];
        let ghost before = all_renames(frame_infos@, f as int);
        let mut k: usize = 0;
        while k < fr.tmp_names.len()
            invariant
                k <= fr.tmp_names@.len(),
                fr.wf(),
                *fr == frame_infos@[f as int],
                f < frame_infos@.len(),
                syms == name_to_info@.map_values(|e: NamedSymbol| e.model()),
                before == all_renames(frame_infos@, f as int),
                all_jobs(syms, before + crate::patch::frame_renames(*fr, k as int)) == Some(
                    out@.map_values(|j: (u64, usize)| (j.0, j.1 as int)),
                ),
                forall|q: int| 0 <= q < out@.len() ==> (#[trigger] out@[q]).1 < 2,
            decreases fr.tmp_names@.len() - k,
        {
            let ghost cur = before + crate::patch::frame_renames(*fr, k as int);
            let ghost next = before + crate::patch::frame_renames(*fr, k + 1);
            assert(next.drop_last() =~= cur);
            let name = &fr.tmp_names[k];
            let i = match lookup_symbol(name_to_info, name.as_str().as_bytes()) {
                Some(i) => i,
                None => {
                    proof {
                        lemma_jobs_none_extends(syms, next, frame_infos@, f as int, k + 1);
                    }
                    return Err(BinError::UnresolvedSymbol);
                },
            };
            let offs = &name_to_info[i].info.offs;
            assert(syms[i as int] == name_to_info@[i as int].model());
            if offs.len() > 2 {
                proof {
                    lemma_jobs_none_extends(syms, next, frame_infos@, f as int, k + 1);
                }
                return Err(BinError::UnexpectedCode);
            }
            let ghost start = out@.map_values(|j: (u64, usize)| (j.0, j.1 as int));
            let ghost want = Seq::new(offs@.len(), |c: int| (offs@[c], c));
            let mut c: usize = 0;
            while c < offs.len()
                invariant
                    c <= offs@.len(),
                    want == Seq::new(offs@.len(), |c: int| (offs@[c], c)),
                    out@.map_values(|j: (u64, usize)| (j.0, j.1 as int)) =~= start + want.subrange(
                        0,
                        c as int,
                    ),
                    offs@.len() <= 2,
                    forall|q: int| 0 <= q < out@.len() ==> (#[trigger] out@[q]).1 < 2,
                decreases offs@.len() - c,
            {
                let ghost out_before = out@;
                out.push((offs[c], c));
                assert(out@.map_values(|j: (u64, usize)| (j.0, j.1 as int)) =~= out_before.map_values(
                    |j: (u64, usize)| (j.0, j.1 as int),
                ).push((offs@[c as int], c as int)));
                assert(want.subrange(0, c + 1) =~= want.subrange(0, c as int).push(want[c as int]));
                c = c + 1;
            }
            assert(want.subrange(0, c as int) =~= want);
            k = k + 1;
        }
        assert(before + crate::patch::frame_renames(*fr, k as int) =~= all_renames(
            frame_infos@,
            f + 1,
        ));
        f = f + 1;
    }
    Ok(out)
}

proof fn lemma_jobs_none_extends(
    syms: Seq<SymbolModel>,
    s: Seq<(Seq<char>, Seq<char>)>,
    frames: Seq<FrameInfo>,
    f: int,
    k: int,
)
    requires
        0 <= f < frames.len(),
        0 <= k <= frames[f].tmp_names@.len(),
        s == all_renames(frames, f) + crate::patch::frame_renames(frames[f], k),
        all_jobs(syms, s) is None,
    ensures
        all_jobs(syms, all_renames(frames, frames.len() as int)) is None,
{
    let full = all_renames(frames, frames.len() as int);
    crate::patch::lemma_all_renames_prefix(frames, f, k);
    let t = full.subrange(s.len() as int, full.len() as int);
    assert(s + t =~= full);
    lemma_jobs_none_append(syms, s, t);
}

proof fn lemma_jobs_none_append(
    syms: Seq<SymbolModel>,
    s: Seq<(Seq<char>, Seq<char>)>,
    t: Seq<(Seq<char>, Seq<char>)>,
)
    requires
        all_jobs(syms, s) is None,
    ensures
        all_jobs(syms, s + t) is None,
    decreases t.len(),
{
    if t.len() == 0 {
        assert(s + t =~= s);
    } else {
        lemma_jobs_none_append(syms, s, t.drop_last());
        assert((s + t).drop_last() =~= s + t.drop_last());
    }
}

/// The runtime-driven variant: a frame grid of `width` by `height` cells,
/// drawn by guest code into a shadow binary whose `.data` section is
/// linked at `data_section_addr`.
pub struct CustomFrameConverter {
    pub data_section_addr: u64,
    pub height: u16,
    pub width: u16,
}

impl CustomFrameConverter {
    /// The name of the linker script that places `.data` at its address.
    pub fn shadow_script_name(&self) -> (r: String)
        ensures
            r@ == "a2.0x"@ + hex_padded(self.data_section_addr as nat, 4) + ".ld"@,
    {
        let mut s = String::from_str("a2.0x");
        let h = to_hex_padded(self.data_section_addr, 4);
        s.append(h.as_str());
        s.append(".ld");
        s
    }

    /// The write that copies the original binary's build-id descriptor
    /// `desc` into the shadow binary: at the shadow binary's `.data` file
    /// offset plus the descriptor's offset within the original binary,
    /// which `.data` holds. `None` when that offset does not fit in 64 bits.
    pub fn build_id_patch(&self, shadow_data_offs: u64, build_id_desc_offs: u64, desc: &Vec<u8>) -> (r:
        Option<Patch>)
        ensures
            shadow_data_offs + build_id_desc_offs <= u64::MAX ==> (r matches Some(p) && p.model()
                == ((shadow_data_offs + build_id_desc_offs) as u64, desc@)),
            shadow_data_offs + build_id_desc_offs > u64::MAX ==> r is None,
    {
        match shadow_data_offs.checked_add(build_id_desc_offs) {
            Some(offs) => Some(Patch { offs, bytes: desc.clone() }),
            None => None,
        }
    }
}

/// One job's patch, and where the next search starts.
fn plan_step(contents: &[u8], pos: usize, offs: u64, c: usize, data_addr: u64) -> (r: Result<
    (Patch, usize),
    BinError,
>)
    requires
        pos <= contents@.len(),
        c < 2,
    ensures
        match scan(contents@, pos as int, placeholder(c as int), None) {
            Ok((x, p)) => r matches Ok((pt, np)) && pt.model() == (
                x as u64,
                low4(offs + data_addr),
            ) && np == p && np <= contents@.len(),
            _ => r == Err::<(Patch, usize), BinError>(BinError::UnexpectedCode),
        },
{
    let v = if c == 0 {
        PLACEHOLDER_SYMTAB_ADDR
    } else {
        PLACEHOLDER_DEBUGSTR_ADDR
    };
    match find_target(contents, pos, v) {
        Ok((t, p)) => {
            let bytes = low4_bytes(offs, data_addr);
            Ok((Patch { offs: t as u64, bytes }, p))
        },
        _ => Err(BinError::UnexpectedCode),
    }
}

/// `a` in front of the plan `o`, if there is one.
pub open spec fn prepend(a: Seq<(u64, Seq<u8>)>, o: Option<Seq<(u64, Seq<u8>)>>) -> Option<
    Seq<(u64, Seq<u8>)>,
> {
    match o {
        Some(r) => Some(a + r),
        None => None,
    }
}

/// The writes that make the shadow binary's code pass real addresses to
/// guest code. `contents` is the shadow binary; its `.text` section starts
/// at file offset `text_offs` and its entry function at address
/// `start_addr`. For every frame name, in allocation order, and every
/// stored copy of it (first in `.symtab`, then in `.debug_str`), the code
/// is decoded on from where the previous search stopped, up to the call
/// that follows a load of the copy's placeholder; the immediate of the last
/// such load is overwritten with the low four bytes of the copy's offset
/// plus `data_addr`.
pub fn patch_addrs(
    name_to_info: &Vec<NamedSymbol>,
    frame_infos: &Vec<FrameInfo>,
    contents: &[u8],
    text_offs: u64,
    start_addr: u64,
    data_addr: u64,
) -> (r: Result<Vec<Patch>, BinError>)
    requires
        forall|f: int| 0 <= f < frame_infos@.len() ==> (#[trigger] frame_infos@[f]).wf(),
    ensures
        r is Ok ==> start_addr >= TEXT_SECTION_ADDR && start_addr - TEXT_SECTION_ADDR + text_offs
            <= contents@.len(),
        r matches Ok(v) ==> (all_jobs(
            name_to_info@.map_values(|e: NamedSymbol| e.model()),
            all_renames(frame_infos@, frame_infos@.len() as int),
        ) matches Some(js) && addr_plan(
                contents@,
                js,
                start_addr - TEXT_SECTION_ADDR + text_offs,
                data_addr,
            ) == Some(v@.map_values(|p: Patch| p.model()))),
        (start_addr >= TEXT_SECTION_ADDR && start_addr - TEXT_SECTION_ADDR + text_offs
            <= contents@.len()) ==> match all_jobs(
            name_to_info@.map_values(|e: NamedSymbol| e.model()),
            all_renames(frame_infos@, frame_infos@.len() as int),
        ) {
            Some(js) => (r is Ok <==> addr_plan(
                contents@,
                js,
                start_addr - TEXT_SECTION_ADDR + text_offs,
                data_addr,
            ) is Some),
            None => r is Err,
        },
{
    if start_addr < TEXT_SECTION_ADDR || start_addr - TEXT_SECTION_ADDR > contents.len() as u64
        || text_offs > contents.len() as u64 - (start_addr - TEXT_SECTION_ADDR) {
        return Err(BinError::UnexpectedCode);
    }
    let start = (start_addr - TEXT_SECTION_ADDR + text_offs) as usize;
    assert(start as int == start_addr - TEXT_SECTION_ADDR + text_offs);
    let jobs = match collect_jobs(name_to_info, frame_infos) {
        Ok(v) => v,
        Err(e) => return Err(e),
    };
    let ghost js = jobs@.map_values(|j: (u64, usize)| (j.0, j.1 as int));
    assert(all_jobs(
        name_to_info@.map_values(|e: NamedSymbol| e.model()),
        all_renames(frame_infos@, frame_infos@.len() as int),
    ) == Some(js));
    let mut out: Vec<Patch> = Vec::new();
    let mut pos = start;
    let mut k: usize = 0;
    proof {
        assert(js.subrange(0, js.len() as int) =~= js);
        match addr_plan(contents@, js, start as int, data_addr) {
            Some(r0) => {
                assert(Seq::<(u64, Seq<u8>)>::empty() + r0 =~= r0);
            },
            None => {},
        }
        assert(out@.map_values(|p: Patch| p.model()) =~= Seq::<(u64, Seq<u8>)>::empty());
    }
    while k < jobs.len()
        invariant
            k <= jobs@.len(),
            pos <= contents@.len(),
            js == jobs@.map_values(|j: (u64, usize)| (j.0, j.1 as int)),
            forall|q: int| 0 <= q < jobs@.len() ==> (#[trigger] jobs@[q]).1 < 2,
            start as int == start_addr - TEXT_SECTION_ADDR + text_offs,
            all_jobs(
                name_to_info@.map_values(|e: NamedSymbol| e.model()),
                all_renames(frame_infos@, frame_infos@.len() as int),
            ) == Some(js),
            addr_plan(contents@, js, start as int, data_addr) == prepend(
                out@.map_values(|p: Patch| p.model()),
                addr_plan(contents@, js.subrange(k as int, js.len() as int), pos as int, data_addr),
            ),
        decreases jobs@.len() - k,
    {
        let (offs, c) = jobs[k];
        let ghost rest = js.subrange(k as int, js.len() as int);
        assert(rest[0] == (offs, c as int));
        assert(rest.drop_first() =~= js.subrange(k + 1, js.len() as int));
        match plan_step(contents, pos, offs, c, data_addr) {
            Ok((patch, p)) => {
                let ghost before = out@.map_values(|p: Patch| p.model());
                out.push(patch);
                proof {
                    assert(out@.map_values(|p: Patch| p.model()) =~= before + seq![patch.model()]);
                    match addr_plan(contents@, js.subrange(k + 1, js.len() as int), p as int, data_addr) {
                        Some(r2) => {
                            assert(before + (seq![patch.model()] + r2) =~= before + seq![patch.model()]
                                + r2);
                        },
                        None => {},
                    }
                }
                pos = p;
            },
            Err(e) => {
                assert(addr_plan(contents@, rest, pos as int, data_addr) is None);
                assert(addr_plan(contents@, js, start as int, data_addr) is None);
                return Err(e);
            },
        }
        k = k + 1;
    }
    assert(js.subrange(k as int, js.len() as int) =~= Seq::<(u64, int)>::empty());
    assert(out@.map_values(|p: Patch| p.model()) + Seq::<(u64, Seq<u8>)>::empty()
        =~= out@.map_values(|p: Patch| p.model()));
    assert(addr_plan(contents@, js, start as int, data_addr) == Some(
        out@.map_values(|p: Patch| p.model()),
    ));
    Ok(out)
}

} // verus!
