//! Recovery of file offsets from a linked ELF image: where each function
//! symbol's name is stored, where the build-id descriptor lies, and where
//! the debug strings start.

use vstd::prelude::*;

verus! {

/// One section of an ELF image, as read from its section header.
pub struct ElfSection {
    pub name: String,
    pub file_offset: u64,
    /// Whether the section's type is `SHT_NOTE`.
    pub is_note: bool,
    /// The size of one entry, for a table.
    pub entry_size: u64,
    pub content: Vec<u8>,
}

/// One entry of the symbol table: its name, whether it is a function, and
/// its value (the load address, for a function).
pub struct ElfSymbol {
    pub name: Vec<u8>,
    pub is_func: bool,
    pub value: u64,
}

/// The parts of an ELF file that the inspection reads: its sections in
/// header order, the entries of `.symtab` in table order, and its size.
pub struct ElfImage {
    pub sections: Vec<ElfSection>,
    pub symbols: Vec<ElfSymbol>,
    pub size: u64,
}

impl ElfImage {
    /// Each section lies within a 64-bit file.
    pub open spec fn wf(&self) -> bool {
        forall|k: int|
            0 <= k < self.sections@.len() ==> (#[trigger] self.sections@[k]).file_offset
                + self.sections@[k].content@.len() <= 0x8000_0000_0000_0000u64
    }
}

/// Where a symbol's name is stored: its address, and the file offsets of
/// its name in `.strtab` and, if found there, in `.debug_str`.
pub struct SymbolInfo {
    pub addr: u64,
    pub offs: Vec<u64>,
}

/// A function symbol's name with where it is stored.
pub struct NamedSymbol {
    pub name: Vec<u8>,
    pub info: SymbolInfo,
}

/// File offsets of the sections that patching needs, or 0 for one that is
/// absent.
pub struct SectionOffsets {
    pub data: u64,
    pub strtab: u64,
    pub text: u64,
}

/// What the inspection learns of a binary.
pub struct BinInfo {
    pub build_id_desc_offs: u64,
    pub build_id_desc: Vec<u8>,
    /// Function symbols in table order; a later entry of a name hides an
    /// earlier one.
    pub name_to_info: Vec<NamedSymbol>,
    pub section_offs: SectionOffsets,
    pub size: u64,
}

/// Why a binary could not be read or patched.
#[derive(PartialEq, Eq, Structural, Clone, Copy, Debug)]
pub enum BinError {
    /// `.symtab` or `.strtab` is absent.
    MissingSection,
    /// The build-id section is not a note.
    BuildIdNotNote,
    /// The build-id note is shorter than its own lengths say.
    BuildIdTruncated,
    /// A symbol's entry lies beyond the end of `.symtab`.
    SymtabTruncated,
    /// A name to patch is not in the symbol table.
    UnresolvedSymbol,
    /// A patch would reach past the end of the file.
    PatchOutOfRange,
    /// The machine code does not hold the expected placeholder loads.
    UnexpectedCode,
}

/// The little-endian 32-bit integer at `s[i..i + 4]`.
pub open spec fn le32(s: Seq<u8>, i: int) -> nat {
    (s[i] + 256 * s[i + 1] + 65536 * s[i + 2] + 16777216 * s[i + 3]) as nat
}

/// Reads the little-endian 32-bit integer at `s[i..i + 4]`.
pub fn read_u32_le(s: &[u8], i: usize) -> (r: u32)
    requires
        i + 4 <= s@.len(),
    ensures
        r == le32(s@, i as int),
{
    (s[i] as u32) + (s[i + 1] as u32) * 256 + (s[i + 2] as u32) * 65536 + (s[i + 3] as u32)
        * 16777216
}

/// The index of the first section named `name`.
pub open spec fn section_index(sections: Seq<ElfSection>, name: Seq<char>) -> Option<int> {
    if exists|k: int| 0 <= k < sections.len() && (#[trigger] sections[k]).name@ == name {
        let k = choose|k: int|
            0 <= k < sections.len() && (#[trigger] sections[k]).name@ == name && forall|j: int|
                0 <= j < k ==> (#[trigger] sections[j]).name@ != name;
        Some(k)
    } else {
        None
    }
}

/// Finds the first section named `name`.
pub fn section_by_name(sections: &Vec<ElfSection>, name: &str) -> (r: Option<usize>)
    ensures
        match r {
            Some(k) => {
                &&& k < sections@.len()
                &&& sections@[k as int].name@ == name@
                &&& forall|j: int| 0 <= j < k ==> (#[trigger] sections@[j]).name@ != name@
            },
            None => forall|j: int|
                0 <= j < sections@.len() ==> (#[trigger] sections@[j]).name@ != name@,
        },
        r matches Some(k) ==> section_index(sections@, name@) == Some(k as int),
        r is None ==> section_index(sections@, name@) is None,
{
    let target = String::from_str(name);
    let mut k: usize = 0;
    while k < sections.len()
        invariant
            k <= sections@.len(),
            target@ == name@,
            forall|j: int| 0 <= j < k ==> (#[trigger] sections@[j]).name@ != name@,
        decreases sections@.len() - k,
    {
        if sections[k].name == target {
            proof {
                let c = choose|c: int|
                    0 <= c < sections@.len() && (#[trigger] sections@[c]).name@ == name@
                        && forall|j: int| 0 <= j < c ==> (#[trigger] sections@[j]).name@ != name@;
                assert(sections@[k as int].name@ == name@);
                if c < k {
                } else if c > k {
                    assert(sections@[k as int].name@ != name@);
                }
            }
            return Some(k);
        }
        k = k + 1;
    }
    None
}

/// The file offset of the first section named `name`, or 0.
pub open spec fn section_offset(sections: Seq<ElfSection>, name: Seq<char>) -> u64 {
    match section_index(sections, name) {
        Some(k) => sections[k].file_offset,
        None => 0,
    }
}

fn section_offset_or_zero(sections: &Vec<ElfSection>, name: &str) -> (r: u64)
    ensures
        r == section_offset(sections@, name@),
{
    match section_by_name(sections, name) {
        Some(k) => sections[k].file_offset,
        None => 0,
    }
}

/// The descriptor of a build-id note of content `c` at file offset `offs`:
/// `None` when the content is shorter than its header and lengths say;
/// else the descriptor's file offset and bytes. The note is laid out as
/// name length, descriptor length and type (32 bits each), then the name,
/// then the descriptor.
pub open spec fn build_id_note(offs: nat, c: Seq<u8>) -> Option<(nat, Seq<u8>)> {
    if c.len() < 12 {
        None
    } else {
        let name_len = le32(c, 0);
        let desc_len = le32(c, 4);
        if 12 + name_len + desc_len > c.len() {
            None
        } else {
            Some(
                (
                    offs + 12 + name_len,
                    c.subrange(12 + name_len as int, 12 + name_len + desc_len as int),
                ),
            )
        }
    }
}

/// Reads the descriptor of a build-id note; see `build_id_note`.
pub fn parse_build_id(offs: u64, content: &Vec<u8>) -> (r: Result<(u64, Vec<u8>), BinError>)
    requires
        offs + content@.len() <= u64::MAX,
    ensures
        match build_id_note(offs as nat, content@) {
            Some((o, d)) => r matches Ok((ro, rd)) && ro == o && rd@ == d,
            None => r == Err::<(u64, Vec<u8>), BinError>(BinError::BuildIdTruncated),
        },
{
    let len = content.len();
    if len < 12 {
        return Err(BinError::BuildIdTruncated);
    }
    let name_len = read_u32_le(content.as_slice(), 0) as usize;
    let desc_len = read_u32_le(content.as_slice(), 4) as usize;
    if name_len > len - 12 || desc_len > len - 12 - name_len {
        return Err(BinError::BuildIdTruncated);
    }
    let start = 12 + name_len;
    let mut desc: Vec<u8> = Vec::new();
    let mut k: usize = 0;
    while k < desc_len
        invariant
            start + desc_len <= len,
            len == content@.len(),
            k <= desc_len,
            desc@ =~= content@.subrange(start as int, start + k),
        decreases desc_len - k,
    {
        desc.push(content[start + k]);
        k = k + 1;
    }
    Ok((offs + start as u64, desc))
}

/// Relies on memchr::memchr: the index, within `h[from..]`, of the first
/// zero byte, if there is one.
#[verifier::external_body]
fn find_null(h: &[u8], from: usize) -> (r: Option<usize>)
    requires
        from <= h@.len(),
    ensures
        match r {
            Some(k) => {
                &&& from + k < h@.len()
                &&& h@[from + k] == 0
                &&& forall|j: int| from <= j < from + k ==> h@[j] != 0
            },
            None => forall|j: int| from <= j < h@.len() ==> h@[j] != 0,
        },
{
    memchr::memchr(0, &h[from..])
}

/// Where the string that holds position `m - 1` of `h` starts: just after
/// the last zero byte before `m`.
pub open spec fn span_start(h: Seq<u8>, m: int) -> int
    decreases m,
{
    if m <= 0 {
        0
    } else if h[m - 1] == 0 {
        m
    } else {
        span_start(h, m - 1)
    }
}

/// The zero-terminated strings of `h[..n]`, as (start, end) with `h[end]`
/// the terminating zero; bytes after the last zero belong to none.
pub open spec fn null_spans(h: Seq<u8>, n: int) -> Seq<(int, int)>
    decreases n,
{
    if n <= 0 {
        seq![]
    } else if h[n - 1] == 0 {
        null_spans(h, n - 1).push((span_start(h, n - 1), n - 1))
    } else {
        null_spans(h, n - 1)
    }
}

/// Spans as integers.
pub open spec fn spans_view(r: Seq<(usize, usize)>) -> Seq<(int, int)> {
    r.map_values(|p: (usize, usize)| (p.0 as int, p.1 as int))
}

proof fn lemma_no_null(h: Seq<u8>, from: int, to: int)
    requires
        0 <= from <= to <= h.len(),
        span_start(h, from) == from,
        forall|j: int| from <= j < to ==> h[j] != 0,
    ensures
        null_spans(h, to) == null_spans(h, from),
        span_start(h, to) == from,
    decreases to - from,
{
    if to > from {
        lemma_no_null(h, from, to - 1);
    }
}

/// Splits the content of `.debug_str` into its zero-terminated strings.
/// This assumes that each string of the section stands once, as no string
/// merging took place.
pub fn parse_debug_str(content: &Vec<u8>) -> (r: Vec<(usize, usize)>)
    ensures
        spans_view(r@) == null_spans(content@, content@.len() as int),
{
    let h = content.as_slice();
    let len = h.len();
    let mut spans: Vec<(usize, usize)> = Vec::new();
    let mut pos: usize = 0;
    while pos < len
        invariant
            len == h@.len(),
            h@ == content@,
            pos <= len,
            span_start(h@, pos as int) == pos,
            spans_view(spans@) =~= null_spans(h@, pos as int),
        decreases len - pos,
    {
        match find_null(h, pos) {
            Some(k) => {
                proof {
                    lemma_no_null(h@, pos as int, (pos + k) as int);
                }
                spans.push((pos, pos + k));
                pos = pos + k + 1;
            },
            None => {
                proof {
                    lemma_no_null(h@, pos as int, len as int);
                }
                return spans;
            },
        }
    }
    spans
}

/// Whether `h[start..end]` equals `name`.
fn bytes_equal(h: &[u8], start: usize, end: usize, name: &[u8]) -> (r: bool)
    requires
        start <= end <= h@.len(),
    ensures
        r == (h@.subrange(start as int, end as int) == name@),
{
    if end - start != name.len() {
        return false;
    }
    let mut k: usize = 0;
    while k < name.len()
        invariant
            start <= end <= h@.len(),
            end - start == name@.len(),
            k <= name@.len(),
            forall|j: int| 0 <= j < k ==> h@[start + j] == name@[j],
        decreases name@.len() - k,
    {
        if h[start + k] != name[k] {
            assert(h@.subrange(start as int, end as int)[k as int] != name@[k as int]);
            return false;
        }
        k = k + 1;
    }
    assert(h@.subrange(start as int, end as int) =~= name@);
    true
}

/// The index of the last span of `h` among `spans[..n]` whose bytes are
/// `name`.
pub open spec fn last_match(h: Seq<u8>, spans: Seq<(int, int)>, name: Seq<u8>, n: int) -> Option<
    int,
>
    decreases n,
{
    if n <= 0 {
        None
    } else if h.subrange(spans[n - 1].0, spans[n - 1].1) == name {
        Some(n - 1)
    } else {
        last_match(h, spans, name, n - 1)
    }
}

/// Finds the last of the spans whose bytes are `name`.
fn find_debug_str(h: &[u8], spans: &Vec<(usize, usize)>, name: &[u8]) -> (r: Option<usize>)
    requires
        forall|k: int|
            0 <= k < spans@.len() ==> (#[trigger] spans@[k]).0 <= spans@[k].1 <= h@.len(),
    ensures
        r matches Some(k) ==> k < spans@.len(),
        r matches Some(k) ==> last_match(h@, spans_view(spans@), name@, spans@.len() as int)
            == Some(k as int),
        r is None ==> last_match(h@, spans_view(spans@), name@, spans@.len() as int) is None,
{
    let mut n = spans.len();
    while n > 0
        invariant
            n <= spans@.len(),
            forall|k: int|
                0 <= k < spans@.len() ==> (#[trigger] spans@[k]).0 <= spans@[k].1 <= h@.len(),
            last_match(h@, spans_view(spans@), name@, spans@.len() as int) == last_match(
                h@,
                spans_view(spans@),
                name@,
                n as int,
            ),
        decreases n,
    {
        let (start, end) = spans[n - 1];
        if bytes_equal(h, start, end, name) {
            return Some(n - 1);
        }
        n = n - 1;
    }
    None
}

proof fn lemma_spans_in_bounds(h: Seq<u8>, n: int)
    requires
        0 <= n <= h.len(),
    ensures
        forall|k: int|
            0 <= k < null_spans(h, n).len() ==> 0 <= (#[trigger] null_spans(h, n)[k]).0
                <= null_spans(h, n)[k].1 < n,
        0 <= span_start(h, n) <= n,
    decreases n,
{
    if n > 0 {
        lemma_spans_in_bounds(h, n - 1);
        let prev = null_spans(h, n - 1);
        assert forall|k: int| 0 <= k < null_spans(h, n).len() implies 0 <= (
        #[trigger] null_spans(h, n)[k]).0 <= null_spans(h, n)[k].1 < n by {
            if k < prev.len() {
                assert(null_spans(h, n)[k] == prev[k]);
            }
        }
    }
}

/// A function symbol as plain values: its name, its address, and the file
/// offsets where its name is stored.
pub type SymbolModel = (Seq<u8>, u64, Seq<u64>);

/// What `BinInfo` holds, as plain values: build-id descriptor offset and
/// bytes, function symbols, offsets of `.data`, `.strtab` and `.text`,
/// file size.
pub type BinModel = (u64, Seq<u8>, Seq<SymbolModel>, (u64, u64, u64), u64);

impl NamedSymbol {
    pub open spec fn model(&self) -> SymbolModel {
        (self.name@, self.info.addr, self.info.offs@)
    }
}

impl BinInfo {
    pub open spec fn symbols_model(&self) -> Seq<SymbolModel> {
        self.name_to_info@.map_values(|e: NamedSymbol| e.model())
    }

    pub open spec fn model(&self) -> BinModel {
        (
            self.build_id_desc_offs,
            self.build_id_desc@,
            self.symbols_model(),
            (self.section_offs.data, self.section_offs.strtab, self.section_offs.text),
            self.size,
        )
    }
}

/// The offset in `.debug_str` (at file offset `dbg_offs`, content `dbg`) of
/// the last string that equals `name`, as a sequence of at most one.
pub open spec fn debug_offs_of(dbg_offs: u64, dbg: Seq<u8>, name: Seq<u8>) -> Seq<u64> {
    let spans = null_spans(dbg, dbg.len() as int);
    match last_match(dbg, spans, name, spans.len() as int) {
        Some(k) => seq![(dbg_offs + spans[k].0) as u64],
        None => seq![],
    }
}

/// The function symbols among `syms[..n]`, in order. The name of entry `i`
/// is stored at the file offset of `.strtab` plus the 32-bit integer that
/// starts entry `i` of `.symtab`.
pub open spec fn func_symbols(
    syms: Seq<ElfSymbol>,
    symtab: Seq<u8>,
    entsize: nat,
    strtab_offs: nat,
    dbg_offs: u64,
    dbg: Seq<u8>,
    n: int,
) -> Seq<SymbolModel>
    decreases n,
{
    if n <= 0 {
        seq![]
    } else {
        let prev = func_symbols(syms, symtab, entsize, strtab_offs, dbg_offs, dbg, n - 1);
        let s = syms[n - 1];
        if s.is_func {
            prev.push(
                (
                    s.name@,
                    s.value,
                    seq![(strtab_offs + le32(symtab, entsize * (n - 1))) as u64] + debug_offs_of(
                        dbg_offs,
                        dbg,
                        s.name@,
                    ),
                ),
            )
        } else {
            prev
        }
    }
}

/// Every function symbol's entry lies within `.symtab`.
pub open spec fn symtab_covers(syms: Seq<ElfSymbol>, symtab_len: nat, entsize: nat) -> bool {
    forall|i: int| 0 <= i < syms.len() && (#[trigger] syms[i]).is_func ==> entsize * i + 4 <= symtab_len
}

/// What inspecting `img` yields.
pub open spec fn bin_spec(img: ElfImage) -> Result<BinModel, BinError> {
    let secs = img.sections@;
    match (section_index(secs, ".symtab"@), section_index(secs, ".strtab"@)) {
        (Some(st), Some(sr)) => {
            let build_id = match section_index(secs, ".note.gnu.build-id"@) {
                None => Ok((0u64, Seq::<u8>::empty())),
                Some(b) => if !secs[b].is_note {
                    Err(BinError::BuildIdNotNote)
                } else {
                    match build_id_note(secs[b].file_offset as nat, secs[b].content@) {
                        Some((o, d)) => Ok((o as u64, d)),
                        None => Err(BinError::BuildIdTruncated),
                    }
                },
            };
            let (dbg_offs, dbg) = match section_index(secs, ".debug_str"@) {
                Some(d) => (secs[d].file_offset, secs[d].content@),
                None => (0u64, Seq::<u8>::empty()),
            };
            match build_id {
                Err(e) => Err(e),
                Ok((o, d)) => if !symtab_covers(
                    img.symbols@,
                    secs[st].content@.len(),
                    secs[st].entry_size as nat,
                ) {
                    Err(BinError::SymtabTruncated)
                } else {
                    Ok(
                        (
                            o,
                            d,
                            func_symbols(
                                img.symbols@,
                                secs[st].content@,
                                secs[st].entry_size as nat,
                                secs[sr].file_offset as nat,
                                dbg_offs,
                                dbg,
                                img.symbols@.len() as int,
                            ),
                            (
                                section_offset(secs, ".data"@),
                                secs[sr].file_offset,
                                section_offset(secs, ".text"@),
                            ),
                            img.size,
                        ),
                    )
                },
            }
        },
        _ => Err(BinError::MissingSection),
    }
}

/// The entry of function symbol `sym`, the `i`-th of the table; `None`
/// when its entry lies beyond the end of `.symtab`.
fn symbol_entry(
    sym: &ElfSymbol,
    symtab: &[u8],
    entsize: u64,
    i: usize,
    strtab_offs: u64,
    dbg_offs: u64,
    dbg: &[u8],
    spans: &Vec<(usize, usize)>,
) -> (r: Option<NamedSymbol>)
    requires
        strtab_offs <= 0x8000_0000_0000_0000u64,
        dbg_offs + dbg@.len() <= 0x8000_0000_0000_0000u64,
        spans_view(spans@) == null_spans(dbg@, dbg@.len() as int),
        forall|k: int|
            0 <= k < spans@.len() ==> (#[trigger] spans@[k]).0 <= spans@[k].1 <= dbg@.len(),
    ensures
        r is None <==> entsize * i + 4 > symtab@.len(),
        r matches Some(e) ==> e.model() == (
            sym.name@,
            sym.value,
            seq![(strtab_offs + le32(symtab@, entsize * i)) as u64] + debug_offs_of(
                dbg_offs,
                dbg@,
                sym.name@,
            ),
        ),
{
    assert((entsize as int) * (i as int) <= 0xffff_ffff_ffff_ffff * 0xffff_ffff_ffff_ffff)
        by (nonlinear_arith)
        requires entsize <= 0xffff_ffff_ffff_ffffu64, i <= 0xffff_ffff_ffff_ffffu64;
    let pos: u128 = (entsize as u128) * (i as u128);
    if pos + 4 > symtab.len() as u128 {
        return None;
    }
    let p = pos as usize;
    let rel = read_u32_le(symtab, p);
    let mut offs: Vec<u64> = Vec::new();
    offs.push(strtab_offs + rel as u64);
    match find_debug_str(dbg, spans, sym.name.as_slice()) {
        Some(k) => {
            proof {
                assert(spans_view(spans@)[k as int] == (spans@[k as int].0 as int, spans@[
                k as int].1 as int));
            }
            offs.push(dbg_offs + spans[k].0 as u64);
        },
        None => {},
    }
    let e = NamedSymbol { name: sym.name.clone(), info: SymbolInfo { addr: sym.value, offs } };
    assert(e.model().2 =~= seq![(strtab_offs + le32(symtab@, entsize * i)) as u64]
        + debug_offs_of(dbg_offs, dbg@, sym.name@));
    Some(e)
}

/// The entries of the function symbols of `syms`, or `None` when one of
/// them lies beyond the end of `.symtab`.
fn collect_symbols(
    syms: &Vec<ElfSymbol>,
    symtab: &[u8],
    entsize: u64,
    strtab_offs: u64,
    dbg_offs: u64,
    dbg: &[u8],
    spans: &Vec<(usize, usize)>,
) -> (r: Option<Vec<NamedSymbol>>)
    requires
        strtab_offs <= 0x8000_0000_0000_0000u64,
        dbg_offs + dbg@.len() <= 0x8000_0000_0000_0000u64,
        spans_view(spans@) == null_spans(dbg@, dbg@.len() as int),
        forall|k: int|
            0 <= k < spans@.len() ==> (#[trigger] spans@[k]).0 <= spans@[k].1 <= dbg@.len(),
    ensures
        r is None <==> !symtab_covers(syms@, symtab@.len(), entsize as nat),
        r matches Some(v) ==> v@.map_values(|e: NamedSymbol| e.model()) == func_symbols(
            syms@,
            symtab@,
            entsize as nat,
            strtab_offs as nat,
            dbg_offs,
            dbg@,
            syms@.len() as int,
        ),
{
    let mut name_to_info: Vec<NamedSymbol> = Vec::new();
    let mut i: usize = 0;
    while i < syms.len()
        invariant
            i <= syms@.len(),
            strtab_offs <= 0x8000_0000_0000_0000u64,
            spans_view(spans@) == null_spans(dbg@, dbg@.len() as int),
            forall|k: int|
                0 <= k < spans@.len() ==> (#[trigger] spans@[k]).0 <= spans@[k].1 <= dbg@.len(),
            dbg_offs + dbg@.len() <= 0x8000_0000_0000_0000u64,
            forall|j: int|
                0 <= j < i && (#[trigger] syms@[j]).is_func ==> entsize * j + 4 <= symtab@.len(),
            name_to_info@.map_values(|e: NamedSymbol| e.model()) =~= func_symbols(
                syms@,
                symtab@,
                entsize as nat,
                strtab_offs as nat,
                dbg_offs,
                dbg@,
                i as int,
            ),
        decreases syms@.len() - i,
    {
        let sym = &syms[i];
        if sym.is_func {
            match symbol_entry(sym, symtab, entsize, i, strtab_offs, dbg_offs, dbg, spans) {
                None => {
                    proof {
                        assert(syms@[i as int].is_func);
                    }
                    return None;
                },
                Some(e) => {
                    let ghost before = name_to_info@;
                    name_to_info.push(e);
                    proof {
                        assert(name_to_info@.map_values(|e: NamedSymbol| e.model())
                            =~= before.map_values(|e: NamedSymbol| e.model()).push(e.model()));
                    }
                },
            }
        }
        i = i + 1;
    }
    Some(name_to_info)
}

/// Inspects a linked binary: the offsets of its main sections, its
/// build-id descriptor, and for each function symbol its address and the
/// file offsets of its name.
pub fn parse_bin(image: &ElfImage) -> (r: Result<BinInfo, BinError>)
    requires
        image.wf(),
    ensures
        match bin_spec(*image) {
            Ok(m) => r matches Ok(b) && b.model() == m,
            Err(e) => r matches Err(e2) && e2 == e,
        },
{
    let secs = &image.sections;
    let st = match section_by_name(secs, ".symtab") {
        Some(k) => k,
        None => return Err(BinError::MissingSection),
    };
    let sr = match section_by_name(secs, ".strtab") {
        Some(k) => k,
        None => return Err(BinError::MissingSection),
    };
    let section_offs = SectionOffsets {
        data: section_offset_or_zero(secs, ".data"),
        strtab: secs[sr].file_offset,
        text: section_offset_or_zero(secs, ".text"),
    };
    let (build_id_desc_offs, build_id_desc) = match section_by_name(secs, ".note.gnu.build-id") {
        None => (0u64, Vec::new()),
        Some(b) => {
            if !secs[b].is_note {
                return Err(BinError::BuildIdNotNote);
            }
            match parse_build_id(secs[b].file_offset, &secs[b].content) {
                Ok(p) => p,
                Err(e) => return Err(e),
            }
        },
    };
    let empty: Vec<u8> = Vec::new();
    let (dbg_offs, dbg) = match section_by_name(secs, ".debug_str") {
        Some(d) => (secs[d].file_offset, &secs[d].content),
        None => (0u64, &empty),
    };
    let spans = parse_debug_str(dbg);
    proof {
        lemma_spans_in_bounds(dbg@, dbg@.len() as int);
        assert forall|k: int| 0 <= k < spans@.len() implies (#[trigger] spans@[k]).0
            <= spans@[k].1 <= dbg@.len() by {
            assert(spans_view(spans@)[k] == (spans@[k].0 as int, spans@[k].1 as int));
        }
    }
    let name_to_info = match collect_symbols(
        &image.symbols,
        secs[st].content.as_slice(),
        secs[st].entry_size,
        secs[sr].file_offset,
        dbg_offs,
        dbg.as_slice(),
        &spans,
    ) {
        Some(v) => v,
        None => return Err(BinError::SymtabTruncated),
    };
    Ok(BinInfo { build_id_desc_offs, build_id_desc, name_to_info, section_offs, size: image.size })
}

} // verus!
