//! In-place patching of a binary image: symbol names replaced by frame
//! lines, build-id descriptor copied.

use crate::elf::{BinError, NamedSymbol, SymbolModel};
use crate::names::FrameInfo;
use vstd::prelude::*;
use vstd::utf8::encode_utf8;

verus! {

/// A write of `bytes` at file offset `offs`.
pub struct Patch {
    pub offs: u64,
    pub bytes: Vec<u8>,
}

impl Patch {
    pub open spec fn model(&self) -> (u64, Seq<u8>) {
        (self.offs, self.bytes@)
    }
}

/// `image` with `t` written over it at `offs`; its length is unchanged.
pub open spec fn patched(image: Seq<u8>, offs: int, t: Seq<u8>) -> Seq<u8> {
    image.subrange(0, offs) + t + image.subrange(offs + t.len(), image.len() as int)
}

/// Writes `bytes` over `image` at `offs`, without changing its length;
/// fails when the bytes would reach past its end.
pub fn apply_patch(image: &mut Vec<u8>, offs: u64, bytes: &[u8]) -> (r: Result<(), BinError>)
    ensures
        r is Ok <==> offs + bytes@.len() <= old(image)@.len(),
        r is Ok ==> final(image)@ == patched(old(image)@, offs as int, bytes@),
        r is Err ==> r == Err::<(), BinError>(BinError::PatchOutOfRange) && final(image)@ == old(
            image,
        )@,
{
    let len = image.len();
    if offs > len as u64 || bytes.len() as u64 > len as u64 - offs {
        return Err(BinError::PatchOutOfRange);
    }
    let start = offs as usize;
    let mut k: usize = 0;
    while k < bytes.len()
        invariant
            start + bytes@.len() <= len,
            len == image@.len(),
            len == old(image)@.len(),
            k <= bytes@.len(),
            image@ =~= patched(old(image)@, start as int, bytes@.subrange(0, k as int)),
        decreases bytes@.len() - k,
    {
        let ghost prev = image@;
        image.set(start + k, bytes[k]);
        proof {
            let t0 = bytes@.subrange(0, k as int);
            let t1 = bytes@.subrange(0, k + 1);
            let o = old(image)@;
            assert(t1.len() == k + 1);
            assert(patched(o, start as int, t1).len() == len);
            assert(patched(o, start as int, t0).len() == len);
            assert forall|j: int| 0 <= j < len implies #[trigger] image@[j] == patched(
                o,
                start as int,
                t1,
            )[j] by {
                if j < start {
                    assert(prev[j] == patched(o, start as int, t0)[j]);
                } else if j < start + k {
                    assert(prev[j] == patched(o, start as int, t0)[j]);
                    assert(t0[j - start] == t1[j - start]);
                } else if j == start + k {
                } else {
                    assert(prev[j] == patched(o, start as int, t0)[j]);
                }
            }
            assert(image@ =~= patched(o, start as int, t1));
        }
        k = k + 1;
    }
    assert(bytes@.subrange(0, bytes@.len() as int) =~= bytes@);
    Ok(())
}

/// Writing text `t` over a name of `name_len` bytes at `offs`, then
/// reading those `name_len` bytes back, gives `t` followed by the name's
/// remaining original bytes.
pub proof fn lemma_patch_round_trip(image: Seq<u8>, offs: int, t: Seq<u8>, name_len: int)
    requires
        0 <= offs,
        t.len() <= name_len,
        offs + name_len <= image.len(),
    ensures
        patched(image, offs, t).subrange(offs, offs + name_len) == t + image.subrange(
            offs + t.len(),
            offs + name_len,
        ),
        patched(image, offs, t).len() == image.len(),
{
    assert(patched(image, offs, t).subrange(offs, offs + name_len) =~= t + image.subrange(
        offs + t.len(),
        offs + name_len,
    ));
}

/// Copying a build-id descriptor into an image leaves exactly those bytes
/// at the target offset, and the rest of the image as it was.
pub proof fn lemma_build_id_copied(image: Seq<u8>, offs: int, desc: Seq<u8>)
    requires
        0 <= offs,
        offs + desc.len() <= image.len(),
    ensures
        patched(image, offs, desc).subrange(offs, offs + desc.len()) == desc,
        forall|j: int|
            0 <= j < image.len() && !(offs <= j < offs + desc.len()) ==> #[trigger] patched(
                image,
                offs,
                desc,
            )[j] == image[j],
{
    assert(patched(image, offs, desc).subrange(offs, offs + desc.len()) =~= desc);
}

/// Writes the build-id descriptor `desc` at `offs` of a shadow binary.
pub fn patch_build_id(image: &mut Vec<u8>, offs: u64, desc: &Vec<u8>) -> (r: Result<(), BinError>)
    ensures
        r is Ok <==> offs + desc@.len() <= old(image)@.len(),
        r is Ok ==> final(image)@ == patched(old(image)@, offs as int, desc@),
        r is Err ==> final(image)@ == old(image)@,
{
    apply_patch(image, offs, desc.as_slice())
}

/// Writes each patch in turn; stops at the first that does not fit.
pub fn apply_patches(image: &mut Vec<u8>, patches: &Vec<Patch>) -> (r: Result<(), BinError>)
    ensures
        r is Ok ==> final(image)@ == patched_all(
            old(image)@,
            patches@.map_values(|p: Patch| p.model()),
        ),
        r is Ok <==> fits_all(old(image)@.len(), patches@.map_values(|p: Patch| p.model())),
{
    let ghost ps = patches@.map_values(|p: Patch| p.model());
    let mut k: usize = 0;
    while k < patches.len()
        invariant
            k <= patches@.len(),
            ps == patches@.map_values(|p: Patch| p.model()),
            image@.len() == old(image)@.len(),
            fits_all(old(image)@.len(), ps.subrange(0, k as int)),
            image@ == patched_all(old(image)@, ps.subrange(0, k as int)),
        decreases patches@.len() - k,
    {
        let p = &patches[k];
        let r = apply_patch(image, p.offs, p.bytes.as_slice());
        assert(ps.subrange(0, k + 1).drop_last() =~= ps.subrange(0, k as int));
        if r.is_err() {
            proof {
                lemma_fits_prefix(old(image)@.len(), ps, k + 1);
            }
            return r;
        }
        k = k + 1;
    }
    assert(ps.subrange(0, k as int) =~= ps);
    Ok(())
}

/// Every patch of `ps` lies within an image of `len` bytes.
pub open spec fn fits_all(len: nat, ps: Seq<(u64, Seq<u8>)>) -> bool {
    forall|k: int| 0 <= k < ps.len() ==> (#[trigger] ps[k]).0 + ps[k].1.len() <= len
}

/// `image` after the patches of `ps`, in order.
pub open spec fn patched_all(image: Seq<u8>, ps: Seq<(u64, Seq<u8>)>) -> Seq<u8>
    decreases ps.len(),
{
    if ps.len() == 0 {
        image
    } else {
        patched(patched_all(image, ps.drop_last()), ps.last().0 as int, ps.last().1)
    }
}

proof fn lemma_patched_index(image: Seq<u8>, offs: int, t: Seq<u8>, q: int)
    requires
        0 <= offs,
        offs + t.len() <= image.len(),
        0 <= q < image.len(),
    ensures
        patched(image, offs, t).len() == image.len(),
        patched(image, offs, t)[q] == if offs <= q < offs + t.len() {
            t[q - offs]
        } else {
            image[q]
        },
{
}

/// The ranges of two writes do not overlap.
pub open spec fn disjoint(a: (u64, Seq<u8>), b: (u64, Seq<u8>)) -> bool {
    a.0 + a.1.len() <= b.0 || b.0 + b.1.len() <= a.0
}

/// Whether byte `q` lies in the range of write `p`.
pub open spec fn covers(p: (u64, Seq<u8>), q: int) -> bool {
    p.0 <= q < p.0 + p.1.len()
}

/// After writes that fit in the image and do not overlap, in any order,
/// each write's range holds exactly its bytes, every byte outside all the
/// ranges is as before, and the length is unchanged.
pub proof fn lemma_disjoint_patches(image: Seq<u8>, ps: Seq<(u64, Seq<u8>)>)
    requires
        fits_all(image.len(), ps),
        forall|a: int, b: int| 0 <= a < b < ps.len() ==> disjoint(#[trigger] ps[a], #[trigger] ps[b]),
    ensures
        patched_all(image, ps).len() == image.len(),
        forall|k: int, j: int|
            0 <= k < ps.len() && 0 <= j < ps[k].1.len() ==> #[trigger] patched_all(image, ps)[ps[k].0
                + j] == #[trigger] ps[k].1[j],
        forall|q: int|
            0 <= q < image.len() && (forall|k: int| 0 <= k < ps.len() ==> !covers(#[trigger] ps[k], q))
                ==> #[trigger] patched_all(image, ps)[q] == image[q],
    decreases ps.len(),
{
    if ps.len() > 0 {
        let init = ps.drop_last();
        let last = ps.last();
        let n = ps.len() - 1;
        assert forall|a: int, b: int| 0 <= a < b < init.len() implies disjoint(
            #[trigger] init[a],
            #[trigger] init[b],
        ) by {
            assert(init[a] == ps[a] && init[b] == ps[b]);
        }
        assert(fits_all(image.len(), init)) by {
            assert forall|k: int| 0 <= k < init.len() implies (#[trigger] init[k]).0 + init[k].1.len()
                <= image.len() by {
                assert(init[k] == ps[k]);
            }
        }
        lemma_disjoint_patches(image, init);
        let prev = patched_all(image, init);
        assert(ps[n] == last);
        assert(last.0 + last.1.len() <= image.len());
        assert forall|k: int, j: int| 0 <= k < ps.len() && 0 <= j < ps[k].1.len() implies
            #[trigger] patched_all(image, ps)[ps[k].0 + j] == #[trigger] ps[k].1[j] by {
            let q = ps[k].0 + j;
            assert(ps[k].0 + ps[k].1.len() <= image.len());
            lemma_patched_index(prev, last.0 as int, last.1, q);
            if k < n {
                assert(disjoint(ps[k], ps[n]));
                assert(init[k] == ps[k]);
                assert(prev[init[k].0 + j] == init[k].1[j]);
            }
        }
        assert forall|q: int|
            0 <= q < image.len() && (forall|k: int| 0 <= k < ps.len() ==> !covers(#[trigger] ps[k], q))
                implies #[trigger] patched_all(image, ps)[q] == image[q] by {
            assert(!covers(ps[n], q));
            lemma_patched_index(prev, last.0 as int, last.1, q);
            assert forall|k: int| 0 <= k < init.len() implies !covers(#[trigger] init[k], q) by {
                assert(init[k] == ps[k]);
                assert(!covers(ps[k], q));
            }
        }
    }
}

proof fn lemma_fits_prefix(len: nat, ps: Seq<(u64, Seq<u8>)>, n: int)
    requires
        0 < n <= ps.len(),
        ps[n - 1].0 + ps[n - 1].1.len() > len,
    ensures
        !fits_all(len, ps),
{
}

/// The index of the last symbol of `syms` named `name`.
pub open spec fn last_symbol(syms: Seq<SymbolModel>, name: Seq<u8>) -> Option<int>
    decreases syms.len(),
{
    if syms.len() == 0 {
        None
    } else if syms.last().0 == name {
        Some(syms.len() - 1)
    } else {
        last_symbol(syms.drop_last(), name)
    }
}

/// Finds the symbol named `name`; of several, the last.
pub fn lookup_symbol(syms: &Vec<NamedSymbol>, name: &[u8]) -> (r: Option<usize>)
    ensures
        r matches Some(k) ==> k < syms@.len(),
        r matches Some(k) ==> last_symbol(syms@.map_values(|e: NamedSymbol| e.model()), name@)
            == Some(k as int),
        r is None ==> last_symbol(syms@.map_values(|e: NamedSymbol| e.model()), name@) is None,
{
    let ghost all = syms@.map_values(|e: NamedSymbol| e.model());
    let mut n = syms.len();
    assert(all.subrange(0, n as int) =~= all);
    while n > 0
        invariant
            n <= syms@.len(),
            all == syms@.map_values(|e: NamedSymbol| e.model()),
            last_symbol(all, name@) == last_symbol(all.subrange(0, n as int), name@),
        decreases n,
    {
        assert(all.subrange(0, n as int).drop_last() =~= all.subrange(0, n - 1));
        if bytes_eq(syms[n - 1].name.as_slice(), name) {
            return Some(n - 1);
        }
        n = n - 1;
    }
    None
}

fn bytes_eq(a: &[u8], b: &[u8]) -> (r: bool)
    ensures
        r == (a@ == b@),
{
    if a.len() != b.len() {
        return false;
    }
    let mut k: usize = 0;
    while k < a.len()
        invariant
            a@.len() == b@.len(),
            k <= a@.len(),
            forall|j: int| 0 <= j < k ==> a@[j] == b@[j],
        decreases a@.len() - k,
    {
        if a[k] != b[k] {
            return false;
        }
        k = k + 1;
    }
    assert(a@ =~= b@);
    true
}

/// The renames of frame `fr`'s first `k` names: (temporary name, text).
pub open spec fn frame_renames(fr: FrameInfo, k: int) -> Seq<(Seq<char>, Seq<char>)>
    decreases k,
{
    if k <= 0 {
        seq![]
    } else {
        frame_renames(fr, k - 1).push((fr.tmp_names@[k - 1]@, fr.framelines@[k - 1]@))
    }
}

/// The renames of the first `n` frames, frame by frame.
pub open spec fn all_renames(frames: Seq<FrameInfo>, n: int) -> Seq<(Seq<char>, Seq<char>)>
    decreases n,
{
    if n <= 0 {
        seq![]
    } else {
        all_renames(frames, n - 1) + frame_renames(frames[n - 1], frames[n - 1].tmp_names@.len() as int)
    }
}

/// The patches that rename `name` to `text`: one per stored copy of the
/// name; `None` when the name is not a symbol.
pub open spec fn rename_patches(syms: Seq<SymbolModel>, name: Seq<char>, text: Seq<char>) -> Option<
    Seq<(u64, Seq<u8>)>,
> {
    match last_symbol(syms, encode_utf8(name)) {
        None => None,
        Some(i) => Some(syms[i].2.map_values(|o: u64| (o, encode_utf8(text)))),
    }
}

/// The patches of all renames of `rs`, in order; `None` when a name is not
/// a symbol.
pub open spec fn rename_plan(syms: Seq<SymbolModel>, rs: Seq<(Seq<char>, Seq<char>)>) -> Option<
    Seq<(u64, Seq<u8>)>,
>
    decreases rs.len(),
{
    if rs.len() == 0 {
        Some(seq![])
    } else {
        match (rename_plan(syms, rs.drop_last()), rename_patches(syms, rs.last().0, rs.last().1)) {
            (Some(a), Some(b)) => Some(a + b),
            _ => None,
        }
    }
}

proof fn lemma_plan_none_extends(
    syms: Seq<SymbolModel>,
    s: Seq<(Seq<char>, Seq<char>)>,
    t: Seq<(Seq<char>, Seq<char>)>,
)
    requires
        rename_plan(syms, s) is None,
    ensures
        rename_plan(syms, s + t) is None,
    decreases t.len(),
{
    if t.len() == 0 {
        assert(s + t =~= s);
    } else {
        lemma_plan_none_extends(syms, s, t.drop_last());
        assert((s + t).drop_last() =~= s + t.drop_last());
    }
}

/// Appends the patches that rename `name` to `text`.
fn push_rename(
    syms: &Vec<NamedSymbol>,
    name: &String,
    text: &String,
    out: &mut Vec<Patch>,
) -> (r: Result<(), BinError>)
    ensures
        match rename_patches(syms@.map_values(|e: NamedSymbol| e.model()), name@, text@) {
            Some(b) => r is Ok && final(out)@.map_values(|p: Patch| p.model()) == old(
                out,
            )@.map_values(|p: Patch| p.model()) + b,
            None => r == Err::<(), BinError>(BinError::UnresolvedSymbol),
        },
{
    let k = match lookup_symbol(syms, name.as_str().as_bytes()) {
        Some(k) => k,
        None => return Err(BinError::UnresolvedSymbol),
    };
    let offs = &syms[k].info.offs;
    let ghost start = old(out)@.map_values(|p: Patch| p.model());
    let ghost want = syms@[k as int].info.offs@.map_values(
        |o: u64| (o, encode_utf8(text@)),
    );
    let mut j: usize = 0;
    while j < offs.len()
        invariant
            j <= offs@.len(),
            offs@ == syms@[k as int].info.offs@,
            want == offs@.map_values(|o: u64| (o, encode_utf8(text@))),
            out@.map_values(|p: Patch| p.model()) =~= start + want.subrange(0, j as int),
        decreases offs@.len() - j,
    {
        let bytes = slice_to_vec_u8(text.as_str().as_bytes());
        assert(bytes@ == encode_utf8(text@));
        let ghost out_before = out@;
        out.push(Patch { offs: offs[j], bytes });
        assert(out@.map_values(|p: Patch| p.model()) =~= out_before.map_values(|p: Patch| p.model()).push(
            (offs@[j as int], encode_utf8(text@)),
        ));
        assert(want.subrange(0, j + 1) =~= want.subrange(0, j as int).push(want[j as int]));
        j = j + 1;
    }
    assert(want.subrange(0, j as int) =~= want);
    Ok(())
}

fn slice_to_vec_u8(s: &[u8]) -> (r: Vec<u8>)
    ensures
        r@ == s@,
{
    let mut v: Vec<u8> = Vec::new();
    let mut k: usize = 0;
    while k < s.len()
        invariant
            k <= s@.len(),
            v@ =~= s@.subrange(0, k as int),
        decreases s@.len() - k,
    {
        v.push(s[k]);
        k = k + 1;
    }
    v
}

/// The writes that rename every temporary name of every frame to its frame
/// line, at every file offset where the name is stored, followed by those
/// that rename the entry symbol `start_tmp_name` to `start_name`. Fails
/// when one of these names is not a symbol.
pub fn patch_syms(
    name_to_info: &Vec<NamedSymbol>,
    frame_infos: &Vec<FrameInfo>,
    start_tmp_name: &String,
    start_name: &String,
) -> (r: Result<Vec<Patch>, BinError>)
    requires
        forall|f: int| 0 <= f < frame_infos@.len() ==> (#[trigger] frame_infos@[f]).wf(),
    ensures
        match rename_plan(
            name_to_info@.map_values(|e: NamedSymbol| e.model()),
            all_renames(frame_infos@, frame_infos@.len() as int).push(
                (start_tmp_name@, start_name@),
            ),
        ) {
            Some(ps) => r matches Ok(v) && v@.map_values(|p: Patch| p.model()) == ps,
            None => r == Err::<Vec<Patch>, BinError>(BinError::UnresolvedSymbol),
        },
{
    let ghost syms = name_to_info@.map_values(|e: NamedSymbol| e.model());
    let ghost target = all_renames(frame_infos@, frame_infos@.len() as int).push(
        (start_tmp_name@, start_name@),
    );
    let mut out: Vec<Patch> = Vec::new();
    let mut f: usize = 0;
    while f < frame_infos.len()
        invariant
            f <= frame_infos@.len(),
            forall|g: int| 0 <= g < frame_infos@.len() ==> (#[trigger] frame_infos@[g]).wf(),
            syms == name_to_info@.map_values(|e: NamedSymbol| e.model()),
            rename_plan(syms, all_renames(frame_infos@, f as int)) == Some(
                out@.map_values(|p: Patch| p.model()),
            ),
            target == all_renames(frame_infos@, frame_infos@.len() as int).push(
                (start_tmp_name@, start_name@),
            ),
        decreases frame_infos@.len() - f,
    {
        let fr = &frame_infos[f];
        let ghost before = all_renames(frame_infos@, f as int);
        let mut k: usize = 0;
        while k < fr.tmp_names.len()
            invariant
                k <= fr.tmp_names@.len(),
                fr.wf(),
                *fr == frame_infos@[f as int],
                f < frame_infos@.len(),
                syms == name_to_info@.map_values(|e: NamedSymbol| e.model()),
                before == all_renames(frame_infos@, f as int),
                rename_plan(syms, before + frame_renames(*fr, k as int)) == Some(
                    out@.map_values(|p: Patch| p.model()),
                ),
                target == all_renames(frame_infos@, frame_infos@.len() as int).push(
                    (start_tmp_name@, start_name@),
                ),
            decreases fr.tmp_names@.len() - k,
        {
            let ghost cur = before + frame_renames(*fr, k as int);
            let ghost next = before + frame_renames(*fr, k + 1);
            assert(next.drop_last() =~= cur);
            let r = push_rename(name_to_info, &fr.tmp_names[k], &fr.framelines[k], &mut out);
            if r.is_err() {
                proof {
                    lemma_all_renames_prefix(frame_infos@, f as int, k + 1);
                    lemma_plan_none_extends(syms, next, target.subrange(next.len() as int, target.len() as int));
                    assert(next + target.subrange(next.len() as int, target.len() as int) =~= target);
                }
                return Err(BinError::UnresolvedSymbol);
            }
            k = k + 1;
        }
        assert(before + frame_renames(*fr, k as int) =~= all_renames(frame_infos@, f + 1));
        f = f + 1;
    }
    assert(target.drop_last() =~= all_renames(frame_infos@, f as int));
    let r = push_rename(name_to_info, start_tmp_name, start_name, &mut out);
    if r.is_err() {
        return Err(BinError::UnresolvedSymbol);
    }
    Ok(out)
}

/// The renames of the first `f` frames and the first `k` names of frame
/// `f` are a prefix of all renames.
pub(crate) proof fn lemma_all_renames_prefix(frames: Seq<FrameInfo>, f: int, k: int)
    requires
        0 <= f < frames.len(),
        0 <= k <= frames[f].tmp_names@.len(),
    ensures
        (all_renames(frames, f) + frame_renames(frames[f], k)).len() <= all_renames(
            frames,
            frames.len() as int,
        ).len(),
        all_renames(frames, frames.len() as int).subrange(
            0,
            (all_renames(frames, f) + frame_renames(frames[f], k)).len() as int,
        ) == all_renames(frames, f) + frame_renames(frames[f], k),
{
    lemma_frame_renames_prefix(frames[f], k, frames[f].tmp_names@.len() as int);
    lemma_all_renames_grow(frames, f + 1, frames.len() as int);
    let a = all_renames(frames, f);
    let full = frame_renames(frames[f], frames[f].tmp_names@.len() as int);
    assert(all_renames(frames, f + 1) == a + full);
    assert((a + full).subrange(0, (a + frame_renames(frames[f], k)).len() as int) =~= a
        + frame_renames(frames[f], k));
    let big = all_renames(frames, frames.len() as int);
    assert(big.subrange(0, (a + frame_renames(frames[f], k)).len() as int) =~= (a + full).subrange(
        0,
        (a + frame_renames(frames[f], k)).len() as int,
    ));
}

proof fn lemma_frame_renames_prefix(fr: FrameInfo, k: int, n: int)
    requires
        0 <= k <= n,
    ensures
        frame_renames(fr, k).len() == k,
        frame_renames(fr, n).len() == n,
        frame_renames(fr, n).subrange(0, k) == frame_renames(fr, k),
    decreases n - k,
{
    if k < n {
        lemma_frame_renames_prefix(fr, k, n - 1);
        assert(frame_renames(fr, n).subrange(0, k) =~= frame_renames(fr, n - 1).subrange(0, k));
    } else {
        lemma_frame_renames_len(fr, n);
        assert(frame_renames(fr, n).subrange(0, k) =~= frame_renames(fr, k));
    }
}

proof fn lemma_frame_renames_len(fr: FrameInfo, n: int)
    requires
        0 <= n,
    ensures
        frame_renames(fr, n).len() == n,
    decreases n,
{
    if n > 0 {
        lemma_frame_renames_len(fr, n - 1);
    }
}

proof fn lemma_all_renames_grow(frames: Seq<FrameInfo>, f: int, n: int)
    requires
        0 <= f <= n <= frames.len(),
    ensures
        all_renames(frames, f).len() <= all_renames(frames, n).len(),
        all_renames(frames, n).subrange(0, all_renames(frames, f).len() as int) == all_renames(
            frames,
            f,
        ),
    decreases n - f,
{
    if f < n {
        lemma_all_renames_grow(frames, f, n - 1);
        let p = all_renames(frames, n - 1);
        assert(all_renames(frames, n).subrange(0, all_renames(frames, f).len() as int)
            =~= p.subrange(0, all_renames(frames, f).len() as int));
    } else {
        assert(all_renames(frames, n).subrange(0, all_renames(frames, f).len() as int)
            =~= all_renames(frames, f));
    }
}

} // verus!
