//! Parsing a resource section: a three-level directory tree (type,
//! identifier, language) whose leaves point at data ranges inside the
//! section. The spec functions here are the definition of the format;
//! the executable parser is proved to follow them exactly.

use vstd::prelude::*;

use crate::bytes::{le16, le32, read_u16_le, read_u32_le, copy_range};
use crate::restree::{evs, ResEntry, ResEntryV, ResourceSet};

verus! {

/// Number of named entries of the directory at `off`.
pub open spec fn dir_named(s: Seq<u8>, off: int) -> int {
    le16(s, off + 12)
}

/// Number of identified entries of the directory at `off`.
pub open spec fn dir_count(s: Seq<u8>, off: int) -> int {
    le16(s, off + 14)
}

/// Identifier of entry `i` of the directory at `off`.
pub open spec fn entry_id(s: Seq<u8>, off: int, i: int) -> int {
    le32(s, off + 16 + 8 * i)
}

/// Pointer word of entry `i` of the directory at `off`.
pub open spec fn entry_ptr(s: Seq<u8>, off: int, i: int) -> int {
    le32(s, off + 16 + 8 * i + 4)
}

/// A pointer word with its high bit set points at a subdirectory.
pub open spec fn is_subdir(p: int) -> bool {
    p >= 0x8000_0000
}

/// The subdirectory offset carried by a pointer word.
pub open spec fn subdir_off(p: int) -> int {
    p - 0x8000_0000
}

/// Virtual address a leaf's data starts at.
pub open spec fn leaf_rva(s: Seq<u8>, de: int) -> int {
    le32(s, de)
}

/// Size in bytes of a leaf's data.
pub open spec fn leaf_size(s: Seq<u8>, de: int) -> int {
    le32(s, de + 4)
}

/// Code page recorded for a leaf.
pub open spec fn leaf_cp(s: Seq<u8>, de: int) -> int {
    le32(s, de + 8)
}

/// A directory header and its entry table lie within the section, and the
/// directory carries no named entries (identified entries only).
pub open spec fn wf_dir(s: Seq<u8>, off: int) -> bool {
    &&& 0 <= off
    &&& off + 16 <= s.len()
    &&& dir_named(s, off) == 0
    &&& off + 16 + 8 * dir_count(s, off) <= s.len()
}

/// A data entry lies within the section and its data range, translated
/// from virtual addresses, lies within the section too.
pub open spec fn wf_leaf(s: Seq<u8>, va: int, de: int) -> bool {
    &&& 0 <= de
    &&& de + 16 <= s.len()
    &&& va <= leaf_rva(s, de)
    &&& leaf_rva(s, de) - va + leaf_size(s, de) <= s.len()
}

/// A language directory: every entry is a leaf, and well-formed.
pub open spec fn wf_lang_dir(s: Seq<u8>, va: int, off: int) -> bool {
    &&& wf_dir(s, off)
    &&& forall|k: int|
        0 <= k < dir_count(s, off) ==> !is_subdir(#[trigger] entry_ptr(s, off, k)) && wf_leaf(
            s,
            va,
            entry_ptr(s, off, k),
        )
}

/// An identifier directory: every entry points at a language directory.
pub open spec fn wf_name_dir(s: Seq<u8>, va: int, off: int) -> bool {
    &&& wf_dir(s, off)
    &&& forall|j: int|
        0 <= j < dir_count(s, off) ==> is_subdir(#[trigger] entry_ptr(s, off, j)) && wf_lang_dir(
            s,
            va,
            subdir_off(entry_ptr(s, off, j)),
        )
}

/// A whole resource section: a root directory of types, each pointing at
/// an identifier directory.
pub open spec fn wf_section(s: Seq<u8>, va: int) -> bool {
    &&& wf_dir(s, 0)
    &&& forall|i: int|
        0 <= i < dir_count(s, 0) ==> is_subdir(#[trigger] entry_ptr(s, 0, i)) && wf_name_dir(
            s,
            va,
            subdir_off(entry_ptr(s, 0, i)),
        )
}

/// The model entry described by leaf `k` of the language directory at
/// `loff`, under type `t` and identifier `n`.
pub open spec fn leaf_entry(s: Seq<u8>, va: int, t: u32, n: u32, loff: int, k: int) -> ResEntryV {
    let de = entry_ptr(s, loff, k);
    ResEntryV {
        type_id: t,
        name_id: n,
        lang_id: entry_id(s, loff, k) as u32,
        codepage: leaf_cp(s, de) as u32,
        data: s.subrange(leaf_rva(s, de) - va, leaf_rva(s, de) - va + leaf_size(s, de)),
    }
}

/// All leaves of one language directory, in table order.
pub open spec fn lang_flat(s: Seq<u8>, va: int, t: u32, n: u32, loff: int) -> Seq<ResEntryV> {
    Seq::new(dir_count(s, loff) as nat, |k: int| leaf_entry(s, va, t, n, loff, k))
}

/// The leaves of the first `j` entries of the identifier directory at
/// `noff`, flattened in tree order.
pub open spec fn name_flat_upto(s: Seq<u8>, va: int, t: u32, noff: int, j: int) -> Seq<ResEntryV>
    decreases j,
{
    if j <= 0 {
        Seq::empty()
    } else {
        name_flat_upto(s, va, t, noff, j - 1) + lang_flat(
            s,
            va,
            t,
            entry_id(s, noff, j - 1) as u32,
            subdir_off(entry_ptr(s, noff, j - 1)),
        )
    }
}

/// All leaves below one identifier directory.
pub open spec fn name_flat(s: Seq<u8>, va: int, t: u32, noff: int) -> Seq<ResEntryV> {
    name_flat_upto(s, va, t, noff, dir_count(s, noff))
}

/// The leaves of the first `i` types of the root directory, flattened.
pub open spec fn root_flat_upto(s: Seq<u8>, va: int, i: int) -> Seq<ResEntryV>
    decreases i,
{
    if i <= 0 {
        Seq::empty()
    } else {
        root_flat_upto(s, va, i - 1) + name_flat(
            s,
            va,
            entry_id(s, 0, i - 1) as u32,
            subdir_off(entry_ptr(s, 0, i - 1)),
        )
    }
}

/// Every resource of the section, in tree order.
pub open spec fn sec_entries(s: Seq<u8>, va: int) -> Seq<ResEntryV> {
    root_flat_upto(s, va, dir_count(s, 0))
}

/// Validates the directory header at `off` and returns its entry count.
fn check_dir(s: &Vec<u8>, off: u64) -> (r: Option<u16>)
    requires
        off <= 0x8000_0000u64,
    ensures
        match r {
            Some(c) => wf_dir(s@, off as int) && c == dir_count(s@, off as int),
            None => !wf_dir(s@, off as int),
        },
{
    let n = s.len();
    if off + 16 > n as u64 {
        return None;
    }
    let named = read_u16_le(s, (off + 12) as usize);
    let cnt = read_u16_le(s, (off + 14) as usize);
    if named != 0 {
        return None;
    }
    if off + 16 + 8 * (cnt as u64) > n as u64 {
        return None;
    }
    Some(cnt)
}

/// Parses one language directory, appending its leaves for type `t`,
/// identifier `n`.
#[verifier::loop_isolation(false)]
fn parse_lang_dir(s: &Vec<u8>, va: u32, t: u32, n: u32, loff: u64, acc: &mut Vec<ResEntry>) -> (r:
    Result<(), ()>)
    requires
        loff <= 0x8000_0000u64,
    ensures
        match r {
            Ok(()) => wf_lang_dir(s@, va as int, loff as int) && evs(final(acc)@) == evs(
                old(acc)@,
            ) + lang_flat(s@, va as int, t, n, loff as int),
            Err(()) => !wf_lang_dir(s@, va as int, loff as int),
        },
{
    let cnt = match check_dir(s, loff) {
        Some(c) => c,
        None => {
            return Err(());
        },
    };
    let nb = s.len();
    let mut k: usize = 0;
    while k < cnt as usize
        invariant
            k <= cnt as usize,
            acc@.len() == old(acc)@.len() + k,
            evs(acc@) == evs(old(acc)@) + lang_flat(s@, va as int, t, n, loff as int).subrange(
                0,
                k as int,
            ),
            forall|x: int|
                0 <= x < k ==> !is_subdir(#[trigger] entry_ptr(s@, loff as int, x)) && wf_leaf(
                    s@,
                    va as int,
                    entry_ptr(s@, loff as int, x),
                ),
        decreases cnt as int - k,
    {
        let eoff: u64 = loff + 16 + 8 * (k as u64);
        let lid = read_u32_le(s, eoff as usize);
        let ptr = read_u32_le(s, (eoff + 4) as usize);
        if ptr >= 0x8000_0000u32 {
            proof {
                assert(is_subdir(entry_ptr(s@, loff as int, k as int)));
            }
            return Err(());
        }
        let de: u64 = ptr as u64;
        if de + 16 > nb as u64 {
            proof {
                assert(!wf_leaf(s@, va as int, entry_ptr(s@, loff as int, k as int)));
            }
            return Err(());
        }
        let rva = read_u32_le(s, de as usize);
        let size = read_u32_le(s, (de + 4) as usize);
        let cp = read_u32_le(s, (de + 8) as usize);
        if rva < va || (rva - va) as u64 + size as u64 > nb as u64 {
            proof {
                assert(!wf_leaf(s@, va as int, entry_ptr(s@, loff as int, k as int)));
            }
            return Err(());
        }
        let start: usize = (rva - va) as usize;
        let data = copy_range(s, start, start + size as usize);
        let e = ResEntry { type_id: t, name_id: n, lang_id: lid, codepage: cp, data };
        proof {
            assert(e@ == leaf_entry(s@, va as int, t, n, loff as int, k as int));
            assert(lang_flat(s@, va as int, t, n, loff as int)[k as int] == leaf_entry(
                s@,
                va as int,
                t,
                n,
                loff as int,
                k as int,
            ));
        }
        let ghost prev = acc@;
        acc.push(e);
        proof {
            crate::restree::lemma_evs_push(prev, e);
            assert(evs(acc@) =~= evs(old(acc)@) + lang_flat(
                s@,
                va as int,
                t,
                n,
                loff as int,
            ).subrange(0, k + 1));
        }
        k = k + 1;
    }
    proof {
        assert(evs(acc@) =~= evs(old(acc)@) + lang_flat(s@, va as int, t, n, loff as int));
    }
    Ok(())
}

/// Parses one identifier directory of type `t`, appending every leaf
/// below it.
#[verifier::loop_isolation(false)]
fn parse_name_dir(s: &Vec<u8>, va: u32, t: u32, noff: u64, acc: &mut Vec<ResEntry>) -> (r: Result<
    (),
    (),
>)
    requires
        noff <= 0x8000_0000u64,
    ensures
        match r {
            Ok(()) => wf_name_dir(s@, va as int, noff as int) && evs(final(acc)@) == evs(
                old(acc)@,
            ) + name_flat(s@, va as int, t, noff as int),
            Err(()) => !wf_name_dir(s@, va as int, noff as int),
        },
{
    let cnt = match check_dir(s, noff) {
        Some(c) => c,
        None => {
            return Err(());
        },
    };
    let mut j: usize = 0;
    while j < cnt as usize
        invariant
            j <= cnt as usize,
            evs(acc@) == evs(old(acc)@) + name_flat_upto(s@, va as int, t, noff as int, j as int),
            forall|x: int|
                0 <= x < j ==> is_subdir(#[trigger] entry_ptr(s@, noff as int, x)) && wf_lang_dir(
                    s@,
                    va as int,
                    subdir_off(entry_ptr(s@, noff as int, x)),
                ),
        decreases cnt as int - j,
    {
        let eoff: u64 = noff + 16 + 8 * (j as u64);
        let nid = read_u32_le(s, eoff as usize);
        let ptr = read_u32_le(s, (eoff + 4) as usize);
        if ptr < 0x8000_0000u32 {
            proof {
                assert(!is_subdir(entry_ptr(s@, noff as int, j as int)));
            }
            return Err(());
        }
        let loff: u64 = (ptr - 0x8000_0000u32) as u64;
        proof {
            assert(loff as int == subdir_off(entry_ptr(s@, noff as int, j as int)));
        }
        match parse_lang_dir(s, va, t, nid, loff, acc) {
            Ok(()) => (),
            Err(()) => {
                return Err(());
            },
        }
        j = j + 1;
    }
    Ok(())
}

/// Parses a whole resource section into the flat entry model.
///
/// Succeeds exactly on well-formed sections, and then returns precisely
/// the section's entries in tree order.
#[verifier::loop_isolation(false)]
pub fn parse_section(s: &Vec<u8>, va: u32) -> (r: Result<ResourceSet, ()>)
    ensures
        match r {
            Ok(rs) => wf_section(s@, va as int) && rs@ == sec_entries(s@, va as int),
            Err(()) => !wf_section(s@, va as int),
        },
{
    let cnt = match check_dir(s, 0) {
        Some(c) => c,
        None => {
            return Err(());
        },
    };
    let mut acc: Vec<ResEntry> = Vec::new();
    let mut i: usize = 0;
    while i < cnt as usize
        invariant
            i <= cnt as usize,
            evs(acc@) == root_flat_upto(s@, va as int, i as int),
            forall|x: int|
                0 <= x < i ==> is_subdir(#[trigger] entry_ptr(s@, 0, x)) && wf_name_dir(
                    s@,
                    va as int,
                    subdir_off(entry_ptr(s@, 0, x)),
                ),
        decreases cnt as int - i,
    {
        let eoff: u64 = 16 + 8 * (i as u64);
        let tid = read_u32_le(s, eoff as usize);
        let ptr = read_u32_le(s, (eoff + 4) as usize);
        if ptr < 0x8000_0000u32 {
            proof {
                assert(!is_subdir(entry_ptr(s@, 0, i as int)));
            }
            return Err(());
        }
        let noff: u64 = (ptr - 0x8000_0000u32) as u64;
        proof {
            assert(noff as int == subdir_off(entry_ptr(s@, 0, i as int)));
        }
        match parse_name_dir(s, va, tid, noff, &mut acc) {
            Ok(()) => (),
            Err(()) => {
                return Err(());
            },
        }
        i = i + 1;
    }
    Ok(ResourceSet { entries: acc })
}

} // verus!
