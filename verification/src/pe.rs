//! The executable image container: locating the resource section inside
//! a portable-executable file, loading it into the flat resource model,
//! and rebuilding the file around a replacement section.

use vstd::prelude::*;

use crate::bytes::{
    copy_bytes, copy_range, append_range, append_zeroes, le16, le32, read_u16_le, read_u32_le,
    write_u32_le_at, align_up_u32, lemma_align_up_bounds,
};
use crate::patchset::{
    apply_patch_ops, patch_applied, patch_ok, patch_refused, strings_applied_seq, CommitError,
    ResourcePatchSet,
};
use crate::resbuild::build_section;
use crate::icon::{lemma_icon_group_choose, spec_icon_images};
use crate::restree::{RT_GROUP_ICON, RT_ICON, RT_RCDATA, RT_STRING};
use crate::strres::{block_ok, block_strings, decode_block, string_block_id, string_index};
use crate::resparse::{sec_entries, wf_section, parse_section};
use crate::restree::{ResEntryV, ResourceSet, tn_first_data};

verus! {

/// Offset of the PE signature, read from the DOS header.
pub open spec fn pe_off(b: Seq<u8>) -> int {
    le32(b, 0x3C)
}

/// Number of sections, from the COFF header.
pub open spec fn n_sections(b: Seq<u8>) -> int {
    le16(b, pe_off(b) + 6)
}

/// Offset of the optional header.
pub open spec fn opt_off(b: Seq<u8>) -> int {
    pe_off(b) + 24
}

/// Magic of the optional header: 0x10B for PE32, 0x20B for PE32+.
pub open spec fn opt_magic(b: Seq<u8>) -> int {
    le16(b, opt_off(b))
}

pub open spec fn is_pe32plus(b: Seq<u8>) -> bool {
    opt_magic(b) == 0x20B
}

/// Required section alignment in memory.
pub open spec fn sect_align(b: Seq<u8>) -> int {
    le32(b, opt_off(b) + 32)
}

/// Required file alignment of raw section data.
pub open spec fn file_align(b: Seq<u8>) -> int {
    le32(b, opt_off(b) + 36)
}

/// Offset of the SizeOfImage field.
pub open spec fn size_of_image_off(b: Seq<u8>) -> int {
    opt_off(b) + 56
}

/// Offset of the first data directory entry.
pub open spec fn dd_off(b: Seq<u8>) -> int {
    opt_off(b) + if is_pe32plus(b) {
        112int
    } else {
        96int
    }
}

/// Number of data directories.
pub open spec fn n_dirs(b: Seq<u8>) -> int {
    le32(b, dd_off(b) - 4)
}

/// Offset of the resource data directory entry (index 2).
pub open spec fn rsrc_dd_off(b: Seq<u8>) -> int {
    dd_off(b) + 16
}

/// Virtual address of the resource directory.
pub open spec fn rsrc_rva(b: Seq<u8>) -> int {
    le32(b, rsrc_dd_off(b))
}

/// Offset of the section table.
pub open spec fn sect_table_off(b: Seq<u8>) -> int {
    opt_off(b) + le16(b, pe_off(b) + 20)
}

/// Offset of section header `i`.
pub open spec fn sect_hdr(b: Seq<u8>, i: int) -> int {
    sect_table_off(b) + 40 * i
}

/// Virtual size of section `i`.
pub open spec fn sect_vsize(b: Seq<u8>, i: int) -> int {
    le32(b, sect_hdr(b, i) + 8)
}

/// Virtual address of section `i`.
pub open spec fn sect_va(b: Seq<u8>, i: int) -> int {
    le32(b, sect_hdr(b, i) + 12)
}

/// Raw data size of section `i`.
pub open spec fn sect_rawsz(b: Seq<u8>, i: int) -> int {
    le32(b, sect_hdr(b, i) + 16)
}

/// Raw data offset of section `i`.
pub open spec fn sect_raw(b: Seq<u8>, i: int) -> int {
    le32(b, sect_hdr(b, i) + 20)
}

/// `i` is the first section whose virtual address carries the resource
/// directory.
pub open spec fn is_rsrc_idx(b: Seq<u8>, i: int) -> bool {
    &&& 0 <= i < n_sections(b)
    &&& sect_va(b, i) == rsrc_rva(b)
    &&& forall|j: int| 0 <= j < i ==> #[trigger] sect_va(b, j) != rsrc_rva(b)
}

pub open spec fn has_rsrc(b: Seq<u8>) -> bool {
    exists|i: int| 0 <= i < n_sections(b) && sect_va(b, i) == rsrc_rva(b)
}

pub open spec fn rsrc_idx(b: Seq<u8>) -> int {
    choose|i: int| is_rsrc_idx(b, i)
}

/// The raw bytes of the resource section.
pub open spec fn section_bytes(b: Seq<u8>) -> Seq<u8> {
    b.subrange(sect_raw(b, rsrc_idx(b)), sect_raw(b, rsrc_idx(b)) + sect_rawsz(b, rsrc_idx(b)))
}

/// The fixed-position header fields are all readable and plausible.
pub open spec fn wf_headers(b: Seq<u8>) -> bool {
    &&& b.len() >= 0x40
    &&& b[0] == 0x4Du8 && b[1] == 0x5Au8
    &&& 0 <= pe_off(b)
    &&& pe_off(b) + 24 <= b.len()
    &&& b[pe_off(b)] == 0x50u8 && b[pe_off(b) + 1] == 0x45u8 && b[pe_off(b) + 2] == 0u8 && b[pe_off(
        b,
    ) + 3] == 0u8
    &&& opt_off(b) + 136 <= b.len()
    &&& (opt_magic(b) == 0x10B || opt_magic(b) == 0x20B)
    &&& n_dirs(b) >= 3
    &&& file_align(b) >= 1
    &&& sect_align(b) >= 1
    &&& n_sections(b) >= 1
    &&& sect_table_off(b) + 40 * n_sections(b) <= b.len()
}

/// The resource section's raw data lies after every header and every
/// other section, and after every other section in the address space.
pub open spec fn wf_placement(b: Seq<u8>) -> bool {
    let i = rsrc_idx(b);
    &&& sect_raw(b, i) + sect_rawsz(b, i) <= b.len()
    &&& opt_off(b) + 136 <= sect_raw(b, i)
    &&& sect_table_off(b) + 40 * n_sections(b) <= sect_raw(b, i)
    &&& forall|j: int|
        0 <= j < n_sections(b) && j != i ==> #[trigger] sect_raw(b, j) + sect_rawsz(b, j)
            <= sect_raw(b, i) && sect_va(b, j) + sect_vsize(b, j) <= sect_va(b, i)
}

/// A well-formed template: headers in range, a resource section that is
/// last both in the file and in the address space, and a well-formed
/// resource directory inside it.
pub open spec fn wf_file(b: Seq<u8>) -> bool {
    &&& wf_headers(b)
    &&& has_rsrc(b)
    &&& wf_placement(b)
    &&& wf_section(section_bytes(b), rsrc_rva(b))
}

/// Every resource of the template, in tree order.
pub open spec fn file_entries(b: Seq<u8>) -> Seq<ResEntryV> {
    sec_entries(section_bytes(b), rsrc_rva(b))
}

/// Below any match there is a first match.
proof fn lemma_first_rsrc_below(b: Seq<u8>, j: int)
    requires
        0 <= j < n_sections(b),
        sect_va(b, j) == rsrc_rva(b),
    ensures
        exists|i: int| is_rsrc_idx(b, i),
    decreases j,
{
    if forall|k: int| 0 <= k < j ==> #[trigger] sect_va(b, k) != rsrc_rva(b) {
        assert(is_rsrc_idx(b, j));
    } else {
        let k = choose|k: int| 0 <= k < j && #[trigger] sect_va(b, k) == rsrc_rva(b);
        lemma_first_rsrc_below(b, k);
    }
}

/// With any match at all, the chosen index is a real first match.
pub proof fn lemma_rsrc_idx_valid(b: Seq<u8>)
    requires
        has_rsrc(b),
    ensures
        is_rsrc_idx(b, rsrc_idx(b)),
{
    let j = choose|j: int| 0 <= j < n_sections(b) && sect_va(b, j) == rsrc_rva(b);
    lemma_first_rsrc_below(b, j);
    let i = choose|i: int| is_rsrc_idx(b, i);
    assert(is_rsrc_idx(b, i));
}

/// The first matching section index is the one the `choose` picks.
pub proof fn lemma_rsrc_idx_is(b: Seq<u8>, i: int)
    requires
        is_rsrc_idx(b, i),
    ensures
        rsrc_idx(b) == i,
{
    assert(0 <= i < n_sections(b) && sect_va(b, i) == rsrc_rva(b));
    assert(has_rsrc(b));
    let w = rsrc_idx(b);
    assert(is_rsrc_idx(b, w) || !is_rsrc_idx(b, w));
    if is_rsrc_idx(b, w) {
        if w < i {
            assert(sect_va(b, w) != rsrc_rva(b));
        } else if i < w {
            assert(sect_va(b, i) != rsrc_rva(b));
        }
    } else {
        assert(is_rsrc_idx(b, i));
        assert(exists|x: int| is_rsrc_idx(b, x));
        assert(false);
    }
}

/// A loaded template: the original bytes, the parsed resource model, and
/// the locations that a rebuild must patch.
pub struct PeImage {
    pub bytes: Vec<u8>,
    pub resources: ResourceSet,
    pub rsrc_raw: u32,
    pub rsrc_rawsz: u32,
    pub rsrc_va: u32,
    pub rsrc_hdr_off: u32,
    pub size_image_off: u32,
    pub rsrc_dd_off: u32,
    pub file_align: u32,
    pub sect_align: u32,
}

impl PeImage {
    /// The loaded fields agree with the file bytes, and the model holds
    /// exactly the file's resources.
    pub open spec fn wf(&self) -> bool {
        let b = self.bytes@;
        &&& wf_file(b)
        &&& self.rsrc_raw == sect_raw(b, rsrc_idx(b))
        &&& self.rsrc_rawsz == sect_rawsz(b, rsrc_idx(b))
        &&& self.rsrc_va == rsrc_rva(b)
        &&& self.rsrc_hdr_off == sect_hdr(b, rsrc_idx(b))
        &&& self.size_image_off == size_of_image_off(b)
        &&& self.rsrc_dd_off == rsrc_dd_off(b)
        &&& self.file_align == file_align(b)
        &&& self.sect_align == sect_align(b)
        &&& self.resources@ == file_entries(b)
    }

    /// Loads a template image.
    ///
    /// Succeeds exactly on well-formed templates, and then holds the
    /// template's bytes unchanged and its resources parsed.
    pub fn load(bytes: Vec<u8>) -> (r: Result<PeImage, ()>)
        ensures
            match r {
                Ok(img) => wf_file(bytes@) && img.wf() && img.bytes@ == bytes@,
                Err(()) => !wf_file(bytes@),
            },
    {
        let h = match parse_headers(&bytes) {
            Some(h) => h,
            None => {
                return Err(());
            },
        };
        let ri = match find_rsrc(&bytes, &h) {
            Some(i) => i,
            None => {
                return Err(());
            },
        };
        proof {
            lemma_rsrc_idx_is(bytes@, ri as int);
        }
        let blen = bytes.len();
        let rhdr: u64 = h.stab + 40 * (ri as u64);
        proof {
            assert(40 * (ri as u64) + 40 <= 40 * (h.nsec as u64));
            assert(rhdr + 40 <= blen as u64);
        }
        let rraw = read_u32_le(&bytes, (rhdr + 20) as usize);
        let rrawsz = read_u32_le(&bytes, (rhdr + 16) as usize);
        proof {
            assert(rraw == sect_raw(bytes@, ri as int));
            assert(rrawsz == sect_rawsz(bytes@, ri as int));
        }
        if !check_placement(&bytes, &h, ri, rraw, rrawsz) {
            return Err(());
        }
        proof {
            assert(rraw as u64 + rrawsz as u64 <= blen as u64);
        }
        let sec = copy_range(&bytes, rraw as usize, rraw as usize + rrawsz as usize);
        proof {
            assert(sec@ == section_bytes(bytes@));
        }
        let resources = match parse_section(&sec, h.rva) {
            Ok(rs) => rs,
            Err(()) => {
                return Err(());
            },
        };
        Ok(
            PeImage {
                bytes,
                resources,
                rsrc_raw: rraw,
                rsrc_rawsz: rrawsz,
                rsrc_va: h.rva,
                rsrc_hdr_off: rhdr as u32,
                size_image_off: (h.opt + 56) as u32,
                rsrc_dd_off: (h.ddo + 16) as u32,
                file_align: h.falign,
                sect_align: h.salign,
            },
        )
    }
}

/// Header fields pulled out by one validation pass.
struct Hdr {
    peo: u64,
    opt: u64,
    ddo: u64,
    stab: u64,
    nsec: u16,
    rva: u32,
    falign: u32,
    salign: u32,
}

/// The loaded header fields agree with the spec readers.
spec fn hdr_wf(h: Hdr, b: Seq<u8>) -> bool {
    &&& wf_headers(b)
    &&& h.peo == pe_off(b)
    &&& h.opt == opt_off(b)
    &&& h.ddo == dd_off(b)
    &&& h.stab == sect_table_off(b)
    &&& h.nsec == n_sections(b)
    &&& h.rva == rsrc_rva(b)
    &&& h.falign == file_align(b)
    &&& h.salign == sect_align(b)
}

/// Validates the fixed-position headers.
fn parse_headers(bytes: &Vec<u8>) -> (r: Option<Hdr>)
    ensures
        match r {
            Some(h) => hdr_wf(h, bytes@),
            None => !wf_headers(bytes@),
        },
{
    let blen = bytes.len();
    if blen < 0x40 {
        return None;
    }
    if !(bytes[0] == 0x4Du8 && bytes[1] == 0x5Au8) {
        return None;
    }
    let peo64: u64 = read_u32_le(bytes, 0x3C) as u64;
    if peo64 + 24 > blen as u64 {
        return None;
    }
    let peo: usize = peo64 as usize;
    if !(bytes[peo] == 0x50u8 && bytes[peo + 1] == 0x45u8 && bytes[peo + 2] == 0u8 && bytes[peo
        + 3] == 0u8) {
        return None;
    }
    let opt: u64 = peo64 + 24;
    if opt + 136 > blen as u64 {
        return None;
    }
    let magic = read_u16_le(bytes, opt as usize);
    if !(magic == 0x10B || magic == 0x20B) {
        return None;
    }
    let ddo: u64 = if magic == 0x20B {
        opt + 112
    } else {
        opt + 96
    };
    let ndirs = read_u32_le(bytes, (ddo - 4) as usize);
    if ndirs < 3 {
        return None;
    }
    let falign = read_u32_le(bytes, (opt + 36) as usize);
    let salign = read_u32_le(bytes, (opt + 32) as usize);
    if falign < 1 || salign < 1 {
        return None;
    }
    let nsec = read_u16_le(bytes, (peo64 + 6) as usize);
    if nsec < 1 {
        return None;
    }
    let opt_size = read_u16_le(bytes, (peo64 + 20) as usize);
    let stab: u64 = opt + opt_size as u64;
    if stab + 40 * (nsec as u64) > blen as u64 {
        return None;
    }
    let rva = read_u32_le(bytes, (ddo + 16) as usize);
    Some(Hdr { peo: peo64, opt, ddo, stab, nsec, rva, falign, salign })
}

/// Finds the first section placed at the resource directory's address.
#[verifier::loop_isolation(false)]
fn find_rsrc(bytes: &Vec<u8>, h: &Hdr) -> (r: Option<usize>)
    requires
        hdr_wf(*h, bytes@),
    ensures
        match r {
            Some(i) => is_rsrc_idx(bytes@, i as int),
            None => !has_rsrc(bytes@),
        },
{
    let blen = bytes.len();
    let mut i: usize = 0;
    while i < h.nsec as usize
        invariant
            i <= h.nsec as usize,
            forall|j: int| 0 <= j < i ==> #[trigger] sect_va(bytes@, j) != rsrc_rva(bytes@),
        decreases h.nsec as int - i,
    {
        let hdr: u64 = h.stab + 40 * (i as u64);
        proof {
            assert(40 * (i as u64) + 40 <= 40 * (h.nsec as u64));
            assert(hdr + 40 <= blen as u64);
        }
        let va = read_u32_le(bytes, (hdr + 12) as usize);
        proof {
            assert(va == sect_va(bytes@, i as int));
        }
        if va == h.rva {
            return Some(i);
        }
        i = i + 1;
    }
    None
}

/// Checks that the resource section is last, in the file and in the
/// address space, and lies within the file.
#[verifier::loop_isolation(false)]
fn check_placement(bytes: &Vec<u8>, h: &Hdr, ri: usize, rraw: u32, rrawsz: u32) -> (r: bool)
    requires
        hdr_wf(*h, bytes@),
        is_rsrc_idx(bytes@, ri as int),
        rsrc_idx(bytes@) == ri as int,
        rraw == sect_raw(bytes@, ri as int),
        rrawsz == sect_rawsz(bytes@, ri as int),
    ensures
        r <==> wf_placement(bytes@),
{
    let blen = bytes.len();
    if rraw as u64 + rrawsz as u64 > blen as u64 {
        return false;
    }
    if h.opt + 136 > rraw as u64 {
        return false;
    }
    if h.stab + 40 * (h.nsec as u64) > rraw as u64 {
        return false;
    }
    let mut j: usize = 0;
    while j < h.nsec as usize
        invariant
            j <= h.nsec as usize,
            forall|x: int|
                0 <= x < j && x != ri ==> #[trigger] sect_raw(bytes@, x) + sect_rawsz(bytes@, x)
                    <= sect_raw(bytes@, ri as int) && sect_va(bytes@, x) + sect_vsize(bytes@, x)
                    <= sect_va(bytes@, ri as int),
        decreases h.nsec as int - j,
    {
        if j != ri {
            let hdr: u64 = h.stab + 40 * (j as u64);
            proof {
                assert(40 * (j as u64) + 40 <= 40 * (h.nsec as u64));
                assert(hdr + 40 <= blen as u64);
            }
            let va = read_u32_le(bytes, (hdr + 12) as usize);
            let vsz = read_u32_le(bytes, (hdr + 8) as usize);
            let raw = read_u32_le(bytes, (hdr + 20) as usize);
            let rawsz = read_u32_le(bytes, (hdr + 16) as usize);
            proof {
                assert(raw == sect_raw(bytes@, j as int));
                assert(rawsz == sect_rawsz(bytes@, j as int));
                assert(va == sect_va(bytes@, j as int));
                assert(vsz == sect_vsize(bytes@, j as int));
                assert(h.rva == sect_va(bytes@, ri as int));
            }
            if raw as u64 + rawsz as u64 > rraw as u64 {
                return false;
            }
            if va as u64 + vsz as u64 > h.rva as u64 {
                return false;
            }
        }
        j = j + 1;
    }
    true
}

impl PeImage {
    /// Applies every recorded edit in a single pass and returns the
    /// rebuilt image. The template bytes are never modified: a failed
    /// commit yields no output at all.
    ///
    /// An empty patch set commits to a byte-identical copy of the
    /// template. Otherwise the resource section is rebuilt around the
    /// patched resource model, the section table and image size are
    /// recalculated, and the result is accepted only if re-parsing it
    /// returns exactly the patched resources.
    ///
    /// Every refusal but one is tied to the inputs: when every edit
    /// applies (`patch_ok`), the only refusal this contract still admits
    /// is `RebuildFailed`, the re-parse acceptance check on the rebuilt
    /// section itself.
    #[verifier::loop_isolation(false)]
    #[verifier::rlimit(100)]
    pub fn commit(self, ps: &ResourcePatchSet) -> (r: Result<Vec<u8>, CommitError>)
        requires
            self.wf(),
        ensures
            ps.spec_is_empty() ==> r is Ok,
            r matches Ok(out) ==> {
                &&& ps.spec_is_empty() ==> out@ == self.bytes@
                &&& wf_file(out@)
                &&& patch_applied(
                    file_entries(self.bytes@),
                    ps.icon_view(),
                    ps.rcdata_view(),
                    ps.strings_view(),
                    file_entries(out@),
                )
            },
            r matches Err(e) ==> patch_refused(
                file_entries(self.bytes@),
                ps.icon_view(),
                ps.rcdata_view(),
                ps.strings_view(),
                e,
            ),
            patch_ok(
                file_entries(self.bytes@),
                ps.icon_view(),
                ps.rcdata_view(),
                ps.strings_view(),
            ) ==> (r matches Err(e) ==> e is RebuildFailed),
    {
        let ghost b0 = self.bytes@;
        let ghost es0 = file_entries(b0);
        if ps.is_empty() {
            let out = copy_bytes(&self.bytes);
            proof {
                assert(strings_applied_seq(es0, ps.strings_view(), es0));
                assert(crate::patchset::opt_icon_applied(es0, ps.icon_view(), es0));
                assert(crate::patchset::opt_rcdata_applied(es0, ps.rcdata_view(), es0));
                assert(patch_applied(
                    es0,
                    ps.icon_view(),
                    ps.rcdata_view(),
                    ps.strings_view(),
                    es0,
                ));
            }
            return Ok(out);
        }
        let PeImage {
            bytes,
            mut resources,
            rsrc_raw,
            rsrc_rawsz,
            rsrc_va,
            rsrc_hdr_off,
            size_image_off,
            rsrc_dd_off,
            file_align,
            sect_align,
        } = self;
        match apply_patch_ops(&mut resources, ps) {
            Ok(()) => (),
            Err(e) => {
                proof {
                    assert(!patch_ok(es0, ps.icon_view(), ps.rcdata_view(), ps.strings_view()));
                }
                return Err(e);
            },
        }
        let section = match build_section(&resources.entries, rsrc_va) {
            Ok(sec) => sec,
            Err(()) => {
                return Err(CommitError::RebuildFailed);
            },
        };
        let slen = section.len();
        if slen as u64 > 0xFFFF_FFFFu64 {
            return Err(CommitError::RebuildFailed);
        }
        let padded = match align_up_u32(slen as u32, file_align) {
            Some(p) => p,
            None => {
                return Err(CommitError::RebuildFailed);
            },
        };
        proof {
            lemma_align_up_bounds(slen as int, file_align as int);
        }
        if rsrc_va as u64 + slen as u64 > 0xFFFF_FFFFu64 {
            return Err(CommitError::RebuildFailed);
        }
        let size_image = match align_up_u32((rsrc_va as u64 + slen as u64) as u32, sect_align) {
            Some(x) => x,
            None => {
                return Err(CommitError::RebuildFailed);
            },
        };
        let blen = bytes.len();
        let mut out = copy_range(&bytes, 0, rsrc_raw as usize);
        append_range(&mut out, &section, 0, slen);
        append_zeroes(&mut out, (padded - slen as u32) as usize);
        append_range(&mut out, &bytes, (rsrc_raw as u64 + rsrc_rawsz as u64) as usize, blen);
        // The rewritten header fields all sit inside the untouched prefix.
        proof {
            lemma_rsrc_idx_valid(b0);
            let i = rsrc_idx(b0);
            assert(0 <= i < n_sections(b0));
            assert(sect_hdr(b0, i) + 40 <= sect_table_off(b0) + 40 * n_sections(b0));
            assert(rsrc_hdr_off as int + 40 <= rsrc_raw as int);
            assert(size_image_off as int + 4 <= opt_off(b0) + 136);
            assert(rsrc_dd_off as int + 8 <= opt_off(b0) + 136);
            assert(out@.len() >= rsrc_raw as int);
        }
        write_u32_le_at(&mut out, rsrc_hdr_off as usize + 8, slen as u32);
        write_u32_le_at(&mut out, rsrc_hdr_off as usize + 16, padded);
        write_u32_le_at(&mut out, size_image_off as usize, size_image);
        write_u32_le_at(&mut out, rsrc_dd_off as usize + 4, slen as u32);
        // The result counts only if it re-parses to exactly the patched
        // resources.
        let img2 = match PeImage::load(out) {
            Ok(img2) => img2,
            Err(()) => {
                return Err(CommitError::RebuildFailed);
            },
        };
        if !resources.entries_eq(&img2.resources) {
            return Err(CommitError::RebuildFailed);
        }
        proof {
            assert(file_entries(img2.bytes@) == resources@);
        }
        Ok(img2.bytes)
    }
}

/// The data of the first resource of type `t` and identifier `n` in the
/// file, when the file is a well-formed template.
pub open spec fn spec_resource(b: Seq<u8>, t: u32, n: u32) -> Option<Seq<u8>> {
    if wf_file(b) {
        tn_first_data(file_entries(b), t, n)
    } else {
        None
    }
}

/// Re-extracts one resource from an image file: the first entry of type
/// `t` under identifier `n`, in any language.
pub fn extract_resource(bytes: Vec<u8>, t: u32, n: u32) -> (r: Option<Vec<u8>>)
    ensures
        match r {
            Some(d) => spec_resource(bytes@, t, n) == Some(d@),
            None => spec_resource(bytes@, t, n) is None,
        },
{
    let img = match PeImage::load(bytes) {
        Ok(img) => img,
        Err(()) => {
            return None;
        },
    };
    match img.resources.find_type_name(t, n) {
        Some(i) => {
            proof {
                crate::restree::lemma_tn_first_data_at(img.resources@, t, n, i as int);
            }
            let d = crate::bytes::copy_bytes(&img.resources.entries[i].data);
            Some(d)
        },
        None => None,
    }
}

/// Re-extracts the opaque blob stored under `id`, in any language.
pub fn extract_rcdata(bytes: Vec<u8>, id: u32) -> (r: Option<Vec<u8>>)
    ensures
        match r {
            Some(d) => spec_resource(bytes@, RT_RCDATA, id) == Some(d@),
            None => spec_resource(bytes@, RT_RCDATA, id) is None,
        },
{
    extract_resource(bytes, RT_RCDATA, id)
}

/// The code units stored under string identifier `id`: the string's
/// block resource, decoded, at the string's slot.
pub open spec fn spec_read_string(b: Seq<u8>, id: u32) -> Option<Seq<u16>> {
    match spec_resource(b, RT_STRING, string_block_id(id)) {
        Some(d) => if block_ok(d) {
            Some(block_strings(d)[string_index(id)])
        } else {
            None
        },
        None => None,
    }
}

/// Re-reads the string stored under `id` as its UTF-16 code units.
pub fn read_string_resource(bytes: Vec<u8>, id: u32) -> (r: Option<Vec<u16>>)
    ensures
        match r {
            Some(u) => spec_read_string(bytes@, id) == Some(u@),
            None => spec_read_string(bytes@, id) is None,
        },
{
    let d = match extract_resource(bytes, RT_STRING, id / 16 + 1) {
        Some(d) => d,
        None => {
            return None;
        },
    };
    let mut ss = match decode_block(&d) {
        Some(ss) => ss,
        None => {
            return None;
        },
    };
    let idx = (id % 16) as usize;
    let u = ss.remove(idx);
    proof {
        assert(u@ == crate::strres::uvs(ss@.insert(idx as int, u))[idx as int]);
    }
    Some(u)
}

/// The views of a vector of byte vectors.
pub open spec fn bvs(s: Seq<Vec<u8>>) -> Seq<Seq<u8>> {
    s.map_values(|v: Vec<u8>| v@)
}

/// The icon group of an image file, resolved to its image variants.
pub open spec fn spec_icon_images_file(b: Seq<u8>) -> Option<Seq<Seq<u8>>> {
    if wf_file(b) {
        spec_icon_images(file_entries(b))
    } else {
        None
    }
}

/// Re-reads the image file's icon group: each image variant the group
/// directory references, in directory order.
#[verifier::loop_isolation(false)]
pub fn icon_group_images(bytes: Vec<u8>) -> (r: Option<Vec<Vec<u8>>>)
    ensures
        match r {
            Some(v) => spec_icon_images_file(bytes@) == Some(bvs(v@)),
            None => spec_icon_images_file(bytes@) is None,
        },
{
    let img = match PeImage::load(bytes) {
        Ok(img) => img,
        Err(()) => {
            return None;
        },
    };
    let ghost es = img.resources@;
    let gi = match img.resources.find_type(RT_GROUP_ICON) {
        Some(gi) => gi,
        None => {
            return None;
        },
    };
    proof {
        lemma_icon_group_choose(es, gi as int);
    }
    let g = &img.resources.entries[gi].data;
    let glen = g.len();
    if glen < 6 {
        return None;
    }
    let gzero = read_u16_le(g, 0);
    let gone = read_u16_le(g, 2);
    let gcnt = read_u16_le(g, 4);
    if gzero != 0 || gone != 1 || 6 + 14 * (gcnt as u64) > glen as u64 {
        return None;
    }
    proof {
        assert(crate::icon::grp_ok(es[gi as int].data));
    }
    let mut out: Vec<Vec<u8>> = Vec::new();
    let mut x: usize = 0;
    while x < gcnt as usize
        invariant
            x <= gcnt as usize,
            out@.len() == x,
            forall|y: int|
                0 <= y < x ==> crate::restree::tn_first_data(
                    es,
                    RT_ICON,
                    (#[trigger] crate::icon::grp_id(es[gi as int].data, y)) as u32,
                ) is Some,
            forall|y: int|
                0 <= y < x ==> (#[trigger] out@[y])@ == crate::restree::tn_first_data(
                    es,
                    RT_ICON,
                    (crate::icon::grp_id(es[gi as int].data, y)) as u32,
                )->Some_0,
        decreases gcnt as usize - x,
    {
        let id = read_u16_le(g, 6 + 14 * x + 12);
        proof {
            assert(id == crate::icon::grp_id(es[gi as int].data, x as int));
        }
        match img.resources.find_type_name(RT_ICON, id as u32) {
            Some(w) => {
                proof {
                    crate::restree::lemma_tn_first_data_at(es, RT_ICON, id as u32, w as int);
                }
                let d = copy_bytes(&img.resources.entries[w].data);
                out.push(d);
            },
            None => {
                return None;
            },
        }
        x = x + 1;
    }
    proof {
        assert(spec_icon_images(es) is Some);
        assert(bvs(out@) =~= spec_icon_images(es)->Some_0);
    }
    Some(out)
}

} // verus!
