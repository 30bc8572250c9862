//! Serialising the flat entry model back into a resource section.
//!
//! The layout is canonical: root directory, identifier directories,
//! language directories, data entries, then the data blobs aligned to
//! eight bytes. The caller re-parses the result and compares it against
//! the model, so this builder carries no contract beyond memory safety;
//! a layout it cannot express is reported as an error, never emitted.

use vstd::prelude::*;

use crate::bytes::{push_u16_le, push_u32_le};
use crate::restree::ResEntry;

verus! {

/// Emits the 16-byte directory header for `count` identified entries.
fn push_dir_header(out: &mut Vec<u8>, count: u16) {
    push_u32_le(out, 0);
    push_u32_le(out, 0);
    push_u16_le(out, 0);
    push_u16_le(out, 0);
    push_u16_le(out, 0);
    push_u16_le(out, count);
}

/// Builds the section bytes for `entries` placed at virtual address `va`.
///
/// Adjacent entries of one type form one identifier directory; adjacent
/// entries of one type and identifier form one language directory, in
/// the order given.
#[verifier::loop_isolation(false)]
pub fn build_section(entries: &Vec<ResEntry>, va: u32) -> (r: Result<Vec<u8>, ()>)
{
    let n = entries.len();
    if n > 0x000F_FFFFusize {
        return Err(());
    }
    // Run detection: type runs over the entry list, identifier runs within
    // them, and for each type run the range of its identifier runs.
    let mut type_runs: Vec<(usize, usize)> = Vec::new();
    let mut name_runs: Vec<(usize, usize)> = Vec::new();
    let mut tr_names: Vec<(usize, usize)> = Vec::new();
    let mut i: usize = 0;
    while i < n
        invariant
            i <= n,
            n == entries@.len(),
            type_runs@.len() == tr_names@.len(),
        decreases n - i,
    {
        let t = entries[i].type_id;
        let tr_start = i;
        let nr_lo = name_runs.len();
        while i < n && entries[i].type_id == t
            invariant
                tr_start <= i <= n,
                n == entries@.len(),
            decreases n - i,
        {
            let nm = entries[i].name_id;
            let nr_start = i;
            while i < n && entries[i].type_id == t && entries[i].name_id == nm
                invariant
                    nr_start <= i <= n,
                    n == entries@.len(),
                decreases n - i,
            {
                i = i + 1;
            }
            if i == nr_start {
                return Err(());
            }
            name_runs.push((nr_start, i));
        }
        if i == tr_start {
            return Err(());
        }
        type_runs.push((tr_start, i));
        tr_names.push((nr_lo, name_runs.len()));
    }
    let tcount = type_runs.len();
    let ncount = name_runs.len();
    if tcount > 0xFFFFusize {
        return Err(());
    }
    // Offsets of each identifier directory and each language directory.
    let root_size: u64 = 16 + 8 * (tcount as u64);
    let mut cur: u64 = root_size;
    let mut name_dir_off: Vec<u64> = Vec::new();
    let mut r: usize = 0;
    while r < tcount
        invariant
            r <= tcount,
            tcount == type_runs@.len() == tr_names@.len(),
            name_dir_off@.len() == r,
            cur <= 0xFFFF_FFFF_0000u64,
        decreases tcount - r,
    {
        if cur > 0xFFFF_FFFFu64 {
            return Err(());
        }
        name_dir_off.push(cur);
        let (lo, hi) = tr_names[r];
        if !(lo <= hi && hi <= ncount && hi - lo <= 0xFFFFusize) {
            return Err(());
        }
        cur = cur + 16 + 8 * ((hi - lo) as u64);
        r = r + 1;
    }
    let mut lang_dir_off: Vec<u64> = Vec::new();
    let mut q: usize = 0;
    while q < ncount
        invariant
            q <= ncount,
            ncount == name_runs@.len(),
            lang_dir_off@.len() == q,
            cur <= 0xFFFF_FFFF_0000u64,
        decreases ncount - q,
    {
        if cur > 0xFFFF_FFFFu64 {
            return Err(());
        }
        lang_dir_off.push(cur);
        let (lo, hi) = name_runs[q];
        if !(lo <= hi && hi <= n && hi - lo <= 0xFFFFusize) {
            return Err(());
        }
        cur = cur + 16 + 8 * ((hi - lo) as u64);
        q = q + 1;
    }
    if cur > 0xFFFF_FFFFu64 {
        return Err(());
    }
    let dataent_base: u64 = cur;
    cur = cur + 16 * (n as u64);
    // Blob offsets, each aligned to eight bytes.
    let mut blob_off: Vec<u64> = Vec::new();
    let mut m: usize = 0;
    while m < n
        invariant
            m <= n,
            n == entries@.len(),
            blob_off@.len() == m,
            cur <= 0x2_0000_0000u64,
        decreases n - m,
    {
        cur = ((cur + 7) / 8) * 8;
        if cur > 0xFFFF_FFFFu64 {
            return Err(());
        }
        blob_off.push(cur);
        let dlen = entries[m].data.len();
        if dlen as u64 > 0xFFFF_FFFFu64 {
            return Err(());
        }
        cur = cur + dlen as u64;
        m = m + 1;
    }
    if cur > 0x7FFF_FFFFu64 || va as u64 + cur > 0xFFFF_FFFFu64 {
        return Err(());
    }
    // Emission. Every offset was bounded above; positions are re-checked
    // as the phases advance.
    let mut out: Vec<u8> = Vec::new();
    push_dir_header(&mut out, tcount as u16);
    let mut r: usize = 0;
    while r < tcount
        invariant
            tcount == type_runs@.len(),
            name_dir_off@.len() == tcount,
            n == entries@.len(),
        decreases tcount - r,
    {
        let (lo, _hi) = type_runs[r];
        if !(lo < n) {
            return Err(());
        }
        let off = name_dir_off[r];
        if off >= 0x8000_0000u64 {
            return Err(());
        }
        push_u32_le(&mut out, entries[lo].type_id);
        push_u32_le(&mut out, 0x8000_0000u32 + off as u32);
        r = r + 1;
    }
    let mut r: usize = 0;
    while r < tcount
        invariant
            tcount == type_runs@.len() == tr_names@.len(),
            lang_dir_off@.len() == ncount,
            ncount == name_runs@.len(),
            n == entries@.len(),
        decreases tcount - r,
    {
        let (lo, hi) = tr_names[r];
        if !(lo <= hi && hi <= ncount && hi - lo <= 0xFFFFusize) {
            return Err(());
        }
        push_dir_header(&mut out, (hi - lo) as u16);
        let mut q: usize = lo;
        while q < hi
            invariant
                lo <= q <= hi <= ncount,
                ncount == name_runs@.len(),
                lang_dir_off@.len() == ncount,
                n == entries@.len(),
            decreases hi - q,
        {
            let (nlo, _nhi) = name_runs[q];
            if !(nlo < n) {
                return Err(());
            }
            let off = lang_dir_off[q];
            if off >= 0x8000_0000u64 {
                return Err(());
            }
            push_u32_le(&mut out, entries[nlo].name_id);
            push_u32_le(&mut out, 0x8000_0000u32 + off as u32);
            q = q + 1;
        }
        r = r + 1;
    }
    let mut q: usize = 0;
    while q < ncount
        invariant
            ncount == name_runs@.len(),
            n == entries@.len(),
        decreases ncount - q,
    {
        let (lo, hi) = name_runs[q];
        if !(lo <= hi && hi <= n && hi - lo <= 0xFFFFusize) {
            return Err(());
        }
        push_dir_header(&mut out, (hi - lo) as u16);
        let mut m: usize = lo;
        while m < hi
            invariant
                lo <= m <= hi <= n,
                n == entries@.len(),
            decreases hi - m,
        {
            let de: u64 = dataent_base + 16 * (m as u64);
            if de >= 0x8000_0000u64 {
                return Err(());
            }
            push_u32_le(&mut out, entries[m].lang_id);
            push_u32_le(&mut out, de as u32);
            m = m + 1;
        }
        q = q + 1;
    }
    let mut m: usize = 0;
    while m < n
        invariant
            n == entries@.len(),
            blob_off@.len() == n,
        decreases n - m,
    {
        let boff = blob_off[m];
        if boff > 0xFFFF_FFFFu64 || va as u64 + boff > 0xFFFF_FFFFu64 {
            return Err(());
        }
        let dlen = entries[m].data.len();
        if dlen as u64 > 0xFFFF_FFFFu64 {
            return Err(());
        }
        push_u32_le(&mut out, va + boff as u32);
        push_u32_le(&mut out, dlen as u32);
        push_u32_le(&mut out, entries[m].codepage);
        push_u32_le(&mut out, 0);
        m = m + 1;
    }
    let mut m: usize = 0;
    while m < n
        invariant
            n == entries@.len(),
            blob_off@.len() == n,
        decreases n - m,
    {
        let boff = blob_off[m];
        if boff > 0xFFFF_FFFFu64 || (out.len() as u64) > boff {
            return Err(());
        }
        let pad: usize = (boff - out.len() as u64) as usize;
        crate::bytes::append_zeroes(&mut out, pad);
        let dat = &entries[m].data;
        crate::bytes::append_range(&mut out, dat, 0, dat.len());
        m = m + 1;
    }
    Ok(out)
}

} // verus!
