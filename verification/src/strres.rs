//! String table resources: each block resource holds sixteen
//! length-prefixed UTF-16 strings. Replacing one string re-encodes the
//! block, preserving the other fifteen entries and the block's language.

use vstd::arithmetic::div_mod::lemma_fundamental_div_mod;
use vstd::prelude::*;

use crate::bytes::{le16, le16b};
use crate::restree::{
    has_tn, is_first_tn, keys_pointwise, lemma_lookup_stable, tn_first_data, with_data, ResEntryV,
    ResourceSet, RT_STRING,
};

verus! {

/// UTF-16 code units of one character: one unit inside the basic plane,
/// a surrogate pair above it.
pub open spec fn utf16_char(c: char) -> Seq<u16> {
    let cp = c as int;
    if cp < 0x10000 {
        seq![cp as u16]
    } else {
        seq![
            (0xD800 + (cp - 0x10000) / 0x400) as u16,
            (0xDC00 + (cp - 0x10000) % 0x400) as u16,
        ]
    }
}

/// UTF-16 code units of a character sequence.
pub open spec fn utf16(s: Seq<char>) -> Seq<u16>
    decreases s.len(),
{
    if s.len() == 0 {
        Seq::empty()
    } else {
        utf16_char(s[0]) + utf16(s.drop_first())
    }
}

/// Relies on str::encode_utf16: the UTF-16 code units of the text, one
/// unit per basic-plane character, surrogate pairs above the basic plane.
#[verifier::external_body]
fn encode_utf16_units(s: &str) -> (r: Vec<u16>)
    ensures
        r@ == utf16(s@),
{
    s.encode_utf16().collect()
}

/// The code units of a string, two bytes each.
pub open spec fn units_bytes(u: Seq<u16>) -> Seq<u8>
    decreases u.len(),
{
    if u.len() == 0 {
        Seq::empty()
    } else {
        le16b(u[0] as int) + units_bytes(u.drop_first())
    }
}

/// One length-prefixed string.
pub open spec fn enc_string(u: Seq<u16>) -> Seq<u8> {
    le16b(u.len() as int) + units_bytes(u)
}

/// The concatenation of length-prefixed strings.
pub open spec fn enc_block(ss: Seq<Seq<u16>>) -> Seq<u8>
    decreases ss.len(),
{
    if ss.len() == 0 {
        Seq::empty()
    } else {
        enc_string(ss[0]) + enc_block(ss.drop_first())
    }
}

/// The code units stored at `off`, `n` of them.
pub open spec fn units_at(b: Seq<u8>, off: int, n: int) -> Seq<u16> {
    Seq::new(n as nat, |u: int| le16(b, off + 2 * u) as u16)
}

/// `k` length-prefixed strings starting at `off` consume exactly the rest
/// of the block.
pub open spec fn block_ok_from(b: Seq<u8>, off: int, k: int) -> bool
    decreases k,
{
    if k <= 0 {
        off == b.len()
    } else {
        &&& 0 <= off
        &&& off + 2 <= b.len()
        &&& off + 2 + 2 * le16(b, off) <= b.len()
        &&& block_ok_from(b, off + 2 + 2 * le16(b, off), k - 1)
    }
}

/// The `k` strings starting at `off`.
pub open spec fn block_units_from(b: Seq<u8>, off: int, k: int) -> Seq<Seq<u16>>
    decreases k,
{
    if k <= 0 {
        Seq::empty()
    } else {
        seq![units_at(b, off + 2, le16(b, off))] + block_units_from(
            b,
            off + 2 + 2 * le16(b, off),
            k - 1,
        )
    }
}

/// A block resource holds exactly sixteen strings.
pub open spec fn block_ok(b: Seq<u8>) -> bool {
    block_ok_from(b, 0, 16)
}

/// The sixteen strings of a block.
pub open spec fn block_strings(b: Seq<u8>) -> Seq<Seq<u16>> {
    block_units_from(b, 0, 16)
}

/// The views of a vector of unit vectors.
pub open spec fn uvs(s: Seq<Vec<u16>>) -> Seq<Seq<u16>> {
    s.map_values(|v: Vec<u16>| v@)
}

/// The block resource that carries string `id`.
pub open spec fn string_block_id(id: u32) -> u32 {
    (id / 16 + 1) as u32
}

/// The slot of string `id` inside its block.
pub open spec fn string_index(id: u32) -> int {
    id as int % 16
}

proof fn lemma_uvs_push(s: Seq<Vec<u16>>, e: Vec<u16>)
    ensures
        uvs(s.push(e)) == uvs(s).push(e@),
{
    assert(uvs(s.push(e)) =~= uvs(s).push(e@));
}

/// The byte length of encoded units is twice their count.
pub proof fn lemma_units_bytes_len(u: Seq<u16>)
    ensures
        units_bytes(u).len() == 2 * u.len(),
    decreases u.len(),
{
    if u.len() > 0 {
        lemma_units_bytes_len(u.drop_first());
    }
}

/// The bytes of unit `i` inside an encoded unit run.
pub proof fn lemma_units_bytes_index(u: Seq<u16>, i: int)
    requires
        0 <= i < u.len(),
    ensures
        units_bytes(u).len() == 2 * u.len(),
        units_bytes(u)[2 * i] == (u[i] as int % 256) as u8,
        units_bytes(u)[2 * i + 1] == ((u[i] as int / 256) % 256) as u8,
    decreases u.len(),
{
    lemma_units_bytes_len(u);
    if i > 0 {
        lemma_units_bytes_index(u.drop_first(), i - 1);
        lemma_units_bytes_len(u.drop_first());
    }
}

/// Appending one more string to a block appends its encoding.
pub proof fn lemma_enc_block_snoc(ss: Seq<Seq<u16>>, x: Seq<u16>)
    ensures
        enc_block(ss.push(x)) == enc_block(ss) + enc_string(x),
    decreases ss.len(),
{
    let p = ss.push(x);
    assert(p.len() == ss.len() + 1);
    if ss.len() == 0 {
        assert(p[0] == x);
        assert(p.drop_first() =~= Seq::<Seq<u16>>::empty());
        assert(enc_block(p) == enc_string(x) + enc_block(Seq::<Seq<u16>>::empty()));
        assert(enc_block(p) =~= enc_block(ss) + enc_string(x));
    } else {
        lemma_enc_block_snoc(ss.drop_first(), x);
        assert(p[0] == ss[0]);
        assert(p.drop_first() =~= ss.drop_first().push(x));
        assert(enc_block(p) == enc_string(ss[0]) + enc_block(ss.drop_first().push(x)));
        assert(enc_block(ss) == enc_string(ss[0]) + enc_block(ss.drop_first()));
        assert(enc_block(p) =~= enc_block(ss) + enc_string(x));
    }
}

/// Appending one more unit appends its two bytes.
pub proof fn lemma_units_bytes_snoc(u: Seq<u16>, x: u16)
    ensures
        units_bytes(u.push(x)) == units_bytes(u) + le16b(x as int),
    decreases u.len(),
{
    let p = u.push(x);
    assert(p.len() == u.len() + 1);
    if u.len() == 0 {
        assert(p[0] == x);
        assert(p.drop_first() =~= Seq::<u16>::empty());
        assert(units_bytes(p) == le16b(x as int) + units_bytes(Seq::<u16>::empty()));
        assert(units_bytes(p) =~= units_bytes(u) + le16b(x as int));
    } else {
        lemma_units_bytes_snoc(u.drop_first(), x);
        assert(p[0] == u[0]);
        assert(p.drop_first() =~= u.drop_first().push(x));
        assert(units_bytes(p) == le16b(u[0] as int) + units_bytes(u.drop_first().push(x)));
        assert(units_bytes(u) == le16b(u[0] as int) + units_bytes(u.drop_first()));
        assert(units_bytes(p) =~= units_bytes(u) + le16b(x as int));
    }
}

/// A 16-bit length written as two bytes reads back as itself.
proof fn lemma_le16b_reads(b: Seq<u8>, off: int, x: int)
    requires
        0 <= x <= 0xFFFF,
        0 <= off,
        off + 2 <= b.len(),
        b[off] == (x % 256) as u8,
        b[off + 1] == ((x / 256) % 256) as u8,
    ensures
        le16(b, off) == x,
{
    lemma_fundamental_div_mod(x, 256);
}

/// Decoding an encoded block gives back its strings.
pub proof fn lemma_block_round_trip(prefix: Seq<u8>, ss: Seq<Seq<u16>>)
    requires
        forall|i: int| 0 <= i < ss.len() ==> (#[trigger] ss[i]).len() <= 0xFFFF,
    ensures
        block_ok_from(prefix + enc_block(ss), prefix.len() as int, ss.len() as int),
        block_units_from(prefix + enc_block(ss), prefix.len() as int, ss.len() as int) == ss,
    decreases ss.len(),
{
    let b = prefix + enc_block(ss);
    if ss.len() == 0 {
        assert(enc_block(ss).len() == 0);
        assert(b.len() == prefix.len());
        assert(block_units_from(b, prefix.len() as int, 0) =~= ss);
    } else {
        let x = ss[0];
        let rest = ss.drop_first();
        let off = prefix.len() as int;
        lemma_units_bytes_len(x);
        assert(enc_block(ss) == enc_string(x) + enc_block(rest));
        let prefix2 = prefix + enc_string(x);
        assert(b =~= prefix2 + enc_block(rest));
        assert(b[off] == (x.len() as int % 256) as u8);
        assert(b[off + 1] == ((x.len() as int / 256) % 256) as u8);
        lemma_le16b_reads(b, off, x.len() as int);
        assert(le16(b, off) == x.len());
        assert(prefix2.len() == off + 2 + 2 * x.len());
        lemma_block_round_trip(prefix2, rest);
        assert(block_ok_from(b, off + 2 + 2 * le16(b, off), ss.len() - 1));
        assert(block_ok_from(b, off, ss.len() as int));
        assert(units_at(b, off + 2, x.len() as int) =~= x) by {
            assert forall|u: int| 0 <= u < x.len() implies units_at(b, off + 2, x.len() as int)[u]
                == x[u] by {
                lemma_units_bytes_index(x, u);
                assert(b[off + 2 + 2 * u] == (x[u] as int % 256) as u8);
                assert(b[off + 2 + 2 * u + 1] == ((x[u] as int / 256) % 256) as u8);
                lemma_le16b_reads(b, off + 2 + 2 * u, x[u] as int);
            }
        }
        assert(block_units_from(b, off, ss.len() as int) =~= ss);
    }
}

/// A well-formed block holds sixteen strings, each within the 16-bit
/// length prefix.
pub proof fn lemma_block_strings_lens(b: Seq<u8>, off: int, k: int)
    requires
        0 <= k,
        block_ok_from(b, off, k),
    ensures
        block_units_from(b, off, k).len() == k,
        forall|i: int|
            0 <= i < k ==> (#[trigger] block_units_from(b, off, k)[i]).len() <= 0xFFFF,
    decreases k,
{
    if k > 0 {
        lemma_block_strings_lens(b, off + 2 + 2 * le16(b, off), k - 1);
        let rest = block_units_from(b, off + 2 + 2 * le16(b, off), k - 1);
        assert forall|i: int|
            0 <= i < k implies (#[trigger] block_units_from(b, off, k)[i]).len() <= 0xFFFF by {
            if i == 0 {
                assert(block_units_from(b, off, k)[0] == units_at(b, off + 2, le16(b, off)));
            } else {
                assert(block_units_from(b, off, k)[i] == rest[i - 1]);
            }
        }
    }
}

/// Decodes a block resource into its sixteen strings.
///
/// Succeeds exactly on well-formed blocks, and then returns precisely the
/// block's strings.
#[verifier::loop_isolation(false)]
pub fn decode_block(b: &Vec<u8>) -> (r: Option<Vec<Vec<u16>>>)
    ensures
        match r {
            Some(ss) => {
                &&& block_ok(b@)
                &&& uvs(ss@) == block_strings(b@)
                &&& ss@.len() == 16
                &&& forall|i: int| 0 <= i < 16 ==> (#[trigger] ss@[i])@.len() <= 0xFFFF
            },
            None => !block_ok(b@),
        },
{
    let blen = b.len();
    let mut out: Vec<Vec<u16>> = Vec::new();
    let mut off: u64 = 0;
    let mut j: usize = 0;
    while j < 16
        invariant
            j <= 16,
            off <= blen as u64,
            out@.len() == j,
            forall|i: int| 0 <= i < j ==> (#[trigger] out@[i])@.len() <= 0xFFFF,
            block_ok(b@) <==> block_ok_from(b@, off as int, 16 - j as int),
            block_ok(b@) ==> block_strings(b@) == uvs(out@) + block_units_from(
                b@,
                off as int,
                16 - j as int,
            ),
        decreases 16 - j,
    {
        let rem: u64 = blen as u64 - off;
        if rem < 2 {
            return None;
        }
        let n = crate::bytes::read_u16_le(b, off as usize);
        proof {
            lemma_fundamental_div_mod((rem - 2) as int, 2);
        }
        if (n as u64) > (rem - 2) / 2 {
            proof {
                assert(off as int + 2 + 2 * le16(b@, off as int) > b@.len());
            }
            return None;
        }
        proof {
            assert(off as int + 2 + 2 * le16(b@, off as int) <= b@.len());
        }
        let mut units: Vec<u16> = Vec::new();
        let mut k: usize = 0;
        while k < n as usize
            invariant
                k <= n as usize,
                units@ == units_at(b@, off as int + 2, n as int).subrange(0, k as int),
            decreases n as usize - k,
        {
            let u = crate::bytes::read_u16_le(b, off as usize + 2 + 2 * k);
            units.push(u);
            proof {
                assert(units@ =~= units_at(b@, off as int + 2, n as int).subrange(0, k + 1));
            }
            k = k + 1;
        }
        proof {
            assert(units@ =~= units_at(b@, off as int + 2, n as int));
        }
        let ghost prev = out@;
        out.push(units);
        proof {
            lemma_uvs_push(prev, units);
            if block_ok(b@) {
                assert(block_strings(b@) =~= uvs(out@) + block_units_from(
                    b@,
                    off as int + 2 + 2 * (n as int),
                    16 - (j + 1),
                ));
            }
        }
        off = off + 2 + 2 * (n as u64);
        j = j + 1;
    }
    if off != blen as u64 {
        return None;
    }
    proof {
        assert(block_ok_from(b@, off as int, 0));
        assert(block_strings(b@) =~= uvs(out@));
    }
    Some(out)
}

/// Encodes sixteen strings back into a block resource.
#[verifier::loop_isolation(false)]
pub fn encode_block(ss: &Vec<Vec<u16>>) -> (r: Vec<u8>)
    requires
        forall|i: int| 0 <= i < ss@.len() ==> (#[trigger] ss@[i])@.len() <= 0xFFFF,
    ensures
        r@ == enc_block(uvs(ss@)),
{
    let mut out: Vec<u8> = Vec::new();
    let mut j: usize = 0;
    while j < ss.len()
        invariant
            j <= ss@.len(),
            out@ == enc_block(uvs(ss@).subrange(0, j as int)),
        decreases ss@.len() - j,
    {
        let s = &ss[j];
        let ghost done = uvs(ss@).subrange(0, j as int);
        crate::bytes::push_u16_le(&mut out, s.len() as u16);
        proof {
            assert(out@ =~= enc_block(done) + le16b(s@.len() as int));
        }
        let ghost base = out@;
        let mut k: usize = 0;
        while k < s.len()
            invariant
                k <= s@.len(),
                out@ == base + units_bytes(s@.subrange(0, k as int)),
            decreases s@.len() - k,
        {
            let ghost upart = s@.subrange(0, k as int);
            crate::bytes::push_u16_le(&mut out, s[k]);
            proof {
                lemma_units_bytes_snoc(upart, s@[k as int]);
                assert(upart.push(s@[k as int]) =~= s@.subrange(0, k + 1));
                assert(out@ =~= base + units_bytes(s@.subrange(0, k + 1)));
            }
            k = k + 1;
        }
        proof {
            assert(s@.subrange(0, s@.len() as int) =~= s@);
            lemma_enc_block_snoc(done, s@);
            assert(done.push(s@) =~= uvs(ss@).subrange(0, j + 1));
            assert(out@ =~= enc_block(uvs(ss@).subrange(0, j + 1)));
        }
        j = j + 1;
    }
    proof {
        assert(uvs(ss@).subrange(0, ss@.len() as int) =~= uvs(ss@));
    }
    out
}

/// Why a string edit was refused.
#[derive(Debug)]
pub enum StringPatchError {
    /// The template has no block resource for this string identifier.
    BlockMissing,
    /// The block resource does not decode as sixteen strings.
    BlockMalformed,
    /// The replacement text encodes to more units than a block slot holds.
    TextTooLong,
}

/// The effect of replacing string `id` with `units`: the first block
/// resource for it has exactly that slot re-encoded.
pub open spec fn string_applied(
    es: Seq<crate::restree::ResEntryV>,
    id: u32,
    units: Seq<u16>,
    es2: Seq<crate::restree::ResEntryV>,
) -> bool {
    exists|i: int|
        {
            &&& is_first_tn(es, RT_STRING, string_block_id(id), i)
            &&& block_ok(es[i].data)
            &&& es2 == es.update(
                i,
                with_data(
                    es[i],
                    enc_block(block_strings(es[i].data).update(string_index(id), units)),
                ),
            )
        }
}

/// Replaces string `id` with `text`, re-encoding its block and keeping
/// the block's other strings, its language and its length-prefix format.
pub fn set_string_resource(rs: &mut ResourceSet, id: u32, text: &str) -> (r: Result<
    (),
    StringPatchError,
>)
    ensures
        r is Ok ==> string_applied(old(rs)@, id, utf16(text@), final(rs)@),
        r is Ok ==> utf16(text@).len() <= 0xFFFF,
        match r {
            Ok(()) => true,
            Err(StringPatchError::TextTooLong) => utf16(text@).len() > 0xFFFF,
            Err(StringPatchError::BlockMissing) => !has_tn(
                old(rs)@,
                RT_STRING,
                string_block_id(id),
            ),
            Err(StringPatchError::BlockMalformed) => !(match crate::restree::tn_first_data(
                old(rs)@,
                RT_STRING,
                string_block_id(id),
            ) {
                Some(d) => block_ok(d),
                None => true,
            }),
        },
{
    let units = encode_utf16_units(text);
    if units.len() > 0xFFFF {
        return Err(StringPatchError::TextTooLong);
    }
    let block = id / 16 + 1;
    let i = match rs.find_type_name(RT_STRING, block) {
        Some(i) => i,
        None => {
            return Err(StringPatchError::BlockMissing);
        },
    };
    let mut strings = match decode_block(&rs.entries[i].data) {
        Some(ss) => ss,
        None => {
            proof {
                crate::restree::lemma_tn_first_data_at(rs@, RT_STRING, block, i as int);
            }
            return Err(StringPatchError::BlockMalformed);
        },
    };
    let idx = (id % 16) as usize;
    strings[idx] = units;
    proof {
        assert(uvs(strings@) =~= block_strings(old(rs)@[i as int].data).update(
            string_index(id),
            utf16(text@),
        ));
    }
    let data = encode_block(&strings);
    rs.replace_data_at(i, data);
    Ok(())
}

/// A string step keeps every key in place.
pub proof fn lemma_string_applied_keys(
    es: Seq<ResEntryV>,
    id: u32,
    units: Seq<u16>,
    es2: Seq<ResEntryV>,
)
    requires
        string_applied(es, id, units, es2),
    ensures
        keys_pointwise(es, es2),
{
    let i = choose|i: int|
        {
            &&& crate::restree::is_first_tn(
                es,
                crate::restree::RT_STRING,
                crate::strres::string_block_id(id),
                i,
            )
            &&& crate::strres::block_ok(es[i].data)
            &&& es2 == es.update(
                i,
                crate::restree::with_data(
                    es[i],
                    crate::strres::enc_block(
                        crate::strres::block_strings(es[i].data).update(
                            crate::strres::string_index(id),
                            units,
                        ),
                    ),
                ),
            )
        };
    crate::restree::lemma_update_keys_pointwise(es, i, es2[i].data);
}

/// One string step touches only a string table block.
pub proof fn lemma_string_step_stable(
    es: Seq<ResEntryV>,
    id: u32,
    units: Seq<u16>,
    es2: Seq<ResEntryV>,
    t: u32,
    n: u32,
)
    requires
        string_applied(es, id, units, es2),
        t != RT_STRING,
    ensures
        tn_first_data(es2, t, n) == tn_first_data(es, t, n),
{
    let b = string_block_id(id);
    let i = choose|i: int|
        {
            &&& is_first_tn(es, RT_STRING, b, i)
            &&& block_ok(es[i].data)
            &&& es2 == es.update(
                i,
                with_data(
                    es[i],
                    crate::strres::enc_block(
                        block_strings(es[i].data).update(string_index(id), units),
                    ),
                ),
            )
        };
    lemma_string_applied_keys(es, id, units, es2);
    assert forall|j: int|
        0 <= j < es.len() && (#[trigger] es2[j]).data != es[j].data implies es[j].type_id != t by {
        assert(j == i);
        assert(es[i].type_id == RT_STRING);
    }
    lemma_lookup_stable(es, es2, t, n);
}

/// A replaced string reads back as the replacement: after the string
/// step, its block decodes and holds the new code units in its slot.
pub proof fn lemma_string_round_trip(
    es: Seq<ResEntryV>,
    id: u32,
    units: Seq<u16>,
    es2: Seq<ResEntryV>,
)
    requires
        string_applied(es, id, units, es2),
        units.len() <= 0xFFFF,
    ensures
        tn_first_data(es2, RT_STRING, string_block_id(id)) matches Some(d) && block_ok(d)
            && block_strings(d)[string_index(id)] == units,
{
    let b = string_block_id(id);
    let i = choose|i: int|
        {
            &&& is_first_tn(es, RT_STRING, b, i)
            &&& block_ok(es[i].data)
            &&& es2 == es.update(
                i,
                with_data(
                    es[i],
                    enc_block(
                        block_strings(es[i].data).update(string_index(id), units),
                    ),
                ),
            )
        };
    lemma_string_applied_keys(es, id, units, es2);
    crate::restree::lemma_keys_pointwise_lookups(es, es2, RT_STRING, b);
    assert(is_first_tn(es2, RT_STRING, b, i));
    crate::restree::lemma_tn_first_data_at(es2, RT_STRING, b, i);
    let ss = block_strings(es[i].data);
    lemma_block_strings_lens(es[i].data, 0, 16);
    let ss2 = ss.update(string_index(id), units);
    assert(forall|x: int| 0 <= x < ss2.len() ==> (#[trigger] ss2[x]).len() <= 0xFFFF);
    lemma_block_round_trip(Seq::<u8>::empty(), ss2);
    assert(Seq::<u8>::empty() + enc_block(ss2) =~= enc_block(ss2));
    assert(block_strings(enc_block(ss2)) == ss2);
}

/// One string step leaves every other block resource as it was.
pub proof fn lemma_string_step_other_block(
    es: Seq<ResEntryV>,
    id: u32,
    units: Seq<u16>,
    es2: Seq<ResEntryV>,
    b: u32,
)
    requires
        string_applied(es, id, units, es2),
        b != string_block_id(id),
    ensures
        tn_first_data(es2, RT_STRING, b) == tn_first_data(es, RT_STRING, b),
{
    let blk = string_block_id(id);
    let i = choose|i: int|
        {
            &&& is_first_tn(es, RT_STRING, blk, i)
            &&& block_ok(es[i].data)
            &&& es2 == es.update(
                i,
                with_data(
                    es[i],
                    enc_block(block_strings(es[i].data).update(string_index(id), units)),
                ),
            )
        };
    lemma_string_applied_keys(es, id, units, es2);
    crate::restree::lemma_keys_pointwise_lookups(es, es2, RT_STRING, b);
    if has_tn(es, RT_STRING, b) {
        crate::restree::lemma_has_tn_first(es, RT_STRING, b);
        let w = choose|w: int| is_first_tn(es, RT_STRING, b, w);
        assert(is_first_tn(es, RT_STRING, b, w));
        crate::restree::lemma_tn_first_data_at(es, RT_STRING, b, w);
        assert(is_first_tn(es2, RT_STRING, b, w));
        crate::restree::lemma_tn_first_data_at(es2, RT_STRING, b, w);
        assert(es[w].name_id == b);
        assert(es[i].name_id == blk);
        assert(w != i);
        assert(es2[w].data == es[w].data);
    }
}

} // verus!
