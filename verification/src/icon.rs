//! Icon group replacement. An icon payload is an icon file: a directory
//! of image variants plus the image bytes. Replacing the group rewrites
//! the group directory resource and every image it references, slot by
//! slot, keeping the template's image identifiers.

use vstd::prelude::*;

use crate::bytes::{
    le16, le32, le16b, le32b, read_u16_le, read_u32_le, copy_range, push_u16_le, push_u32_le,
    append_range,
};
use crate::restree::{
    has_t, has_tn, is_first_t, is_first_tn, keys_pointwise, lemma_lookup_stable, tn_first_data,
    with_data, ResEntryV, ResourceSet, RT_GROUP_ICON, RT_ICON,
};

verus! {

/// Number of image variants in an icon payload.
pub open spec fn ico_count(b: Seq<u8>) -> int {
    le16(b, 4)
}

/// Byte size of image `i`.
pub open spec fn ico_img_size(b: Seq<u8>, i: int) -> int {
    le32(b, 6 + 16 * i + 8)
}

/// File offset of image `i`.
pub open spec fn ico_img_off(b: Seq<u8>, i: int) -> int {
    le32(b, 6 + 16 * i + 12)
}

/// The bytes of image `i`.
pub open spec fn ico_image(b: Seq<u8>, i: int) -> Seq<u8> {
    b.subrange(ico_img_off(b, i), ico_img_off(b, i) + ico_img_size(b, i))
}

/// The descriptive head of directory entry `i`: width, height, colors,
/// reserved byte, planes and bit depth.
pub open spec fn ico_meta(b: Seq<u8>, i: int) -> Seq<u8> {
    b.subrange(6 + 16 * i, 6 + 16 * i + 8)
}

/// A well-formed icon payload: the icon magic, at least one image, and
/// every image range inside the file.
pub open spec fn ico_ok(b: Seq<u8>) -> bool {
    &&& b.len() >= 6
    &&& le16(b, 0) == 0
    &&& le16(b, 2) == 1
    &&& ico_count(b) >= 1
    &&& 6 + 16 * ico_count(b) <= b.len()
    &&& forall|i: int|
        0 <= i < ico_count(b) ==> #[trigger] ico_img_off(b, i) + ico_img_size(b, i) <= b.len()
}

/// All image variants of an icon payload, in directory order.
pub open spec fn ico_images(b: Seq<u8>) -> Seq<Seq<u8>> {
    Seq::new(ico_count(b) as nat, |i: int| ico_image(b, i))
}

/// A well-formed icon group resource: the icon magic and a full entry
/// table.
pub open spec fn grp_ok(g: Seq<u8>) -> bool {
    &&& g.len() >= 6
    &&& le16(g, 0) == 0
    &&& le16(g, 2) == 1
    &&& 6 + 14 * le16(g, 4) <= g.len()
}

/// Number of images the group references.
pub open spec fn grp_count(g: Seq<u8>) -> int {
    le16(g, 4)
}

/// The image identifier referenced by group entry `i`.
pub open spec fn grp_id(g: Seq<u8>, i: int) -> int {
    le16(g, 6 + 14 * i + 12)
}

/// All referenced image identifiers.
pub open spec fn grp_ids(g: Seq<u8>) -> Seq<u16> {
    Seq::new(grp_count(g) as nat, |i: int| grp_id(g, i) as u16)
}

/// The group references each image once.
pub open spec fn grp_ids_distinct(g: Seq<u8>) -> bool {
    forall|x: int, y: int| 0 <= x < y < grp_count(g) ==> grp_id(g, x) != grp_id(g, y)
}

/// One group directory entry: the payload entry's descriptive head, the
/// image size, and the resource identifier in place of a file offset.
pub open spec fn grp_entry(b: Seq<u8>, i: int, id: int) -> Seq<u8> {
    ico_meta(b, i) + le32b(ico_img_size(b, i)) + le16b(id)
}

/// The first `k` group entries.
pub open spec fn grp_entries_upto(b: Seq<u8>, ids: Seq<u16>, k: int) -> Seq<u8>
    decreases k,
{
    if k <= 0 {
        Seq::empty()
    } else {
        grp_entries_upto(b, ids, k - 1) + grp_entry(b, k - 1, ids[k - 1] as int)
    }
}

/// The group resource built from an icon payload and the identifiers to
/// keep.
pub open spec fn grp_data(b: Seq<u8>, ids: Seq<u16>) -> Seq<u8> {
    le16b(0) + le16b(1) + le16b(ids.len() as int) + grp_entries_upto(b, ids, ids.len() as int)
}

proof fn lemma_grp_entries_len(b: Seq<u8>, ids: Seq<u16>, k: int)
    requires
        0 <= k,
        ico_ok(b),
        k <= ico_count(b),
    ensures
        grp_entries_upto(b, ids, k).len() == 14 * k,
    decreases k,
{
    if k > 0 {
        lemma_grp_entries_len(b, ids, k - 1);
    }
}

/// Byte `j` of group entry `i` inside the entry run.
proof fn lemma_grp_entries_at(b: Seq<u8>, ids: Seq<u16>, k: int, i: int, j: int)
    requires
        0 <= i < k,
        0 <= j < 14,
        ico_ok(b),
        k <= ico_count(b),
    ensures
        grp_entries_upto(b, ids, k).len() == 14 * k,
        grp_entries_upto(b, ids, k)[14 * i + j] == grp_entry(b, i, ids[i] as int)[j],
    decreases k,
{
    lemma_grp_entries_len(b, ids, k);
    if i == k - 1 {
        lemma_grp_entries_len(b, ids, k - 1);
    } else {
        lemma_grp_entries_at(b, ids, k - 1, i, j);
        lemma_grp_entries_len(b, ids, k - 1);
    }
}

/// A built group reads back: its magic, its count and each identifier.
pub proof fn lemma_grp_round_trip(b: Seq<u8>, ids: Seq<u16>)
    requires
        ids.len() <= 0xFFFF,
        ico_ok(b),
        ids.len() == ico_count(b),
    ensures
        grp_ok(grp_data(b, ids)),
        grp_count(grp_data(b, ids)) == ids.len(),
        forall|x: int| 0 <= x < ids.len() ==> #[trigger] grp_id(grp_data(b, ids), x) == ids[x],
{
    let g = grp_data(b, ids);
    let c = ids.len() as int;
    lemma_grp_entries_len(b, ids, c);
    assert(g.len() == 6 + 14 * c);
    assert(le16(g, 0) == 0);
    assert(le16(g, 2) == 1);
    vstd::arithmetic::div_mod::lemma_fundamental_div_mod(c, 256);
    assert(le16(g, 4) == c);
    assert forall|x: int| 0 <= x < c implies #[trigger] grp_id(g, x) == ids[x] by {
        lemma_grp_entries_at(b, ids, c, x, 12);
        lemma_grp_entries_at(b, ids, c, x, 13);
        let e = grp_entry(b, x, ids[x] as int);
        assert(e[12] == (ids[x] as int % 256) as u8);
        assert(e[13] == ((ids[x] as int / 256) % 256) as u8);
        assert(g[6 + 14 * x + 12] == e[12]);
        assert(g[6 + 14 * x + 13] == e[13]);
        vstd::arithmetic::div_mod::lemma_fundamental_div_mod(ids[x] as int, 256);
    }
}

/// The icon group of a resource set, re-read: the first group resource's
/// directory, resolved image by image. Meaningful only when the group
/// decodes and every referenced image is present.
pub open spec fn spec_icon_images(es: Seq<ResEntryV>) -> Option<Seq<Seq<u8>>> {
    if has_t(es, RT_GROUP_ICON) {
        let gi = choose|gi: int| is_first_t(es, RT_GROUP_ICON, gi);
        let g = es[gi].data;
        if grp_ok(g) && (forall|x: int|
            0 <= x < grp_count(g) ==> tn_first_data(es, RT_ICON, (#[trigger] grp_id(g, x)) as u32)
                is Some) {
            Some(
                Seq::new(
                    grp_count(g) as nat,
                    |x: int| tn_first_data(es, RT_ICON, grp_id(g, x) as u32)->Some_0,
                ),
            )
        } else {
            None
        }
    } else {
        None
    }
}

/// The first group position is the one the `choose` picks.
pub proof fn lemma_icon_group_choose(es: Seq<ResEntryV>, gi: int)
    requires
        is_first_t(es, RT_GROUP_ICON, gi),
    ensures
        has_t(es, RT_GROUP_ICON),
        (choose|g2: int| is_first_t(es, RT_GROUP_ICON, g2)) == gi,
{
    assert(has_t(es, RT_GROUP_ICON));
    let w = choose|g2: int| is_first_t(es, RT_GROUP_ICON, g2);
    assert(is_first_t(es, RT_GROUP_ICON, w));
    crate::restree::lemma_first_t_unique(es, RT_GROUP_ICON, gi, w);
}

/// Why an icon edit was refused.
#[derive(Debug)]
pub enum IconPatchError {
    /// The payload is not a well-formed icon file.
    IconInvalid,
    /// The template has no icon group resource.
    GroupMissing,
    /// The template's group is malformed, references an image twice, or
    /// carries a different number of variants than the payload.
    LayoutMismatch,
    /// An image the template's group references is not in the template.
    ImageMissing,
}

/// The effect of replacing the icon group with payload `ico`, witnessed
/// by the group's position `gi`: the group resource is rebuilt from the
/// payload under the template's image identifiers, each referenced image
/// carries one payload variant, and nothing else changes.
pub open spec fn icon_applied_at(
    es: Seq<ResEntryV>,
    ico: Seq<u8>,
    es2: Seq<ResEntryV>,
    gi: int,
) -> bool {
    let g = es[gi].data;
    &&& ico_ok(ico)
    &&& is_first_t(es, RT_GROUP_ICON, gi)
    &&& grp_ok(g)
    &&& grp_count(g) == ico_count(ico)
    &&& grp_ids_distinct(g)
    &&& keys_pointwise(es, es2)
    &&& es2[gi].data == grp_data(ico, grp_ids(g))
    &&& forall|x: int|
        0 <= x < ico_count(ico) ==> has_tn(es, RT_ICON, (#[trigger] grp_id(g, x)) as u32)
    &&& forall|x: int|
        0 <= x < ico_count(ico) ==> exists|w: int|
            is_first_tn(es, RT_ICON, (#[trigger] grp_id(g, x)) as u32, w) && es2[w].data
                == ico_image(ico, x)
    &&& forall|j: int|
        0 <= j < es.len() && (#[trigger] es2[j]).data != es[j].data ==> j == gi || exists|x: int|
            0 <= x < ico_count(ico) && is_first_tn(es, RT_ICON, grp_id(g, x) as u32, j)
}

/// The effect of replacing the icon group with payload `ico`.
pub open spec fn icon_applied(es: Seq<ResEntryV>, ico: Seq<u8>, es2: Seq<ResEntryV>) -> bool {
    exists|gi: int| icon_applied_at(es, ico, es2, gi)
}

/// The first `k` referenced images have entries in the template.
pub open spec fn images_have_slots(es0: Seq<ResEntryV>, ids: Seq<u16>, k: int) -> bool {
    forall|y: int| 0 <= y < k ==> has_tn(es0, RT_ICON, (#[trigger] ids[y]) as u32)
}

/// In `es`, the first `k` referenced images carry the payload variants.
pub open spec fn images_replaced(
    es0: Seq<ResEntryV>,
    ico: Seq<u8>,
    ids: Seq<u16>,
    k: int,
    es: Seq<ResEntryV>,
) -> bool {
    forall|y: int|
        0 <= y < k ==> exists|w: int|
            is_first_tn(es0, RT_ICON, (#[trigger] ids[y]) as u32, w) && es[w].data == ico_image(
                ico,
                y,
            )
}

/// Between `es0` and `es`, data changed only at the first `k` referenced
/// images' positions.
pub open spec fn only_images_changed(
    es0: Seq<ResEntryV>,
    ids: Seq<u16>,
    k: int,
    es: Seq<ResEntryV>,
) -> bool {
    forall|j: int|
        0 <= j < es0.len() && (#[trigger] es[j]).data != es0[j].data ==> exists|y: int|
            0 <= y < k && is_first_tn(es0, RT_ICON, ids[y] as u32, j)
}

/// Validates an icon payload.
#[verifier::loop_isolation(false)]
fn check_ico(ico: &Vec<u8>) -> (r: Option<u16>)
    ensures
        match r {
            Some(c) => ico_ok(ico@) && c == ico_count(ico@),
            None => !ico_ok(ico@),
        },
{
    let n = ico.len();
    if n < 6 {
        return None;
    }
    let zero = read_u16_le(ico, 0);
    let one = read_u16_le(ico, 2);
    let c = read_u16_le(ico, 4);
    if zero != 0 || one != 1 || c < 1 {
        return None;
    }
    if 6 + 16 * (c as u64) > n as u64 {
        return None;
    }
    let mut i: usize = 0;
    while i < c as usize
        invariant
            i <= c as usize,
            forall|x: int|
                0 <= x < i ==> #[trigger] ico_img_off(ico@, x) + ico_img_size(ico@, x) <= ico@.len(),
        decreases c as usize - i,
    {
        let off = read_u32_le(ico, 6 + 16 * i + 12);
        let size = read_u32_le(ico, 6 + 16 * i + 8);
        if off as u64 + size as u64 > n as u64 {
            proof {
                assert(ico_img_off(ico@, i as int) + ico_img_size(ico@, i as int) > ico@.len());
            }
            return None;
        }
        i = i + 1;
    }
    Some(c)
}

/// Validates the template's group directory against the payload's
/// variant count and collects the image identifiers it references.
#[verifier::loop_isolation(false)]
fn check_group(g: &Vec<u8>, c: u16) -> (r: Option<Vec<u16>>)
    ensures
        match r {
            Some(ids) => {
                &&& grp_ok(g@)
                &&& grp_count(g@) == c
                &&& grp_ids_distinct(g@)
                &&& ids@ == grp_ids(g@)
                &&& ids@.len() == c
            },
            None => !(grp_ok(g@) && grp_count(g@) == c && grp_ids_distinct(g@)),
        },
{
    let glen = g.len();
    if glen < 6 {
        return None;
    }
    let gzero = read_u16_le(g, 0);
    let gone = read_u16_le(g, 2);
    let gcnt = read_u16_le(g, 4);
    if gzero != 0 || gone != 1 {
        return None;
    }
    if 6 + 14 * (gcnt as u64) > glen as u64 {
        return None;
    }
    if gcnt != c {
        return None;
    }
    let mut ids: Vec<u16> = Vec::new();
    let mut i: usize = 0;
    while i < c as usize
        invariant
            i <= c as usize,
            ids@.len() == i,
            forall|x: int| 0 <= x < i ==> ids@[x] == (#[trigger] grp_id(g@, x)) as u16,
        decreases c as usize - i,
    {
        let id = read_u16_le(g, 6 + 14 * i + 12);
        ids.push(id);
        i = i + 1;
    }
    proof {
        assert(ids@ =~= grp_ids(g@));
    }
    let mut x: usize = 0;
    while x < c as usize
        invariant
            x <= c as usize,
            ids@ == grp_ids(g@),
            forall|a: int, b2: int| 0 <= a < b2 < x ==> grp_id(g@, a) != grp_id(g@, b2),
        decreases c as usize - x,
    {
        let mut y: usize = 0;
        while y < x
            invariant
                y <= x < c as usize,
                ids@ == grp_ids(g@),
                forall|a: int| 0 <= a < y ==> grp_id(g@, a) != grp_id(g@, x as int),
            decreases x - y,
        {
            if ids[y] == ids[x] {
                proof {
                    assert(grp_id(g@, y as int) == grp_id(g@, x as int));
                    assert(!grp_ids_distinct(g@));
                }
                return None;
            }
            y = y + 1;
        }
        x = x + 1;
    }
    proof {
        assert(grp_ids_distinct(g@));
    }
    Some(ids)
}

/// Replaces the data of each referenced image entry with the matching
/// payload variant; every other entry's data stays, and every key stays.
#[verifier::loop_isolation(false)]
fn replace_images(rs: &mut ResourceSet, ico: &Vec<u8>, c: u16, ids: &Vec<u16>) -> (r: Result<
    (),
    (),
>)
    requires
        ico_ok(ico@),
        c == ico_count(ico@),
        ids@.len() == c,
        forall|x: int, y: int| 0 <= x < y < c ==> ids@[x] != ids@[y],
    ensures
        r is Ok ==> {
            &&& keys_pointwise(old(rs)@, final(rs)@)
            &&& images_have_slots(old(rs)@, ids@, c as int)
            &&& images_replaced(old(rs)@, ico@, ids@, c as int, final(rs)@)
            &&& only_images_changed(old(rs)@, ids@, c as int, final(rs)@)
        },
        r is Err ==> exists|y: int|
            0 <= y < c && !has_tn(old(rs)@, RT_ICON, (#[trigger] ids@[y]) as u32),
        images_have_slots(old(rs)@, ids@, c as int) ==> r is Ok,
{
    let ghost es0 = rs@;
    let nlen = ico.len();
    let mut x: usize = 0;
    while x < c as usize
        invariant
            x <= c as usize,
            rs@.len() == es0.len(),
            keys_pointwise(es0, rs@),
            images_have_slots(es0, ids@, x as int),
            images_replaced(es0, ico@, ids@, x as int, rs@),
            only_images_changed(es0, ids@, x as int, rs@),
        decreases c as usize - x,
    {
        let id = ids[x];
        proof {
            crate::restree::lemma_keys_pointwise_lookups(es0, rs@, RT_ICON, id as u32);
        }
        let wi = match rs.find_type_name(RT_ICON, id as u32) {
            Some(w) => w,
            None => {
                proof {
                    assert(!has_tn(es0, RT_ICON, ids@[x as int] as u32));
                }
                return Err(());
            },
        };
        let ghost before = rs@;
        proof {
            assert(ico_img_off(ico@, x as int) + ico_img_size(ico@, x as int) <= ico@.len());
        }
        let off = read_u32_le(ico, 6 + 16 * x + 12);
        let size = read_u32_le(ico, 6 + 16 * x + 8);
        let img = copy_range(ico, off as usize, off as usize + size as usize);
        proof {
            assert(img@ == ico_image(ico@, x as int));
        }
        rs.replace_data_at(wi, img);
        proof {
            crate::restree::lemma_update_keys_pointwise(before, wi as int, img@);
            crate::restree::lemma_keys_pointwise_trans(es0, before, rs@);
            assert(is_first_tn(es0, RT_ICON, ids@[x as int] as u32, wi as int));
            assert(rs@[wi as int].data == ico_image(ico@, x as int));
            assert(images_have_slots(es0, ids@, x + 1));
            assert(images_replaced(es0, ico@, ids@, x + 1, rs@)) by {
                assert forall|y: int| 0 <= y < x + 1 implies exists|w: int|
                    is_first_tn(es0, RT_ICON, (#[trigger] ids@[y]) as u32, w) && rs@[w].data
                        == ico_image(ico@, y) by {
                    if y < x {
                        assert(images_replaced(es0, ico@, ids@, x as int, before));
                        let w = choose|w: int|
                            is_first_tn(es0, RT_ICON, (ids@[y]) as u32, w) && before[w].data
                                == ico_image(ico@, y);
                        assert(ids@[y] != ids@[x as int]);
                        assert(es0[w].name_id == ids@[y] as u32);
                        assert(es0[wi as int].name_id == ids@[x as int] as u32);
                        assert(w != wi as int);
                        assert(rs@[w].data == before[w].data);
                        assert(is_first_tn(es0, RT_ICON, (ids@[y]) as u32, w) && rs@[w].data
                            == ico_image(ico@, y));
                    } else {
                        assert(is_first_tn(es0, RT_ICON, (ids@[y]) as u32, wi as int)
                            && rs@[wi as int].data == ico_image(ico@, y));
                    }
                }
            }
            assert(only_images_changed(es0, ids@, x + 1, rs@)) by {
                assert forall|j: int|
                    0 <= j < es0.len() && (#[trigger] rs@[j]).data != es0[j].data implies exists|
                    y: int,
                |
                    0 <= y < x + 1 && is_first_tn(es0, RT_ICON, ids@[y] as u32, j) by {
                    if j != wi as int {
                        assert(rs@[j].data == before[j].data);
                        assert(only_images_changed(es0, ids@, x as int, before));
                        let y = choose|y: int|
                            0 <= y < x && is_first_tn(es0, RT_ICON, ids@[y] as u32, j);
                        assert(0 <= y < x + 1 && is_first_tn(es0, RT_ICON, ids@[y] as u32, j));
                    } else {
                        assert(0 <= x < x + 1 && is_first_tn(
                            es0,
                            RT_ICON,
                            ids@[x as int] as u32,
                            wi as int,
                        ));
                    }
                }
            }
        }
        x = x + 1;
    }
    Ok(())
}

/// Builds the replacement group directory from the payload, keeping the
/// template's image identifiers.
#[verifier::loop_isolation(false)]
fn build_group(ico: &Vec<u8>, c: u16, ids: &Vec<u16>) -> (r: Vec<u8>)
    requires
        ico_ok(ico@),
        c == ico_count(ico@),
        ids@.len() == c,
    ensures
        r@ == grp_data(ico@, ids@),
{
    let mut gd: Vec<u8> = Vec::new();
    push_u16_le(&mut gd, 0);
    push_u16_le(&mut gd, 1);
    push_u16_le(&mut gd, c);
    proof {
        assert(gd@ =~= le16b(0) + le16b(1) + le16b(c as int) + grp_entries_upto(ico@, ids@, 0));
    }
    let mut x: usize = 0;
    while x < c as usize
        invariant
            x <= c as usize,
            gd@ == le16b(0) + le16b(1) + le16b(c as int) + grp_entries_upto(ico@, ids@, x as int),
        decreases c as usize - x,
    {
        let ghost gd0 = gd@;
        append_range(&mut gd, ico, 6 + 16 * x, 6 + 16 * x + 8);
        let size = read_u32_le(ico, 6 + 16 * x + 8);
        push_u32_le(&mut gd, size);
        push_u16_le(&mut gd, ids[x]);
        proof {
            assert(gd@ =~= gd0 + grp_entry(ico@, x as int, ids@[x as int] as int));
            assert(gd@ =~= le16b(0) + le16b(1) + le16b(c as int) + grp_entries_upto(
                ico@,
                ids@,
                x + 1,
            ));
        }
        x = x + 1;
    }
    proof {
        assert(gd@ == grp_data(ico@, ids@));
    }
    gd
}

/// The template's first icon group fits the payload: well formed, the
/// same number of variants, each referenced once.
pub open spec fn group_fits(es: Seq<ResEntryV>, ico: Seq<u8>) -> bool {
    let gi = choose|gi: int| is_first_t(es, RT_GROUP_ICON, gi);
    let g = es[gi].data;
    &&& grp_ok(g)
    &&& grp_count(g) == ico_count(ico)
    &&& grp_ids_distinct(g)
}

/// Every image the template's first group references is present.
pub open spec fn group_images_present(es: Seq<ResEntryV>, ico: Seq<u8>) -> bool {
    let gi = choose|gi: int| is_first_t(es, RT_GROUP_ICON, gi);
    let g = es[gi].data;
    forall|x: int|
        0 <= x < ico_count(ico) ==> has_tn(es, RT_ICON, (#[trigger] grp_id(g, x)) as u32)
}

/// An icon edit applies: the payload is well formed, the template has a
/// group, the group fits the payload, and the referenced images exist.
pub open spec fn icon_edit_ok(es: Seq<ResEntryV>, ico: Seq<u8>) -> bool {
    &&& ico_ok(ico)
    &&& has_t(es, RT_GROUP_ICON)
    &&& group_fits(es, ico)
    &&& group_images_present(es, ico)
}

/// Assembles the per-step facts into the icon replacement relation.
proof fn lemma_icon_assemble(
    es0: Seq<ResEntryV>,
    ico: Seq<u8>,
    mid: Seq<ResEntryV>,
    es2: Seq<ResEntryV>,
    gi: int,
    ids: Seq<u16>,
    c: int,
)
    requires
        ico_ok(ico),
        c == ico_count(ico),
        is_first_t(es0, RT_GROUP_ICON, gi),
        grp_ok(es0[gi].data),
        grp_count(es0[gi].data) == c,
        grp_ids_distinct(es0[gi].data),
        ids == grp_ids(es0[gi].data),
        ids.len() == c,
        keys_pointwise(es0, mid),
        images_have_slots(es0, ids, c),
        images_replaced(es0, ico, ids, c, mid),
        only_images_changed(es0, ids, c, mid),
        es2 == mid.update(gi, with_data(mid[gi], grp_data(ico, ids))),
    ensures
        icon_applied_at(es0, ico, es2, gi),
{
    let g = es0[gi].data;
    crate::restree::lemma_update_keys_pointwise(mid, gi, grp_data(ico, ids));
    crate::restree::lemma_keys_pointwise_trans(es0, mid, es2);
    assert(es2[gi].data == grp_data(ico, grp_ids(g)));
    assert forall|x: int|
        0 <= x < ico_count(ico) implies has_tn(es0, RT_ICON, (#[trigger] grp_id(g, x)) as u32) by {
        assert(ids[x] == grp_id(g, x) as u16);
        assert(has_tn(es0, RT_ICON, ids[x] as u32));
    }
    assert forall|x: int| 0 <= x < ico_count(ico) implies exists|w: int|
        is_first_tn(es0, RT_ICON, (#[trigger] grp_id(g, x)) as u32, w) && es2[w].data == ico_image(
            ico,
            x,
        ) by {
        assert(ids[x] == grp_id(g, x) as u16);
        let w = choose|w: int|
            is_first_tn(es0, RT_ICON, ids[x] as u32, w) && mid[w].data == ico_image(ico, x);
        assert(es0[w].type_id == RT_ICON);
        assert(es0[gi].type_id == RT_GROUP_ICON);
        assert(w != gi);
        assert(es2[w].data == mid[w].data);
        assert(is_first_tn(es0, RT_ICON, (grp_id(g, x)) as u32, w) && es2[w].data == ico_image(
            ico,
            x,
        ));
    }
    assert forall|j: int|
        0 <= j < es0.len() && (#[trigger] es2[j]).data != es0[j].data implies j == gi || exists|
        x: int,
    |
        0 <= x < ico_count(ico) && is_first_tn(es0, RT_ICON, grp_id(g, x) as u32, j) by {
        if j != gi {
            assert(es2[j].data == mid[j].data);
            let y = choose|y: int| 0 <= y < c && is_first_tn(es0, RT_ICON, ids[y] as u32, j);
            assert(ids[y] == grp_id(g, y) as u16);
            assert(0 <= y < ico_count(ico) && is_first_tn(es0, RT_ICON, grp_id(g, y) as u32, j));
        }
    }
}

/// Replaces the entire icon group: the group directory resource and each
/// image variant it references, keeping the template's identifiers and
/// every other resource's data.
pub fn apply_icon(rs: &mut ResourceSet, ico: &Vec<u8>) -> (r: Result<(), IconPatchError>)
    ensures
        r is Ok ==> icon_applied(old(rs)@, ico@, final(rs)@),
        icon_edit_ok(old(rs)@, ico@) ==> r is Ok,
        match r {
            Ok(()) => true,
            Err(IconPatchError::IconInvalid) => !ico_ok(ico@),
            Err(IconPatchError::GroupMissing) => ico_ok(ico@) && !has_t(old(rs)@, RT_GROUP_ICON),
            Err(IconPatchError::LayoutMismatch) => ico_ok(ico@) && has_t(old(rs)@, RT_GROUP_ICON)
                && !group_fits(old(rs)@, ico@),
            Err(IconPatchError::ImageMissing) => ico_ok(ico@) && has_t(old(rs)@, RT_GROUP_ICON)
                && group_fits(old(rs)@, ico@) && !group_images_present(old(rs)@, ico@),
        },
{
    let c = match check_ico(ico) {
        Some(c) => c,
        None => {
            return Err(IconPatchError::IconInvalid);
        },
    };
    let gi = match rs.find_type(RT_GROUP_ICON) {
        Some(i) => i,
        None => {
            return Err(IconPatchError::GroupMissing);
        },
    };
    let ghost es0 = rs@;
    let ghost g = es0[gi as int].data;
    proof {
        lemma_icon_group_choose(es0, gi as int);
    }
    let ids = match check_group(&rs.entries[gi].data, c) {
        Some(ids) => ids,
        None => {
            proof {
                assert(!group_fits(es0, ico@));
            }
            return Err(IconPatchError::LayoutMismatch);
        },
    };
    proof {
        assert(group_fits(es0, ico@));
        assert forall|x: int, y: int| 0 <= x < y < c implies ids@[x] != ids@[y] by {
            assert(grp_id(g, x) != grp_id(g, y));
        }
    }
    match replace_images(rs, ico, c, &ids) {
        Ok(()) => (),
        Err(()) => {
            proof {
                let y = choose|y: int|
                    0 <= y < c && !has_tn(es0, RT_ICON, (#[trigger] ids@[y]) as u32);
                assert(ids@[y] == grp_id(g, y) as u16);
                assert(!has_tn(es0, RT_ICON, (grp_id(g, y)) as u32));
                assert(!group_images_present(es0, ico@));
            }
            return Err(IconPatchError::ImageMissing);
        },
    }
    let ghost mid = rs@;
    let gd = build_group(ico, c, &ids);
    rs.replace_data_at(gi, gd);
    proof {
        lemma_icon_assemble(es0, ico@, mid, rs@, gi as int, ids@, c as int);
    }
    Ok(())
}

/// The icon step keeps every key in place.
pub proof fn lemma_icon_applied_keys(es: Seq<ResEntryV>, ico: Seq<u8>, es2: Seq<ResEntryV>)
    requires
        icon_applied(es, ico, es2),
    ensures
        keys_pointwise(es, es2),
{
    let gi = choose|gi: int| crate::icon::icon_applied_at(es, ico, es2, gi);
}

/// The icon step touches only icon images and the icon group.
pub proof fn lemma_icon_step_stable(
    es: Seq<ResEntryV>,
    ico: Seq<u8>,
    es2: Seq<ResEntryV>,
    t: u32,
    n: u32,
)
    requires
        icon_applied(es, ico, es2),
        t != RT_ICON,
        t != RT_GROUP_ICON,
    ensures
        tn_first_data(es2, t, n) == tn_first_data(es, t, n),
{
    let gi = choose|gi: int| icon_applied_at(es, ico, es2, gi);
    let g = es[gi].data;
    lemma_icon_applied_keys(es, ico, es2);
    assert forall|j: int|
        0 <= j < es.len() && (#[trigger] es2[j]).data != es[j].data implies es[j].type_id != t by {
        if j == gi {
            assert(es[gi].type_id == RT_GROUP_ICON);
        } else {
            let x = choose|x: int|
                0 <= x < ico_count(ico) && is_first_tn(es, RT_ICON, grp_id(g, x) as u32, j);
            assert(es[j].type_id == RT_ICON);
        }
    }
    lemma_lookup_stable(es, es2, t, n);
}

} // verus!
