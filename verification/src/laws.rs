//! The engine's round-trip guarantees, stated over the resource model
//! that `commit` ties to the output bytes: what a committed edit reads
//! back as, and that edits of different resource types do not disturb
//! one another.

use vstd::prelude::*;

use crate::icon::{
    grp_count, grp_id, grp_ids, grp_ok, ico_count, ico_images, icon_applied, icon_applied_at,
    lemma_grp_round_trip, lemma_icon_applied_keys, lemma_icon_group_choose,
    spec_icon_images,
};
use crate::patchset::{
    opt_icon_applied, opt_rcdata_applied, patch_applied, strings_applied_seq,
};
use crate::restree::{
    has_t, has_tn, is_first_t, is_first_tn, keys_pointwise, lemma_keys_pointwise_lookups,
    lemma_lookup_stable, lemma_rcdata_applied_keys, lemma_tn_first_data_at, rcdata_applied,
    tn_first_data, with_data, ResEntryV, RT_GROUP_ICON, RT_ICON, RT_RCDATA, RT_STRING,
};
use crate::pe::{file_entries, spec_read_string, spec_resource, spec_icon_images_file, wf_file};
use crate::strres::{
    block_ok, block_strings, lemma_block_round_trip, lemma_block_strings_lens,
    lemma_string_applied_keys, lemma_string_round_trip, lemma_string_step_stable,
    string_applied, string_block_id, string_index, utf16,
};

verus! {

/// A replaced blob reads back as the replacement: after the blob step,
/// the first entry under its identifier holds exactly the new bytes.
pub proof fn lemma_rcdata_round_trip(
    es: Seq<ResEntryV>,
    id: u32,
    data: Seq<u8>,
    es2: Seq<ResEntryV>,
)
    requires
        rcdata_applied(es, id, data, es2),
    ensures
        tn_first_data(es2, RT_RCDATA, id) == Some(data),
{
    let i = choose|i: int|
        #![trigger is_first_tn(es, RT_RCDATA, id, i)]
        (is_first_tn(es, RT_RCDATA, id, i) && es2 == es.update(i, with_data(es[i], data)));
    lemma_rcdata_applied_keys(es, id, data, es2);
    lemma_keys_pointwise_lookups(es, es2, RT_RCDATA, id);
    assert(is_first_tn(es2, RT_RCDATA, id, i));
    lemma_tn_first_data_at(es2, RT_RCDATA, id, i);
}

/// A replaced icon group reads back as the payload: after the icon step,
/// re-reading the group resource resolves to exactly the payload's image
/// variants.
pub proof fn lemma_icon_round_trip(es: Seq<ResEntryV>, ico: Seq<u8>, es2: Seq<ResEntryV>)
    requires
        icon_applied(es, ico, es2),
    ensures
        spec_icon_images(es2) == Some(ico_images(ico)),
{
    let gi = choose|gi: int| icon_applied_at(es, ico, es2, gi);
    let g = es[gi].data;
    lemma_icon_applied_keys(es, ico, es2);
    lemma_keys_pointwise_lookups(es, es2, RT_GROUP_ICON, 0);
    assert(is_first_t(es2, RT_GROUP_ICON, gi));
    lemma_icon_group_choose(es2, gi);
    let g2 = es2[gi].data;
    assert(g2 == crate::icon::grp_data(ico, grp_ids(g)));
    assert(grp_ids(g).len() == grp_count(g));
    lemma_grp_round_trip(ico, grp_ids(g));
    assert(grp_count(g2) == ico_count(ico));
    let c = ico_count(ico);
    assert forall|x: int| 0 <= x < c implies tn_first_data(
        es2,
        RT_ICON,
        (#[trigger] grp_id(g2, x)) as u32,
    ) == Some(crate::icon::ico_image(ico, x)) by {
        assert(grp_id(g2, x) == grp_ids(g)[x]);
        assert(grp_ids(g)[x] == grp_id(g, x) as u16);
        let w = choose|w: int|
            is_first_tn(es2, RT_ICON, (grp_id(g, x)) as u32, w) && es2[w].data
                == crate::icon::ico_image(ico, x);
        assert(exists|w2: int|
            is_first_tn(es, RT_ICON, (grp_id(g, x)) as u32, w2) && es2[w2].data
                == crate::icon::ico_image(ico, x));
        let w2 = choose|w2: int|
            is_first_tn(es, RT_ICON, (grp_id(g, x)) as u32, w2) && es2[w2].data
                == crate::icon::ico_image(ico, x);
        lemma_keys_pointwise_lookups(es, es2, RT_ICON, (grp_id(g, x)) as u32);
        assert(is_first_tn(es2, RT_ICON, (grp_id(g, x)) as u32, w2));
        lemma_tn_first_data_at(es2, RT_ICON, (grp_id(g, x)) as u32, w2);
    }
    let imgs = spec_icon_images(es2)->Some_0;
    assert(imgs =~= ico_images(ico));
}

/// A chain of string steps touches only string table blocks.
pub proof fn lemma_strings_chain_stable(
    es: Seq<ResEntryV>,
    edits: Seq<(u32, Seq<char>)>,
    es2: Seq<ResEntryV>,
    t: u32,
    n: u32,
)
    requires
        strings_applied_seq(es, edits, es2),
        t != RT_STRING,
    ensures
        tn_first_data(es2, t, n) == tn_first_data(es, t, n),
    decreases edits.len(),
{
    if edits.len() == 0 {
        assert(es2 == es);
    } else {
        let mid = choose|mid: Seq<ResEntryV>|
            #![trigger string_applied(es, edits[0].0, utf16(edits[0].1), mid)]
            string_applied(es, edits[0].0, utf16(edits[0].1), mid) && strings_applied_seq(
                mid,
                edits.drop_first(),
                es2,
            );
        lemma_string_step_stable(es, edits[0].0, utf16(edits[0].1), mid, t, n);
        lemma_strings_chain_stable(mid, edits.drop_first(), es2, t, n);
    }
}

/// After a whole committed patch that carries a blob payload, the blob's
/// identifier reads back as exactly that payload, whatever its size.
pub proof fn lemma_patch_rcdata_extraction(
    es0: Seq<ResEntryV>,
    icon_v: Option<Seq<u8>>,
    id: u32,
    data: Seq<u8>,
    edits: Seq<(u32, Seq<char>)>,
    es2: Seq<ResEntryV>,
)
    requires
        patch_applied(es0, icon_v, Some((id, data)), edits, es2),
    ensures
        tn_first_data(es2, RT_RCDATA, id) == Some(data),
{
    let (m1, m2) = choose|m1: Seq<ResEntryV>, m2: Seq<ResEntryV>|
        #![trigger opt_icon_applied(es0, icon_v, m1), opt_rcdata_applied(m1, Some((id, data)), m2)]
        opt_icon_applied(es0, icon_v, m1) && opt_rcdata_applied(m1, Some((id, data)), m2)
            && strings_applied_seq(m2, edits, es2);
    lemma_rcdata_round_trip(m1, id, data, m2);
    lemma_strings_chain_stable(m2, edits, es2, RT_RCDATA, id);
}

/// After a whole committed patch that carries one string edit, the string
/// identifier reads back as exactly the text's code units.
pub proof fn lemma_patch_string_readback(
    es0: Seq<ResEntryV>,
    icon_v: Option<Seq<u8>>,
    rc_v: Option<(u32, Seq<u8>)>,
    id: u32,
    text: Seq<char>,
    es2: Seq<ResEntryV>,
)
    requires
        patch_applied(es0, icon_v, rc_v, seq![(id, text)], es2),
        utf16(text).len() <= 0xFFFF,
    ensures
        tn_first_data(es2, RT_STRING, string_block_id(id)) matches Some(d) && block_ok(d)
            && block_strings(d)[string_index(id)] == utf16(text),
{
    let edits: Seq<(u32, Seq<char>)> = seq![(id, text)];
    let (m1, m2) = choose|m1: Seq<ResEntryV>, m2: Seq<ResEntryV>|
        #![trigger opt_icon_applied(es0, icon_v, m1), opt_rcdata_applied(m1, rc_v, m2)]
        opt_icon_applied(es0, icon_v, m1) && opt_rcdata_applied(m1, rc_v, m2)
            && strings_applied_seq(m2, edits, es2);
    assert(edits.len() == 1);
    let mid = choose|mid: Seq<ResEntryV>|
        #![trigger string_applied(m2, edits[0].0, utf16(edits[0].1), mid)]
        string_applied(m2, edits[0].0, utf16(edits[0].1), mid) && strings_applied_seq(
            mid,
            edits.drop_first(),
            es2,
        );
    assert(edits.drop_first().len() == 0);
    assert(es2 == mid);
    assert(edits[0].0 == id && edits[0].1 == text);
    lemma_string_round_trip(m2, id, utf16(text), es2);
}

/// After a whole committed patch that carries an icon payload, the icon
/// group reads back as exactly the payload's image variants.
pub proof fn lemma_patch_icon_images(
    es0: Seq<ResEntryV>,
    ico: Seq<u8>,
    rc_v: Option<(u32, Seq<u8>)>,
    edits: Seq<(u32, Seq<char>)>,
    es2: Seq<ResEntryV>,
)
    requires
        patch_applied(es0, Some(ico), rc_v, edits, es2),
    ensures
        spec_icon_images(es2) == Some(ico_images(ico)),
{
    let (m1, m2) = choose|m1: Seq<ResEntryV>, m2: Seq<ResEntryV>|
        #![trigger opt_icon_applied(es0, Some(ico), m1), opt_rcdata_applied(m1, rc_v, m2)]
        opt_icon_applied(es0, Some(ico), m1) && opt_rcdata_applied(m1, rc_v, m2)
            && strings_applied_seq(m2, edits, es2);
    lemma_icon_round_trip(es0, ico, m1);
    lemma_icon_images_stable_rcdata(m1, rc_v, m2);
    lemma_icon_images_stable_strings(m2, edits, es2);
}

/// Re-extracting the blob identifier from a committed output yields
/// exactly the committed payload, whatever its size: this covers both
/// a payload smaller than the template's reservation and one that grew
/// the section.
pub proof fn lemma_committed_blob_reads_back(
    template: Seq<u8>,
    out: Seq<u8>,
    icon_v: Option<Seq<u8>>,
    id: u32,
    data: Seq<u8>,
    edits: Seq<(u32, Seq<char>)>,
)
    requires
        wf_file(out),
        patch_applied(file_entries(template), icon_v, Some((id, data)), edits, file_entries(out)),
    ensures
        spec_resource(out, RT_RCDATA, id) == Some(data),
{
    lemma_patch_rcdata_extraction(
        file_entries(template),
        icon_v,
        id,
        data,
        edits,
        file_entries(out),
    );
}

/// Re-reading the committed string identifier yields exactly the code
/// units of the committed text.
pub proof fn lemma_committed_string_reads_back(
    template: Seq<u8>,
    out: Seq<u8>,
    icon_v: Option<Seq<u8>>,
    rc_v: Option<(u32, Seq<u8>)>,
    id: u32,
    text: Seq<char>,
)
    requires
        wf_file(out),
        patch_applied(file_entries(template), icon_v, rc_v, seq![(id, text)], file_entries(out)),
        utf16(text).len() <= 0xFFFF,
    ensures
        spec_read_string(out, id) == Some(utf16(text)),
{
    lemma_patch_string_readback(
        file_entries(template),
        icon_v,
        rc_v,
        id,
        text,
        file_entries(out),
    );
}

/// Re-reading the committed output's icon group yields exactly the
/// image variants of the committed payload.
pub proof fn lemma_committed_icon_reads_back(
    template: Seq<u8>,
    out: Seq<u8>,
    ico: Seq<u8>,
    rc_v: Option<(u32, Seq<u8>)>,
    edits: Seq<(u32, Seq<char>)>,
)
    requires
        wf_file(out),
        patch_applied(file_entries(template), Some(ico), rc_v, edits, file_entries(out)),
    ensures
        spec_icon_images_file(out) == Some(ico_images(ico)),
{
    lemma_patch_icon_images(file_entries(template), ico, rc_v, edits, file_entries(out));
}

/// The blob step leaves the icon read-back unchanged.
proof fn lemma_icon_images_stable_rcdata(
    es: Seq<ResEntryV>,
    rc_v: Option<(u32, Seq<u8>)>,
    es2: Seq<ResEntryV>,
)
    requires
        opt_rcdata_applied(es, rc_v, es2),
    ensures
        spec_icon_images(es2) == spec_icon_images(es),
{
    match rc_v {
        None => {
        },
        Some(p) => {
            let i = choose|i: int|
                #![trigger is_first_tn(es, RT_RCDATA, p.0, i)]
                (is_first_tn(es, RT_RCDATA, p.0, i) && es2 == es.update(
                    i,
                    with_data(es[i], p.1),
                ));
            lemma_rcdata_applied_keys(es, p.0, p.1, es2);
            assert forall|j: int|
                0 <= j < es.len() && (#[trigger] es2[j]).data != es[j].data implies es[j].type_id
                != RT_ICON && es[j].type_id != RT_GROUP_ICON by {
                assert(j == i);
            }
            lemma_icon_images_stable(es, es2);
        },
    }
}

/// String steps leave the icon read-back unchanged.
proof fn lemma_icon_images_stable_strings(
    es: Seq<ResEntryV>,
    edits: Seq<(u32, Seq<char>)>,
    es2: Seq<ResEntryV>,
)
    requires
        strings_applied_seq(es, edits, es2),
    ensures
        spec_icon_images(es2) == spec_icon_images(es),
    decreases edits.len(),
{
    if edits.len() == 0 {
        assert(es2 == es);
    } else {
        let mid = choose|mid: Seq<ResEntryV>|
            #![trigger string_applied(es, edits[0].0, utf16(edits[0].1), mid)]
            string_applied(es, edits[0].0, utf16(edits[0].1), mid) && strings_applied_seq(
                mid,
                edits.drop_first(),
                es2,
            );
        let id = edits[0].0;
        let b = string_block_id(id);
        let i = choose|i: int|
            {
                &&& is_first_tn(es, RT_STRING, b, i)
                &&& block_ok(es[i].data)
                &&& mid == es.update(
                    i,
                    with_data(
                        es[i],
                        crate::strres::enc_block(
                            block_strings(es[i].data).update(
                                string_index(id),
                                utf16(edits[0].1),
                            ),
                        ),
                    ),
                )
            };
        lemma_string_applied_keys(es, id, utf16(edits[0].1), mid);
        assert forall|j: int|
            0 <= j < es.len() && (#[trigger] mid[j]).data != es[j].data implies es[j].type_id
            != RT_ICON && es[j].type_id != RT_GROUP_ICON by {
            assert(j == i);
        }
        lemma_icon_images_stable(es, mid);
        lemma_icon_images_stable_strings(mid, edits.drop_first(), es2);
    }
}

/// Data changes outside the icon types leave the icon read-back as it
/// was.
proof fn lemma_icon_images_stable(es: Seq<ResEntryV>, es2: Seq<ResEntryV>)
    requires
        keys_pointwise(es, es2),
        forall|j: int|
            0 <= j < es.len() && (#[trigger] es2[j]).data != es[j].data ==> es[j].type_id
                != RT_ICON && es[j].type_id != RT_GROUP_ICON,
    ensures
        spec_icon_images(es2) == spec_icon_images(es),
{
    lemma_keys_pointwise_lookups(es, es2, RT_GROUP_ICON, 0);
    if has_t(es, RT_GROUP_ICON) {
        let gi = choose|gi: int| is_first_t(es, RT_GROUP_ICON, gi);
        assert(is_first_t(es, RT_GROUP_ICON, gi)) by {
            lemma_has_t_first(es, RT_GROUP_ICON);
        }
        assert(is_first_t(es2, RT_GROUP_ICON, gi));
        lemma_icon_group_choose(es2, gi);
        lemma_icon_group_choose(es, gi);
        assert(es[gi].type_id == RT_GROUP_ICON);
        assert(es2[gi].data == es[gi].data);
        let g = es[gi].data;
        if grp_ok(g) {
            assert forall|x: int| 0 <= x < grp_count(g) implies tn_first_data(
                es2,
                RT_ICON,
                (#[trigger] grp_id(g, x)) as u32,
            ) == tn_first_data(es, RT_ICON, (grp_id(g, x)) as u32) by {
                lemma_lookup_stable(es, es2, RT_ICON, (grp_id(g, x)) as u32);
            }
            if spec_icon_images(es) is Some {
                assert(spec_icon_images(es2)->Some_0 =~= spec_icon_images(es)->Some_0);
            }
        }
    }
}

/// A type with a member has a first member.
proof fn lemma_has_t_first(es: Seq<ResEntryV>, t: u32)
    requires
        has_t(es, t),
    ensures
        is_first_t(es, t, choose|gi: int| is_first_t(es, t, gi)),
{
    let j = choose|j: int| 0 <= j < es.len() && crate::restree::t_matches(es[j], t);
    lemma_first_t_below(es, t, j);
    let w = choose|gi: int| is_first_t(es, t, gi);
    assert(is_first_t(es, t, w));
}

/// Below any member of a type there is a first member.
proof fn lemma_first_t_below(es: Seq<ResEntryV>, t: u32, j: int)
    requires
        0 <= j < es.len(),
        crate::restree::t_matches(es[j], t),
    ensures
        exists|i: int| is_first_t(es, t, i),
    decreases j,
{
    if forall|k: int| 0 <= k < j ==> !crate::restree::t_matches(#[trigger] es[k], t) {
        assert(is_first_t(es, t, j));
    } else {
        let k = choose|k: int| 0 <= k < j && crate::restree::t_matches(#[trigger] es[k], t);
        lemma_first_t_below(es, t, k);
    }
}

} // verus!
