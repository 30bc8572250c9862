//! The set of pending edits against one executable: an optional icon,
//! an optional opaque blob keyed by its resource identifier, and any
//! number of string replacements. Built incrementally, applied in one
//! pass on commit.

use vstd::prelude::*;

use crate::icon::{
    apply_icon, group_fits, group_images_present, icon_applied, icon_edit_ok, ico_ok,
    lemma_icon_applied_keys, lemma_icon_step_stable, IconPatchError,
};
use crate::restree::{
    has_t, has_tn, is_first_tn, keys_pointwise, lemma_rcdata_applied_keys,
    lemma_rcdata_step_stable, rcdata_applied, tn_first_data, with_data, ResEntryV, ResourceSet,
    RT_GROUP_ICON, RT_RCDATA, RT_STRING,
};
use crate::strres::{
    block_ok, lemma_string_applied_keys, lemma_string_round_trip, lemma_string_step_other_block,
    set_string_resource, string_applied, string_block_id, utf16, StringPatchError,
};

verus! {

/// Pending edits, recorded without touching any file.
pub struct ResourcePatchSet {
    pub icon: Option<Vec<u8>>,
    pub rcdata: Option<(u32, Vec<u8>)>,
    pub strings: Vec<(u32, String)>,
}

impl ResourcePatchSet {
    /// No edit recorded.
    pub open spec fn spec_is_empty(&self) -> bool {
        &&& self.icon is None
        &&& self.rcdata is None
        &&& self.strings@.len() == 0
    }

    /// The recorded icon payload.
    pub open spec fn icon_view(&self) -> Option<Seq<u8>> {
        match self.icon {
            Some(ref v) => Some(v@),
            None => None,
        }
    }

    /// The recorded blob edit.
    pub open spec fn rcdata_view(&self) -> Option<(u32, Seq<u8>)> {
        match self.rcdata {
            Some((id, ref v)) => Some((id, v@)),
            None => None,
        }
    }

    /// The recorded string edits, in the order they were set.
    pub open spec fn strings_view(&self) -> Seq<(u32, Seq<char>)> {
        self.strings@.map_values(|p: (u32, String)| (p.0, p.1@))
    }

    /// An empty patch set.
    pub fn new() -> (r: Self)
        ensures
            r.spec_is_empty(),
            r.icon_view() is None,
            r.rcdata_view() is None,
            r.strings_view() == Seq::<(u32, Seq<char>)>::empty(),
    {
        let r = ResourcePatchSet { icon: None, rcdata: None, strings: Vec::new() };
        proof {
            assert(r.strings_view() =~= Seq::<(u32, Seq<char>)>::empty());
        }
        r
    }

    /// Records the icon to embed.
    pub fn set_icon(&mut self, bytes: Vec<u8>)
        ensures
            final(self).icon_view() == Some(bytes@),
            final(self).rcdata_view() == old(self).rcdata_view(),
            final(self).strings_view() == old(self).strings_view(),
    {
        self.icon = Some(bytes);
    }

    /// Records the blob to store under resource identifier `id`.
    pub fn set_rcdata(&mut self, id: u32, bytes: Vec<u8>)
        ensures
            final(self).rcdata_view() == Some((id, bytes@)),
            final(self).icon_view() == old(self).icon_view(),
            final(self).strings_view() == old(self).strings_view(),
    {
        self.rcdata = Some((id, bytes));
    }

    /// Records the text to store under string identifier `id`.
    pub fn set_string(&mut self, id: u32, text: String)
        ensures
            final(self).strings_view() == old(self).strings_view().push((id, text@)),
            final(self).icon_view() == old(self).icon_view(),
            final(self).rcdata_view() == old(self).rcdata_view(),
    {
        let ghost t = text@;
        self.strings.push((id, text));
        proof {
            assert(self.strings_view() =~= old(self).strings_view().push((id, t)));
        }
    }

    /// Whether any edit is recorded.
    pub fn is_empty(&self) -> (r: bool)
        ensures
            r == self.spec_is_empty(),
    {
        self.icon.is_none() && self.rcdata.is_none() && self.strings.len() == 0
    }
}

/// The optional icon step.
pub open spec fn opt_icon_applied(
    es: Seq<ResEntryV>,
    o: Option<Seq<u8>>,
    es2: Seq<ResEntryV>,
) -> bool {
    match o {
        None => es2 == es,
        Some(b) => icon_applied(es, b, es2),
    }
}

/// The optional blob step.
pub open spec fn opt_rcdata_applied(
    es: Seq<ResEntryV>,
    o: Option<(u32, Seq<u8>)>,
    es2: Seq<ResEntryV>,
) -> bool {
    match o {
        None => es2 == es,
        Some(p) => rcdata_applied(es, p.0, p.1, es2),
    }
}

/// The string steps, applied in order.
pub open spec fn strings_applied_seq(
    es: Seq<ResEntryV>,
    edits: Seq<(u32, Seq<char>)>,
    es2: Seq<ResEntryV>,
) -> bool
    decreases edits.len(),
{
    if edits.len() == 0 {
        es2 == es
    } else {
        exists|mid: Seq<ResEntryV>|
            #![trigger string_applied(es, edits[0].0, utf16(edits[0].1), mid)]
            string_applied(es, edits[0].0, utf16(edits[0].1), mid) && strings_applied_seq(
                mid,
                edits.drop_first(),
                es2,
            )
    }
}

/// The whole patch set: icon, then blob, then the strings in order.
pub open spec fn patch_applied(
    es: Seq<ResEntryV>,
    icon: Option<Seq<u8>>,
    rc: Option<(u32, Seq<u8>)>,
    edits: Seq<(u32, Seq<char>)>,
    es2: Seq<ResEntryV>,
) -> bool {
    exists|m1: Seq<ResEntryV>, m2: Seq<ResEntryV>|
        #![trigger opt_icon_applied(es, icon, m1), opt_rcdata_applied(m1, rc, m2)]
        opt_icon_applied(es, icon, m1) && opt_rcdata_applied(m1, rc, m2) && strings_applied_seq(
            m2,
            edits,
            es2,
        )
}

/// One more string step extends the chain at its end.
pub proof fn lemma_strings_applied_snoc(
    es: Seq<ResEntryV>,
    edits: Seq<(u32, Seq<char>)>,
    mid: Seq<ResEntryV>,
    e: (u32, Seq<char>),
    es2: Seq<ResEntryV>,
)
    requires
        strings_applied_seq(es, edits, mid),
        string_applied(mid, e.0, utf16(e.1), es2),
    ensures
        strings_applied_seq(es, edits.push(e), es2),
    decreases edits.len(),
{
    let p = edits.push(e);
    assert(p.len() == edits.len() + 1);
    if edits.len() == 0 {
        assert(p[0] == e);
        assert(p.drop_first() =~= Seq::<(u32, Seq<char>)>::empty());
        assert(mid == es);
        assert(string_applied(es, p[0].0, utf16(p[0].1), es2));
        assert(strings_applied_seq(es2, p.drop_first(), es2));
    } else {
        assert(exists|m0: Seq<ResEntryV>|
            #![trigger string_applied(es, edits[0].0, utf16(edits[0].1), m0)]
            string_applied(es, edits[0].0, utf16(edits[0].1), m0) && strings_applied_seq(
                m0,
                edits.drop_first(),
                mid,
            ));
        let m0 = choose|m0: Seq<ResEntryV>|
            #![trigger string_applied(es, edits[0].0, utf16(edits[0].1), m0)]
            string_applied(es, edits[0].0, utf16(edits[0].1), m0) && strings_applied_seq(
                m0,
                edits.drop_first(),
                mid,
            );
        lemma_strings_applied_snoc(m0, edits.drop_first(), mid, e, es2);
        assert(p[0] == edits[0]);
        assert(p.drop_first() =~= edits.drop_first().push(e));
        assert(string_applied(es, p[0].0, utf16(p[0].1), m0) && strings_applied_seq(
            m0,
            p.drop_first(),
            es2,
        ));
    }
}

/// Why a commit was refused; the reason names the edit that failed.
#[derive(Debug)]
pub enum CommitError {
    /// The icon edit failed.
    IconFailed(IconPatchError),
    /// The blob edit names an identifier the template does not carry.
    RcdataMissing(u32),
    /// A string edit failed, for the named string identifier.
    StringFailed(u32, StringPatchError),
    /// The patched resources could not be serialised back into a valid
    /// image.
    RebuildFailed,
}

/// What each refusal says about the template's resources `es` and the
/// recorded edits.
pub open spec fn patch_refused(
    es: Seq<ResEntryV>,
    icon_v: Option<Seq<u8>>,
    rc_v: Option<(u32, Seq<u8>)>,
    edits: Seq<(u32, Seq<char>)>,
    e: CommitError,
) -> bool {
    match e {
        CommitError::IconFailed(IconPatchError::IconInvalid) => icon_v matches Some(b)
            && !ico_ok(b),
        CommitError::IconFailed(IconPatchError::GroupMissing) => icon_v matches Some(b) && ico_ok(
            b,
        ) && !has_t(es, RT_GROUP_ICON),
        CommitError::IconFailed(IconPatchError::LayoutMismatch) => icon_v matches Some(b)
            && ico_ok(b) && has_t(es, RT_GROUP_ICON) && !group_fits(es, b),
        CommitError::IconFailed(IconPatchError::ImageMissing) => icon_v matches Some(b) && ico_ok(
            b,
        ) && has_t(es, RT_GROUP_ICON) && group_fits(es, b) && !group_images_present(es, b),
        CommitError::RcdataMissing(id) => rc_v matches Some(p) && p.0 == id && !has_tn(
            es,
            RT_RCDATA,
            id,
        ),
        CommitError::StringFailed(id, se) => exists|k: int|
            0 <= k < edits.len() && (#[trigger] edits[k]).0 == id && match se {
                StringPatchError::TextTooLong => utf16(edits[k].1).len() > 0xFFFF,
                StringPatchError::BlockMissing => !has_tn(es, RT_STRING, string_block_id(id)),
                StringPatchError::BlockMalformed => tn_first_data(
                    es,
                    RT_STRING,
                    string_block_id(id),
                ) matches Some(d) && !block_ok(d),
            },
        CommitError::RebuildFailed => !(icon_v is None && rc_v is None && edits.len() == 0),
    }
}

/// One string edit applies against these resources: the text fits a
/// block slot, and its block is present and well formed.
pub open spec fn string_edit_ok(es: Seq<ResEntryV>, id: u32, text: Seq<char>) -> bool {
    &&& utf16(text).len() <= 0xFFFF
    &&& has_tn(es, RT_STRING, string_block_id(id))
    &&& tn_first_data(es, RT_STRING, string_block_id(id)) matches Some(d) && block_ok(d)
}

/// Every recorded edit applies against the template's resources: the
/// icon payload fits the group, the blob identifier pre-exists, and
/// each string edit's block is present and well formed.
pub open spec fn patch_ok(
    es: Seq<ResEntryV>,
    icon_v: Option<Seq<u8>>,
    rc_v: Option<(u32, Seq<u8>)>,
    edits: Seq<(u32, Seq<char>)>,
) -> bool {
    &&& match icon_v {
        None => true,
        Some(b) => icon_edit_ok(es, b),
    }
    &&& match rc_v {
        None => true,
        Some(p) => has_tn(es, RT_RCDATA, p.0),
    }
    &&& forall|k: int|
        0 <= k < edits.len() ==> string_edit_ok(es, (#[trigger] edits[k]).0, edits[k].1)
}

/// Every block resource of `cur` is either well formed or still the
/// template's: edits only ever write well-formed blocks.
pub open spec fn blocks_sound(es0: Seq<ResEntryV>, cur: Seq<ResEntryV>) -> bool {
    forall|b: u32|
        match #[trigger] tn_first_data(cur, RT_STRING, b) {
            Some(d) => block_ok(d) || tn_first_data(es0, RT_STRING, b) == Some(d),
            None => true,
        }
}

/// Applies every recorded edit to the resource model: the icon, then the
/// blob, then the strings in order.
#[verifier::loop_isolation(false)]
#[verifier::rlimit(60)]
pub fn apply_patch_ops(rs: &mut ResourceSet, ps: &ResourcePatchSet) -> (r: Result<
    (),
    CommitError,
>)
    ensures
        r is Ok ==> patch_applied(
            old(rs)@,
            ps.icon_view(),
            ps.rcdata_view(),
            ps.strings_view(),
            final(rs)@,
        ),
        r matches Err(e) ==> patch_refused(
            old(rs)@,
            ps.icon_view(),
            ps.rcdata_view(),
            ps.strings_view(),
            e,
        ),
        patch_ok(old(rs)@, ps.icon_view(), ps.rcdata_view(), ps.strings_view()) ==> r is Ok,
{
    let ghost es0 = rs@;
    match &ps.icon {
        Some(ico) => {
            match apply_icon(rs, ico) {
                Ok(()) => (),
                Err(e) => {
                    return Err(CommitError::IconFailed(e));
                },
            }
        },
        None => (),
    }
    let ghost m1 = rs@;
    proof {
        assert(opt_icon_applied(es0, ps.icon_view(), m1));
        if ps.icon is Some {
            lemma_icon_applied_keys(es0, ps.icon_view()->Some_0, m1);
        }
        assert(keys_pointwise(es0, m1));
    }
    match &ps.rcdata {
        Some(pair) => {
            let data = crate::bytes::copy_bytes(&pair.1);
            match rs.set_rcdata(pair.0, data) {
                Ok(()) => (),
                Err(()) => {
                    proof {
                        crate::restree::lemma_keys_pointwise_lookups(es0, m1, RT_RCDATA, pair.0);
                    }
                    return Err(CommitError::RcdataMissing(pair.0));
                },
            }
        },
        None => (),
    }
    let ghost m2 = rs@;
    proof {
        assert(opt_rcdata_applied(m1, ps.rcdata_view(), m2));
        if ps.rcdata is Some {
            lemma_rcdata_applied_keys(m1, ps.rcdata_view()->Some_0.0, ps.rcdata_view()->Some_0.1, m2);
        }
        crate::restree::lemma_keys_pointwise_trans(es0, m1, m2);
        // The icon and blob steps touch no string table block.
        assert forall|b: u32| #[trigger]
            tn_first_data(m2, RT_STRING, b) == tn_first_data(es0, RT_STRING, b) by {
            match ps.icon_view() {
                Some(ico) => {
                    lemma_icon_step_stable(es0, ico, m1, RT_STRING, b);
                },
                None => {
                    assert(m1 == es0);
                },
            }
            match ps.rcdata_view() {
                Some(p) => {
                    lemma_rcdata_step_stable(m1, p.0, p.1, m2, RT_STRING, b);
                },
                None => {
                    assert(m2 == m1);
                },
            }
        }
        assert(blocks_sound(es0, m2));
    }
    let ghost edits = ps.strings_view();
    let mut k: usize = 0;
    while k < ps.strings.len()
        invariant
            k <= ps.strings@.len(),
            keys_pointwise(es0, rs@),
            strings_applied_seq(m2, edits.subrange(0, k as int), rs@),
            blocks_sound(es0, rs@),
        decreases ps.strings@.len() - k,
    {
        let id = ps.strings[k].0;
        let ghost before = rs@;
        let ghost blk = string_block_id(id);
        let res = set_string_resource(rs, id, ps.strings[k].1.as_str());
        match res {
            Ok(()) => (),
            Err(e) => {
                proof {
                    assert(edits[k as int] == (id, ps.strings@[k as int].1@));
                    if e is BlockMissing {
                        crate::restree::lemma_keys_pointwise_lookups(es0, before, RT_STRING, blk);
                    }
                    if e is BlockMalformed {
                        // The failing block cannot be one an edit wrote:
                        // written blocks are well formed, so it is still
                        // the template's.
                        assert(tn_first_data(before, RT_STRING, blk) matches Some(d) && !block_ok(
                            d,
                        ));
                        assert(tn_first_data(es0, RT_STRING, blk) == tn_first_data(
                            before,
                            RT_STRING,
                            blk,
                        ));
                    }
                    assert(patch_refused(
                        es0,
                        ps.icon_view(),
                        ps.rcdata_view(),
                        edits,
                        CommitError::StringFailed(id, e),
                    ));
                    if patch_ok(es0, ps.icon_view(), ps.rcdata_view(), edits) {
                        assert(string_edit_ok(es0, edits[k as int].0, edits[k as int].1));
                        crate::restree::lemma_keys_pointwise_lookups(es0, before, RT_STRING, blk);
                        assert(false);
                    }
                }
                return Err(CommitError::StringFailed(id, e));
            },
        }
        proof {
            lemma_string_applied_keys(before, id, utf16(ps.strings@[k as int].1@), rs@);
            crate::restree::lemma_keys_pointwise_trans(es0, before, rs@);
            lemma_strings_applied_snoc(
                m2,
                edits.subrange(0, k as int),
                before,
                edits[k as int],
                rs@,
            );
            assert(edits.subrange(0, k as int).push(edits[k as int]) =~= edits.subrange(
                0,
                k + 1,
            ));
            // The written block is well formed; every other block kept
            // its data.
            lemma_string_round_trip(before, id, utf16(ps.strings@[k as int].1@), rs@);
            assert forall|b: u32| match #[trigger] tn_first_data(rs@, RT_STRING, b) {
                Some(d) => block_ok(d) || tn_first_data(es0, RT_STRING, b) == Some(d),
                None => true,
            } by {
                if b != blk {
                    lemma_string_step_other_block(
                        before,
                        id,
                        utf16(ps.strings@[k as int].1@),
                        rs@,
                        b,
                    );
                }
            }
            assert(blocks_sound(es0, rs@));
        }
        k = k + 1;
    }
    proof {
        assert(edits.subrange(0, ps.strings@.len() as int) =~= edits);
        assert(opt_icon_applied(es0, ps.icon_view(), m1) && opt_rcdata_applied(
            m1,
            ps.rcdata_view(),
            m2,
        ) && strings_applied_seq(m2, edits, rs@));
    }
    Ok(())
}

} // verus!
