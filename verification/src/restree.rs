//! The in-memory model of an executable's resource directory: a flat list
//! of typed, identified, language-tagged data entries, in tree order.

use vstd::prelude::*;

verus! {

/// Resource type of an individual icon image.
pub const RT_ICON: u32 = 3;

/// Resource type of a string table block.
pub const RT_STRING: u32 = 6;

/// Resource type of an opaque binary blob.
pub const RT_RCDATA: u32 = 10;

/// Resource type of an icon group directory.
pub const RT_GROUP_ICON: u32 = 14;

/// One leaf of the resource directory: type, identifier, language,
/// code page and the raw data.
pub struct ResEntry {
    pub type_id: u32,
    pub name_id: u32,
    pub lang_id: u32,
    pub codepage: u32,
    pub data: Vec<u8>,
}

/// The mathematical image of a [`ResEntry`].
pub struct ResEntryV {
    pub type_id: u32,
    pub name_id: u32,
    pub lang_id: u32,
    pub codepage: u32,
    pub data: Seq<u8>,
}

impl View for ResEntry {
    type V = ResEntryV;

    open spec fn view(&self) -> ResEntryV {
        ResEntryV {
            type_id: self.type_id,
            name_id: self.name_id,
            lang_id: self.lang_id,
            codepage: self.codepage,
            data: self.data@,
        }
    }
}

/// The views of a sequence of entries.
pub open spec fn evs(s: Seq<ResEntry>) -> Seq<ResEntryV> {
    s.map_values(|e: ResEntry| e@)
}

/// Mapping the view over a push appends the pushed view.
pub proof fn lemma_evs_push(s: Seq<ResEntry>, e: ResEntry)
    ensures
        evs(s.push(e)) == evs(s).push(e@),
{
    assert(evs(s.push(e)) =~= evs(s).push(e@));
}

/// Whether `e` belongs to resource type `t` under identifier `n`.
pub open spec fn tn_matches(e: ResEntryV, t: u32, n: u32) -> bool {
    e.type_id == t && e.name_id == n
}

/// Whether some entry of type `t` and identifier `n` exists.
pub open spec fn has_tn(es: Seq<ResEntryV>, t: u32, n: u32) -> bool {
    exists|i: int| 0 <= i < es.len() && tn_matches(es[i], t, n)
}

/// `i` is the first entry of type `t` and identifier `n`.
pub open spec fn is_first_tn(es: Seq<ResEntryV>, t: u32, n: u32, i: int) -> bool {
    &&& 0 <= i < es.len()
    &&& tn_matches(es[i], t, n)
    &&& forall|j: int| 0 <= j < i ==> !tn_matches(es[j], t, n)
}

/// The data of the first entry of type `t` and identifier `n`, if any.
pub open spec fn tn_first_data(es: Seq<ResEntryV>, t: u32, n: u32) -> Option<Seq<u8>> {
    if has_tn(es, t, n) {
        let i = choose|i: int| is_first_tn(es, t, n, i);
        Some(es[i].data)
    } else {
        None
    }
}

/// There is exactly one first match.
pub proof fn lemma_first_tn_unique(es: Seq<ResEntryV>, t: u32, n: u32, i: int, j: int)
    requires
        is_first_tn(es, t, n, i),
        is_first_tn(es, t, n, j),
    ensures
        i == j,
{
}

/// Below any match there is a first match.
proof fn lemma_first_tn_below(es: Seq<ResEntryV>, t: u32, n: u32, j: int)
    requires
        0 <= j < es.len(),
        tn_matches(es[j], t, n),
    ensures
        exists|i: int| is_first_tn(es, t, n, i),
    decreases j,
{
    if forall|k: int| 0 <= k < j ==> !tn_matches(#[trigger] es[k], t, n) {
        assert(is_first_tn(es, t, n, j));
    } else {
        let k = choose|k: int| 0 <= k < j && tn_matches(#[trigger] es[k], t, n);
        lemma_first_tn_below(es, t, n, k);
    }
}

/// With any match at all there is a first match.
pub proof fn lemma_has_tn_first(es: Seq<ResEntryV>, t: u32, n: u32)
    requires
        has_tn(es, t, n),
    ensures
        exists|i: int| is_first_tn(es, t, n, i),
        is_first_tn(es, t, n, choose|i: int| is_first_tn(es, t, n, i)),
{
    let j = choose|j: int| 0 <= j < es.len() && tn_matches(es[j], t, n);
    lemma_first_tn_below(es, t, n, j);
    let w = choose|i: int| is_first_tn(es, t, n, i);
    assert(is_first_tn(es, t, n, w));
}

/// With a first match at `i`, the first-match lookup reads `es[i]`.
pub proof fn lemma_tn_first_data_at(es: Seq<ResEntryV>, t: u32, n: u32, i: int)
    requires
        is_first_tn(es, t, n, i),
    ensures
        tn_first_data(es, t, n) == Some(es[i].data),
{
    assert(has_tn(es, t, n));
    let w = choose|w: int| is_first_tn(es, t, n, w);
    assert(is_first_tn(es, t, n, w));
    lemma_first_tn_unique(es, t, n, i, w);
}

/// Whether `e` belongs to resource type `t`.
pub open spec fn t_matches(e: ResEntryV, t: u32) -> bool {
    e.type_id == t
}

/// Whether some entry of type `t` exists.
pub open spec fn has_t(es: Seq<ResEntryV>, t: u32) -> bool {
    exists|i: int| 0 <= i < es.len() && t_matches(es[i], t)
}

/// `i` is the first entry of type `t`.
pub open spec fn is_first_t(es: Seq<ResEntryV>, t: u32, i: int) -> bool {
    &&& 0 <= i < es.len()
    &&& t_matches(es[i], t)
    &&& forall|j: int| 0 <= j < i ==> !t_matches(es[j], t)
}

/// There is exactly one first entry of a type.
pub proof fn lemma_first_t_unique(es: Seq<ResEntryV>, t: u32, i: int, j: int)
    requires
        is_first_t(es, t, i),
        is_first_t(es, t, j),
    ensures
        i == j,
{
}

/// `es2` keeps every entry's type, identifier, language and code page;
/// only data may differ.
pub open spec fn keys_pointwise(es: Seq<ResEntryV>, es2: Seq<ResEntryV>) -> bool {
    &&& es2.len() == es.len()
    &&& forall|j: int|
        0 <= j < es.len() ==> {
            &&& (#[trigger] es2[j]).type_id == es[j].type_id
            &&& es2[j].name_id == es[j].name_id
            &&& es2[j].lang_id == es[j].lang_id
            &&& es2[j].codepage == es[j].codepage
        }
}

/// Replacing an entry's data keeps every key in place.
pub proof fn lemma_update_keys_pointwise(es: Seq<ResEntryV>, i: int, data: Seq<u8>)
    requires
        0 <= i < es.len(),
    ensures
        keys_pointwise(es, es.update(i, with_data(es[i], data))),
{
}

/// Key preservation relates the two sets' lookups position by position.
pub proof fn lemma_keys_pointwise_lookups(es: Seq<ResEntryV>, es2: Seq<ResEntryV>, t: u32, n: u32)
    requires
        keys_pointwise(es, es2),
    ensures
        has_tn(es, t, n) <==> has_tn(es2, t, n),
        forall|i: int| is_first_tn(es, t, n, i) <==> is_first_tn(es2, t, n, i),
        has_t(es, t) <==> has_t(es2, t),
        forall|i: int| is_first_t(es, t, i) <==> is_first_t(es2, t, i),
{
    assert forall|i: int| is_first_tn(es, t, n, i) <==> is_first_tn(es2, t, n, i) by {
        if is_first_tn(es, t, n, i) {
            assert(tn_matches(es2[i], t, n));
            assert forall|j: int| 0 <= j < i implies !tn_matches(es2[j], t, n) by {
                assert(!tn_matches(es[j], t, n));
            }
        }
        if is_first_tn(es2, t, n, i) {
            assert(tn_matches(es[i], t, n));
            assert forall|j: int| 0 <= j < i implies !tn_matches(es[j], t, n) by {
                assert(!tn_matches(es2[j], t, n));
            }
        }
    }
    assert forall|i: int| is_first_t(es, t, i) <==> is_first_t(es2, t, i) by {
        if is_first_t(es, t, i) {
            assert(t_matches(es2[i], t));
            assert forall|j: int| 0 <= j < i implies !t_matches(es2[j], t) by {
                assert(!t_matches(es[j], t));
            }
        }
        if is_first_t(es2, t, i) {
            assert(t_matches(es[i], t));
            assert forall|j: int| 0 <= j < i implies !t_matches(es[j], t) by {
                assert(!t_matches(es2[j], t));
            }
        }
    }
    if has_tn(es, t, n) {
        let i = choose|i: int| 0 <= i < es.len() && tn_matches(es[i], t, n);
        assert(tn_matches(es2[i], t, n));
    }
    if has_tn(es2, t, n) {
        let i = choose|i: int| 0 <= i < es2.len() && tn_matches(es2[i], t, n);
        assert(tn_matches(es[i], t, n));
    }
    if has_t(es, t) {
        let i = choose|i: int| 0 <= i < es.len() && t_matches(es[i], t);
        assert(t_matches(es2[i], t));
    }
    if has_t(es2, t) {
        let i = choose|i: int| 0 <= i < es2.len() && t_matches(es2[i], t);
        assert(t_matches(es[i], t));
    }
}

/// Key preservation composes.
pub proof fn lemma_keys_pointwise_trans(
    a: Seq<ResEntryV>,
    b: Seq<ResEntryV>,
    c: Seq<ResEntryV>,
)
    requires
        keys_pointwise(a, b),
        keys_pointwise(b, c),
    ensures
        keys_pointwise(a, c),
{
}

/// The effect of replacing the blob under `id`: the first entry for it
/// has exactly its data replaced.
pub open spec fn rcdata_applied(
    es: Seq<ResEntryV>,
    id: u32,
    data: Seq<u8>,
    es2: Seq<ResEntryV>,
) -> bool {
    exists|i: int|
        #![trigger is_first_tn(es, RT_RCDATA, id, i)]
        {
            &&& is_first_tn(es, RT_RCDATA, id, i)
            &&& es2 == es.update(i, with_data(es[i], data))
        }
}

/// Replacing data at positions of other resource types does not change
/// what a (type, identifier) lookup returns.
pub proof fn lemma_lookup_stable(es: Seq<ResEntryV>, es2: Seq<ResEntryV>, t: u32, n: u32)
    requires
        keys_pointwise(es, es2),
        forall|j: int|
            0 <= j < es.len() && (#[trigger] es2[j]).data != es[j].data ==> es[j].type_id != t,
    ensures
        tn_first_data(es2, t, n) == tn_first_data(es, t, n),
{
    lemma_keys_pointwise_lookups(es, es2, t, n);
    if has_tn(es, t, n) {
        lemma_has_tn_first(es, t, n);
        let i = choose|i: int| is_first_tn(es, t, n, i);
        assert(is_first_tn(es, t, n, i));
        lemma_tn_first_data_at(es, t, n, i);
        assert(is_first_tn(es2, t, n, i));
        lemma_tn_first_data_at(es2, t, n, i);
        assert(es[i].type_id == t);
        assert(es2[i].data == es[i].data);
    }
}

/// The blob step keeps every key in place.
pub proof fn lemma_rcdata_applied_keys(
    es: Seq<ResEntryV>,
    id: u32,
    data: Seq<u8>,
    es2: Seq<ResEntryV>,
)
    requires
        rcdata_applied(es, id, data, es2),
    ensures
        keys_pointwise(es, es2),
{
    let i = choose|i: int|
        #![trigger is_first_tn(es, RT_RCDATA, id, i)]
        (is_first_tn(es, RT_RCDATA, id, i) && es2 == es.update(i, with_data(es[i], data)));
    lemma_update_keys_pointwise(es, i, data);
}

/// The blob step touches only a blob entry.
pub proof fn lemma_rcdata_step_stable(
    es: Seq<ResEntryV>,
    id: u32,
    data: Seq<u8>,
    es2: Seq<ResEntryV>,
    t: u32,
    n: u32,
)
    requires
        rcdata_applied(es, id, data, es2),
        t != RT_RCDATA,
    ensures
        tn_first_data(es2, t, n) == tn_first_data(es, t, n),
{
    let i = choose|i: int|
        #![trigger is_first_tn(es, RT_RCDATA, id, i)]
        (is_first_tn(es, RT_RCDATA, id, i) && es2 == es.update(i, with_data(es[i], data)));
    lemma_rcdata_applied_keys(es, id, data, es2);
    assert forall|j: int|
        0 <= j < es.len() && (#[trigger] es2[j]).data != es[j].data implies es[j].type_id != t by {
        assert(j == i);
        assert(es[i].type_id == RT_RCDATA);
    }
    lemma_lookup_stable(es, es2, t, n);
}

/// The pending edits become effective against this set; its entries keep
/// the template's tree order.
pub struct ResourceSet {
    pub entries: Vec<ResEntry>,
}

impl View for ResourceSet {
    type V = Seq<ResEntryV>;

    open spec fn view(&self) -> Seq<ResEntryV> {
        evs(self.entries@)
    }
}

/// `e` with its data replaced.
pub open spec fn with_data(e: ResEntryV, data: Seq<u8>) -> ResEntryV {
    ResEntryV {
        type_id: e.type_id,
        name_id: e.name_id,
        lang_id: e.lang_id,
        codepage: e.codepage,
        data: data,
    }
}

impl ResourceSet {
    /// Finds the position of the first entry of type `t` and identifier `n`.
    pub fn find_type_name(&self, t: u32, n: u32) -> (r: Option<usize>)
        ensures
            match r {
                Some(i) => is_first_tn(self@, t, n, i as int),
                None => !has_tn(self@, t, n),
            },
    {
        let mut i: usize = 0;
        while i < self.entries.len()
            invariant
                i <= self.entries@.len(),
                forall|j: int| 0 <= j < i ==> !tn_matches(self@[j], t, n),
            decreases self.entries@.len() - i,
        {
            let e = &self.entries[i];
            if e.type_id == t && e.name_id == n {
                return Some(i);
            }
            i = i + 1;
        }
        None
    }

    /// Finds the position of the first entry of type `t`.
    pub fn find_type(&self, t: u32) -> (r: Option<usize>)
        ensures
            match r {
                Some(i) => is_first_t(self@, t, i as int),
                None => !has_t(self@, t),
            },
    {
        let mut i: usize = 0;
        while i < self.entries.len()
            invariant
                i <= self.entries@.len(),
                forall|j: int| 0 <= j < i ==> !t_matches(self@[j], t),
            decreases self.entries@.len() - i,
        {
            let e = &self.entries[i];
            if e.type_id == t {
                return Some(i);
            }
            i = i + 1;
        }
        None
    }

    /// Replaces the data of the entry at `i`, keeping its identity.
    pub fn replace_data_at(&mut self, i: usize, data: Vec<u8>)
        requires
            i < old(self)@.len(),
        ensures
            final(self)@ == old(self)@.update(i as int, with_data(old(self)@[i as int], data@)),
    {
        let e = self.entries.remove(i);
        let new_e = ResEntry {
            type_id: e.type_id,
            name_id: e.name_id,
            lang_id: e.lang_id,
            codepage: e.codepage,
            data: data,
        };
        self.entries.insert(i, new_e);
        proof {
            assert(self@ =~= old(self)@.update(i as int, with_data(old(self)@[i as int], data@)));
        }
    }

    /// Replaces the opaque blob stored under `id`: the identifier must
    /// pre-exist in the template's directory; new identifiers are never
    /// invented.
    pub fn set_rcdata(&mut self, id: u32, data: Vec<u8>) -> (r: Result<(), ()>)
        ensures
            r is Ok <==> has_tn(old(self)@, RT_RCDATA, id),
            r is Ok ==> rcdata_applied(old(self)@, id, data@, final(self)@),
            r is Err ==> final(self)@ == old(self)@,
    {
        match self.find_type_name(RT_RCDATA, id) {
            Some(i) => {
                self.replace_data_at(i, data);
                Ok(())
            },
            None => Err(()),
        }
    }

    /// Exact comparison of two entry lists.
    pub fn entries_eq(&self, other: &ResourceSet) -> (r: bool)
        ensures
            r <==> self@ == other@,
    {
        if self.entries.len() != other.entries.len() {
            proof {
                assert(self@.len() != other@.len());
            }
            return false;
        }
        let mut i: usize = 0;
        while i < self.entries.len()
            invariant
                i <= self.entries@.len(),
                self.entries@.len() == other.entries@.len(),
                forall|j: int| 0 <= j < i ==> self@[j] == other@[j],
            decreases self.entries@.len() - i,
        {
            let a = &self.entries[i];
            let b = &other.entries[i];
            if a.type_id != b.type_id || a.name_id != b.name_id || a.lang_id != b.lang_id
                || a.codepage != b.codepage {
                proof {
                    assert(self@[i as int] != other@[i as int]);
                }
                return false;
            }
            if !crate::bytes::bytes_eq(&a.data, &b.data) {
                proof {
                    assert(self@[i as int] != other@[i as int]);
                }
                return false;
            }
            proof {
                assert(self@[i as int] == other@[i as int]);
            }
            i = i + 1;
        }
        proof {
            assert(self@ =~= other@);
        }
        true
    }
}

} // verus!
