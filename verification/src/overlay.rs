//! The registered-name overlay: writes a "registered name" attribute into
//! each record, an override keyed by part number dominating a registered
//! name keyed by model number; records matching neither stay untouched.

use vstd::prelude::*;

use crate::text::clone_strings;
use crate::types::assoc_upsert;
use crate::types::attr_pairs;
use crate::types::attrs_upsert;
use crate::types::clone_attrs;
use crate::types::BomData;
use crate::types::BomRow;
use crate::types::OverrideEntry;
use crate::types::OverrideList;
use crate::types::RegisteredNameList;

verus! {

/// The value the last entry with this key binds, if any; entry lists act
/// as maps with last-write-wins duplicate keys.
pub open spec fn assoc_last(pairs: Seq<(Seq<char>, Seq<char>)>, k: Seq<char>) -> Option<Seq<char>>
    decreases pairs.len(),
{
    if pairs.len() == 0 {
        None
    } else if pairs.last().0 == k {
        Some(pairs.last().1)
    } else {
        assoc_last(pairs.drop_last(), k)
    }
}

/// The override list as key/value pairs: part number to name.
pub open spec fn override_pairs(l: OverrideList) -> Seq<(Seq<char>, Seq<char>)> {
    l.entries@.map_values(|e: OverrideEntry| (e.part_number@, e.registered_name@))
}

/// The registered-name list as key/value pairs: model number to name.
pub open spec fn registered_pairs(l: RegisteredNameList) -> Seq<(Seq<char>, Seq<char>)> {
    l.entries@.map_values(
        |e: crate::types::RegisteredNameEntry| (e.part_model@, e.registered_name@),
    )
}

/// The name an optional entry list binds to a key.
pub open spec fn bound_name(
    pairs: Option<Seq<(Seq<char>, Seq<char>)>>,
    k: Seq<char>,
) -> Option<Seq<char>> {
    match pairs {
        Some(p) => assoc_last(p, k),
        None => None,
    }
}

/// What one record's attributes become: the override name when the part
/// number has one, else the registered name when the model number has
/// one, upserted under the registered-name attribute; else unchanged.
pub open spec fn overlay_attrs(
    attrs: Seq<(Seq<char>, Seq<char>)>,
    part: Seq<char>,
    model: Seq<char>,
    ov: Option<Seq<(Seq<char>, Seq<char>)>>,
    rn: Option<Seq<(Seq<char>, Seq<char>)>>,
) -> Seq<(Seq<char>, Seq<char>)> {
    match bound_name(ov, part) {
        Some(name) => assoc_upsert(attrs, "登録名"@, name),
        None => match bound_name(rn, model) {
            Some(name) => assoc_upsert(attrs, "登録名"@, name),
            None => attrs,
        },
    }
}

/// Applies the registered-name overlay to every record: an override keyed
/// by part number wins; otherwise a registered name keyed by model
/// number; records matching neither keep their attributes.
pub fn apply_registered_names_to_bom(
    bom_data: &mut BomData,
    registered_name_list: &Option<RegisteredNameList>,
    override_list: &Option<OverrideList>,
)
    ensures
        final(bom_data).headers@ == old(bom_data).headers@,
        final(bom_data).rows@.len() == old(bom_data).rows@.len(),
        forall|i: int|
            0 <= i < old(bom_data).rows@.len() ==> {
                let old_r = old(bom_data).rows@[i];
                let new_r = #[trigger] final(bom_data).rows@[i];
                let ov = match override_list {
                    Some(l) => Some(override_pairs(*l)),
                    None => None,
                };
                let rn = match registered_name_list {
                    Some(l) => Some(registered_pairs(*l)),
                    None => None,
                };
                &&& new_r.part_number@ == old_r.part_number@
                &&& new_r.model_number@ == old_r.model_number@
                &&& attr_pairs(new_r.attributes@) == overlay_attrs(
                    attr_pairs(old_r.attributes@),
                    old_r.part_number@,
                    old_r.model_number@,
                    ov,
                    rn,
                )
            },
{
    let ghost orig = bom_data.rows@;
    let ghost ov = match override_list {
        Some(l) => Some(override_pairs(*l)),
        None => None,
    };
    let ghost rn = match registered_name_list {
        Some(l) => Some(registered_pairs(*l)),
        None => None,
    };
    let n = bom_data.rows.len();
    let mut out: Vec<BomRow> = Vec::new();
    let mut i: usize = 0;
    while i < n
        invariant
            i <= n,
            n == orig.len(),
            bom_data.rows@ == orig,
            ov == match override_list {
                Some(l) => Some(override_pairs(*l)),
                None => None,
            },
            rn == match registered_name_list {
                Some(l) => Some(registered_pairs(*l)),
                None => None,
            },
            out@.len() == i,
            forall|j: int|
                0 <= j < i ==> {
                    let old_r = orig[j];
                    let new_r = #[trigger] out@[j];
                    &&& new_r.part_number@ == old_r.part_number@
                    &&& new_r.model_number@ == old_r.model_number@
                    &&& attr_pairs(new_r.attributes@) == overlay_attrs(
                        attr_pairs(old_r.attributes@),
                        old_r.part_number@,
                        old_r.model_number@,
                        ov,
                        rn,
                    )
                },
        decreases n - i,
    {
        let row = &bom_data.rows[i];
        let part_number = row.part_number.clone();
        let model_number = row.model_number.clone();
        let mut attributes = clone_attrs(&row.attributes);
        let name: Option<String> = match override_list {
            Some(l) => lookup_last_override(l, &part_number),
            None => None,
        };
        match name {
            Some(n2) => {
                attrs_upsert(&mut attributes, "登録名".to_owned(), n2);
            },
            None => {
                let rname: Option<String> = match registered_name_list {
                    Some(l) => lookup_last_registered(l, &model_number),
                    None => None,
                };
                if let Some(n3) = rname {
                    attrs_upsert(&mut attributes, "登録名".to_owned(), n3);
                }
            },
        }
        let new_row = BomRow { part_number, model_number, attributes };
        proof {
            assert(attr_pairs(new_row.attributes@) == overlay_attrs(
                attr_pairs(orig[i as int].attributes@),
                orig[i as int].part_number@,
                orig[i as int].model_number@,
                ov,
                rn,
            ));
        }
        out.push(new_row);
        i = i + 1;
    }
    let headers = clone_strings(&bom_data.headers);
    bom_data.headers = headers;
    bom_data.rows = out;
}

/// The last override bound to the part number.
fn lookup_last_override(list: &OverrideList, key: &String) -> (r: Option<String>)
    ensures
        match r {
            Some(v) => assoc_last(override_pairs(*list), key@) == Some(v@),
            None => assoc_last(override_pairs(*list), key@) is None,
        },
{
    let ghost pv = override_pairs(*list);
    let n = list.entries.len();
    proof {
        assert(pv.take(n as int) =~= pv);
    }
    let mut i: usize = n;
    while i > 0
        invariant
            i <= n,
            n == list.entries@.len(),
            pv == override_pairs(*list),
            assoc_last(pv, key@) == assoc_last(pv.take(i as int), key@),
        decreases i,
    {
        proof {
            assert(pv.take(i as int).last() == pv[i - 1]);
            assert(pv.take(i as int).drop_last() =~= pv.take(i - 1));
            assert(pv[i - 1] == (list.entries@[i - 1].part_number@, list.entries@[i
                - 1].registered_name@));
        }
        if list.entries[i - 1].part_number == *key {
            return Some(list.entries[i - 1].registered_name.clone());
        }
        i = i - 1;
    }
    proof {
        assert(pv.take(0) =~= Seq::<(Seq<char>, Seq<char>)>::empty());
    }
    None
}

/// The last registered name bound to the model number.
fn lookup_last_registered(list: &RegisteredNameList, key: &String) -> (r: Option<String>)
    ensures
        match r {
            Some(v) => assoc_last(registered_pairs(*list), key@) == Some(v@),
            None => assoc_last(registered_pairs(*list), key@) is None,
        },
{
    let ghost pv = registered_pairs(*list);
    let n = list.entries.len();
    proof {
        assert(pv.take(n as int) =~= pv);
    }
    let mut i: usize = n;
    while i > 0
        invariant
            i <= n,
            n == list.entries@.len(),
            pv == registered_pairs(*list),
            assoc_last(pv, key@) == assoc_last(pv.take(i as int), key@),
        decreases i,
    {
        proof {
            assert(pv.take(i as int).last() == pv[i - 1]);
            assert(pv.take(i as int).drop_last() =~= pv.take(i - 1));
            assert(pv[i - 1] == (list.entries@[i - 1].part_model@, list.entries@[i
                - 1].registered_name@));
        }
        if list.entries[i - 1].part_model == *key {
            return Some(list.entries[i - 1].registered_name.clone());
        }
        i = i - 1;
    }
    proof {
        assert(pv.take(0) =~= Seq::<(Seq<char>, Seq<char>)>::empty());
    }
    None
}

/// Rewrites the override bound to the entry's part number, or appends the
/// entry when none exists yet.
pub fn upsert_override_entry(list: &mut OverrideList, entry: OverrideEntry)
    ensures
        final(list).entries@.len() >= 1,
        ({
            let old_pairs = override_pairs(*old(list));
            let new_pairs = override_pairs(*final(list));
            new_pairs == crate::types::assoc_upsert(old_pairs, entry.part_number@,
                entry.registered_name@)
        }),
{
    let ghost orig = list.entries@;
    let n = list.entries.len();
    let mut i: usize = 0;
    while i < n
        invariant
            i <= n,
            n == orig.len(),
            list.entries@ == orig,
            orig == old(list).entries@,
            forall|j: int| 0 <= j < i ==> #[trigger] orig[j].part_number@ != entry.part_number@,
        decreases n - i,
    {
        if list.entries[i].part_number == entry.part_number {
            let new_entry = OverrideEntry {
                part_number: list.entries[i].part_number.clone(),
                registered_name: entry.registered_name,
            };
            list.entries.set(i, new_entry);
            proof {
                assert forall|j: int| 0 <= j < i implies #[trigger] override_pairs(
                    *old(list),
                )[j].0 != entry.part_number@ by {
                    assert(orig[j].part_number@ != entry.part_number@);
                }
                crate::types::lemma_assoc_upsert_at(
                    override_pairs(*old(list)),
                    entry.part_number@,
                    entry.registered_name@,
                    i as int,
                );
                assert(override_pairs(*list) =~= override_pairs(*old(list)).update(
                    i as int,
                    (entry.part_number@, entry.registered_name@),
                ));
            }
            return ;
        }
        i = i + 1;
    }
    list.entries.push(entry);
    proof {
        assert forall|j: int| 0 <= j < orig.len() implies #[trigger] override_pairs(
            *old(list),
        )[j].0 != entry.part_number@ by {
            assert(orig[j].part_number@ != entry.part_number@);
        }
        crate::types::lemma_assoc_upsert_missing(
            override_pairs(*old(list)),
            entry.part_number@,
            entry.registered_name@,
        );
        assert(override_pairs(*list) =~= override_pairs(*old(list)).push(
            (entry.part_number@, entry.registered_name@),
        ));
    }
}

} // verus!
