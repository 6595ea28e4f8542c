//! Dataset optimization: collapses duplicate part numbers into one record
//! each (first record wins, later attributes merged over it) and sorts the
//! records by part number.

use vstd::prelude::*;

use rayon::slice::ParallelSliceMut;

use crate::builder::row_v;
use crate::builder::RowV;
use crate::compare::has_key;
use crate::compare::key_set;
use crate::compare::lemma_unique_keys_has;
use crate::compare::lemma_unique_keys_nodup;
use crate::compare::unique_keys;
use crate::text::clone_strings;
use crate::text::lex_le;
use crate::types::assoc_upsert;
use crate::types::attr_pairs;
use crate::types::attrs_upsert;
use crate::types::clone_attrs;
use crate::types::BomData;
use crate::types::BomRow;

verus! {

broadcast use {Seq::lemma_push_map_commute, vstd::seq_lib::group_to_multiset_ensures};

/// The model number of the first record with this key.
pub open spec fn first_model(rows: Seq<RowV>, k: Seq<char>) -> Option<Seq<char>>
    decreases rows.len(),
{
    if rows.len() == 0 {
        None
    } else {
        let rest = first_model(rows.drop_last(), k);
        if rest is Some {
            rest
        } else if rows.last().0 == k {
            Some(rows.last().1)
        } else {
            None
        }
    }
}

/// Every pair upserted onto the accumulated attributes, in order.
pub open spec fn upsert_all(
    acc: Seq<(Seq<char>, Seq<char>)>,
    pairs: Seq<(Seq<char>, Seq<char>)>,
) -> Seq<(Seq<char>, Seq<char>)>
    decreases pairs.len(),
{
    if pairs.len() == 0 {
        acc
    } else {
        assoc_upsert(upsert_all(acc, pairs.drop_last()), pairs.last().0, pairs.last().1)
    }
}

/// The merged attributes of a key: the first record's attributes, with
/// every later record's attributes upserted over them, in record order.
pub open spec fn merged_attrs(rows: Seq<RowV>, k: Seq<char>) -> Seq<(Seq<char>, Seq<char>)>
    decreases rows.len(),
{
    if rows.len() == 0 {
        Seq::empty()
    } else {
        let rest = merged_attrs(rows.drop_last(), k);
        if rows.last().0 == k {
            if has_key(rows.drop_last(), k) {
                upsert_all(rest, rows.last().2)
            } else {
                rows.last().2
            }
        } else {
            rest
        }
    }
}

/// Whether a record is the collapsed form of its key in the input
/// dataset.
pub open spec fn optimized_row(r: BomRow, vold: Seq<RowV>) -> bool {
    &&& has_key(vold, r.part_number@)
    &&& first_model(vold, r.part_number@) == Some(r.model_number@)
    &&& attr_pairs(r.attributes@) == merged_attrs(vold, r.part_number@)
}

/// Records sorted ascending by part number.
pub open spec fn rows_sorted_by_part(rows: Seq<BomRow>) -> bool {
    forall|i: int, j: int|
        0 <= i < j < rows.len() ==> lex_le(
            (#[trigger] rows[i]).part_number@,
            (#[trigger] rows[j]).part_number@,
        )
}

/// The first record of a key exists exactly when the key does.
proof fn lemma_first_model_some(rows: Seq<RowV>, k: Seq<char>)
    ensures
        (first_model(rows, k) is Some) <==> has_key(rows, k),
    decreases rows.len(),
{
    if rows.len() > 0 {
        lemma_first_model_some(rows.drop_last(), k);
    }
}

/// Relies on rayon's `par_sort_by_key`, a stable sort by the extracted
/// key: afterwards the vector holds the same records (same multiset, of
/// records and of their part numbers), ordered by part number. `String`
/// ordering is byte-wise, which on UTF-8 equals code-point order.
#[verifier::external_body]
fn sort_bom_rows_by_part(rows: &mut Vec<BomRow>)
    ensures
        final(rows)@.to_multiset() == old(rows)@.to_multiset(),
        final(rows)@.map_values(|r: BomRow| r.part_number@).to_multiset() == old(
            rows,
        )@.map_values(|r: BomRow| r.part_number@).to_multiset(),
        rows_sorted_by_part(final(rows)@),
{
    rows.par_sort_by_key(|r: &BomRow| r.part_number.clone());
}

/// Collapses duplicate part numbers: one record per key, keeping the
/// first record's key and model number and merging every later record's
/// attributes over it; the result is sorted ascending by part number.
pub fn optimize_bom_data(bom_data: &mut BomData)
    ensures
        final(bom_data).headers@ == old(bom_data).headers@,
        ({
            let vold = old(bom_data).rows@.map_values(|x: BomRow| row_v(x));
            let keys = final(bom_data).rows@.map_values(|r: BomRow| r.part_number@);
            &&& keys.no_duplicates()
            &&& keys.to_set() == key_set(vold)
            &&& rows_sorted_by_part(final(bom_data).rows@)
            &&& forall|i: int|
                0 <= i < final(bom_data).rows@.len() ==> optimized_row(
                    #[trigger] final(bom_data).rows@[i],
                    vold,
                )
        }),
{
    let ghost vold = bom_data.rows@.map_values(|x: BomRow| row_v(x));
    let n = bom_data.rows.len();
    let mut merged: Vec<BomRow> = Vec::new();
    let mut i: usize = 0;
    while i < n
        invariant
            i <= n,
            n == bom_data.rows@.len(),
            bom_data.rows@ == old(bom_data).rows@,
            vold == bom_data.rows@.map_values(|x: BomRow| row_v(x)),
            merged@.map_values(|r: BomRow| r.part_number@) == unique_keys(vold.take(i as int)),
            forall|j: int|
                0 <= j < merged@.len() ==> {
                    let r = #[trigger] merged@[j];
                    &&& first_model(vold.take(i as int), r.part_number@) == Some(r.model_number@)
                    &&& attr_pairs(r.attributes@) == merged_attrs(vold.take(i as int),
                        r.part_number@)
                },
        decreases n - i,
    {
        let ghost pre = vold.take(i as int);
        let ghost keys = merged@.map_values(|r: BomRow| r.part_number@);
        proof {
            assert(vold.take(i + 1).drop_last() =~= pre);
            assert(vold.take(i + 1).last() == vold[i as int]);
            assert(vold[i as int] == row_v(bom_data.rows@[i as int]));
            lemma_unique_keys_nodup(pre);
        }
        let row = &bom_data.rows[i];
        let ghost k = row.part_number@;

        // find an existing record with this key
        let en = merged.len();
        let mut idx: usize = 0;
        let mut found: bool = false;
        while idx < en && !found
            invariant
                idx <= en,
                en == merged@.len(),
                i < n,
                n == bom_data.rows@.len(),
                bom_data.rows@ == old(bom_data).rows@,
                !found ==> forall|j: int| 0 <= j < idx ==> (#[trigger] merged@[j]).part_number@
                    != bom_data.rows@[i as int].part_number@,
                found ==> idx < en && merged@[idx as int].part_number@ == bom_data.rows@[
                    i as int
                ].part_number@,
            decreases en - idx + (if found {
                0int
            } else {
                1int
            }),
        {
            if crate::text::str_eq(
                merged[idx].part_number.as_str(),
                bom_data.rows[i].part_number.as_str(),
            ) {
                found = true;
            } else {
                idx = idx + 1;
            }
        }
        if found {
            proof {
                assert(keys[idx as int] == k);
                assert(keys.contains(k));
                lemma_unique_keys_has(pre, k);
                assert(has_key(pre, k));
                lemma_first_model_some(pre, k);
            }
            let mut updated = BomRow {
                part_number: merged[idx].part_number.clone(),
                model_number: merged[idx].model_number.clone(),
                attributes: clone_attrs(&merged[idx].attributes),
            };
            let ghost base = attr_pairs(updated.attributes@);
            let row_attrs = clone_attrs(&bom_data.rows[i].attributes);
            let an = row_attrs.len();
            let mut a: usize = 0;
            while a < an
                invariant
                    a <= an,
                    an == row_attrs@.len(),
                    attr_pairs(row_attrs@) == vold[i as int].2,
                    i < n,
                    vold == bom_data.rows@.map_values(|x: BomRow| row_v(x)),
                    pre == vold.take(i as int),
                    k == vold[i as int].0,
                    updated.part_number@ == k,
                    first_model(pre, k) == Some(updated.model_number@),
                    base == merged_attrs(pre, k),
                    attr_pairs(updated.attributes@) == upsert_all(
                        base,
                        attr_pairs(row_attrs@).take(a as int),
                    ),
                decreases an - a,
            {
                proof {
                    let pairs = attr_pairs(row_attrs@);
                    assert(pairs.take(a + 1).drop_last() =~= pairs.take(a as int));
                    assert(pairs.take(a + 1).last() == pairs[a as int]);
                    assert(pairs[a as int] == (row_attrs@[a as int].0@, row_attrs@[a as int].1@));
                }
                attrs_upsert(
                    &mut updated.attributes,
                    row_attrs[a].0.clone(),
                    row_attrs[a].1.clone(),
                );
                a = a + 1;
            }
            proof {
                assert(attr_pairs(row_attrs@).take(an as int) =~= attr_pairs(row_attrs@));
                assert(attr_pairs(updated.attributes@) == upsert_all(base, vold[i as int].2));
                assert(merged_attrs(vold.take(i + 1), k) == upsert_all(
                    merged_attrs(pre, k),
                    vold[i as int].2,
                ));
            }
            let ghost mprev = merged@;
            merged.set(idx, updated);
            proof {
                assert(merged@ == mprev.update(idx as int, updated));
                assert(merged@.map_values(|r: BomRow| r.part_number@) =~= unique_keys(
                    vold.take(i + 1),
                ));
                assert forall|j: int|
                    0 <= j < merged@.len() implies {
                    let r = #[trigger] merged@[j];
                    &&& first_model(vold.take(i + 1), r.part_number@) == Some(r.model_number@)
                    &&& attr_pairs(r.attributes@) == merged_attrs(vold.take(i + 1), r.part_number@)
                } by {
                    if j != idx {
                        assert(merged@[j] == mprev[j]);
                        assert(keys.no_duplicates());
                        assert(keys[j] != keys[idx as int]);
                        assert(mprev[j].part_number@ != k);
                    }
                }
            }
        } else {
            proof {
                assert(!keys.contains(k)) by {
                    if keys.contains(k) {
                        let j = choose|j: int| 0 <= j < keys.len() && keys[j] == k;
                        assert(merged@[j].part_number@ == k);
                    }
                }
                lemma_unique_keys_has(pre, k);
                assert(!has_key(pre, k));
                lemma_first_model_some(pre, k);
            }
            let fresh = BomRow {
                part_number: bom_data.rows[i].part_number.clone(),
                model_number: bom_data.rows[i].model_number.clone(),
                attributes: clone_attrs(&bom_data.rows[i].attributes),
            };
            merged.push(fresh);
            proof {
                assert(merged@.map_values(|r: BomRow| r.part_number@) =~= unique_keys(
                    vold.take(i + 1),
                ));
                assert forall|j: int|
                    0 <= j < merged@.len() implies {
                    let r = #[trigger] merged@[j];
                    &&& first_model(vold.take(i + 1), r.part_number@) == Some(r.model_number@)
                    &&& attr_pairs(r.attributes@) == merged_attrs(vold.take(i + 1), r.part_number@)
                } by {
                    if j < merged@.len() - 1 {
                        assert(merged@[j].part_number@ != k) by {
                            assert(keys[j] == merged@[j].part_number@);
                        }
                    }
                }
            }
        }
        i = i + 1;
    }
    proof {
        assert(vold.take(n as int) =~= vold);
    }

    let ghost presort = merged@;
    let ghost prekeys = presort.map_values(|r: BomRow| r.part_number@);
    proof {
        lemma_unique_keys_nodup(vold);
        assert(prekeys == unique_keys(vold));
    }
    sort_bom_rows_by_part(&mut merged);
    proof {
        let keys = merged@.map_values(|r: BomRow| r.part_number@);
        prekeys.lemma_multiset_has_no_duplicates();
        keys.lemma_multiset_has_no_duplicates_conv();
        assert(keys.no_duplicates());
        assert(keys.to_set() =~= prekeys.to_set()) by {
            assert forall|k2: Seq<char>| keys.contains(k2) <==> prekeys.contains(k2) by {
                assert(keys.to_multiset().contains(k2) == prekeys.to_multiset().contains(k2));
            }
        }
        assert(prekeys.to_set() =~= key_set(vold)) by {
            assert forall|k2: Seq<char>| prekeys.contains(k2) <==> unique_keys(vold).contains(
                k2,
            ) by {}
        }
        assert forall|x: int|
            0 <= x < merged@.len() implies optimized_row(#[trigger] merged@[x], vold) by {
            assert(merged@.to_multiset().contains(merged@[x]));
            assert(presort.to_multiset().contains(merged@[x]));
            assert(presort.contains(merged@[x]));
            let j = choose|j: int| 0 <= j < presort.len() && presort[j] == merged@[x];
            lemma_first_model_some(vold, presort[j].part_number@);
            assert(optimized_row(presort[j], vold)) by {
                assert(unique_keys(vold).contains(prekeys[j]));
                lemma_unique_keys_has(vold, presort[j].part_number@);
            }
        }
    }
    let headers = clone_strings(&bom_data.headers);
    bom_data.headers = headers;
    bom_data.rows = merged;
}

} // verus!
