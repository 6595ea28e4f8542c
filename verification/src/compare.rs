//! The comparison half of the reconciliation engine: keys both datasets by
//! part number (last record wins on duplicate keys) and partitions the key
//! space into common, left-only, right-only and modified.

use vstd::prelude::*;

use crate::builder::row_v;
use crate::builder::RowV;
use crate::types::BomData;
use crate::types::BomRow;
use crate::types::ComparisonResult;
use crate::types::ComparisonRow;

verus! {

broadcast use {vstd::seq_lib::group_filter_ensures, Seq::lemma_filter_push};

// ---------------------------------------------------------------------------
// The key model of a dataset
// ---------------------------------------------------------------------------

/// The model number a dataset binds to key `k`: that of the last record
/// with that part number, if any.
pub open spec fn key_model(rows: Seq<RowV>, k: Seq<char>) -> Option<Seq<char>>
    decreases rows.len(),
{
    if rows.len() == 0 {
        None
    } else if rows.last().0 == k {
        Some(rows.last().1)
    } else {
        key_model(rows.drop_last(), k)
    }
}

pub open spec fn has_key(rows: Seq<RowV>, k: Seq<char>) -> bool {
    key_model(rows, k) is Some
}

/// The distinct part numbers of a dataset, in order of first occurrence.
pub open spec fn unique_keys(rows: Seq<RowV>) -> Seq<Seq<char>>
    decreases rows.len(),
{
    if rows.len() == 0 {
        Seq::empty()
    } else {
        let rest = unique_keys(rows.drop_last());
        if rest.contains(rows.last().0) {
            rest
        } else {
            rest.push(rows.last().0)
        }
    }
}

/// The set of keys of a dataset.
pub open spec fn key_set(rows: Seq<RowV>) -> Set<Seq<char>> {
    unique_keys(rows).to_set()
}

pub proof fn lemma_unique_keys_nodup(rows: Seq<RowV>)
    ensures
        unique_keys(rows).no_duplicates(),
    decreases rows.len(),
{
    if rows.len() > 0 {
        lemma_unique_keys_nodup(rows.drop_last());
    }
}

/// A key occurs among the distinct keys exactly when the dataset binds it.
pub proof fn lemma_unique_keys_has(rows: Seq<RowV>, k: Seq<char>)
    ensures
        unique_keys(rows).contains(k) <==> has_key(rows, k),
    decreases rows.len(),
{
    if rows.len() > 0 {
        lemma_unique_keys_has(rows.drop_last(), k);
        let rest = unique_keys(rows.drop_last());
        if rows.last().0 == k {
            if !rest.contains(k) {
                assert(unique_keys(rows) == rest.push(k));
                assert(unique_keys(rows)[unique_keys(rows).len() - 1] == k);
            }
        } else {
            if rest.contains(k) {
                let j = choose|j: int| 0 <= j < rest.len() && rest[j] == k;
                if !rest.contains(rows.last().0) {
                    assert(unique_keys(rows)[j] == k);
                }
            } else {
                if !rest.contains(rows.last().0) {
                    assert forall|j: int|
                        0 <= j < unique_keys(rows).len() implies unique_keys(rows)[j] != k by {
                        if j < rest.len() {
                            assert(rest[j] != k);
                        }
                    }
                }
            }
        }
    }
}

// ---------------------------------------------------------------------------
// Keyed entries
// ---------------------------------------------------------------------------

/// The key of an entry pair.
pub open spec fn entry_key(p: (String, String)) -> Seq<char> {
    p.0@
}

/// Collapses a dataset into one `(part number, model number)` entry per
/// distinct key, keys in first-occurrence order, the model of the last
/// record with that key.
pub fn key_entries(rows: &Vec<BomRow>) -> (e: Vec<(String, String)>)
    ensures
        e@.map_values(|p: (String, String)| entry_key(p)) == unique_keys(
            rows@.map_values(|x: BomRow| row_v(x)),
        ),
        forall|j: int|
            0 <= j < e@.len() ==> key_model(
                rows@.map_values(|x: BomRow| row_v(x)),
                #[trigger] e@[j].0@,
            ) == Some(e@[j].1@),
{
    broadcast use Seq::lemma_push_map_commute;

    let ghost va = rows@.map_values(|x: BomRow| row_v(x));
    let mut e: Vec<(String, String)> = Vec::new();
    let n = rows.len();
    let mut i: usize = 0;
    while i < n
        invariant
            i <= n,
            n == rows@.len(),
            va == rows@.map_values(|x: BomRow| row_v(x)),
            e@.map_values(|p: (String, String)| entry_key(p)) == unique_keys(va.take(i as int)),
            forall|j: int|
                0 <= j < e@.len() ==> key_model(va.take(i as int), #[trigger] e@[j].0@) == Some(
                    e@[j].1@,
                ),
        decreases n - i,
    {
        let ghost keys = e@.map_values(|p: (String, String)| entry_key(p));
        proof {
            assert(va.take(i + 1).drop_last() =~= va.take(i as int));
            assert(va.take(i + 1).last() == va[i as int]);
            assert(va[i as int] == row_v(rows@[i as int]));
            lemma_unique_keys_nodup(va.take(i as int));
        }
        // find an existing entry with this key
        let en = e.len();
        let mut idx: usize = 0;
        let mut found: bool = false;
        while idx < en && !found
            invariant
                idx <= en,
                en == e@.len(),
                i < n,
                n == rows@.len(),
                !found ==> forall|j: int| 0 <= j < idx ==> #[trigger] e@[j].0@
                    != rows@[i as int].part_number@,
                found ==> idx < en && e@[idx as int].0@ == rows@[i as int].part_number@,
            decreases en - idx + (if found {
                0int
            } else {
                1int
            }),
        {
            if e[idx].0 == rows[i].part_number {
                found = true;
            } else {
                idx = idx + 1;
            }
        }
        if found {
            let model = rows[i].model_number.clone();
            let key = e[idx].0.clone();
            e.set(idx, (key, model));
            proof {
                let newkeys = e@.map_values(|p: (String, String)| entry_key(p));
                assert(newkeys =~= keys);
                assert(keys.contains(va[i as int].0)) by {
                    assert(keys[idx as int] == va[i as int].0);
                }
                assert(unique_keys(va.take(i + 1)) == keys);
                assert forall|j: int|
                    0 <= j < e@.len() implies key_model(va.take(i + 1), #[trigger] e@[j].0@)
                    == Some(e@[j].1@) by {
                    if j == idx {
                        assert(va.take(i + 1).last().0 == e@[j].0@);
                    } else {
                        assert(keys.no_duplicates());
                        assert(keys[j] != keys[idx as int]);
                        assert(e@[j].0@ != va[i as int].0);
                        assert(key_model(va.take(i as int), e@[j].0@) == Some(e@[j].1@));
                    }
                }
            }
        } else {
            let key = rows[i].part_number.clone();
            let model = rows[i].model_number.clone();
            e.push((key, model));
            proof {
                let newkeys = e@.map_values(|p: (String, String)| entry_key(p));
                assert(newkeys =~= keys.push(va[i as int].0));
                assert(!keys.contains(va[i as int].0)) by {
                    if keys.contains(va[i as int].0) {
                        let j = choose|j: int| 0 <= j < keys.len() && keys[j] == va[i as int].0;
                        assert(e@[j].0@ == rows@[i as int].part_number@);
                    }
                }
                assert(unique_keys(va.take(i + 1)) == keys.push(va[i as int].0));
                assert forall|j: int|
                    0 <= j < e@.len() implies key_model(va.take(i + 1), #[trigger] e@[j].0@)
                    == Some(e@[j].1@) by {
                    if j < e@.len() - 1 {
                        assert(e@[j].0@ != va[i as int].0) by {
                            assert(keys[j] == e@[j].0@);
                        }
                        assert(key_model(va.take(i as int), e@[j].0@) == Some(e@[j].1@));
                    } else {
                        assert(va.take(i + 1).last().0 == e@[j].0@);
                    }
                }
            }
        }
        i = i + 1;
    }
    proof {
        assert(va.take(n as int) =~= va);
    }
    e
}

/// Finds the first entry bound to `key`.
pub fn entries_get(entries: &Vec<(String, String)>, key: &String) -> (r: Option<String>)
    ensures
        match r {
            Some(v) => exists|j: int|
                0 <= j < entries@.len() && (#[trigger] entries@[j]).0@ == key@ && entries@[j].1@
                    == v@,
            None => forall|j: int| 0 <= j < entries@.len() ==> (#[trigger] entries@[j]).0@ != key@,
        },
{
    let n = entries.len();
    let mut i: usize = 0;
    while i < n
        invariant
            i <= n,
            n == entries@.len(),
            forall|j: int| 0 <= j < i ==> (#[trigger] entries@[j]).0@ != key@,
        decreases n - i,
    {
        if entries[i].0 == *key {
            let v = entries[i].1.clone();
            proof {
                assert((entries@[i as int]).0@ == key@);
            }
            return Some(v);
        }
        i = i + 1;
    }
    None
}

// ---------------------------------------------------------------------------
// Comparison
// ---------------------------------------------------------------------------

/// What a comparison row must say about key `k` of the two key models.
pub open spec fn common_row_ok(row: ComparisonRow, va: Seq<RowV>, vb: Seq<RowV>) -> bool {
    let k = row.part_number@;
    &&& key_model(va, k) == Some(row.model_a@)
    &&& key_model(vb, k) == Some(row.model_b@)
    &&& (row.model_a@ == row.model_b@ ==> row.status@ == "common"@ && row.change_type@
        == "UNCHANGED"@)
    &&& (row.model_a@ != row.model_b@ ==> row.status@ == "modified"@ && row.change_type@
        == "MODIFIED"@)
}

pub open spec fn a_only_row_ok(row: ComparisonRow, va: Seq<RowV>) -> bool {
    &&& key_model(va, row.part_number@) == Some(row.model_a@)
    &&& row.model_b@ == Seq::<char>::empty()
    &&& row.status@ == "a_only"@
    &&& row.change_type@ == "REMOVED"@
}

pub open spec fn b_only_row_ok(row: ComparisonRow, vb: Seq<RowV>) -> bool {
    &&& key_model(vb, row.part_number@) == Some(row.model_b@)
    &&& row.model_a@ == Seq::<char>::empty()
    &&& row.status@ == "b_only"@
    &&& row.change_type@ == "ADDED"@
}

/// The keys of dataset `a` that `b` also binds.
pub open spec fn common_keys(va: Seq<RowV>, vb: Seq<RowV>) -> Seq<Seq<char>> {
    unique_keys(va).filter(|k: Seq<char>| has_key(vb, k))
}

/// The keys of dataset `a` that `b` does not bind.
pub open spec fn only_keys(va: Seq<RowV>, vb: Seq<RowV>) -> Seq<Seq<char>> {
    unique_keys(va).filter(|k: Seq<char>| !has_key(vb, k))
}

/// The shared keys whose two model numbers differ.
pub open spec fn modified_keys(va: Seq<RowV>, vb: Seq<RowV>) -> Seq<Seq<char>> {
    unique_keys(va).filter(|k: Seq<char>| has_key(vb, k) && key_model(va, k) != key_model(vb, k))
}

pub open spec fn comparison_ok(r: ComparisonResult, va: Seq<RowV>, vb: Seq<RowV>) -> bool {
    &&& r.common_parts@.map_values(|row: ComparisonRow| row.part_number@) == common_keys(va, vb)
    &&& forall|i: int|
        0 <= i < r.common_parts@.len() ==> common_row_ok(#[trigger] r.common_parts@[i], va, vb)
    &&& r.a_only_parts@.map_values(|row: ComparisonRow| row.part_number@) == only_keys(va, vb)
    &&& forall|i: int|
        0 <= i < r.a_only_parts@.len() ==> a_only_row_ok(#[trigger] r.a_only_parts@[i], va)
    &&& r.b_only_parts@.map_values(|row: ComparisonRow| row.part_number@) == only_keys(vb, va)
    &&& forall|i: int|
        0 <= i < r.b_only_parts@.len() ==> b_only_row_ok(#[trigger] r.b_only_parts@[i], vb)
    &&& r.modified_parts@.map_values(|row: ComparisonRow| row.part_number@) == modified_keys(
        va,
        vb,
    )
    &&& forall|i: int|
        0 <= i < r.modified_parts@.len() ==> common_row_ok(#[trigger] r.modified_parts@[i], va, vb)
            && r.modified_parts@[i].model_a@ != r.modified_parts@[i].model_b@
}

/// Compares two datasets keyed by part number. Keys in both land in
/// `common_parts` (marked `modified` when the models differ, and then
/// listed again in `modified_parts`); keys of only one side land in
/// `a_only_parts` or `b_only_parts`.
pub fn perform_comparison(bom_a: &BomData, bom_b: &BomData) -> (r: ComparisonResult)
    ensures
        comparison_ok(
            r,
            bom_a.rows@.map_values(|x: BomRow| row_v(x)),
            bom_b.rows@.map_values(|x: BomRow| row_v(x)),
        ),
{
    broadcast use Seq::lemma_push_map_commute;

    let ghost va = bom_a.rows@.map_values(|x: BomRow| row_v(x));
    let ghost vb = bom_b.rows@.map_values(|x: BomRow| row_v(x));
    let ea = key_entries(&bom_a.rows);
    let eb = key_entries(&bom_b.rows);
    let ghost ka = unique_keys(va);
    let ghost kb = unique_keys(vb);

    let mut common_parts: Vec<ComparisonRow> = Vec::new();
    let mut a_only_parts: Vec<ComparisonRow> = Vec::new();
    let mut modified_parts: Vec<ComparisonRow> = Vec::new();

    let na = ea.len();
    let mut i: usize = 0;
    while i < na
        invariant
            i <= na,
            na == ea@.len(),
            ea@.map_values(|p: (String, String)| entry_key(p)) == ka,
            eb@.map_values(|p: (String, String)| entry_key(p)) == kb,
            forall|j: int|
                0 <= j < ea@.len() ==> key_model(va, #[trigger] ea@[j].0@) == Some(ea@[j].1@),
            forall|j: int|
                0 <= j < eb@.len() ==> key_model(vb, #[trigger] eb@[j].0@) == Some(eb@[j].1@),
            ka == unique_keys(va),
            kb == unique_keys(vb),
            common_parts@.map_values(|row: ComparisonRow| row.part_number@) == ka.take(
                i as int,
            ).filter(|k: Seq<char>| has_key(vb, k)),
            forall|x: int|
                0 <= x < common_parts@.len() ==> common_row_ok(
                    #[trigger] common_parts@[x],
                    va,
                    vb,
                ),
            a_only_parts@.map_values(|row: ComparisonRow| row.part_number@) == ka.take(
                i as int,
            ).filter(|k: Seq<char>| !has_key(vb, k)),
            forall|x: int|
                0 <= x < a_only_parts@.len() ==> a_only_row_ok(#[trigger] a_only_parts@[x], va),
            modified_parts@.map_values(|row: ComparisonRow| row.part_number@) == ka.take(
                i as int,
            ).filter(|k: Seq<char>| has_key(vb, k) && key_model(va, k) != key_model(vb, k)),
            forall|x: int|
                0 <= x < modified_parts@.len() ==> common_row_ok(
                    #[trigger] modified_parts@[x],
                    va,
                    vb,
                ) && modified_parts@[x].model_a@ != modified_parts@[x].model_b@,
        decreases na - i,
    {
        let ghost k = ea@[i as int].0@;
        proof {
            assert(ka.take(i + 1).drop_last() =~= ka.take(i as int));
            assert(ka.take(i + 1).last() == ka[i as int]);
            assert(ka[i as int] == k) by {
                assert(ea@.map_values(|p: (String, String)| entry_key(p))[i as int] == entry_key(
                    ea@[i as int],
                ));
            }
            assert(key_model(va, k) == Some(ea@[i as int].1@));
        }
        let part = ea[i].0.clone();
        let model_a = ea[i].1.clone();
        match entries_get(&eb, &part) {
            Some(model_b) => {
                proof {
                    let j = choose|j: int|
                        0 <= j < eb@.len() && (eb@[j]).0@ == part@ && eb@[j].1@ == model_b@;
                    assert(key_model(vb, k) == Some(model_b@));
                }
                let is_modified = !(model_a == model_b);
                let row = ComparisonRow {
                    part_number: part,
                    model_a,
                    model_b,
                    status: if is_modified {
                        "modified".to_owned()
                    } else {
                        "common".to_owned()
                    },
                    change_type: if is_modified {
                        "MODIFIED".to_owned()
                    } else {
                        "UNCHANGED".to_owned()
                    },
                };
                proof {
                    assert(common_row_ok(row, va, vb));
                }
                if is_modified {
                    let row2 = ComparisonRow {
                        part_number: row.part_number.clone(),
                        model_a: row.model_a.clone(),
                        model_b: row.model_b.clone(),
                        status: "modified".to_owned(),
                        change_type: "MODIFIED".to_owned(),
                    };
                    proof {
                        assert(common_row_ok(row2, va, vb));
                    }
                    modified_parts.push(row2);
                }
                common_parts.push(row);
                proof {
                    assert(ka.take(i + 1) =~= ka.take(i as int).push(k));
                    assert(common_parts@.map_values(|row: ComparisonRow| row.part_number@)
                        =~= ka.take(i + 1).filter(|k: Seq<char>| has_key(vb, k)));
                    assert(a_only_parts@.map_values(|row: ComparisonRow| row.part_number@)
                        =~= ka.take(i + 1).filter(|k: Seq<char>| !has_key(vb, k)));
                    assert(modified_parts@.map_values(|row: ComparisonRow| row.part_number@)
                        =~= ka.take(i + 1).filter(
                        |k: Seq<char>| has_key(vb, k) && key_model(va, k) != key_model(vb, k),
                    ));
                }
            },
            None => {
                proof {
                    lemma_unique_keys_has(vb, k);
                    assert(!has_key(vb, k)) by {
                        if has_key(vb, k) {
                            assert(kb.contains(k));
                            let j = choose|j: int| 0 <= j < kb.len() && kb[j] == k;
                            assert(eb@.map_values(|p: (String, String)| entry_key(p))[j]
                                == entry_key(eb@[j]));
                        }
                    }
                }
                let row = ComparisonRow {
                    part_number: part,
                    model_a,
                    model_b: String::new(),
                    status: "a_only".to_owned(),
                    change_type: "REMOVED".to_owned(),
                };
                proof {
                    assert(a_only_row_ok(row, va));
                }
                a_only_parts.push(row);
                proof {
                    assert(ka.take(i + 1) =~= ka.take(i as int).push(k));
                    assert(common_parts@.map_values(|row: ComparisonRow| row.part_number@)
                        =~= ka.take(i + 1).filter(|k: Seq<char>| has_key(vb, k)));
                    assert(a_only_parts@.map_values(|row: ComparisonRow| row.part_number@)
                        =~= ka.take(i + 1).filter(|k: Seq<char>| !has_key(vb, k)));
                    assert(modified_parts@.map_values(|row: ComparisonRow| row.part_number@)
                        =~= ka.take(i + 1).filter(
                        |k: Seq<char>| has_key(vb, k) && key_model(va, k) != key_model(vb, k),
                    ));
                }
            },
        }
        i = i + 1;
    }

    let mut b_only_parts: Vec<ComparisonRow> = Vec::new();
    let nb = eb.len();
    let mut i2: usize = 0;
    while i2 < nb
        invariant
            i2 <= nb,
            nb == eb@.len(),
            eb@.map_values(|p: (String, String)| entry_key(p)) == kb,
            forall|j: int|
                0 <= j < ea@.len() ==> key_model(va, #[trigger] ea@[j].0@) == Some(ea@[j].1@),
            forall|j: int|
                0 <= j < eb@.len() ==> key_model(vb, #[trigger] eb@[j].0@) == Some(eb@[j].1@),
            ea@.map_values(|p: (String, String)| entry_key(p)) == ka,
            ka == unique_keys(va),
            kb == unique_keys(vb),
            b_only_parts@.map_values(|row: ComparisonRow| row.part_number@) == kb.take(
                i2 as int,
            ).filter(|k: Seq<char>| !has_key(va, k)),
            forall|x: int|
                0 <= x < b_only_parts@.len() ==> b_only_row_ok(#[trigger] b_only_parts@[x], vb),
        decreases nb - i2,
    {
        let ghost k = eb@[i2 as int].0@;
        proof {
            assert(kb.take(i2 + 1).drop_last() =~= kb.take(i2 as int));
            assert(kb.take(i2 + 1).last() == kb[i2 as int]);
            assert(kb[i2 as int] == k) by {
                assert(eb@.map_values(|p: (String, String)| entry_key(p))[i2 as int] == entry_key(
                    eb@[i2 as int],
                ));
            }
            assert(key_model(vb, k) == Some(eb@[i2 as int].1@));
        }
        let part = eb[i2].0.clone();
        let model_b = eb[i2].1.clone();
        match entries_get(&ea, &part) {
            Some(_ma) => {
                proof {
                    assert(has_key(va, k)) by {
                        let j = choose|j: int|
                            0 <= j < ea@.len() && (ea@[j]).0@ == part@ && ea@[j].1@ == _ma@;
                        assert(key_model(va, ea@[j].0@) == Some(ea@[j].1@));
                    }
                    assert(kb.take(i2 + 1) =~= kb.take(i2 as int).push(k));
                    assert(b_only_parts@.map_values(|row: ComparisonRow| row.part_number@)
                        =~= kb.take(i2 + 1).filter(|k: Seq<char>| !has_key(va, k)));
                }
            },
            None => {
                proof {
                    lemma_unique_keys_has(va, k);
                    assert(!has_key(va, k)) by {
                        if has_key(va, k) {
                            assert(ka.contains(k));
                            let j = choose|j: int| 0 <= j < ka.len() && ka[j] == k;
                            assert(ea@.map_values(|p: (String, String)| entry_key(p))[j]
                                == entry_key(ea@[j]));
                        }
                    }
                }
                let row = ComparisonRow {
                    part_number: part,
                    model_a: String::new(),
                    model_b,
                    status: "b_only".to_owned(),
                    change_type: "ADDED".to_owned(),
                };
                proof {
                    assert(b_only_row_ok(row, vb));
                }
                b_only_parts.push(row);
                proof {
                    assert(kb.take(i2 + 1) =~= kb.take(i2 as int).push(k));
                    assert(b_only_parts@.map_values(|row: ComparisonRow| row.part_number@)
                        =~= kb.take(i2 + 1).filter(|k: Seq<char>| !has_key(va, k)));
                }
            },
        }
        i2 = i2 + 1;
    }
    proof {
        assert(ka.take(na as int) =~= ka);
        assert(kb.take(nb as int) =~= kb);
    }
    ComparisonResult { common_parts, a_only_parts, b_only_parts, modified_parts }
}

/// The change type a comparison row carries when nothing changed.
pub fn default_change_type() -> (r: String)
    ensures
        r@ == "UNCHANGED"@,
{
    "UNCHANGED".to_owned()
}

// ---------------------------------------------------------------------------
// Stats
// ---------------------------------------------------------------------------

/// The counts of a comparison: one per partition, plus the key counts of
/// each input dataset.
pub struct ComparisonStats {
    pub common: usize,
    pub a_only: usize,
    pub b_only: usize,
    pub modified: usize,
    pub total_a: usize,
    pub total_b: usize,
}

/// Pure reduction over the produced partitions: counts only.
pub fn get_comparison_stats(result: &ComparisonResult) -> (r: ComparisonStats)
    requires
        result.common_parts@.len() + result.a_only_parts@.len() <= usize::MAX,
        result.common_parts@.len() + result.b_only_parts@.len() <= usize::MAX,
    ensures
        r.common == result.common_parts@.len(),
        r.a_only == result.a_only_parts@.len(),
        r.b_only == result.b_only_parts@.len(),
        r.modified == result.modified_parts@.len(),
        r.total_a == result.common_parts@.len() + result.a_only_parts@.len(),
        r.total_b == result.common_parts@.len() + result.b_only_parts@.len(),
{
    let common = result.common_parts.len();
    let a_only = result.a_only_parts.len();
    let b_only = result.b_only_parts.len();
    let modified = result.modified_parts.len();
    ComparisonStats {
        common,
        a_only,
        b_only,
        modified,
        total_a: common + a_only,
        total_b: common + b_only,
    }
}

// ---------------------------------------------------------------------------
// Partition laws
// ---------------------------------------------------------------------------

proof fn lemma_filter_split_len(
    s: Seq<Seq<char>>,
    p: spec_fn(Seq<char>) -> bool,
    q: spec_fn(Seq<char>) -> bool,
)
    requires
        forall|x: Seq<char>| #[trigger] q(x) <==> !p(x),
    ensures
        s.filter(p).len() + s.filter(q).len() == s.len(),
    decreases s.len(),
{
    reveal(Seq::filter);
    if s.len() > 0 {
        lemma_filter_split_len(s.drop_last(), p, q);
    }
}

pub proof fn lemma_filter_nodup(s: Seq<Seq<char>>, p: spec_fn(Seq<char>) -> bool)
    requires
        s.no_duplicates(),
    ensures
        s.filter(p).no_duplicates(),
    decreases s.len(),
{
    reveal(Seq::filter);
    if s.len() > 0 {
        assert(s.drop_last().no_duplicates());
        lemma_filter_nodup(s.drop_last(), p);
        if p(s.last()) {
            assert(!s.drop_last().contains(s.last())) by {
                if s.drop_last().contains(s.last()) {
                    let j = choose|j: int|
                        0 <= j < s.drop_last().len() && s.drop_last()[j] == s.last();
                    assert(s[j] == s[s.len() - 1]);
                }
            }
            assert(!s.drop_last().filter(p).contains(s.last())) by {
                if s.drop_last().filter(p).contains(s.last()) {
                    s.drop_last().lemma_filter_contains_rev(p, s.last());
                }
            }
            assert(s.filter(p) == s.drop_last().filter(p).push(s.last()));
        }
    }
}

proof fn lemma_filter_true(s: Seq<Seq<char>>, p: spec_fn(Seq<char>) -> bool)
    requires
        forall|i: int| 0 <= i < s.len() ==> p(#[trigger] s[i]),
    ensures
        s.filter(p) == s,
    decreases s.len(),
{
    reveal(Seq::filter);
    if s.len() > 0 {
        lemma_filter_true(s.drop_last(), p);
        assert(s.drop_last().filter(p).push(s.last()) =~= s);
    }
}

proof fn lemma_filter_false(s: Seq<Seq<char>>, p: spec_fn(Seq<char>) -> bool)
    requires
        forall|i: int| 0 <= i < s.len() ==> !p(#[trigger] s[i]),
    ensures
        s.filter(p) == Seq::<Seq<char>>::empty(),
    decreases s.len(),
{
    reveal(Seq::filter);
    if s.len() > 0 {
        lemma_filter_false(s.drop_last(), p);
    }
}

/// Membership in a filtered key sequence.
pub proof fn lemma_filter_mem(s: Seq<Seq<char>>, p: spec_fn(Seq<char>) -> bool, k: Seq<char>)
    ensures
        s.filter(p).contains(k) <==> s.contains(k) && p(k),
{
    if s.filter(p).contains(k) {
        let j = choose|j: int| 0 <= j < s.filter(p).len() && s.filter(p)[j] == k;
        s.lemma_filter_pred(p, j);
        s.lemma_filter_contains_rev(p, k);
    }
    if s.contains(k) && p(k) {
        let j = choose|j: int| 0 <= j < s.len() && s[j] == k;
        s.lemma_filter_contains(p, j);
    }
}

/// The key space of a comparison partitions as the contract of
/// `perform_comparison` describes: the common keys and the left-only keys
/// together count every key of the left dataset (likewise on the right);
/// the common keys counted from either side agree; the common, left-only
/// and right-only key sets are pairwise disjoint, the modified keys are
/// among the common ones, and together they cover exactly the union of
/// both key sets.
pub proof fn lemma_comparison_partition(va: Seq<RowV>, vb: Seq<RowV>)
    ensures
        common_keys(va, vb).len() + only_keys(va, vb).len() == unique_keys(va).len(),
        common_keys(vb, va).len() + only_keys(vb, va).len() == unique_keys(vb).len(),
        common_keys(va, vb).len() == common_keys(vb, va).len(),
        common_keys(va, vb).to_set() == key_set(va).intersect(key_set(vb)),
        only_keys(va, vb).to_set() == key_set(va).difference(key_set(vb)),
        only_keys(vb, va).to_set() == key_set(vb).difference(key_set(va)),
        modified_keys(va, vb).to_set() <= common_keys(va, vb).to_set(),
        common_keys(va, vb).to_set().disjoint(only_keys(va, vb).to_set()),
        common_keys(va, vb).to_set().disjoint(only_keys(vb, va).to_set()),
        only_keys(va, vb).to_set().disjoint(only_keys(vb, va).to_set()),
        common_keys(va, vb).to_set().union(only_keys(va, vb).to_set()).union(
            only_keys(vb, va).to_set(),
        ) == key_set(va).union(key_set(vb)),
{
    let ka = unique_keys(va);
    let kb = unique_keys(vb);
    let pa = |k: Seq<char>| has_key(vb, k);
    let qa = |k: Seq<char>| !has_key(vb, k);
    let pb = |k: Seq<char>| has_key(va, k);
    let qb = |k: Seq<char>| !has_key(va, k);
    lemma_filter_split_len(ka, pa, qa);
    lemma_filter_split_len(kb, pb, qb);
    lemma_unique_keys_nodup(va);
    lemma_unique_keys_nodup(vb);
    lemma_filter_nodup(ka, pa);
    lemma_filter_nodup(ka, qa);
    lemma_filter_nodup(kb, pb);
    lemma_filter_nodup(kb, qb);

    assert forall|k: Seq<char>| true implies {
        &&& (common_keys(va, vb).to_set().contains(k) <==> key_set(va).contains(k) && key_set(
            vb,
        ).contains(k))
        &&& (common_keys(vb, va).to_set().contains(k) <==> key_set(va).contains(k) && key_set(
            vb,
        ).contains(k))
        &&& (only_keys(va, vb).to_set().contains(k) <==> key_set(va).contains(k) && !key_set(
            vb,
        ).contains(k))
        &&& (only_keys(vb, va).to_set().contains(k) <==> key_set(vb).contains(k) && !key_set(
            va,
        ).contains(k))
        &&& (modified_keys(va, vb).to_set().contains(k) ==> common_keys(va, vb).to_set().contains(
            k,
        ))
    } by {
        lemma_unique_keys_has(va, k);
        lemma_unique_keys_has(vb, k);
        lemma_filter_mem(ka, pa, k);
        lemma_filter_mem(ka, qa, k);
        lemma_filter_mem(kb, pb, k);
        lemma_filter_mem(kb, qb, k);
        lemma_filter_mem(
            ka,
            |k2: Seq<char>| has_key(vb, k2) && key_model(va, k2) != key_model(vb, k2),
            k,
        );
    }

    assert(common_keys(va, vb).to_set() =~= key_set(va).intersect(key_set(vb)));
    assert(common_keys(vb, va).to_set() =~= key_set(va).intersect(key_set(vb)));
    assert(only_keys(va, vb).to_set() =~= key_set(va).difference(key_set(vb)));
    assert(only_keys(vb, va).to_set() =~= key_set(vb).difference(key_set(va)));
    assert(common_keys(va, vb).to_set().union(only_keys(va, vb).to_set()).union(
        only_keys(vb, va).to_set(),
    ) =~= key_set(va).union(key_set(vb)));

    common_keys(va, vb).unique_seq_to_set();
    common_keys(vb, va).unique_seq_to_set();
    assert(common_keys(va, vb).len() == common_keys(va, vb).to_set().len());
    assert(common_keys(vb, va).len() == common_keys(vb, va).to_set().len());
}

/// Counted over a valid comparison result: the common rows plus the
/// left-only rows are exactly the keys of the left dataset, and the common
/// rows plus the right-only rows exactly the keys of the right one.
pub proof fn lemma_comparison_counts(r: ComparisonResult, va: Seq<RowV>, vb: Seq<RowV>)
    requires
        comparison_ok(r, va, vb),
    ensures
        r.common_parts@.len() + r.a_only_parts@.len() == unique_keys(va).len(),
        r.common_parts@.len() + r.b_only_parts@.len() == unique_keys(vb).len(),
    {
    lemma_comparison_partition(va, vb);
    assert(r.common_parts@.len() == common_keys(va, vb).len()) by {
        assert(r.common_parts@.map_values(|row: ComparisonRow| row.part_number@).len()
            == r.common_parts@.len());
    }
    assert(r.a_only_parts@.len() == only_keys(va, vb).len()) by {
        assert(r.a_only_parts@.map_values(|row: ComparisonRow| row.part_number@).len()
            == r.a_only_parts@.len());
    }
    assert(r.b_only_parts@.len() == only_keys(vb, va).len()) by {
        assert(r.b_only_parts@.map_values(|row: ComparisonRow| row.part_number@).len()
            == r.b_only_parts@.len());
    }
}

/// Comparing a dataset with itself finds every key common, none only on
/// one side, and none modified: the round trip of building a dataset and
/// comparing it with itself yields every key in `common` and an empty
/// `modified` partition.
pub proof fn lemma_compare_self(v: Seq<RowV>)
    ensures
        common_keys(v, v) == unique_keys(v),
        only_keys(v, v) == Seq::<Seq<char>>::empty(),
        modified_keys(v, v) == Seq::<Seq<char>>::empty(),
{
    let ks = unique_keys(v);
    assert forall|i: int| 0 <= i < ks.len() implies has_key(v, #[trigger] ks[i]) by {
        lemma_unique_keys_has(v, ks[i]);
        assert(ks.contains(ks[i]));
    }
    lemma_filter_true(ks, |k: Seq<char>| has_key(v, k));
    lemma_filter_false(ks, |k: Seq<char>| !has_key(v, k));
    lemma_filter_false(ks, |k: Seq<char>| has_key(v, k) && key_model(v, k) != key_model(v, k));
}

} // verus!
