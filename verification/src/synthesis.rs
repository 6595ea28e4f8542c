//! The synthesis half of the reconciliation engine: a full outer join of
//! two datasets over the union of their key sets, one row per key, sorted
//! ascending by part number.

use vstd::prelude::*;

use rayon::slice::ParallelSliceMut;

use crate::builder::row_v;
use crate::builder::RowV;
use crate::compare::has_key;
use crate::compare::key_entries;
use crate::compare::key_model;
use crate::compare::key_set;
use crate::compare::entry_key;
use crate::compare::entries_get;
use crate::compare::lemma_unique_keys_has;
use crate::compare::lemma_unique_keys_nodup;
use crate::compare::unique_keys;
use crate::text::is_blank;
use crate::text::is_blank_str;
use crate::text::eq_ignore_ascii_case_spec;
use crate::text::lex_le;
use crate::text::str_eq;
use crate::text::str_eq_ignore_case;
use crate::types::BomData;
use crate::types::BomRow;
use crate::types::SynthesisResult;
use crate::types::SynthesisRow;

verus! {

broadcast use {vstd::seq_lib::group_filter_ensures, Seq::lemma_filter_push,
    Seq::lemma_push_map_commute, vstd::seq_lib::group_to_multiset_ensures};

// ---------------------------------------------------------------------------
// Specification
// ---------------------------------------------------------------------------

/// What a synthesis row must say about its key under the two key models.
pub open spec fn synth_row_ok(row: SynthesisRow, va: Seq<RowV>, vb: Seq<RowV>) -> bool {
    let k = row.part_number@;
    &&& has_key(va, k) || has_key(vb, k)
    &&& (has_key(va, k) ==> key_model(va, k) == Some(row.model_a@))
    &&& (!has_key(va, k) ==> row.model_a@ == Seq::<char>::empty())
    &&& (has_key(vb, k) ==> key_model(vb, k) == Some(row.model_b@))
    &&& (!has_key(vb, k) ==> row.model_b@ == Seq::<char>::empty())
    &&& (has_key(va, k) && has_key(vb, k) ==> row.status@ == "common"@)
    &&& (has_key(va, k) && !has_key(vb, k) ==> row.status@ == "missing_b"@)
    &&& (!has_key(va, k) && has_key(vb, k) ==> row.status@ == "missing_a"@)
}

/// Rows sorted ascending by part number.
pub open spec fn sorted_by_part(rows: Seq<SynthesisRow>) -> bool {
    forall|i: int, j: int|
        0 <= i < j < rows.len() ==> lex_le(
            (#[trigger] rows[i]).part_number@,
            (#[trigger] rows[j]).part_number@,
        )
}

/// A valid synthesis of two datasets: one row per key of either side,
/// no key twice, sorted ascending, each row's fields and status matching
/// the key's presence in the two datasets.
pub open spec fn synthesis_ok(r: SynthesisResult, va: Seq<RowV>, vb: Seq<RowV>) -> bool {
    let keys = r.rows@.map_values(|row: SynthesisRow| row.part_number@);
    &&& keys.no_duplicates()
    &&& keys.to_set() == key_set(va).union(key_set(vb))
    &&& sorted_by_part(r.rows@)
    &&& forall|i: int| 0 <= i < r.rows@.len() ==> synth_row_ok(#[trigger] r.rows@[i], va, vb)
}

// ---------------------------------------------------------------------------
// Sorting (rayon)
// ---------------------------------------------------------------------------

/// Relies on rayon's `par_sort_by_key`, a stable sort by the extracted
/// key: afterwards the vector holds the same rows (same multiset, of rows
/// and of their part numbers), ordered by part number. `String` ordering
/// is byte-wise, which on UTF-8 equals code-point order.
#[verifier::external_body]
fn sort_rows_by_part(rows: &mut Vec<SynthesisRow>)
    ensures
        final(rows)@.to_multiset() == old(rows)@.to_multiset(),
        final(rows)@.map_values(|row: SynthesisRow| row.part_number@).to_multiset() == old(
            rows,
        )@.map_values(|row: SynthesisRow| row.part_number@).to_multiset(),
        sorted_by_part(final(rows)@),
{
    rows.par_sort_by_key(|row: &SynthesisRow| row.part_number.clone());
}

// ---------------------------------------------------------------------------
// Synthesis
// ---------------------------------------------------------------------------

/// Joins two datasets over the union of their key sets: for every key one
/// row, `common` when both sides bind it, `missing_b` when only the left
/// does, `missing_a` when only the right does; rows sorted ascending by
/// part number.
pub fn perform_synthesis(bom_a: &BomData, bom_b: &BomData) -> (r: SynthesisResult)
    ensures
        synthesis_ok(
            r,
            bom_a.rows@.map_values(|x: BomRow| row_v(x)),
            bom_b.rows@.map_values(|x: BomRow| row_v(x)),
        ),
{
    let ghost va = bom_a.rows@.map_values(|x: BomRow| row_v(x));
    let ghost vb = bom_b.rows@.map_values(|x: BomRow| row_v(x));
    let ea = key_entries(&bom_a.rows);
    let eb = key_entries(&bom_b.rows);
    let ghost ka = unique_keys(va);
    let ghost kb = unique_keys(vb);

    let mut rows: Vec<SynthesisRow> = Vec::new();

    let na = ea.len();
    let mut i: usize = 0;
    while i < na
        invariant
            i <= na,
            na == ea@.len(),
            ea@.map_values(|p: (String, String)| entry_key(p)) == ka,
            eb@.map_values(|p: (String, String)| entry_key(p)) == kb,
            forall|j: int|
                0 <= j < ea@.len() ==> key_model(va, #[trigger] ea@[j].0@) == Some(ea@[j].1@),
            forall|j: int|
                0 <= j < eb@.len() ==> key_model(vb, #[trigger] eb@[j].0@) == Some(eb@[j].1@),
            ka == unique_keys(va),
            kb == unique_keys(vb),
            rows@.map_values(|row: SynthesisRow| row.part_number@) == ka.take(i as int),
            forall|x: int| 0 <= x < rows@.len() ==> synth_row_ok(#[trigger] rows@[x], va, vb),
        decreases na - i,
    {
        let ghost k = ea@[i as int].0@;
        proof {
            assert(ka[i as int] == k) by {
                assert(ea@.map_values(|p: (String, String)| entry_key(p))[i as int] == entry_key(
                    ea@[i as int],
                ));
            }
            assert(key_model(va, k) == Some(ea@[i as int].1@));
        }
        let part = ea[i].0.clone();
        let model_a = ea[i].1.clone();
        let row = match entries_get(&eb, &part) {
            Some(model_b) => {
                proof {
                    let j = choose|j: int|
                        0 <= j < eb@.len() && (eb@[j]).0@ == part@ && eb@[j].1@ == model_b@;
                    assert(key_model(vb, k) == Some(model_b@));
                }
                SynthesisRow { part_number: part, model_a, model_b, status: "common".to_owned() }
            },
            None => {
                proof {
                    lemma_unique_keys_has(vb, k);
                    assert(!has_key(vb, k)) by {
                        if has_key(vb, k) {
                            let j = choose|j: int| 0 <= j < kb.len() && kb[j] == k;
                            assert(eb@.map_values(|p: (String, String)| entry_key(p))[j]
                                == entry_key(eb@[j]));
                        }
                    }
                }
                SynthesisRow {
                    part_number: part,
                    model_a,
                    model_b: String::new(),
                    status: "missing_b".to_owned(),
                }
            },
        };
        proof {
            assert(synth_row_ok(row, va, vb));
        }
        rows.push(row);
        i = i + 1;
        proof {
            assert(rows@.map_values(|row: SynthesisRow| row.part_number@) =~= ka.take(i as int));
        }
    }
    proof {
        assert(ka.take(na as int) =~= ka);
    }

    let nb = eb.len();
    let mut i2: usize = 0;
    while i2 < nb
        invariant
            i2 <= nb,
            nb == eb@.len(),
            ea@.map_values(|p: (String, String)| entry_key(p)) == ka,
            eb@.map_values(|p: (String, String)| entry_key(p)) == kb,
            forall|j: int|
                0 <= j < ea@.len() ==> key_model(va, #[trigger] ea@[j].0@) == Some(ea@[j].1@),
            forall|j: int|
                0 <= j < eb@.len() ==> key_model(vb, #[trigger] eb@[j].0@) == Some(eb@[j].1@),
            ka == unique_keys(va),
            kb == unique_keys(vb),
            rows@.map_values(|row: SynthesisRow| row.part_number@) == ka + kb.take(
                i2 as int,
            ).filter(|k: Seq<char>| !has_key(va, k)),
            forall|x: int| 0 <= x < rows@.len() ==> synth_row_ok(#[trigger] rows@[x], va, vb),
        decreases nb - i2,
    {
        let ghost k = eb@[i2 as int].0@;
        proof {
            assert(kb.take(i2 + 1) =~= kb.take(i2 as int).push(k));
            assert(kb[i2 as int] == k) by {
                assert(eb@.map_values(|p: (String, String)| entry_key(p))[i2 as int] == entry_key(
                    eb@[i2 as int],
                ));
            }
            assert(key_model(vb, k) == Some(eb@[i2 as int].1@));
        }
        let part = eb[i2].0.clone();
        let model_b = eb[i2].1.clone();
        match entries_get(&ea, &part) {
            Some(_ma) => {
                proof {
                    assert(has_key(va, k)) by {
                        let j = choose|j: int|
                            0 <= j < ea@.len() && (ea@[j]).0@ == part@ && ea@[j].1@ == _ma@;
                        assert(key_model(va, ea@[j].0@) == Some(ea@[j].1@));
                    }
                    assert(rows@.map_values(|row: SynthesisRow| row.part_number@) =~= ka + kb.take(
                        i2 + 1,
                    ).filter(|k: Seq<char>| !has_key(va, k)));
                }
            },
            None => {
                proof {
                    lemma_unique_keys_has(va, k);
                    assert(!has_key(va, k)) by {
                        if has_key(va, k) {
                            let j = choose|j: int| 0 <= j < ka.len() && ka[j] == k;
                            assert(ea@.map_values(|p: (String, String)| entry_key(p))[j]
                                == entry_key(ea@[j]));
                        }
                    }
                }
                let row = SynthesisRow {
                    part_number: part,
                    model_a: String::new(),
                    model_b,
                    status: "missing_a".to_owned(),
                };
                proof {
                    assert(synth_row_ok(row, va, vb));
                }
                rows.push(row);
                proof {
                    assert(rows@.map_values(|row: SynthesisRow| row.part_number@) =~= ka + kb.take(
                        i2 + 1,
                    ).filter(|k: Seq<char>| !has_key(va, k)));
                }
            },
        }
        i2 = i2 + 1;
    }
    proof {
        assert(kb.take(nb as int) =~= kb);
    }

    let ghost pre = rows@;
    let ghost prekeys = pre.map_values(|row: SynthesisRow| row.part_number@);
    proof {
        // the pre-sort keys are the union keys, without duplicates
        lemma_unique_keys_nodup(va);
        lemma_unique_keys_nodup(vb);
        assert(prekeys == ka + kb.filter(|k: Seq<char>| !has_key(va, k)));
        lemma_union_keys_nodup(va, vb);
        lemma_union_keys_set(va, vb);
    }
    sort_rows_by_part(&mut rows);
    proof {
        let keys = rows@.map_values(|row: SynthesisRow| row.part_number@);
        prekeys.lemma_multiset_has_no_duplicates();
        keys.lemma_multiset_has_no_duplicates_conv();
        assert(keys.no_duplicates());
        assert(keys.to_set() =~= prekeys.to_set()) by {
            assert forall|k: Seq<char>| keys.contains(k) <==> prekeys.contains(k) by {
                assert(keys.to_multiset().contains(k) == prekeys.to_multiset().contains(k));
            }
        }
        assert(keys.to_set() == key_set(va).union(key_set(vb)));
        assert forall|x: int| 0 <= x < rows@.len() implies synth_row_ok(
            #[trigger] rows@[x],
            va,
            vb,
        ) by {
            assert(rows@.to_multiset().contains(rows@[x]));
            assert(pre.to_multiset().contains(rows@[x]));
            assert(pre.contains(rows@[x]));
            let j = choose|j: int| 0 <= j < pre.len() && pre[j] == rows@[x];
            assert(synth_row_ok(pre[j], va, vb));
        }
    }
    SynthesisResult { rows }
}

/// The distinct keys of the left dataset followed by the distinct keys
/// only the right one binds form a duplicate-free sequence whose set is
/// the union of both key sets.
proof fn lemma_union_keys_nodup(va: Seq<RowV>, vb: Seq<RowV>)
    ensures
        (unique_keys(va) + unique_keys(vb).filter(
            |k: Seq<char>| !has_key(va, k),
        )).no_duplicates(),
{
    let ka = unique_keys(va);
    let rest = unique_keys(vb).filter(|k: Seq<char>| !has_key(va, k));
    lemma_unique_keys_nodup(va);
    lemma_unique_keys_nodup(vb);
    crate::compare::lemma_filter_nodup(unique_keys(vb), |k: Seq<char>| !has_key(va, k));
    assert forall|i: int, j: int|
        0 <= i < j < (ka + rest).len() implies (ka + rest)[i] != (ka + rest)[j] by {
        if i < ka.len() && j >= ka.len() {
            let k = rest[j - ka.len()];
            unique_keys(vb).lemma_filter_pred(|k2: Seq<char>| !has_key(va, k2), j - ka.len());
            lemma_unique_keys_has(va, k);
            assert(!ka.contains(k));
            if (ka + rest)[i] == k {
                assert(ka[i] == k);
                assert(ka.contains(k));
            }
        }
    }
}

proof fn lemma_union_keys_set(va: Seq<RowV>, vb: Seq<RowV>)
    ensures
        (unique_keys(va) + unique_keys(vb).filter(|k: Seq<char>| !has_key(va, k))).to_set()
            == key_set(va).union(key_set(vb)),
{
    let ka = unique_keys(va);
    let kb = unique_keys(vb);
    let rest = kb.filter(|k: Seq<char>| !has_key(va, k));
    assert forall|k: Seq<char>| true implies ((ka + rest).contains(k) <==> key_set(va).union(
        key_set(vb),
    ).contains(k)) by {
        lemma_unique_keys_has(va, k);
        lemma_unique_keys_has(vb, k);
        crate::compare::lemma_filter_mem(kb, |k2: Seq<char>| !has_key(va, k2), k);
        if ka.contains(k) {
            let j = choose|j: int| 0 <= j < ka.len() && ka[j] == k;
            assert((ka + rest)[j] == k);
        }
        if rest.contains(k) {
            let j = choose|j: int| 0 <= j < rest.len() && rest[j] == k;
            assert((ka + rest)[ka.len() + j] == k);
        }
        if (ka + rest).contains(k) {
            let j = choose|j: int| 0 <= j < (ka + rest).len() && (ka + rest)[j] == k;
            if j < ka.len() {
                assert(ka[j] == k);
            } else {
                assert(rest[j - ka.len()] == k);
            }
        }
    }
    assert((ka + rest).to_set() =~= key_set(va).union(key_set(vb)));
}

/// The synthesis view has exactly one row per key: its length is the
/// cardinality of the union of the two key sets.
pub proof fn lemma_synthesis_len(r: SynthesisResult, va: Seq<RowV>, vb: Seq<RowV>)
    requires
        synthesis_ok(r, va, vb),
    ensures
        r.rows@.len() == key_set(va).union(key_set(vb)).len(),
{
    let keys = r.rows@.map_values(|row: SynthesisRow| row.part_number@);
    keys.unique_seq_to_set();
    assert(keys.len() == r.rows@.len());
}

// ---------------------------------------------------------------------------
// Stats, filtering, extraction
// ---------------------------------------------------------------------------

/// The counts of a synthesis view, by status.
pub struct SynthesisStats {
    pub total: usize,
    pub common: usize,
    pub missing_a: usize,
    pub missing_b: usize,
}

/// Counts rows whose status equals `status`.
fn count_status(rows: &Vec<SynthesisRow>, status: &str) -> (r: usize)
    ensures
        r == rows@.filter(|row: SynthesisRow| row.status@ == status@).len(),
{
    let n = rows.len();
    let mut count: usize = 0;
    let mut i: usize = 0;
    while i < n
        invariant
            i <= n,
            n == rows@.len(),
            count == rows@.take(i as int).filter(|row: SynthesisRow| row.status@ == status@).len(),
            count <= i,
        decreases n - i,
    {
        proof {
            assert(rows@.take(i + 1) =~= rows@.take(i as int).push(rows@[i as int]));
            rows@.take(i as int).lemma_filter_len(
                |row: SynthesisRow| row.status@ == status@,
            );
        }
        if str_eq(rows[i].status.as_str(), status) {
            count = count + 1;
        }
        i = i + 1;
    }
    proof {
        assert(rows@.take(n as int) =~= rows@);
    }
    count
}

/// Pure reduction over the synthesis rows: the total and one count per
/// status.
pub fn get_synthesis_stats(result: &SynthesisResult) -> (r: SynthesisStats)
    ensures
        r.total == result.rows@.len(),
        r.common == result.rows@.filter(|row: SynthesisRow| row.status@ == "common"@).len(),
        r.missing_a == result.rows@.filter(|row: SynthesisRow| row.status@ == "missing_a"@).len(),
        r.missing_b == result.rows@.filter(|row: SynthesisRow| row.status@ == "missing_b"@).len(),
{
    SynthesisStats {
        total: result.rows.len(),
        common: count_status(&result.rows, "common"),
        missing_a: count_status(&result.rows, "missing_a"),
        missing_b: count_status(&result.rows, "missing_b"),
    }
}

fn clone_synthesis_row(row: &SynthesisRow) -> (r: SynthesisRow)
    ensures
        r == *row,
{
    let r = SynthesisRow {
        part_number: row.part_number.clone(),
        model_a: row.model_a.clone(),
        model_b: row.model_b.clone(),
        status: row.status.clone(),
    };
    proof {
        assert(r == *row);
    }
    r
}

/// Keeps the rows whose status matches the filter, comparing without
/// ASCII case; a missing or blank filter keeps everything.
pub fn filter_synthesis_result(result: &SynthesisResult, status: Option<&str>) -> (r:
    SynthesisResult)
    ensures
        match status {
            Some(s) => if is_blank(s@) {
                r.rows@ == result.rows@
            } else {
                r.rows@ == result.rows@.filter(
                    |row: SynthesisRow| eq_ignore_ascii_case_spec(row.status@, s@),
                )
            },
            None => r.rows@ == result.rows@,
        },
{
    let n = result.rows.len();
    match status {
        Some(status_filter) => {
            if is_blank_str(status_filter) {
                let mut rows: Vec<SynthesisRow> = Vec::new();
                let mut i: usize = 0;
                while i < n
                    invariant
                        i <= n,
                        n == result.rows@.len(),
                        rows@ == result.rows@.take(i as int),
                    decreases n - i,
                {
                    rows.push(clone_synthesis_row(&result.rows[i]));
                    i = i + 1;
                    proof {
                        assert(rows@ =~= result.rows@.take(i as int));
                    }
                }
                proof {
                    assert(result.rows@.take(n as int) =~= result.rows@);
                }
                SynthesisResult { rows }
            } else {
                let mut rows: Vec<SynthesisRow> = Vec::new();
                let mut i: usize = 0;
                while i < n
                    invariant
                        i <= n,
                        n == result.rows@.len(),
                        rows@ == result.rows@.take(i as int).filter(
                            |row: SynthesisRow| eq_ignore_ascii_case_spec(row.status@, status_filter@),
                        ),
                    decreases n - i,
                {
                    proof {
                        assert(result.rows@.take(i + 1) =~= result.rows@.take(i as int).push(
                            result.rows@[i as int],
                        ));
                    }
                    if str_eq_ignore_case(result.rows[i].status.as_str(), status_filter) {
                        rows.push(clone_synthesis_row(&result.rows[i]));
                    }
                    i = i + 1;
                }
                proof {
                    assert(result.rows@.take(n as int) =~= result.rows@);
                }
                SynthesisResult { rows }
            }
        },
        None => {
            let mut rows: Vec<SynthesisRow> = Vec::new();
            let mut i: usize = 0;
            while i < n
                invariant
                    i <= n,
                    n == result.rows@.len(),
                    rows@ == result.rows@.take(i as int),
                decreases n - i,
            {
                rows.push(clone_synthesis_row(&result.rows[i]));
                i = i + 1;
                proof {
                    assert(rows@ =~= result.rows@.take(i as int));
                }
            }
            proof {
                assert(result.rows@.take(n as int) =~= result.rows@);
            }
            SynthesisResult { rows }
        },
    }
}

/// Extracts the rows missing on each side: first those with status
/// `missing_a`, then those with status `missing_b`.
pub fn collect_missing_parts(result: &SynthesisResult) -> (r: (
    Vec<SynthesisRow>,
    Vec<SynthesisRow>,
))
    ensures
        r.0@ == result.rows@.filter(|row: SynthesisRow| row.status@ == "missing_a"@),
        r.1@ == result.rows@.filter(|row: SynthesisRow| row.status@ == "missing_b"@),
{
    let n = result.rows.len();
    let mut missing_a: Vec<SynthesisRow> = Vec::new();
    let mut missing_b: Vec<SynthesisRow> = Vec::new();
    let mut i: usize = 0;
    while i < n
        invariant
            i <= n,
            n == result.rows@.len(),
            missing_a@ == result.rows@.take(i as int).filter(
                |row: SynthesisRow| row.status@ == "missing_a"@,
            ),
            missing_b@ == result.rows@.take(i as int).filter(
                |row: SynthesisRow| row.status@ == "missing_b"@,
            ),
        decreases n - i,
    {
        proof {
            assert(result.rows@.take(i + 1) =~= result.rows@.take(i as int).push(
                result.rows@[i as int],
            ));
        }
        if str_eq(result.rows[i].status.as_str(), "missing_a") {
            missing_a.push(clone_synthesis_row(&result.rows[i]));
        }
        if str_eq(result.rows[i].status.as_str(), "missing_b") {
            missing_b.push(clone_synthesis_row(&result.rows[i]));
        }
        i = i + 1;
    }
    proof {
        assert(result.rows@.take(n as int) =~= result.rows@);
    }
    (missing_a, missing_b)
}

} // verus!
