//! The grid-to-record builder: turns a raw grid (header strings plus rows
//! of raw cell strings) into canonical records, normalizing every cell and
//! recording every value the normalization changed.

use vstd::prelude::*;

use crate::normalize::standardize_spec;
use crate::normalize::standardize_string;
use crate::text::dec_chars;
use crate::text::dec_of;
use crate::text::chars_of;
use crate::text::is_blank;
use crate::text::is_blank_str;
use crate::text::string_from_chars;
use crate::types::assoc_upsert;
use crate::types::attr_pairs;
use crate::types::attrs_upsert;
use crate::types::AutoCorrection;
use crate::types::BomData;
use crate::types::BomProcessorError;
use crate::types::BomRow;
use crate::types::ColumnMapping;
use crate::types::LoadBomResult;

verus! {

broadcast use Seq::lemma_push_map_commute;

// ---------------------------------------------------------------------------
// Views
// ---------------------------------------------------------------------------

/// The view of a record: part number, model number, and attribute pairs,
/// all as character sequences.
pub type RowV = (Seq<char>, Seq<char>, Seq<(Seq<char>, Seq<char>)>);

pub open spec fn row_v(r: BomRow) -> RowV {
    (r.part_number@, r.model_number@, attr_pairs(r.attributes@))
}

pub open spec fn strs_view(v: Seq<String>) -> Seq<Seq<char>> {
    v.map_values(|s: String| s@)
}

pub open spec fn grid_view(v: Seq<Vec<String>>) -> Seq<Seq<Seq<char>>> {
    v.map_values(|r: Vec<String>| strs_view(r@))
}

/// The view of one correction record.
pub ghost struct CorrV {
    pub row_number: int,
    pub column_index: int,
    pub column_name: Seq<char>,
    pub original_value: Seq<char>,
    pub corrected_value: Seq<char>,
    pub rule: Seq<char>,
}

pub open spec fn corr_v(c: AutoCorrection) -> CorrV {
    CorrV {
        row_number: c.row_number as int,
        column_index: c.column_index as int,
        column_name: c.column_name@,
        original_value: c.original_value@,
        corrected_value: c.corrected_value@,
        rule: c.rule@,
    }
}

// ---------------------------------------------------------------------------
// Column geometry
// ---------------------------------------------------------------------------

/// The largest role index the mapping assigns.
pub open spec fn required_index(m: ColumnMapping) -> int {
    let base = if m.part_number >= m.model_number {
        m.part_number as int
    } else {
        m.model_number as int
    };
    match m.manufacturer {
        Some(i) => if i as int > base {
            i as int
        } else {
            base
        },
        None => base,
    }
}

/// The widest row of the grid.
pub open spec fn grid_max_width(g: Seq<Seq<Seq<char>>>) -> int
    decreases g.len(),
{
    if g.len() == 0 {
        0
    } else {
        let rest = grid_max_width(g.drop_last());
        if g.last().len() > rest {
            g.last().len() as int
        } else {
            rest
        }
    }
}

/// How many columns the builder works with: the widest data row (or the
/// header row, when there are no data rows), widened so that every
/// assigned role index fits.
pub open spec fn column_count(g: Seq<Seq<Seq<char>>>, hlen: int, req: int) -> int {
    let w = if g.len() == 0 {
        hlen
    } else {
        grid_max_width(g)
    };
    if w == 0 {
        if hlen >= req + 1 {
            hlen
        } else {
            req + 1
        }
    } else {
        if w >= req + 1 {
            w
        } else {
            req + 1
        }
    }
}

/// The name of a synthetic padding column, 1-based.
pub open spec fn pad_name(n: int) -> Seq<char> {
    "列"@ + dec_of(n as nat)
}

/// The header row, padded with synthetic names up to `m` columns.
pub open spec fn padded_headers(hs: Seq<Seq<char>>, m: int) -> Seq<Seq<char>> {
    if m <= hs.len() {
        hs
    } else {
        hs + Seq::new((m - hs.len()) as nat, |i: int| pad_name(hs.len() + i + 1))
    }
}

// ---------------------------------------------------------------------------
// Cells, rules, corrections
// ---------------------------------------------------------------------------

/// The raw text of column `j` of a row; missing cells are empty.
pub open spec fn raw_at(rr: Seq<Seq<char>>, j: int) -> Seq<char> {
    if 0 <= j < rr.len() {
        rr[j]
    } else {
        Seq::empty()
    }
}

/// The normalized cell of column `j`.
pub open spec fn cell_of(rr: Seq<Seq<char>>, j: int) -> Seq<char> {
    standardize_spec(raw_at(rr, j))
}

/// Which rule a correction in column `j` is tagged with, by the role the
/// column occupies.
pub open spec fn rule_name(j: int, m: ColumnMapping) -> Seq<char> {
    if j == m.part_number as int {
        "normalize_part_number"@
    } else if j == m.model_number as int {
        "normalize_model_number"@
    } else {
        "normalize_attribute"@
    }
}

/// The corrections of one row, over the columns below `j`: one per column
/// whose normalized text differs from the raw text.
pub open spec fn row_corrs_upto(
    rr: Seq<Seq<char>>,
    hs: Seq<Seq<char>>,
    m: ColumnMapping,
    rownum: int,
    j: int,
) -> Seq<CorrV>
    decreases j,
{
    if j <= 0 {
        Seq::empty()
    } else {
        let rest = row_corrs_upto(rr, hs, m, rownum, j - 1);
        let orig = raw_at(rr, j - 1);
        let norm = standardize_spec(orig);
        if norm != orig {
            rest.push(
                CorrV {
                    row_number: rownum,
                    column_index: j - 1,
                    column_name: hs[j - 1],
                    original_value: orig,
                    corrected_value: norm,
                    rule: rule_name(j - 1, m),
                },
            )
        } else {
            rest
        }
    }
}

/// The attribute list of a row: header name to normalized cell, in header
/// order, later duplicate headers overwriting earlier ones.
pub open spec fn attrs_upto(hs: Seq<Seq<char>>, cells: Seq<Seq<char>>, j: int) -> Seq<
    (Seq<char>, Seq<char>),
>
    decreases j,
{
    if j <= 0 {
        Seq::empty()
    } else {
        assoc_upsert(attrs_upto(hs, cells, j - 1), hs[j - 1], cells[j - 1])
    }
}

/// Whether a raw row is kept: its normalized part-number cell is not blank.
pub open spec fn row_kept(rr: Seq<Seq<char>>, m: ColumnMapping) -> bool {
    !is_blank(cell_of(rr, m.part_number as int))
}

/// The record built from one raw row.
pub open spec fn row_of(rr: Seq<Seq<char>>, hs: Seq<Seq<char>>, m: ColumnMapping) -> RowV {
    let cells = Seq::new(hs.len(), |j: int| cell_of(rr, j));
    (cells[m.part_number as int], cells[m.model_number as int], attrs_upto(hs, cells, hs.len() as int))
}

/// All records built from the grid, in input order, dropped rows omitted.
pub open spec fn built_rows(g: Seq<Seq<Seq<char>>>, hs: Seq<Seq<char>>, m: ColumnMapping) -> Seq<
    RowV,
>
    decreases g.len(),
{
    if g.len() == 0 {
        Seq::empty()
    } else {
        let rest = built_rows(g.drop_last(), hs, m);
        if row_kept(g.last(), m) {
            rest.push(row_of(g.last(), hs, m))
        } else {
            rest
        }
    }
}

/// All corrections of the kept rows, in input order; 1-based row numbers
/// count every raw row, dropped ones included.
pub open spec fn built_corrs(g: Seq<Seq<Seq<char>>>, hs: Seq<Seq<char>>, m: ColumnMapping) -> Seq<
    CorrV,
>
    decreases g.len(),
{
    if g.len() == 0 {
        Seq::empty()
    } else {
        let rest = built_corrs(g.drop_last(), hs, m);
        if row_kept(g.last(), m) {
            rest + row_corrs_upto(g.last(), hs, m, g.len() as int, hs.len() as int)
        } else {
            rest
        }
    }
}

// ---------------------------------------------------------------------------
// Executable helpers
// ---------------------------------------------------------------------------

/// Which rule tag a correction in this column carries.
pub fn string_correction_rule(column_index: usize, mapping: &ColumnMapping) -> (r: &'static str)
    ensures
        r@ == rule_name(column_index as int, *mapping),
{
    if column_index == mapping.part_number {
        "normalize_part_number"
    } else if column_index == mapping.model_number {
        "normalize_model_number"
    } else {
        "normalize_attribute"
    }
}

/// Appends one correction when the normalized value differs from the raw
/// one; otherwise leaves the bucket unchanged.
pub fn record_string_correction(
    bucket: &mut Vec<AutoCorrection>,
    row_number: usize,
    column_index: usize,
    column_name: &String,
    original: &String,
    normalized: &String,
    rule: &'static str,
)
    ensures
        original@ == normalized@ ==> final(bucket)@ == old(bucket)@,
        original@ != normalized@ ==> final(bucket)@.map_values(|c: AutoCorrection| corr_v(c))
            == old(bucket)@.map_values(|c: AutoCorrection| corr_v(c)).push(
            CorrV {
                row_number: row_number as int,
                column_index: column_index as int,
                column_name: column_name@,
                original_value: original@,
                corrected_value: normalized@,
                rule: rule@,
            },
        ),
{
    if *original == *normalized {
        return ;
    }
    let entry = AutoCorrection {
        row_number,
        column_index,
        column_name: column_name.clone(),
        original_value: original.clone(),
        corrected_value: normalized.clone(),
        rule: rule.to_owned(),
    };
    bucket.push(entry);
    proof {
        assert(bucket@.map_values(|c: AutoCorrection| corr_v(c)) =~= old(bucket)@.map_values(
            |c: AutoCorrection| corr_v(c),
        ).push(corr_v(bucket@.last())));
    }
}

/// Builds the padding name of 1-based column `n`.
fn make_pad_name(n: usize) -> (r: String)
    ensures
        r@ == pad_name(n as int),
{
    let mut v = chars_of("列");
    let mut digits = dec_chars(n as u64);
    v.append(&mut digits);
    string_from_chars(&v)
}

/// Builds canonical records from a raw grid.
///
/// The header row is padded with synthetic names so that the widest data
/// row and every assigned role index fit; every cell is normalized, with
/// one correction recorded per changed value; rows whose normalized part
/// number is blank are dropped. It never fails: padding always covers the
/// assigned roles.
pub fn build_bom_from_rows(
    headers: Vec<String>,
    raw_rows: Vec<Vec<String>>,
    column_mapping: &ColumnMapping,
) -> (r: Result<LoadBomResult, BomProcessorError>)
    requires
        required_index(*column_mapping) < usize::MAX,
    ensures
        r is Ok,
        ({
            let out = r.unwrap();
            let g = grid_view(raw_rows@);
            let hs = padded_headers(
                strs_view(headers@),
                column_count(g, headers@.len() as int, required_index(*column_mapping)),
            );
            &&& out.bom.headers@.len() == hs.len()
            &&& out.bom.headers@.subrange(0, headers@.len() as int) == headers@
            &&& strs_view(out.bom.headers@) == hs
            &&& out.bom.rows@.map_values(|x: BomRow| row_v(x)) == built_rows(g, hs, *column_mapping)
            &&& out.corrections@.map_values(|c: AutoCorrection| corr_v(c)) == built_corrs(
                g,
                hs,
                *column_mapping,
            )
        }),
{
    let ghost g = grid_view(raw_rows@);
    let ghost hs0 = strs_view(headers@);
    let h0_len = headers.len();
    let nrows = raw_rows.len();

    // the largest assigned role index
    let mut req = if column_mapping.part_number >= column_mapping.model_number {
        column_mapping.part_number
    } else {
        column_mapping.model_number
    };
    if let Some(mi) = column_mapping.manufacturer {
        if mi > req {
            req = mi;
        }
    }
    proof {
        assert(req as int == required_index(*column_mapping));
    }

    // the widest data row
    let mut w: usize = 0;
    let mut i: usize = 0;
    while i < nrows
        invariant
            i <= nrows,
            nrows == raw_rows@.len(),
            g == grid_view(raw_rows@),
            w as int == grid_max_width(g.take(i as int)),
        decreases nrows - i,
    {
        proof {
            assert(g.take(i + 1).drop_last() =~= g.take(i as int));
            assert(g.take(i + 1).last() == g[i as int]);
            assert(g[i as int].len() == raw_rows@[i as int]@.len());
        }
        let rl = raw_rows[i].len();
        if rl > w {
            w = rl;
        }
        i = i + 1;
    }
    proof {
        assert(g.take(nrows as int) =~= g);
    }
    let maxw: usize = if nrows == 0 {
        h0_len
    } else {
        w
    };
    let m: usize = if maxw == 0 {
        if h0_len >= req + 1 {
            h0_len
        } else {
            req + 1
        }
    } else {
        if maxw >= req + 1 {
            maxw
        } else {
            req + 1
        }
    };
    proof {
        assert(m as int == column_count(g, h0_len as int, req as int));
    }

    // pad the headers
    let ghost hs = padded_headers(hs0, m as int);
    let ghost horig = headers@;
    let mut headers = headers;
    proof {
        assert(padded_headers(hs0, h0_len as int) == hs0);
        assert(headers@.subrange(0, h0_len as int) =~= horig);
    }
    let mut idx: usize = h0_len;
    while idx < m
        invariant
            h0_len <= idx,
            m > h0_len ==> idx <= m,
            m <= h0_len ==> idx == h0_len,
            headers@.len() == idx,
            hs == padded_headers(hs0, m as int),
            hs0.len() == h0_len,
            horig.len() == h0_len,
            headers@.subrange(0, h0_len as int) == horig,
            strs_view(headers@) == padded_headers(hs0, idx as int),
        decreases m - idx,
    {
        let name = make_pad_name(idx + 1);
        headers.push(name);
        idx = idx + 1;
        proof {
            assert(strs_view(headers@) =~= padded_headers(hs0, idx as int));
            assert(headers@.subrange(0, h0_len as int) =~= horig);
        }
    }
    proof {
        if m <= h0_len {
            assert(padded_headers(hs0, m as int) == hs0);
        }
        assert(strs_view(headers@) == hs);
        assert(headers@.len() == hs.len());
    }
    let hlen = headers.len();
    proof {
        assert(column_mapping.part_number < hlen);
        assert(column_mapping.model_number < hlen);
    }

    // build the records
    let mut rows: Vec<BomRow> = Vec::new();
    let mut corrections: Vec<AutoCorrection> = Vec::new();
    let mut ri: usize = 0;
    while ri < nrows
        invariant
            ri <= nrows,
            nrows == raw_rows@.len(),
            g == grid_view(raw_rows@),
            hs == padded_headers(hs0, m as int),
            strs_view(headers@) == hs,
            headers@.len() == hlen,
            hlen == hs.len(),
            column_mapping.part_number < hlen,
            column_mapping.model_number < hlen,
            rows@.map_values(|x: BomRow| row_v(x)) == built_rows(
                g.take(ri as int),
                hs,
                *column_mapping,
            ),
            corrections@.map_values(|c: AutoCorrection| corr_v(c)) == built_corrs(
                g.take(ri as int),
                hs,
                *column_mapping,
            ),
        decreases nrows - ri,
    {
        let ghost rr = g[ri as int];
        let data_row_number = ri + 1;
        let mut pending: Vec<AutoCorrection> = Vec::new();
        let mut cells: Vec<String> = Vec::new();

        let rl = raw_rows[ri].len();
        proof {
            assert(rr.len() == raw_rows@[ri as int]@.len());
        }
        let mut j: usize = 0;
        while j < hlen
            invariant
                j <= hlen,
                hlen == headers@.len(),
                hlen == hs.len(),
                strs_view(headers@) == hs,
                ri < nrows,
                nrows == raw_rows@.len(),
                g == grid_view(raw_rows@),
                rr == g[ri as int],
                rl == rr.len(),
                data_row_number == ri + 1,
                cells@.len() == j,
                forall|k: int| 0 <= k < j ==> #[trigger] cells@[k]@ == cell_of(rr, k),
                pending@.map_values(|c: AutoCorrection| corr_v(c)) == row_corrs_upto(
                    rr,
                    hs,
                    *column_mapping,
                    data_row_number as int,
                    j as int,
                ),
            decreases hlen - j,
        {
            let original_value: String = if j < rl {
                proof {
                    assert(g[ri as int] == strs_view(raw_rows@[ri as int]@));
                    assert(rr[j as int] == raw_rows@[ri as int]@[j as int]@);
                }
                raw_rows[ri][j].clone()
            } else {
                String::new()
            };
            proof {
                assert(original_value@ == raw_at(rr, j as int));
            }
            let normalized = standardize_string(original_value.as_str());
            let rule = string_correction_rule(j, column_mapping);
            record_string_correction(
                &mut pending,
                data_row_number,
                j,
                &headers[j],
                &original_value,
                &normalized,
                rule,
            );
            proof {
                assert(headers@[j as int]@ == hs[j as int]);
                assert(pending@.map_values(|c: AutoCorrection| corr_v(c)) == row_corrs_upto(
                    rr,
                    hs,
                    *column_mapping,
                    data_row_number as int,
                    j + 1,
                ));
            }
            cells.push(normalized);
            j = j + 1;
        }
        let ghost cellsv = Seq::new(hs.len(), |k: int| cell_of(rr, k));
        proof {
            assert(strs_view(cells@) =~= cellsv);
        }

        let part_number = cells[column_mapping.part_number].clone();
        if !is_blank_str(part_number.as_str()) {
            let model_number = cells[column_mapping.model_number].clone();
            let mut attributes: Vec<(String, String)> = Vec::new();
            let mut k: usize = 0;
            while k < hlen
                invariant
                    k <= hlen,
                    hlen == headers@.len(),
                    hlen == hs.len(),
                    strs_view(headers@) == hs,
                    cells@.len() == hlen,
                    strs_view(cells@) == cellsv,
                    attr_pairs(attributes@) == attrs_upto(hs, cellsv, k as int),
                decreases hlen - k,
            {
                attrs_upsert(&mut attributes, headers[k].clone(), cells[k].clone());
                proof {
                    assert(headers@[k as int]@ == hs[k as int]);
                    assert(cells@[k as int]@ == cellsv[k as int]);
                }
                k = k + 1;
            }
            let row = BomRow { part_number, model_number, attributes };
            proof {
                assert(row_v(row) == row_of(rr, hs, *column_mapping));
                assert(row_kept(rr, *column_mapping));
            }
            rows.push(row);
            corrections.append(&mut pending);
            proof {
                assert(g.take(ri + 1).drop_last() =~= g.take(ri as int));
                assert(g.take(ri + 1).last() == rr);
                assert(rows@.map_values(|x: BomRow| row_v(x)) =~= built_rows(
                    g.take(ri + 1),
                    hs,
                    *column_mapping,
                ));
                assert(corrections@.map_values(|c: AutoCorrection| corr_v(c)) =~= built_corrs(
                    g.take(ri + 1),
                    hs,
                    *column_mapping,
                ));
            }
        } else {
            proof {
                assert(!row_kept(rr, *column_mapping));
                assert(g.take(ri + 1).drop_last() =~= g.take(ri as int));
                assert(g.take(ri + 1).last() == rr);
                assert(rows@.map_values(|x: BomRow| row_v(x)) == built_rows(
                    g.take(ri + 1),
                    hs,
                    *column_mapping,
                ));
                assert(corrections@.map_values(|c: AutoCorrection| corr_v(c)) == built_corrs(
                    g.take(ri + 1),
                    hs,
                    *column_mapping,
                ));
            }
        }
        ri = ri + 1;
    }
    proof {
        assert(g.take(nrows as int) =~= g);
    }

    Ok(LoadBomResult { bom: BomData { headers, rows }, corrections })
}

} // verus!
