//! Preview generation: runs the full preprocessing pipeline over a
//! dataset and lays the first rows out as a table, substituting the key
//! fields for empty cells in the key columns.

use vstd::prelude::*;

use crate::builder::row_v;
use crate::builder::RowV;
use crate::preprocess::preprocess_all;
use crate::preprocess::preprocess_bom_data;
use crate::text::clone_strings;
use crate::text::str_eq;
use crate::types::assoc_get;
use crate::types::attrs_get;
use crate::types::BomData;
use crate::types::BomRow;
use crate::types::ColumnMapping;
use crate::types::PreviewTable;
use crate::types::PreprocessRules;

verus! {

/// At most this many rows are laid out in a preview.
pub open spec fn preview_limit() -> int {
    15
}

/// The rules a preview applies: all of them.
pub open spec fn preview_rules() -> PreprocessRules {
    (PreprocessRules {
        remove_parentheses: true,
        expand_ranges: true,
        fullwidth_to_halfwidth: true,
        lowercase_to_uppercase: true,
    })
}

/// The name of a header column, when the index is assigned and in range.
pub open spec fn header_at(headers: Seq<String>, idx: Option<usize>) -> Option<Seq<char>> {
    match idx {
        Some(i) => if (i as int) < headers.len() {
            Some(headers[i as int]@)
        } else {
            None
        },
        None => None,
    }
}

/// One preview cell: the attribute value under the header; an empty value
/// in the part-number or model-number column shows that field instead.
pub open spec fn preview_cell(
    rv: RowV,
    header: Seq<char>,
    parth: Option<Seq<char>>,
    modelh: Option<Seq<char>>,
) -> Seq<char> {
    let v = match assoc_get(rv.2, header) {
        Some(x) => x,
        None => Seq::empty(),
    };
    if v.len() > 0 {
        v
    } else if parth == Some(header) {
        rv.0
    } else if modelh == Some(header) {
        rv.1
    } else {
        v
    }
}

/// Runs the full preprocessing pipeline over the dataset and lays out the
/// first rows as a preview table; empty key cells show the part or model
/// number. It never fails.
pub fn generate_preprocessed_preview(bom: &BomData, column_mapping: &ColumnMapping) -> (r: Result<
    PreviewTable,
    String,
>)
    ensures
        r is Ok,
        ({
            let out = r.unwrap();
            let pv = preprocess_all(bom.rows@.map_values(|x: BomRow| row_v(x)), preview_rules());
            let parth = header_at(out.headers@, Some(column_mapping.part_number));
            let modelh = header_at(out.headers@, Some(column_mapping.model_number));
            &&& out.total_rows == pv.len()
            &&& (bom.headers@.len() == 0 ==> out.headers@.map_values(|s: String| s@) == seq![
                "列1"@,
                "列2"@,
                "列3"@,
            ])
            &&& (bom.headers@.len() > 0 ==> out.headers@ == bom.headers@)
            &&& out.rows@.len() == (if pv.len() < preview_limit() {
                pv.len() as int
            } else {
                preview_limit()
            })
            &&& forall|i: int|
                0 <= i < out.rows@.len() ==> (#[trigger] out.rows@[i])@.map_values(|s: String| s@)
                    == Seq::new(
                    out.headers@.len(),
                    |j: int| preview_cell(pv[i], out.headers@[j]@, parth, modelh),
                )
        }),
{
    let default_rules = PreprocessRules {
        remove_parentheses: true,
        expand_ranges: true,
        fullwidth_to_halfwidth: true,
        lowercase_to_uppercase: true,
    };
    let processed = match preprocess_bom_data(bom, &default_rules) {
        Ok(p) => p,
        Err(_) => {
            proof {
                assert(false);
            }
            return Err(String::new());
        },
    };
    let ghost pv = preprocess_all(bom.rows@.map_values(|x: BomRow| row_v(x)), preview_rules());
    proof {
        assert(processed.rows@.map_values(|x: BomRow| row_v(x)) == pv);
    }

    let headers: Vec<String> = if processed.headers.len() == 0 {
        let mut h: Vec<String> = Vec::new();
        h.push("列1".to_owned());
        h.push("列2".to_owned());
        h.push("列3".to_owned());
        proof {
            assert(h@.map_values(|s: String| s@) =~= seq!["列1"@, "列2"@, "列3"@]);
        }
        h
    } else {
        clone_strings(&processed.headers)
    };

    let total_rows = processed.rows.len();
    let limit: usize = if total_rows < 15 {
        total_rows
    } else {
        15
    };

    let part_header: Option<String> = if column_mapping.part_number < headers.len() {
        Some(headers[column_mapping.part_number].clone())
    } else {
        None
    };
    let model_header: Option<String> = if column_mapping.model_number < headers.len() {
        Some(headers[column_mapping.model_number].clone())
    } else {
        None
    };
    let ghost parth = header_at(headers@, Some(column_mapping.part_number));
    let ghost modelh = header_at(headers@, Some(column_mapping.model_number));
    proof {
        assert(match part_header {
            Some(ref s) => parth == Some(s@),
            None => parth is None,
        });
        assert(match model_header {
            Some(ref s) => modelh == Some(s@),
            None => modelh is None,
        });
    }

    let hn = headers.len();
    let mut rows: Vec<Vec<String>> = Vec::new();
    let mut i: usize = 0;
    while i < limit
        invariant
            i <= limit,
            limit <= processed.rows@.len(),
            hn == headers@.len(),
            pv == processed.rows@.map_values(|x: BomRow| row_v(x)),
            parth == header_at(headers@, Some(column_mapping.part_number)),
            modelh == header_at(headers@, Some(column_mapping.model_number)),
            (match part_header {
                Some(ref s) => parth == Some(s@),
                None => parth is None,
            }),
            (match model_header {
                Some(ref s) => modelh == Some(s@),
                None => modelh is None,
            }),
            rows@.len() == i,
            forall|x: int|
                0 <= x < i ==> (#[trigger] rows@[x])@.map_values(|s: String| s@) == Seq::new(
                    headers@.len(),
                    |j: int| preview_cell(pv[x], headers@[j]@, parth, modelh),
                ),
        decreases limit - i,
    {
        let row = &processed.rows[i];
        proof {
            assert(row_v(processed.rows@[i as int]) == pv[i as int]);
        }
        let mut line: Vec<String> = Vec::new();
        let mut j: usize = 0;
        while j < hn
            invariant
                j <= hn,
                i < limit,
                limit <= processed.rows@.len(),
                hn == headers@.len(),
                pv == processed.rows@.map_values(|x: BomRow| row_v(x)),
                row == &processed.rows@[i as int],
                row_v(processed.rows@[i as int]) == pv[i as int],
                parth == header_at(headers@, Some(column_mapping.part_number)),
                modelh == header_at(headers@, Some(column_mapping.model_number)),
                (match part_header {
                    Some(ref s) => parth == Some(s@),
                    None => parth is None,
                }),
                (match model_header {
                    Some(ref s) => modelh == Some(s@),
                    None => modelh is None,
                }),
                line@.len() == j,
                forall|x: int|
                    0 <= x < j ==> (#[trigger] line@[x])@ == preview_cell(
                        pv[i as int],
                        headers@[x]@,
                        parth,
                        modelh,
                    ),
            decreases hn - j,
        {
            let header = &headers[j];
            let mut value: String = match attrs_get(&row.attributes, header) {
                Some(v) => v,
                None => String::new(),
            };
            if value.unicode_len() == 0 {
                let mut replaced = false;
                if let Some(ref ph) = part_header {
                    if str_eq(ph.as_str(), header.as_str()) {
                        value = row.part_number.clone();
                        replaced = true;
                    }
                }
                if !replaced {
                    if let Some(ref mh) = model_header {
                        if str_eq(mh.as_str(), header.as_str()) {
                            value = row.model_number.clone();
                        }
                    }
                }
            }
            proof {
                assert(value@ == preview_cell(pv[i as int], headers@[j as int]@, parth, modelh));
            }
            line.push(value);
            j = j + 1;
        }
        proof {
            assert(line@.map_values(|s: String| s@) =~= Seq::new(
                headers@.len(),
                |j2: int| preview_cell(pv[i as int], headers@[j2]@, parth, modelh),
            ));
        }
        rows.push(line);
        i = i + 1;
    }

    Ok(PreviewTable { headers, rows, total_rows })
}

} // verus!
