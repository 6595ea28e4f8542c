//! The preprocessing rule engine: applies the opt-in textual rules to an
//! already-built dataset, replicating a record into several when range
//! expansion applies to its part number. The input dataset is never
//! mutated; a new dataset is returned.

use vstd::prelude::*;

use crate::builder::row_v;
use crate::builder::RowV;
use crate::normalize::apply_rules_spec;
use crate::normalize::apply_string_rules;
use crate::normalize::expand_ranges;
use crate::normalize::range_expansion;
use crate::text::clone_strings;
use crate::types::attr_pairs;
use crate::types::BomData;
use crate::types::BomProcessorError;
use crate::types::BomRow;
use crate::types::PreprocessRules;

verus! {

broadcast use Seq::lemma_push_map_commute;

// ---------------------------------------------------------------------------
// Specification
// ---------------------------------------------------------------------------

/// Attribute values equal to `orig` are replaced by `new`; keys and other
/// values are untouched.
pub open spec fn replace_vals(
    pairs: Seq<(Seq<char>, Seq<char>)>,
    orig: Seq<char>,
    new: Seq<char>,
) -> Seq<(Seq<char>, Seq<char>)> {
    pairs.map_values(
        |p: (Seq<char>, Seq<char>)|
            (
                p.0,
                if p.1 == orig {
                    new
                } else {
                    p.1
                },
            ),
    )
}

/// The string rules applied to every field of a record.
pub open spec fn rules_row(rv: RowV, rules: PreprocessRules) -> RowV {
    (
        apply_rules_spec(rv.0, rules),
        apply_rules_spec(rv.1, rules),
        rv.2.map_values(|p: (Seq<char>, Seq<char>)| (p.0, apply_rules_spec(p.1, rules))),
    )
}

/// What one record becomes: the rule-processed record, replicated when
/// range expansion applies to its processed part number. Each replica
/// carries one expanded part number (itself rule-processed), and any
/// attribute value that literally equaled the pre-expansion part number
/// tracks the new one.
pub open spec fn preprocess_row(rv: RowV, rules: PreprocessRules) -> Seq<RowV> {
    let base = rules_row(rv, rules);
    if rules.expand_ranges {
        match range_expansion(base.0) {
            Some(parts) => Seq::new(
                parts.len(),
                |i: int|
                    {
                        let p = apply_rules_spec(parts[i], rules);
                        (p, base.1, replace_vals(base.2, base.0, p))
                    },
            ),
            None => seq![base],
        }
    } else {
        seq![base]
    }
}

/// All records of the dataset, each expanded in place, in input order.
pub open spec fn preprocess_all(rows: Seq<RowV>, rules: PreprocessRules) -> Seq<RowV>
    decreases rows.len(),
{
    if rows.len() == 0 {
        Seq::empty()
    } else {
        preprocess_all(rows.drop_last(), rules) + preprocess_row(rows.last(), rules)
    }
}

// ---------------------------------------------------------------------------
// Executable code
// ---------------------------------------------------------------------------

/// Replaces, in place, every attribute value equal to `original_value` by
/// `new_value`.
pub fn replace_attribute_value(
    attributes: &mut Vec<(String, String)>,
    original_value: &String,
    new_value: &String,
)
    ensures
        attr_pairs(final(attributes)@) == replace_vals(
            attr_pairs(old(attributes)@),
            original_value@,
            new_value@,
        ),
{
    let ghost orig = attributes@;
    let n = attributes.len();
    let mut i: usize = 0;
    while i < n
        invariant
            i <= n,
            n == attributes@.len(),
            attributes@.len() == orig.len(),
            orig == old(attributes)@,
            forall|j: int| i <= j < n ==> attributes@[j] == orig[j],
            attr_pairs(attributes@).take(i as int) == replace_vals(
                attr_pairs(orig),
                original_value@,
                new_value@,
            ).take(i as int),
        decreases n - i,
    {
        if attributes[i].1 == *original_value {
            let key = attributes[i].0.clone();
            attributes.set(i, (key, new_value.clone()));
        }
        i = i + 1;
        proof {
            assert(attr_pairs(attributes@).take(i as int) =~= replace_vals(
                attr_pairs(orig),
                original_value@,
                new_value@,
            ).take(i as int));
        }
    }
    proof {
        assert(attr_pairs(attributes@).take(n as int) =~= attr_pairs(attributes@));
        assert(replace_vals(attr_pairs(orig), original_value@, new_value@).take(n as int)
            =~= replace_vals(attr_pairs(orig), original_value@, new_value@));
    }
}

/// Clones an attribute list while applying the string rules to each value.
fn rules_attrs(attrs: &Vec<(String, String)>, rules: &PreprocessRules) -> (r: Vec<
    (String, String),
>)
    ensures
        attr_pairs(r@) == attr_pairs(attrs@).map_values(
            |p: (Seq<char>, Seq<char>)| (p.0, apply_rules_spec(p.1, *rules)),
        ),
{
    let mut r: Vec<(String, String)> = Vec::new();
    let n = attrs.len();
    let mut i: usize = 0;
    while i < n
        invariant
            i <= n,
            n == attrs@.len(),
            attr_pairs(r@) == attr_pairs(attrs@).map_values(
                |p: (Seq<char>, Seq<char>)| (p.0, apply_rules_spec(p.1, *rules)),
            ).take(i as int),
        decreases n - i,
    {
        let key = attrs[i].0.clone();
        let value = apply_string_rules(attrs[i].1.as_str(), rules);
        r.push((key, value));
        i = i + 1;
        proof {
            assert(attr_pairs(r@) =~= attr_pairs(attrs@).map_values(
                |p: (Seq<char>, Seq<char>)| (p.0, apply_rules_spec(p.1, *rules)),
            ).take(i as int));
        }
    }
    proof {
        assert(attr_pairs(attrs@).map_values(
            |p: (Seq<char>, Seq<char>)| (p.0, apply_rules_spec(p.1, *rules)),
        ).take(n as int) =~= attr_pairs(attrs@).map_values(
            |p: (Seq<char>, Seq<char>)| (p.0, apply_rules_spec(p.1, *rules)),
        ));
    }
    r
}

/// Clones an attribute list, substituting `new_value` for values equal to
/// `original_value`.
fn replaced_attrs(
    attrs: &Vec<(String, String)>,
    original_value: &String,
    new_value: &String,
) -> (r: Vec<(String, String)>)
    ensures
        attr_pairs(r@) == replace_vals(attr_pairs(attrs@), original_value@, new_value@),
{
    let mut r: Vec<(String, String)> = Vec::new();
    let n = attrs.len();
    let mut i: usize = 0;
    while i < n
        invariant
            i <= n,
            n == attrs@.len(),
            attr_pairs(r@) == replace_vals(attr_pairs(attrs@), original_value@, new_value@).take(
                i as int,
            ),
        decreases n - i,
    {
        let key = attrs[i].0.clone();
        let value = if attrs[i].1 == *original_value {
            new_value.clone()
        } else {
            attrs[i].1.clone()
        };
        r.push((key, value));
        i = i + 1;
        proof {
            assert(attr_pairs(r@) =~= replace_vals(
                attr_pairs(attrs@),
                original_value@,
                new_value@,
            ).take(i as int));
        }
    }
    proof {
        assert(replace_vals(attr_pairs(attrs@), original_value@, new_value@).take(n as int)
            =~= replace_vals(attr_pairs(attrs@), original_value@, new_value@));
    }
    r
}

/// Applies the configured rules to every record of the dataset; when range
/// expansion is enabled, a record whose processed part number matches the
/// range grammar is replicated into one record per expanded value. The
/// headers are kept; the input is not mutated. It never fails.
pub fn preprocess_bom_data(bom_data: &BomData, rules: &PreprocessRules) -> (r: Result<
    BomData,
    BomProcessorError,
>)
    ensures
        r is Ok,
        r.unwrap().headers@ == bom_data.headers@,
        r.unwrap().rows@.map_values(|x: BomRow| row_v(x)) == preprocess_all(
            bom_data.rows@.map_values(|x: BomRow| row_v(x)),
            *rules,
        ),
{
    let ghost input = bom_data.rows@.map_values(|x: BomRow| row_v(x));
    let headers = clone_strings(&bom_data.headers);
    let mut out: Vec<BomRow> = Vec::new();
    let n = bom_data.rows.len();
    let mut i: usize = 0;
    while i < n
        invariant
            i <= n,
            n == bom_data.rows@.len(),
            input == bom_data.rows@.map_values(|x: BomRow| row_v(x)),
            out@.map_values(|x: BomRow| row_v(x)) == preprocess_all(input.take(i as int), *rules),
        decreases n - i,
    {
        let row = &bom_data.rows[i];
        let ghost rv = row_v(*row);
        let ghost base = rules_row(rv, *rules);
        let part1 = apply_string_rules(row.part_number.as_str(), rules);
        let model1 = apply_string_rules(row.model_number.as_str(), rules);
        let attrs1 = rules_attrs(&row.attributes, rules);
        proof {
            assert(input.take(i + 1).drop_last() =~= input.take(i as int));
            assert(input.take(i + 1).last() == input[i as int]);
            assert(input[i as int] == rv);
            assert((part1@, model1@, attr_pairs(attrs1@)) == base);
        }
        let mut expanded = false;
        if rules.expand_ranges {
            if let Some(parts) = expand_ranges(part1.as_str()) {
                expanded = true;
                let ghost pseq = range_expansion(base.0).unwrap();
                let ghost goal = preprocess_row(rv, *rules);
                proof {
                    assert(parts@.map_values(|x: String| x@) == pseq);
                    assert(goal.len() == pseq.len());
                }
                let pc = parts.len();
                let mut k: usize = 0;
                while k < pc
                    invariant
                        k <= pc,
                        pc == parts@.len(),
                        parts@.map_values(|x: String| x@) == pseq,
                        goal.len() == pseq.len(),
                        part1@ == base.0,
                        model1@ == base.1,
                        attr_pairs(attrs1@) == base.2,
                        forall|x: int|
                            0 <= x < goal.len() ==> #[trigger] goal[x] == (
                                {
                                    let p = apply_rules_spec(pseq[x], *rules);
                                    (p, base.1, replace_vals(base.2, base.0, p))
                                }),
                        out@.map_values(|x: BomRow| row_v(x)) == preprocess_all(
                            input.take(i as int),
                            *rules,
                        ) + goal.take(k as int),
                    decreases pc - k,
                {
                    let p2 = apply_string_rules(parts[k].as_str(), rules);
                    let attrs2 = replaced_attrs(&attrs1, &part1, &p2);
                    let clone_row = BomRow {
                        part_number: p2,
                        model_number: model1.clone(),
                        attributes: attrs2,
                    };
                    proof {
                        assert(parts@[k as int]@ == pseq[k as int]);
                        assert(row_v(clone_row) == goal[k as int]);
                    }
                    out.push(clone_row);
                    k = k + 1;
                    proof {
                        assert(out@.map_values(|x: BomRow| row_v(x)) =~= preprocess_all(
                            input.take(i as int),
                            *rules,
                        ) + goal.take(k as int));
                    }
                }
                proof {
                    assert(goal.take(pc as int) =~= goal);
                    assert(out@.map_values(|x: BomRow| row_v(x)) =~= preprocess_all(
                        input.take(i + 1),
                        *rules,
                    ));
                }
            }
        }
        if !expanded {
            let base_row = BomRow { part_number: part1, model_number: model1, attributes: attrs1 };
            proof {
                assert(row_v(base_row) == rules_row(rv, *rules));
                assert(preprocess_row(rv, *rules) =~= seq![rules_row(rv, *rules)]);
            }
            out.push(base_row);
            proof {
                assert(out@.map_values(|x: BomRow| row_v(x)) =~= preprocess_all(
                    input.take(i + 1),
                    *rules,
                ));
            }
        }
        i = i + 1;
    }
    proof {
        assert(input.take(n as int) =~= input);
    }
    Ok(BomData { headers, rows: out })
}

} // verus!
