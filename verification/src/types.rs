//! The data model: datasets, records, column mappings, rule
//! configurations, audit records and the result shapes of the
//! reconciliation engine.

use vstd::prelude::*;

verus! {

// ---------------------------------------------------------------------------
// Records and datasets
// ---------------------------------------------------------------------------

/// One row of a bill of materials: the normalized part number (the join
/// key), the model number, and the named attribute values, one per
/// header, with unique keys.
#[derive(Clone, Debug)]
pub struct BomRow {
    pub part_number: String,
    pub model_number: String,
    pub attributes: Vec<(String, String)>,
}

/// A dataset: the header names and the records built from a raw grid.
#[derive(Clone, Debug)]
pub struct BomData {
    pub headers: Vec<String>,
    pub rows: Vec<BomRow>,
}

/// Which physical column holds which semantic role. The part number and
/// model number are required; the manufacturer is optional.
#[derive(Clone, Copy, Debug)]
pub struct ColumnMapping {
    pub part_number: usize,
    pub model_number: usize,
    pub manufacturer: Option<usize>,
}

/// The opt-in preprocessing rules, applied in the fixed order:
/// parenthesis removal, width folding, case folding, then range
/// expansion.
#[derive(Clone, Copy, Debug, PartialEq, Eq, Structural)]
pub struct PreprocessRules {
    pub remove_parentheses: bool,
    pub expand_ranges: bool,
    pub fullwidth_to_halfwidth: bool,
    pub lowercase_to_uppercase: bool,
}

/// An audit record for one value changed by normalization.
#[derive(Clone, Debug)]
pub struct AutoCorrection {
    pub row_number: usize,
    pub column_index: usize,
    pub column_name: String,
    pub original_value: String,
    pub corrected_value: String,
    pub rule: String,
}

/// What building a dataset from a raw grid yields: the dataset and the
/// audit trail of every normalization that changed a value.
#[derive(Clone, Debug)]
pub struct LoadBomResult {
    pub bom: BomData,
    pub corrections: Vec<AutoCorrection>,
}

/// The error taxonomy of the engine.
#[derive(Clone, Debug)]
pub enum BomProcessorError {
    FileReadError(String),
    FormatError(String),
    EncodingError(String),
    ColumnError(String),
}

impl BomProcessorError {
    /// A short label for the error variant, for display by callers.
    pub fn message(&self) -> (r: &String)
        ensures
            r@ == match self {
                BomProcessorError::FileReadError(m) => m@,
                BomProcessorError::FormatError(m) => m@,
                BomProcessorError::EncodingError(m) => m@,
                BomProcessorError::ColumnError(m) => m@,
            },
    {
        match self {
            BomProcessorError::FileReadError(m) => m,
            BomProcessorError::FormatError(m) => m,
            BomProcessorError::EncodingError(m) => m,
            BomProcessorError::ColumnError(m) => m,
        }
    }
}

// ---------------------------------------------------------------------------
// Reconciliation results
// ---------------------------------------------------------------------------

/// One row of a comparison: the key, both model numbers, a status among
/// `common`, `a_only`, `b_only`, `modified`, and a change type among
/// `UNCHANGED`, `REMOVED`, `ADDED`, `MODIFIED`.
#[derive(Clone, Debug)]
pub struct ComparisonRow {
    pub part_number: String,
    pub model_a: String,
    pub model_b: String,
    pub status: String,
    pub change_type: String,
}

/// The comparison partitions. `common_parts` holds every key present in
/// both datasets (rows with differing models are marked `modified`
/// there); `modified_parts` lists exactly those differing keys again.
#[derive(Clone, Debug)]
pub struct ComparisonResult {
    pub common_parts: Vec<ComparisonRow>,
    pub a_only_parts: Vec<ComparisonRow>,
    pub b_only_parts: Vec<ComparisonRow>,
    pub modified_parts: Vec<ComparisonRow>,
}

/// One row of the synthesis view: a key of either dataset with both
/// model numbers and a status among `common`, `missing_a`, `missing_b`.
#[derive(Clone, Debug)]
pub struct SynthesisRow {
    pub part_number: String,
    pub model_a: String,
    pub model_b: String,
    pub status: String,
}

/// The full outer join of two datasets, sorted by part number.
#[derive(Clone, Debug)]
pub struct SynthesisResult {
    pub rows: Vec<SynthesisRow>,
}

// ---------------------------------------------------------------------------
// Validation
// ---------------------------------------------------------------------------

#[derive(Clone, Debug)]
pub struct ValidationError {
    pub row_number: usize,
    pub field: String,
    pub message: String,
}

#[derive(Clone, Debug)]
pub struct ValidationResult {
    pub is_valid: bool,
    pub errors: Vec<ValidationError>,
}

// ---------------------------------------------------------------------------
// Registered names and overrides
// ---------------------------------------------------------------------------

/// Maps a model number to the name registered for it.
#[derive(Clone, Debug)]
pub struct RegisteredNameEntry {
    pub part_model: String,
    pub registered_name: String,
}

#[derive(Clone, Debug, Default)]
pub struct RegisteredNameList {
    pub entries: Vec<RegisteredNameEntry>,
}

/// Maps a part number to a name that overrides the registered one.
#[derive(Clone, Debug)]
pub struct OverrideEntry {
    pub part_number: String,
    pub registered_name: String,
}

#[derive(Clone, Debug, Default)]
pub struct OverrideList {
    pub entries: Vec<OverrideEntry>,
}

// ---------------------------------------------------------------------------
// Settings, dictionary, previews, sessions
// ---------------------------------------------------------------------------

#[derive(Clone, Debug, Default)]
pub struct FormatRule {
    pub pattern: String,
    pub action: String,
}

#[derive(Clone, Debug, Default)]
pub struct AppSettings {
    pub makers: Vec<String>,
    pub format_rules: Vec<FormatRule>,
}

/// One role of the column dictionary: its type name, an optional display
/// name, and the header synonyms to match against.
#[derive(Clone, Debug, Default)]
pub struct ColumnDictionaryEntry {
    pub column_type: String,
    pub display_name: Option<String>,
    pub patterns: Vec<String>,
}

#[derive(Clone, Debug, Default)]
pub struct ColumnDictionary {
    pub columns: Vec<ColumnDictionaryEntry>,
}

#[derive(Clone, Debug)]
pub struct PreviewTable {
    pub headers: Vec<String>,
    pub rows: Vec<Vec<String>>,
    pub total_rows: usize,
}

/// An entry of the persistent correction log.
#[derive(Clone, Debug)]
pub struct CorrectionEntry {
    pub timestamp: String,
    pub row_number: usize,
    pub column_name: String,
    pub original_value: String,
    pub corrected_value: String,
    pub rule_applied: String,
    pub correction_type: CorrectionType,
}

#[derive(Clone, Copy, Debug, PartialEq, Eq, Structural)]
pub enum CorrectionType {
    Auto,
    Manual,
    Validation,
}

/// Preview payload handed to the surrounding application.
#[derive(Clone, Debug)]
pub struct PreviewData {
    pub csv_content: String,
    pub headers: Vec<String>,
    pub row_count: usize,
    pub validation_errors: Vec<ValidationError>,
}

#[derive(Clone, Copy, Debug, PartialEq, Eq, Structural)]
pub enum SessionKind {
    Auto,
    Manual,
}

/// A plain copy of a dataset, the shape in which the surrounding
/// application passes datasets in and out.
#[derive(Clone, Debug)]
pub struct BomSnapshot {
    pub headers: Vec<String>,
    pub rows: Vec<BomRow>,
}

impl From<BomData> for BomSnapshot {
    fn from(value: BomData) -> (r: Self) {
        BomSnapshot { headers: value.headers, rows: value.rows }
    }
}

impl vstd::std_specs::convert::FromSpecImpl<BomData> for BomSnapshot {
    open spec fn obeys_from_spec() -> bool {
        true
    }

    open spec fn from_spec(t: BomData) -> Self {
        BomSnapshot { headers: t.headers, rows: t.rows }
    }
}

impl From<BomSnapshot> for BomData {
    fn from(value: BomSnapshot) -> (r: Self) {
        BomData { headers: value.headers, rows: value.rows }
    }
}

impl vstd::std_specs::convert::FromSpecImpl<BomSnapshot> for BomData {
    open spec fn obeys_from_spec() -> bool {
        true
    }

    open spec fn from_spec(t: BomSnapshot) -> Self {
        BomData { headers: t.headers, rows: t.rows }
    }
}

// ---------------------------------------------------------------------------
// Association lists over string pairs
// ---------------------------------------------------------------------------

/// The view of an attribute list: each pair as character sequences.
pub open spec fn attr_pairs(attrs: Seq<(String, String)>) -> Seq<(Seq<char>, Seq<char>)> {
    attrs.map_values(|p: (String, String)| (p.0@, p.1@))
}

/// First value bound to `k`, if any.
pub open spec fn assoc_get(pairs: Seq<(Seq<char>, Seq<char>)>, k: Seq<char>) -> Option<Seq<char>>
    decreases pairs.len(),
{
    if pairs.len() == 0 {
        None
    } else if pairs[0].0 == k {
        Some(pairs[0].1)
    } else {
        assoc_get(pairs.drop_first(), k)
    }
}

/// Replaces the first binding of `k`, or appends one.
pub open spec fn assoc_upsert(
    pairs: Seq<(Seq<char>, Seq<char>)>,
    k: Seq<char>,
    v: Seq<char>,
) -> Seq<(Seq<char>, Seq<char>)>
    decreases pairs.len(),
{
    if pairs.len() == 0 {
        seq![(k, v)]
    } else if pairs[0].0 == k {
        seq![(k, v)] + pairs.drop_first()
    } else {
        seq![pairs[0]] + assoc_upsert(pairs.drop_first(), k, v)
    }
}

/// Looks the key up in an attribute list; clones the first match.
pub fn attrs_get(attrs: &Vec<(String, String)>, key: &String) -> (r: Option<String>)
    ensures
        match r {
            Some(v) => assoc_get(attr_pairs(attrs@), key@) == Some(v@),
            None => assoc_get(attr_pairs(attrs@), key@) is None,
        },
{
    let n = attrs.len();
    proof {
        assert(attr_pairs(attrs@).skip(0) =~= attr_pairs(attrs@));
    }
    let mut i: usize = 0;
    while i < n
        invariant
            i <= n,
            n == attrs@.len(),
            forall|j: int| 0 <= j < i ==> #[trigger] attrs@[j].0@ != key@,
            assoc_get(attr_pairs(attrs@), key@) == assoc_get(
                attr_pairs(attrs@).skip(i as int),
                key@,
            ),
        decreases n - i,
    {
        proof {
            assert(attr_pairs(attrs@).skip(i as int)[0] == (attrs@[i as int].0@, attrs@[
                i as int
            ].1@));
            assert(attr_pairs(attrs@).skip(i as int).drop_first() =~= attr_pairs(attrs@).skip(
                i + 1,
            ));
        }
        if attrs[i].0 == *key {
            return Some(attrs[i].1.clone());
        }
        i = i + 1;
    }
    None
}

/// Replaces the first binding of `key` in place, or appends one.
pub fn attrs_upsert(attrs: &mut Vec<(String, String)>, key: String, value: String)
    ensures
        attr_pairs(final(attrs)@) == assoc_upsert(attr_pairs(old(attrs)@), key@, value@),
{
    let ghost orig = attrs@;
    let n = attrs.len();
    let mut i: usize = 0;
    while i < n
        invariant
            i <= n,
            n == orig.len(),
            attrs@ == orig,
            orig == old(attrs)@,
            forall|j: int| 0 <= j < i ==> #[trigger] orig[j].0@ != key@,
        decreases n - i,
    {
        if attrs[i].0 == *(&key) {
            attrs.set(i, (key, value));
            proof {
                assert forall|j: int| 0 <= j < i implies #[trigger] attr_pairs(orig)[j].0
                    != key@ by {
                    assert(orig[j].0@ != key@);
                }
                assert(attr_pairs(orig)[i as int].0 == orig[i as int].0@);
                lemma_assoc_upsert_at(attr_pairs(orig), key@, value@, i as int);
                assert(attr_pairs(attrs@) =~= attr_pairs(orig).update(
                    i as int,
                    (key@, value@),
                ));
                assert(attr_pairs(attrs@) == assoc_upsert(attr_pairs(orig), key@, value@));
            }
            return ;
        }
        i = i + 1;
    }
    attrs.push((key, value));
    proof {
        assert forall|j: int| 0 <= j < orig.len() implies #[trigger] attr_pairs(orig)[j].0
            != key@ by {
            assert(orig[j].0@ != key@);
        }
        lemma_assoc_upsert_missing(attr_pairs(orig), key@, value@);
        assert(attr_pairs(attrs@) =~= attr_pairs(orig).push((key@, value@)));
    }
}

/// Clones an attribute list; the clone holds exactly the same pairs.
pub fn clone_attrs(attrs: &Vec<(String, String)>) -> (r: Vec<(String, String)>)
    ensures
        r@ == attrs@,
{
    let n = attrs.len();
    let mut r: Vec<(String, String)> = Vec::new();
    let mut i: usize = 0;
    while i < n
        invariant
            i <= n,
            n == attrs@.len(),
            r@ == attrs@.subrange(0, i as int),
        decreases n - i,
    {
        let pair = (attrs[i].0.clone(), attrs[i].1.clone());
        proof {
            assert(pair == attrs@[i as int]);
        }
        r.push(pair);
        i = i + 1;
        proof {
            assert(r@ =~= attrs@.subrange(0, i as int));
        }
    }
    proof {
        assert(attrs@.subrange(0, n as int) =~= attrs@);
    }
    r
}

/// When `k` is bound first at position `i`, upserting rewrites exactly
/// that position.
pub proof fn lemma_assoc_upsert_at(
    pairs: Seq<(Seq<char>, Seq<char>)>,
    k: Seq<char>,
    v: Seq<char>,
    i: int,
)
    requires
        0 <= i < pairs.len(),
        pairs[i].0 == k,
        forall|j: int| 0 <= j < i ==> #[trigger] pairs[j].0 != k,
    ensures
        assoc_upsert(pairs, k, v) == pairs.update(i, (k, v)),
    decreases pairs.len(),
{
    if i == 0 {
        assert(assoc_upsert(pairs, k, v) =~= pairs.update(0, (k, v)));
    } else {
        lemma_assoc_upsert_at(pairs.drop_first(), k, v, i - 1);
        assert(assoc_upsert(pairs, k, v) =~= pairs.update(i, (k, v)));
    }
}

/// When `k` is unbound, upserting appends.
pub proof fn lemma_assoc_upsert_missing(pairs: Seq<(Seq<char>, Seq<char>)>, k: Seq<char>, v: Seq<char>)
    requires
        forall|j: int| 0 <= j < pairs.len() ==> #[trigger] pairs[j].0 != k,
    ensures
        assoc_upsert(pairs, k, v) == pairs.push((k, v)),
    decreases pairs.len(),
{
    if pairs.len() == 0 {
        assert(assoc_upsert(pairs, k, v) =~= pairs.push((k, v)));
    } else {
        lemma_assoc_upsert_missing(pairs.drop_first(), k, v);
        assert(assoc_upsert(pairs, k, v) =~= pairs.push((k, v)));
    }
}

} // verus!
