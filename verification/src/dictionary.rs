//! The column dictionary: maps abstract column roles to the header
//! synonyms used by the inference heuristic. Role names are compared
//! trimmed and without ASCII case.

use vstd::prelude::*;

use crate::text::eq_ignore_ascii_case_spec;
use crate::text::trim_spec;
use crate::text::trim_string;
use crate::text::chars_of;
use crate::text::eq_ignore_case_chars;
use crate::text::trim_chars;
use crate::types::ColumnDictionary;
use crate::types::ColumnDictionaryEntry;

verus! {

broadcast use Seq::lemma_push_map_commute;

/// Whether two role names denote the same role: equal after trimming,
/// ignoring ASCII case.
pub open spec fn type_matches(a: Seq<char>, b: Seq<char>) -> bool {
    eq_ignore_ascii_case_spec(trim_spec(a), trim_spec(b))
}

/// The index of the first dictionary entry for this role, if any.
pub open spec fn entry_index(cols: Seq<ColumnDictionaryEntry>, ct: Seq<char>) -> Option<int>
    decreases cols.len(),
{
    if cols.len() == 0 {
        None
    } else if type_matches(cols[0].column_type@, ct) {
        Some(0)
    } else {
        match entry_index(cols.drop_first(), ct) {
            None => None,
            Some(i) => Some(i + 1),
        }
    }
}

/// The synonyms the dictionary holds for this role: each pattern trimmed,
/// empty ones dropped; no entry means no synonyms.
pub open spec fn role_patterns(cols: Seq<ColumnDictionaryEntry>, ct: Seq<char>) -> Seq<Seq<char>> {
    match entry_index(cols, ct) {
        Some(i) => cols[i].patterns@.map_values(|p: String| trim_spec(p@)).filter(
            |p: Seq<char>| p.len() > 0,
        ),
        None => Seq::empty(),
    }
}

proof fn lemma_entry_index_at(cols: Seq<ColumnDictionaryEntry>, ct: Seq<char>, i: int)
    requires
        0 <= i < cols.len(),
        type_matches(cols[i].column_type@, ct),
        forall|j: int| 0 <= j < i ==> !type_matches((#[trigger] cols[j]).column_type@, ct),
    ensures
        entry_index(cols, ct) == Some(i),
    decreases cols.len(),
{
    if i > 0 {
        lemma_entry_index_at(cols.drop_first(), ct, i - 1);
    }
}

proof fn lemma_entry_index_none(cols: Seq<ColumnDictionaryEntry>, ct: Seq<char>)
    requires
        forall|j: int| 0 <= j < cols.len() ==> !type_matches((#[trigger] cols[j]).column_type@, ct),
    ensures
        entry_index(cols, ct) is None,
    decreases cols.len(),
{
    if cols.len() > 0 {
        lemma_entry_index_none(cols.drop_first(), ct);
    }
}

/// Whether two role names match, executably.
fn type_matches_exec(a: &String, b: &str) -> (r: bool)
    ensures
        r == type_matches(a@, b@),
{
    let va = chars_of(a.as_str());
    let vb = chars_of(b);
    let ta = trim_chars(&va);
    let tb = trim_chars(&vb);
    eq_ignore_case_chars(&ta, &tb)
}

impl ColumnDictionary {
    /// The first entry registered for this role, compared trimmed and
    /// without ASCII case.
    pub fn entry_for(&self, column_type: &str) -> (r: Option<&ColumnDictionaryEntry>)
        ensures
            match r {
                Some(e) => {
                    let i = entry_index(self.columns@, column_type@).unwrap();
                    entry_index(self.columns@, column_type@) is Some && *e == self.columns@[i]
                },
                None => entry_index(self.columns@, column_type@) is None,
            },
    {
        let n = self.columns.len();
        let mut i: usize = 0;
        while i < n
            invariant
                i <= n,
                n == self.columns@.len(),
                forall|j: int|
                    0 <= j < i ==> !type_matches(
                        (#[trigger] self.columns@[j]).column_type@,
                        column_type@,
                    ),
            decreases n - i,
        {
            if type_matches_exec(&self.columns[i].column_type, column_type) {
                proof {
                    lemma_entry_index_at(self.columns@, column_type@, i as int);
                }
                return Some(&self.columns[i]);
            }
            i = i + 1;
        }
        proof {
            lemma_entry_index_none(self.columns@, column_type@);
        }
        None
    }

    /// The role's synonyms: each pattern trimmed, empty ones dropped; an
    /// unknown role yields none.
    pub fn patterns_for(&self, column_type: &str) -> (r: Vec<String>)
        ensures
            r@.map_values(|p: String| p@) == role_patterns(self.columns@, column_type@),
    {
        broadcast use Seq::lemma_filter_push;

        match self.entry_for(column_type) {
            None => {
                let r: Vec<String> = Vec::new();
                proof {
                    assert(r@.map_values(|p: String| p@) =~= role_patterns(
                        self.columns@,
                        column_type@,
                    ));
                }
                r
            },
            Some(entry) => {
                let ghost goal = entry.patterns@.map_values(|p: String| trim_spec(p@)).filter(
                    |p: Seq<char>| p.len() > 0,
                );
                let mut r: Vec<String> = Vec::new();
                let n = entry.patterns.len();
                let mut i: usize = 0;
                while i < n
                    invariant
                        i <= n,
                        n == entry.patterns@.len(),
                        r@.map_values(|p: String| p@) == entry.patterns@.take(i as int).map_values(
                            |p: String| trim_spec(p@),
                        ).filter(|p: Seq<char>| p.len() > 0),
                    decreases n - i,
                {
                    proof {
                        assert(entry.patterns@.take(i + 1) =~= entry.patterns@.take(
                            i as int,
                        ).push(entry.patterns@[i as int]));
                    }
                    let t = trim_string(entry.patterns[i].as_str());
                    proof {
                        let f = |p: String| trim_spec(p@);
                        let g = |p: Seq<char>| p.len() > 0;
                        assert(entry.patterns@.take(i + 1).map_values(f) =~= entry.patterns@.take(
                            i as int,
                        ).map_values(f).push(t@));
                        entry.patterns@.take(i as int).map_values(f).lemma_filter_push(t@, g);
                    }
                    if t.unicode_len() > 0 {
                        r.push(t);
                    }
                    i = i + 1;
                    proof {
                        assert(r@.map_values(|p: String| p@) =~= entry.patterns@.take(
                            i as int,
                        ).map_values(|p: String| trim_spec(p@)).filter(|p: Seq<char>| p.len() > 0));
                    }
                }
                proof {
                    assert(entry.patterns@.take(n as int) =~= entry.patterns@);
                }
                r
            },
        }
    }
}

/// Builds one dictionary entry from a role name, a display name and its
/// synonym patterns.
fn make_entry(column_type: &str, display_name: &str, patterns: Vec<String>) -> (r:
    ColumnDictionaryEntry)
    ensures
        r.column_type@ == column_type@,
        r.display_name is Some && r.display_name.unwrap()@ == display_name@,
        r.patterns == patterns,
{
    ColumnDictionaryEntry {
        column_type: column_type.to_owned(),
        display_name: Some(display_name.to_owned()),
        patterns,
    }
}

/// The built-in dictionary: the three default roles with their synonyms.
pub open spec fn is_default_dictionary(r: ColumnDictionary) -> bool {
    &&& r.columns@.len() == 3
    &&& r.columns@[0].column_type@ == "part_number"@
    &&& r.columns@[0].patterns@.map_values(|p: String| p@) == seq![
        "部品番号"@,
        "品番"@,
        "部番"@,
        "part number"@,
        "part no"@,
        "part#"@,
        "reference"@,
        "refdes"@,
    ]
    &&& r.columns@[1].column_type@ == "model_number"@
    &&& r.columns@[1].patterns@.map_values(|p: String| p@) == seq![
        "型番"@,
        "部品名"@,
        "品名"@,
        "item"@,
        "part name"@,
        "description"@,
    ]
    &&& r.columns@[2].column_type@ == "manufacturer"@
    &&& r.columns@[2].patterns@.map_values(|p: String| p@) == seq![
        "ﾒｰｶｰ"@,
        "メーカー"@,
        "maker"@,
        "manufacturer"@,
        "vendor"@,
    ]
}

/// The default dictionary: the built-in synonyms for the part number,
/// model number and manufacturer roles.
pub fn default_column_dictionary() -> (r: ColumnDictionary)
    ensures
        is_default_dictionary(r),
{
    let mut part_patterns: Vec<String> = Vec::new();
    part_patterns.push("部品番号".to_owned());
    part_patterns.push("品番".to_owned());
    part_patterns.push("部番".to_owned());
    part_patterns.push("part number".to_owned());
    part_patterns.push("part no".to_owned());
    part_patterns.push("part#".to_owned());
    part_patterns.push("reference".to_owned());
    part_patterns.push("refdes".to_owned());
    let mut model_patterns: Vec<String> = Vec::new();
    model_patterns.push("型番".to_owned());
    model_patterns.push("部品名".to_owned());
    model_patterns.push("品名".to_owned());
    model_patterns.push("item".to_owned());
    model_patterns.push("part name".to_owned());
    model_patterns.push("description".to_owned());
    let mut maker_patterns: Vec<String> = Vec::new();
    maker_patterns.push("ﾒｰｶｰ".to_owned());
    maker_patterns.push("メーカー".to_owned());
    maker_patterns.push("maker".to_owned());
    maker_patterns.push("manufacturer".to_owned());
    maker_patterns.push("vendor".to_owned());
    proof {
        assert(part_patterns@.map_values(|p: String| p@) =~= seq![
            "部品番号"@,
            "品番"@,
            "部番"@,
            "part number"@,
            "part no"@,
            "part#"@,
            "reference"@,
            "refdes"@,
        ]);
        assert(model_patterns@.map_values(|p: String| p@) =~= seq![
            "型番"@,
            "部品名"@,
            "品名"@,
            "item"@,
            "part name"@,
            "description"@,
        ]);
        assert(maker_patterns@.map_values(|p: String| p@) =~= seq![
            "ﾒｰｶｰ"@,
            "メーカー"@,
            "maker"@,
            "manufacturer"@,
            "vendor"@,
        ]);
    }
    let mut columns: Vec<ColumnDictionaryEntry> = Vec::new();
    columns.push(make_entry("part_number", "部品番号", part_patterns));
    columns.push(make_entry("model_number", "型番/部品名", model_patterns));
    columns.push(make_entry("manufacturer", "メーカー", maker_patterns));
    ColumnDictionary { columns }
}

} // verus!
