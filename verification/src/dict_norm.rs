//! Dictionary normalization: merges user-edited dictionary entries by
//! role (trimmed, lower-cased role names), deduplicates the synonym
//! patterns without regard to ASCII case, and yields the roles sorted by
//! name with their patterns sorted.

use vstd::prelude::*;

use vstd::multiset::Multiset;

use crate::dictionary::default_column_dictionary;
use crate::dictionary::is_default_dictionary;
use crate::settings::lowercase_ascii;
use crate::settings::lower_seq;
use crate::text::chars_of;
use crate::text::eq_ignore_ascii_case_spec;
use crate::text::eq_ignore_case_chars;
use crate::text::is_blank;
use crate::text::lemma_blank_trim;
use crate::text::lemma_lex_le_total;
use crate::text::lemma_lex_le_trans;
use crate::text::lex_le;
use crate::text::str_lex_le;
use crate::text::trim_spec;
use crate::text::trim_string;
use crate::types::ColumnDictionary;
use crate::types::ColumnDictionaryEntry;

verus! {

broadcast use {Seq::lemma_push_map_commute, vstd::seq_lib::group_to_multiset_ensures};

// ---------------------------------------------------------------------------
// The merge model
// ---------------------------------------------------------------------------

/// The view of one merged dictionary entry.
pub ghost struct DictEntryV {
    pub key: Seq<char>,
    pub display: Option<Seq<char>>,
    pub patterns: Seq<Seq<char>>,
}

/// The merge key of a role name: trimmed, ASCII lower case.
pub open spec fn dict_key(s: Seq<char>) -> Seq<char> {
    lower_seq(trim_spec(s))
}

/// Whether the pattern already occurs, up to ASCII case.
pub open spec fn ci_contains(pats: Seq<Seq<char>>, t: Seq<char>) -> bool {
    exists|i: int| 0 <= i < pats.len() && eq_ignore_ascii_case_spec(#[trigger] pats[i], t)
}

/// Folds the incoming patterns into the current ones: each trimmed, empty
/// ones dropped, and one already present up to ASCII case dropped too.
pub open spec fn add_patterns(cur: Seq<Seq<char>>, inc: Seq<String>, j: int) -> Seq<Seq<char>>
    decreases j,
{
    if j <= 0 {
        cur
    } else {
        let prev = add_patterns(cur, inc, j - 1);
        let t = trim_spec(inc[j - 1]@);
        if t.len() > 0 && !ci_contains(prev, t) {
            prev.push(t)
        } else {
            prev
        }
    }
}

/// The display name after seeing one more entry: a non-blank incoming
/// display name (trimmed) replaces the current one.
pub open spec fn merge_display(cur: Option<Seq<char>>, d: Option<String>) -> Option<Seq<char>> {
    match d {
        Some(name) => if trim_spec(name@).len() > 0 {
            Some(trim_spec(name@))
        } else {
            cur
        },
        None => cur,
    }
}

/// The index of the merged entry with this key, if any.
pub open spec fn find_key(m: Seq<DictEntryV>, k: Seq<char>) -> Option<int>
    decreases m.len(),
{
    if m.len() == 0 {
        None
    } else if m[0].key == k {
        Some(0)
    } else {
        match find_key(m.drop_first(), k) {
            None => None,
            Some(i) => Some(i + 1),
        }
    }
}

/// One entry folded into the merged list.
pub open spec fn merge_one(m: Seq<DictEntryV>, e: ColumnDictionaryEntry) -> Seq<DictEntryV> {
    let k = dict_key(e.column_type@);
    match find_key(m, k) {
        Some(i) => m.update(
            i,
            DictEntryV {
                key: k,
                display: merge_display(m[i].display, e.display_name),
                patterns: add_patterns(m[i].patterns, e.patterns@, e.patterns@.len() as int),
            },
        ),
        None => m.push(
            DictEntryV {
                key: k,
                display: merge_display(None, e.display_name),
                patterns: add_patterns(Seq::empty(), e.patterns@, e.patterns@.len() as int),
            },
        ),
    }
}

/// The first `j` entries merged, in first-occurrence key order.
pub open spec fn merge_upto(cols: Seq<ColumnDictionaryEntry>, j: int) -> Seq<DictEntryV>
    decreases j,
{
    if j <= 0 {
        Seq::empty()
    } else {
        merge_one(merge_upto(cols, j - 1), cols[j - 1])
    }
}

/// Some entry's role name is blank.
pub open spec fn has_blank_type(cols: Seq<ColumnDictionaryEntry>) -> bool {
    exists|i: int| 0 <= i < cols.len() && is_blank((#[trigger] cols[i]).column_type@)
}

/// An output entry realizes a merged one: same key as its role name, same
/// display name, and its patterns are the merged ones sorted ascending.
pub open spec fn entry_matches(e: ColumnDictionaryEntry, v: DictEntryV) -> bool {
    &&& e.column_type@ == v.key
    &&& (match e.display_name {
        Some(d) => v.display == Some(d@),
        None => v.display is None,
    })
    &&& sorted_strings(e.patterns@)
    &&& e.patterns@.map_values(|p: String| p@).to_multiset() == v.patterns.to_multiset()
}

/// The entry realizes one of the merged entries.
pub open spec fn matched(e: ColumnDictionaryEntry, m: Seq<DictEntryV>) -> bool {
    exists|j: int| 0 <= j < m.len() && entry_matches(e, #[trigger] m[j])
}

/// Strings sorted ascending by code point.
pub open spec fn sorted_strings(s: Seq<String>) -> bool {
    forall|i: int, j: int| 0 <= i < j < s.len() ==> lex_le((#[trigger] s[i])@, (#[trigger] s[j])@)
}

/// Entries sorted ascending by role name.
pub open spec fn sorted_entries(s: Seq<ColumnDictionaryEntry>) -> bool {
    forall|i: int, j: int|
        0 <= i < j < s.len() ==> lex_le(
            (#[trigger] s[i]).column_type@,
            (#[trigger] s[j]).column_type@,
        )
}

// ---------------------------------------------------------------------------
// Sorted insertion
// ---------------------------------------------------------------------------

proof fn lemma_insert_multiset<A>(s: Seq<A>, p: int, x: A)
    requires
        0 <= p <= s.len(),
    ensures
        s.insert(p, x).to_multiset() == s.to_multiset().insert(x),
{
    broadcast use vstd::seq_lib::lemma_multiset_commutative;

    let pre = s.take(p);
    let post = s.skip(p);
    assert(s.insert(p, x) =~= pre + (seq![x] + post));
    assert(s =~= pre + post);
    assert(seq![x].to_multiset() =~= Multiset::empty().insert(x)) by {
        assert(seq![x].drop_last() =~= Seq::<A>::empty());
    }
    assert(s.insert(p, x).to_multiset() =~= s.to_multiset().insert(x));
}

/// Inserts a string into a sorted vector, keeping it sorted.
fn insert_string_sorted(v: &mut Vec<String>, x: String)
    requires
        sorted_strings(old(v)@),
    ensures
        sorted_strings(final(v)@),
        final(v)@.to_multiset() == old(v)@.to_multiset().insert(x),
        final(v)@.map_values(|p2: String| p2@).to_multiset() == old(v)@.map_values(
            |p2: String| p2@,
        ).to_multiset().insert(x@),
{
    let n = v.len();
    let mut p: usize = 0;
    while p < n && str_lex_le(v[p].as_str(), x.as_str())
        invariant
            p <= n,
            n == v@.len(),
            v@ == old(v)@,
            sorted_strings(v@),
            forall|i: int| 0 <= i < p ==> lex_le((#[trigger] v@[i])@, x@),
        decreases n - p,
    {
        p = p + 1;
    }
    proof {
        if p < n {
            assert(!lex_le(v@[p as int]@, x@));
            lemma_lex_le_total(v@[p as int]@, x@);
            assert(lex_le(x@, v@[p as int]@));
        }
        assert forall|j: int| p <= j < n implies lex_le(x@, (#[trigger] v@[j])@) by {
            assert(lex_le(x@, v@[p as int]@));
            if j > p {
                lemma_lex_le_trans(x@, v@[p as int]@, v@[j]@);
            }
        }
        lemma_insert_multiset(v@, p as int, x);
    }
    let ghost xv = x@;
    let ghost before = v@;
    v.insert(p, x);
    proof {
        assert(v@ == before.insert(p as int, x));
        assert(v@.map_values(|p2: String| p2@) =~= before.map_values(|p2: String| p2@).insert(
            p as int,
            xv,
        ));
        lemma_insert_multiset(before.map_values(|p2: String| p2@), p as int, xv);
        assert forall|i: int, j: int|
            0 <= i < j < v@.len() implies lex_le((#[trigger] v@[i])@, (#[trigger] v@[j])@) by {
            if i < p && j == p {
                assert(v@[i] == before[i]);
                assert(lex_le(before[i]@, xv));
            } else if i == p && j > p {
                assert(v@[j] == before[j - 1]);
                assert(lex_le(xv, before[j - 1]@));
            } else if i < p && j > p {
                assert(v@[i] == before[i]);
                assert(v@[j] == before[j - 1]);
            } else if j < p {
                assert(v@[i] == before[i]);
                assert(v@[j] == before[j]);
            } else if i > p {
                assert(v@[i] == before[i - 1]);
                assert(v@[j] == before[j - 1]);
            }
        }
    }
}

/// Sorts strings ascending by code point; the same strings come out.
fn sort_strings(v: Vec<String>) -> (r: Vec<String>)
    ensures
        sorted_strings(r@),
        r@.to_multiset() == v@.to_multiset(),
        r@.map_values(|p2: String| p2@).to_multiset() == v@.map_values(
            |p2: String| p2@,
        ).to_multiset(),
{
    let n = v.len();
    let mut r: Vec<String> = Vec::new();
    let mut i: usize = 0;
    let ghost orig = v@;
    let mut v = v;
    proof {
        assert(orig.take(0) =~= Seq::<String>::empty());
        assert(Seq::<String>::empty().to_multiset() =~= Multiset::<String>::empty());
    }
    while i < n
        invariant
            i <= n,
            n == orig.len(),
            v@ == orig,
            sorted_strings(r@),
            r@.to_multiset() == orig.take(i as int).to_multiset(),
            r@.map_values(|p2: String| p2@).to_multiset() == orig.take(i as int).map_values(
                |p2: String| p2@,
            ).to_multiset(),
        decreases n - i,
    {
        proof {
            assert(orig.take(i + 1) =~= orig.take(i as int).push(orig[i as int]));
        }
        insert_string_sorted(&mut r, v[i].clone());
        i = i + 1;
        proof {
            assert(orig.take(i as int).map_values(|p2: String| p2@) =~= orig.take(
                (i - 1) as int,
            ).map_values(|p2: String| p2@).push(orig[i - 1]@));
        }
    }
    proof {
        assert(orig.take(n as int) =~= orig);
    }
    r
}

/// Inserts a dictionary entry into a vector sorted by role name.
fn insert_entry_sorted(v: &mut Vec<ColumnDictionaryEntry>, x: ColumnDictionaryEntry)
    requires
        sorted_entries(old(v)@),
    ensures
        final(v)@.len() == old(v)@.len() + 1,
        sorted_entries(final(v)@),
        final(v)@.to_multiset() == old(v)@.to_multiset().insert(x),
        final(v)@.map_values(|e: ColumnDictionaryEntry| e.column_type@).to_multiset() == old(
            v,
        )@.map_values(|e: ColumnDictionaryEntry| e.column_type@).to_multiset().insert(
            x.column_type@,
        ),
{
    let n = v.len();
    let mut p: usize = 0;
    while p < n && str_lex_le(v[p].column_type.as_str(), x.column_type.as_str())
        invariant
            p <= n,
            n == v@.len(),
            v@ == old(v)@,
            sorted_entries(v@),
            forall|i: int| 0 <= i < p ==> lex_le((#[trigger] v@[i]).column_type@, x.column_type@),
        decreases n - p,
    {
        p = p + 1;
    }
    proof {
        if p < n {
            lemma_lex_le_total(v@[p as int].column_type@, x.column_type@);
        }
        assert forall|j: int|
            p <= j < n implies lex_le(x.column_type@, (#[trigger] v@[j]).column_type@) by {
            assert(lex_le(x.column_type@, v@[p as int].column_type@));
            if j > p {
                lemma_lex_le_trans(
                    x.column_type@,
                    v@[p as int].column_type@,
                    v@[j].column_type@,
                );
            }
        }
        lemma_insert_multiset(v@, p as int, x);
    }
    let ghost xv = x.column_type@;
    let ghost before = v@;
    v.insert(p, x);
    proof {
        assert(v@ == before.insert(p as int, x));
        assert(v@.map_values(|e: ColumnDictionaryEntry| e.column_type@) =~= before.map_values(
            |e: ColumnDictionaryEntry| e.column_type@,
        ).insert(p as int, xv));
        lemma_insert_multiset(
            before.map_values(|e: ColumnDictionaryEntry| e.column_type@),
            p as int,
            xv,
        );
        assert forall|i: int, j: int|
            0 <= i < j < v@.len() implies lex_le(
            (#[trigger] v@[i]).column_type@,
            (#[trigger] v@[j]).column_type@,
        ) by {
            if i < p && j == p {
                assert(v@[i] == before[i]);
            } else if i == p && j > p {
                assert(v@[j] == before[j - 1]);
            } else if i < p && j > p {
                assert(v@[i] == before[i]);
                assert(v@[j] == before[j - 1]);
            } else if j < p {
                assert(v@[i] == before[i]);
                assert(v@[j] == before[j]);
            } else if i > p {
                assert(v@[i] == before[i - 1]);
                assert(v@[j] == before[j - 1]);
            }
        }
    }
}

// ---------------------------------------------------------------------------
// Normalization
// ---------------------------------------------------------------------------

/// Looks the key up among the merged entries.
fn merged_find(merged: &Vec<ColumnDictionaryEntry>, key: &String, Ghost(m): Ghost<Seq<DictEntryV>>) -> (r:
    Option<usize>)
    requires
        merged@.len() == m.len(),
        forall|j: int| 0 <= j < m.len() ==> (#[trigger] merged@[j]).column_type@ == m[j].key,
    ensures
        match r {
            Some(i) => i < m.len() && find_key(m, key@) == Some(i as int),
            None => find_key(m, key@) is None,
        },
{
    let n = merged.len();
    let mut i: usize = 0;
    while i < n
        invariant
            i <= n,
            n == m.len(),
            merged@.len() == m.len(),
            forall|j: int| 0 <= j < m.len() ==> (#[trigger] merged@[j]).column_type@ == m[j].key,
            forall|j: int| 0 <= j < i ==> (#[trigger] m[j]).key != key@,
        decreases n - i,
    {
        if crate::text::str_eq(merged[i].column_type.as_str(), key.as_str()) {
            proof {
                lemma_find_key_at(m, key@, i as int);
            }
            return Some(i);
        }
        i = i + 1;
    }
    proof {
        lemma_find_key_none(m, key@);
    }
    None
}

proof fn lemma_find_key_at(m: Seq<DictEntryV>, k: Seq<char>, i: int)
    requires
        0 <= i < m.len(),
        m[i].key == k,
        forall|j: int| 0 <= j < i ==> (#[trigger] m[j]).key != k,
    ensures
        find_key(m, k) == Some(i),
    decreases m.len(),
{
    if i > 0 {
        lemma_find_key_at(m.drop_first(), k, i - 1);
    }
}

proof fn lemma_find_key_sound(m: Seq<DictEntryV>, k: Seq<char>)
    ensures
        match find_key(m, k) {
            Some(i) => 0 <= i < m.len() && m[i].key == k,
            None => true,
        },
    decreases m.len(),
{
    if m.len() > 0 && m[0].key != k {
        lemma_find_key_sound(m.drop_first(), k);
    }
}

proof fn lemma_find_key_none(m: Seq<DictEntryV>, k: Seq<char>)
    requires
        forall|j: int| 0 <= j < m.len() ==> (#[trigger] m[j]).key != k,
    ensures
        find_key(m, k) is None,
    decreases m.len(),
{
    if m.len() > 0 {
        lemma_find_key_none(m.drop_first(), k);
    }
}

/// Adds the entry's patterns (trimmed, duplicates dropped without regard
/// to ASCII case) to the current ones.
fn add_patterns_exec(cur: &mut Vec<String>, incoming: &Vec<String>)
    ensures
        final(cur)@.map_values(|p: String| p@) == add_patterns(
            old(cur)@.map_values(|p: String| p@),
            incoming@,
            incoming@.len() as int,
        ),
{
    let n = incoming.len();
    let mut j: usize = 0;
    while j < n
        invariant
            j <= n,
            n == incoming@.len(),
            cur@.map_values(|p: String| p@) == add_patterns(
                old(cur)@.map_values(|p: String| p@),
                incoming@,
                j as int,
            ),
        decreases n - j,
    {
        let t = trim_string(incoming[j].as_str());
        if t.unicode_len() > 0 {
            let mut seen = false;
            let cn = cur.len();
            let mut k: usize = 0;
            let ghost pats = cur@.map_values(|p: String| p@);
            while k < cn
                invariant
                    k <= cn,
                    cn == cur@.len(),
                    pats == cur@.map_values(|p: String| p@),
                    !seen ==> forall|x: int|
                        0 <= x < k ==> !eq_ignore_ascii_case_spec(#[trigger] pats[x], t@),
                    seen ==> ci_contains(pats, t@),
                decreases cn - k,
            {
                let a = chars_of(cur[k].as_str());
                let b = chars_of(t.as_str());
                if eq_ignore_case_chars(&a, &b) {
                    proof {
                        assert(eq_ignore_ascii_case_spec(pats[k as int], t@));
                    }
                    seen = true;
                }
                k = k + 1;
            }
            proof {
                if !seen {
                    if ci_contains(pats, t@) {
                        let x = choose|x: int|
                            0 <= x < pats.len() && eq_ignore_ascii_case_spec(
                                #[trigger] pats[x],
                                t@,
                            );
                        assert(!eq_ignore_ascii_case_spec(pats[x], t@));
                    }
                }
            }
            if !seen {
                cur.push(t);
            }
        }
        j = j + 1;
        proof {
            assert(cur@.map_values(|p: String| p@) =~= add_patterns(
                old(cur)@.map_values(|p: String| p@),
                incoming@,
                j as int,
            ));
        }
    }
}

/// Merges the dictionary's entries by role, deduplicates their patterns,
/// and yields the roles sorted by name with sorted patterns; a blank role
/// name is an error, and an empty result falls back to the built-in
/// dictionary.
pub fn normalize_dictionary(dictionary: ColumnDictionary) -> (r: Result<ColumnDictionary, String>)
    ensures
        has_blank_type(dictionary.columns@) ==> r is Err && r.unwrap_err()@
            == "列タイプ名は必須です"@,
        !has_blank_type(dictionary.columns@) ==> r is Ok && ({
            let m = merge_upto(dictionary.columns@, dictionary.columns@.len() as int);
            let d = r.unwrap();
            &&& (m.len() == 0 ==> is_default_dictionary(d))
            &&& (m.len() > 0 ==> {
                &&& d.columns@.len() == m.len()
                &&& sorted_entries(d.columns@)
                &&& d.columns@.map_values(|e: ColumnDictionaryEntry| e.column_type@).to_multiset()
                    == m.map_values(|v: DictEntryV| v.key).to_multiset()
                &&& forall|i: int| #![trigger d.columns@[i]]
                    0 <= i < d.columns@.len() ==> matched(d.columns@[i], m)
            })
        }),
{
    let ghost cols = dictionary.columns@;
    let mut merged: Vec<ColumnDictionaryEntry> = Vec::new();
    let n = dictionary.columns.len();
    let mut i: usize = 0;
    while i < n
        invariant
            i <= n,
            n == cols.len(),
            dictionary.columns@ == cols,
            forall|j: int| 0 <= j < i ==> !is_blank((#[trigger] cols[j]).column_type@),
            merged@.len() == merge_upto(cols, i as int).len(),
            forall|j: int|
                0 <= j < merged@.len() ==> entry_matches_raw(
                    #[trigger] merged@[j],
                    merge_upto(cols, i as int)[j],
                ),
        decreases n - i,
    {
        let ghost m = merge_upto(cols, i as int);
        let entry = &dictionary.columns[i];
        let trimmed = trim_string(entry.column_type.as_str());
        if trimmed.unicode_len() == 0 {
            proof {
                lemma_blank_trim(cols[i as int].column_type@);
                assert(has_blank_type(cols));
            }
            return Err("列タイプ名は必須です".to_owned());
        }
        proof {
            lemma_blank_trim(cols[i as int].column_type@);
        }
        let key = lowercase_ascii(trimmed.as_str());
        proof {
            assert(key@ == dict_key(cols[i as int].column_type@));
            assert forall|j: int| 0 <= j < m.len() implies (#[trigger] merged@[j]).column_type@
                == m[j].key by {
                assert(entry_matches_raw(merged@[j], m[j]));
            }
        }
        let display: Option<String> = match &entry.display_name {
            Some(name) => {
                let t = trim_string(name.as_str());
                if t.unicode_len() > 0 {
                    Some(t)
                } else {
                    None
                }
            },
            None => None,
        };
        match merged_find(&merged, &key, Ghost(m)) {
            Some(idx) => {
                let ghost target = m[idx as int];
                let mut updated = ColumnDictionaryEntry {
                    column_type: merged[idx].column_type.clone(),
                    display_name: match display {
                        Some(d) => Some(d),
                        None => match &merged[idx].display_name {
                            Some(d) => Some(d.clone()),
                            None => None,
                        },
                    },
                    patterns: crate::text::clone_strings(&merged[idx].patterns),
                };
                add_patterns_exec(&mut updated.patterns, &entry.patterns);
                proof {
                    lemma_find_key_sound(m, key@);
                    assert(entry_matches_raw(merged@[idx as int], target));
                    assert(entry_matches_raw(updated, merge_one(m, cols[i as int])[idx as int]));
                }
                let ghost mprev = merged@;
                merged.set(idx, updated);
                proof {
                    assert(merged@ == mprev.update(idx as int, updated));
                    assert forall|j: int|
                        0 <= j < merged@.len() implies entry_matches_raw(
                        #[trigger] merged@[j],
                        merge_upto(cols, i + 1)[j],
                    ) by {
                        assert(merge_upto(cols, i + 1) == merge_one(m, cols[i as int]));
                        if j != idx {
                            assert(merged@[j] == mprev[j]);
                            assert(merge_one(m, cols[i as int])[j] == m[j]);
                        }
                    }
                }
            },
            None => {
                let patterns0: Vec<String> = Vec::new();
                proof {
                    assert(patterns0@.map_values(|p: String| p@) =~= Seq::<Seq<char>>::empty());
                }
                let mut patterns = patterns0;
                add_patterns_exec(&mut patterns, &entry.patterns);
                let fresh = ColumnDictionaryEntry {
                    column_type: key,
                    display_name: display,
                    patterns,
                };
                proof {
                    assert(entry_matches_raw(
                        fresh,
                        merge_one(m, cols[i as int])[m.len() as int],
                    ));
                }
                merged.push(fresh);
                proof {
                    assert forall|j: int|
                        0 <= j < merged@.len() implies entry_matches_raw(
                        #[trigger] merged@[j],
                        merge_upto(cols, i + 1)[j],
                    ) by {
                        assert(merge_upto(cols, i + 1) == merge_one(m, cols[i as int]));
                    }
                }
            },
        }
        i = i + 1;
    }
    proof {
        assert(!has_blank_type(cols)) by {
            if has_blank_type(cols) {
                let w = choose|w: int|
                    0 <= w < cols.len() && is_blank((#[trigger] cols[w]).column_type@);
                assert(!is_blank(cols[w].column_type@));
            }
        }
    }
    let ghost m = merge_upto(cols, n as int);

    if merged.len() == 0 {
        return Ok(default_column_dictionary());
    }

    // sort each entry's patterns, then the entries by role name
    let mut columns: Vec<ColumnDictionaryEntry> = Vec::new();
    let mn = merged.len();
    let mut k: usize = 0;
    while k < mn
        invariant
            k <= mn,
            mn == merged@.len(),
            mn == m.len(),
            columns@.len() == k,
            forall|j: int| 0 <= j < m.len() ==> entry_matches_raw(#[trigger] merged@[j], m[j]),
            sorted_entries(columns@),
            columns@.map_values(|e: ColumnDictionaryEntry| e.column_type@).to_multiset()
                == m.map_values(|v: DictEntryV| v.key).take(k as int).to_multiset(),
            forall|x: int| #![trigger columns@[x]]
                0 <= x < columns@.len() ==> matched(columns@[x], m),
        decreases mn - k,
    {
        let ghost keys = m.map_values(|v: DictEntryV| v.key);
        proof {
            assert(keys.take(k + 1) =~= keys.take(k as int).push(keys[k as int]));
        }
        let entry = &merged[k];
        let sorted_pats = sort_strings(crate::text::clone_strings(&entry.patterns));
        let new_entry = ColumnDictionaryEntry {
            column_type: entry.column_type.clone(),
            display_name: match &entry.display_name {
                Some(d) => Some(d.clone()),
                None => None,
            },
            patterns: sorted_pats,
        };
        proof {
            assert(entry_matches_raw(merged@[k as int], m[k as int]));
            assert(entry_matches(new_entry, m[k as int]));
        }
        proof {
            assert(new_entry.column_type@ == keys[k as int]) by {
                assert(keys[k as int] == m[k as int].key);
            }
        }
        let ghost before = columns@;
        insert_entry_sorted(&mut columns, new_entry);
        proof {
            assert(columns@.to_multiset() == before.to_multiset().insert(new_entry));
            assert(columns@.map_values(|e: ColumnDictionaryEntry| e.column_type@).to_multiset()
                =~= keys.take(k + 1).to_multiset());
            assert forall|x: int| #![trigger columns@[x]]
                0 <= x < columns@.len() implies matched(columns@[x], m) by {
                assert(columns@.to_multiset().contains(columns@[x]));
                if columns@[x] == new_entry {
                    assert(entry_matches(new_entry, m[k as int]));
                    assert(matched(new_entry, m));
                } else {
                    assert(before.to_multiset().contains(columns@[x]));
                    assert(before.contains(columns@[x]));
                    let y = choose|y: int| 0 <= y < before.len() && #[trigger] before[y]
                        == columns@[x];
                    assert(matched(before[y], m));
                }
            }
        }
        k = k + 1;
    }
    proof {
        assert(m.map_values(|v: DictEntryV| v.key).take(mn as int) =~= m.map_values(
            |v: DictEntryV| v.key,
        ));
    }
    Ok(ColumnDictionary { columns })
}

/// The raw (pre-sort) correspondence between a built entry and a merged one.
pub open spec fn entry_matches_raw(e: ColumnDictionaryEntry, v: DictEntryV) -> bool {
    &&& e.column_type@ == v.key
    &&& (match e.display_name {
        Some(d) => v.display == Some(d@),
        None => v.display is None,
    })
    &&& e.patterns@.map_values(|p: String| p@) == v.patterns
}

} // verus!
