//! The column inference engine: scores every unclaimed column against each
//! role's dictionary synonyms (header text first, sampled values second,
//! plus a uniqueness bonus for the part-number role) and proposes a
//! role-to-column mapping. Purely advisory; the caller may override it.

use vstd::prelude::*;

use crate::dictionary::role_patterns;
use crate::text::chars_of;
use crate::text::char_is_alphabetic;
use crate::text::contains_chars;
use crate::text::contains_seq;
use crate::text::is_blank;
use crate::text::is_space_char;
use crate::text::is_space_char_exec;
use crate::text::lower_char;
use crate::text::lower_char_exec;
use crate::text::string_from_chars;
use crate::text::trim_spec;
use crate::text::trim_chars;
use crate::text::unicode_alphabetic;
use crate::types::ColumnDictionary;
use crate::types::ColumnMapping;

verus! {

broadcast use {vstd::seq_lib::group_filter_ensures, Seq::lemma_filter_push,
    Seq::lemma_push_map_commute};

// ---------------------------------------------------------------------------
// Token normalization
// ---------------------------------------------------------------------------

/// The matching form of a token: whitespace removed, ASCII lower case.
pub open spec fn norm_token(s: Seq<char>) -> Seq<char> {
    s.filter(|c: char| !is_space_char(c)).map_values(|c: char| lower_char(c))
}

/// The matching form of a token, as characters.
pub(crate) fn norm_chars(value: &str) -> (r: Vec<char>)
    ensures
        r@ == norm_token(value@),
{
    let v = chars_of(value);
    let mut kept: Vec<char> = Vec::new();
    let n = v.len();
    let mut i: usize = 0;
    while i < n
        invariant
            i <= n,
            n == v@.len(),
            kept@ == v@.take(i as int).filter(|c: char| !is_space_char(c)),
        decreases n - i,
    {
        proof {
            assert(v@.take(i + 1) =~= v@.take(i as int).push(v@[i as int]));
            v@.take(i as int).lemma_filter_push(v@[i as int], |c: char| !is_space_char(c));
        }
        let c = v[i];
        if !is_space_char_exec(c) {
            kept.push(c);
        }
        i = i + 1;
    }
    proof {
        assert(v@.take(n as int) =~= v@);
    }
    let m = kept.len();
    let mut out: Vec<char> = Vec::new();
    let mut j: usize = 0;
    while j < m
        invariant
            j <= m,
            m == kept@.len(),
            out@ == kept@.take(j as int).map_values(|c: char| lower_char(c)),
        decreases m - j,
    {
        out.push(lower_char_exec(kept[j]));
        j = j + 1;
        proof {
            assert(out@ =~= kept@.take(j as int).map_values(|c: char| lower_char(c)));
        }
    }
    proof {
        assert(kept@.take(m as int) =~= kept@);
    }
    out
}

/// Normalizes a token for matching: strips whitespace, lowers ASCII case.
pub fn normalize_token(value: &str) -> (r: String)
    ensures
        r@ == norm_token(value@),
{
    let v = norm_chars(value);
    string_from_chars(&v)
}

// ---------------------------------------------------------------------------
// Per-column sample statistics
// ---------------------------------------------------------------------------

/// The raw text of the sampled cell, when the row has that column.
pub open spec fn cell_at(rows: Seq<Vec<String>>, i: int, col: int) -> Option<Seq<char>> {
    if 0 <= i < rows.len() && 0 <= col < rows[i]@.len() {
        Some(rows[i]@[col]@)
    } else {
        None
    }
}

/// How many of the first `i` sampled rows have a non-empty normalized
/// value in the column.
pub open spec fn count_nonempty_upto(rows: Seq<Vec<String>>, col: int, i: int) -> int
    decreases i,
{
    if i <= 0 {
        0
    } else {
        count_nonempty_upto(rows, col, i - 1) + match cell_at(rows, i - 1, col) {
            Some(s) => if norm_token(s).len() > 0 {
                1int
            } else {
                0
            },
            None => 0,
        }
    }
}

/// How many of those also contain the pattern as a substring.
pub open spec fn count_matching_upto(
    rows: Seq<Vec<String>>,
    col: int,
    pat: Seq<char>,
    i: int,
) -> int
    decreases i,
{
    if i <= 0 {
        0
    } else {
        count_matching_upto(rows, col, pat, i - 1) + match cell_at(rows, i - 1, col) {
            Some(s) => if norm_token(s).len() > 0 && contains_seq(norm_token(s), pat) {
                1int
            } else {
                0
            },
            None => 0,
        }
    }
}

/// Counts, over the sampled rows, the cells of the column whose normalized
/// value is non-empty, and among them those containing the pattern.
pub fn count_pattern_matches(col_idx: usize, rows: &Vec<Vec<String>>, pattern: &Vec<char>) -> (r: (
    usize,
    usize,
))
    ensures
        r.0 == count_matching_upto(rows@, col_idx as int, pattern@, rows@.len() as int),
        r.1 == count_nonempty_upto(rows@, col_idx as int, rows@.len() as int),
        r.0 <= r.1 <= rows@.len(),
{
    let n = rows.len();
    let mut matches: usize = 0;
    let mut total: usize = 0;
    let mut i: usize = 0;
    while i < n
        invariant
            i <= n,
            n == rows@.len(),
            matches == count_matching_upto(rows@, col_idx as int, pattern@, i as int),
            total == count_nonempty_upto(rows@, col_idx as int, i as int),
            matches <= total <= i,
        decreases n - i,
    {
        if col_idx < rows[i].len() {
            let normalized = norm_chars(rows[i][col_idx].as_str());
            proof {
                assert(cell_at(rows@, i as int, col_idx as int) == Some(
                    rows@[i as int]@[col_idx as int]@,
                ));
            }
            if normalized.len() > 0 {
                total = total + 1;
                if contains_chars(&normalized, pattern) {
                    matches = matches + 1;
                }
            }
        } else {
            proof {
                assert(cell_at(rows@, i as int, col_idx as int) is None);
            }
        }
        i = i + 1;
    }
    (matches, total)
}

/// The non-empty normalized values of the column, over the first `i` rows.
pub open spec fn col_values_upto(rows: Seq<Vec<String>>, col: int, i: int) -> Seq<Seq<char>>
    decreases i,
{
    if i <= 0 {
        Seq::empty()
    } else {
        let rest = col_values_upto(rows, col, i - 1);
        match cell_at(rows, i - 1, col) {
            Some(s) => if norm_token(s).len() > 0 {
                rest.push(norm_token(s))
            } else {
                rest
            },
            None => rest,
        }
    }
}

/// The distinct values of a sequence, in first-occurrence order.
pub open spec fn distinct_vals(s: Seq<Seq<char>>) -> Seq<Seq<char>>
    decreases s.len(),
{
    if s.len() == 0 {
        Seq::empty()
    } else {
        let rest = distinct_vals(s.drop_last());
        if rest.contains(s.last()) {
            rest
        } else {
            rest.push(s.last())
        }
    }
}

/// The uniqueness bonus of a column, scaled by one million: 0.3 times the
/// ratio of distinct to total non-empty sampled values; 0 with no values.
pub open spec fn uniqueness_scaled(rows: Seq<Vec<String>>, col: int) -> int {
    let total = count_nonempty_upto(rows, col, rows.len() as int);
    let distinct = distinct_vals(col_values_upto(rows, col, rows.len() as int)).len() as int;
    if total == 0 {
        0
    } else {
        3 * 1000000 * distinct / (10 * total)
    }
}

fn chars_eq(a: &Vec<char>, b: &Vec<char>) -> (r: bool)
    ensures
        r == (a@ == b@),
{
    if a.len() != b.len() {
        return false;
    }
    let n = a.len();
    let mut i: usize = 0;
    while i < n
        invariant
            i <= n,
            n == a@.len(),
            n == b@.len(),
            forall|j: int| 0 <= j < i ==> a@[j] == b@[j],
        decreases n - i,
    {
        if a[i] != b[i] {
            return false;
        }
        i = i + 1;
    }
    proof {
        assert(a@ =~= b@);
    }
    true
}

fn seen_contains(seen: &Vec<Vec<char>>, v: &Vec<char>) -> (r: bool)
    ensures
        r == seen@.map_values(|x: Vec<char>| x@).contains(v@),
{
    let n = seen.len();
    let mut i: usize = 0;
    while i < n
        invariant
            i <= n,
            n == seen@.len(),
            forall|j: int| 0 <= j < i ==> #[trigger] seen@[j]@ != v@,
        decreases n - i,
    {
        if chars_eq(&seen[i], v) {
            proof {
                assert(seen@.map_values(|x: Vec<char>| x@)[i as int] == v@);
            }
            return true;
        }
        i = i + 1;
    }
    proof {
        let m = seen@.map_values(|x: Vec<char>| x@);
        if m.contains(v@) {
            let j = choose|j: int| 0 <= j < n && #[trigger] m[j] == v@;
            assert(seen@[j]@ == v@);
        }
    }
    false
}

/// The uniqueness bonus of a column, scaled by one million.
pub fn compute_uniqueness_ratio(col_idx: usize, rows: &Vec<Vec<String>>) -> (u: u64)
    ensures
        u as int == uniqueness_scaled(rows@, col_idx as int),
{
    let n = rows.len();
    let mut seen: Vec<Vec<char>> = Vec::new();
    let mut total: usize = 0;
    let mut i: usize = 0;
    while i < n
        invariant
            i <= n,
            n == rows@.len(),
            total == count_nonempty_upto(rows@, col_idx as int, i as int),
            seen@.map_values(|x: Vec<char>| x@) == distinct_vals(
                col_values_upto(rows@, col_idx as int, i as int),
            ),
            seen@.len() <= total <= i,
        decreases n - i,
    {
        if col_idx < rows[i].len() {
            let normalized = norm_chars(rows[i][col_idx].as_str());
            proof {
                assert(cell_at(rows@, i as int, col_idx as int) == Some(
                    rows@[i as int]@[col_idx as int]@,
                ));
            }
            if normalized.len() > 0 {
                total = total + 1;
                let ghost vals = col_values_upto(rows@, col_idx as int, i as int);
                proof {
                    assert(col_values_upto(rows@, col_idx as int, i + 1) == vals.push(
                        normalized@,
                    ));
                    assert(vals.push(normalized@).drop_last() =~= vals);
                }
                if !seen_contains(&seen, &normalized) {
                    seen.push(normalized);
                    proof {
                        assert(seen@.map_values(|x: Vec<char>| x@) =~= distinct_vals(
                            col_values_upto(rows@, col_idx as int, i + 1),
                        ));
                    }
                }
            }
        } else {
            proof {
                assert(cell_at(rows@, i as int, col_idx as int) is None);
            }
        }
        i = i + 1;
    }
    if total == 0 {
        return 0;
    }
    let distinct = seen.len();
    let scaled: u128 = (3 * 1000000 * (distinct as u128)) / (10 * (total as u128));
    proof {
        assert(scaled as int == 3 * 1000000 * (distinct as int) / (10 * (total as int)));
        assert(scaled as int <= 300000) by (nonlinear_arith)
            requires
                scaled as int == 3 * 1000000 * (distinct as int) / (10 * (total as int)),
                0 <= (distinct as int) <= (total as int),
                (total as int) > 0,
        ;
    }
    scaled as u64
}

// ---------------------------------------------------------------------------
// Scoring
// ---------------------------------------------------------------------------

/// The normalized header text of a column; empty when the header row is
/// too short.
pub open spec fn header_norm(headers: Seq<String>, col: int) -> Seq<char> {
    if 0 <= col < headers.len() {
        norm_token(headers[col]@)
    } else {
        Seq::empty()
    }
}

/// Whether a synonym matches the header text: substring containment in
/// either direction.
pub open spec fn header_match(h: Seq<char>, pat: Seq<char>) -> bool {
    contains_seq(h, pat) || contains_seq(pat, h)
}

/// How many of the first `t` synonyms match the header.
pub open spec fn header_hits_upto(pats: Seq<Seq<char>>, h: Seq<char>, t: int) -> int
    decreases t,
{
    if t <= 0 {
        0
    } else {
        header_hits_upto(pats, h, t - 1) + if header_match(h, pats[t - 1]) {
            1int
        } else {
            0
        }
    }
}

/// The value ratio of one synonym against the sampled column, scaled by
/// one million: the fraction of non-empty values containing it.
pub open spec fn value_ratio(rows: Seq<Vec<String>>, col: int, pat: Seq<char>) -> int {
    let total = count_nonempty_upto(rows, col, rows.len() as int);
    if total == 0 {
        0
    } else {
        count_matching_upto(rows, col, pat, rows.len() as int) * 1000000 / total
    }
}

/// The summed value ratios of the first `t` synonyms that do not match
/// the header.
pub open spec fn ratio_sum_upto(
    rows: Seq<Vec<String>>,
    col: int,
    pats: Seq<Seq<char>>,
    h: Seq<char>,
    t: int,
) -> int
    decreases t,
{
    if t <= 0 {
        0
    } else {
        ratio_sum_upto(rows, col, pats, h, t - 1) + if header_match(h, pats[t - 1]) {
            0int
        } else {
            value_ratio(rows, col, pats[t - 1])
        }
    }
}

/// The score of a column for a role, scaled by one million: header
/// matches weigh 2, value ratios weigh 1, both averaged over the
/// synonyms; the part-number role adds the uniqueness bonus (weight 0.3).
pub open spec fn score_of(
    headers: Seq<String>,
    rows: Seq<Vec<String>>,
    pats: Seq<Seq<char>>,
    col: int,
    is_part: bool,
) -> int {
    let h = header_norm(headers, col);
    let base = if pats.len() > 0 {
        (2 * 1000000 * header_hits_upto(pats, h, pats.len() as int) + ratio_sum_upto(
            rows,
            col,
            pats,
            h,
            pats.len() as int,
        )) / pats.len() as int
    } else {
        0
    };
    base + if is_part {
        uniqueness_scaled(rows, col)
    } else {
        0
    }
}

/// Whether a column index is already claimed by an earlier role.
pub open spec fn is_used(used: Seq<usize>, j: int) -> bool {
    exists|x: int| 0 <= x < used.len() && used[x] as int == j
}

fn used_contains(used: &Vec<usize>, j: usize) -> (r: bool)
    ensures
        r == is_used(used@, j as int),
{
    let n = used.len();
    let mut i: usize = 0;
    while i < n
        invariant
            i <= n,
            n == used@.len(),
            forall|x: int| 0 <= x < i ==> used@[x] != j,
        decreases n - i,
    {
        if used[i] == j {
            return true;
        }
        i = i + 1;
    }
    proof {
        if is_used(used@, j as int) {
            let x = choose|x: int| 0 <= x < used@.len() && used@[x] as int == j as int;
            assert(used@[x] != j);
        }
    }
    false
}

/// The winning column of a role: unclaimed, strictly positive score, no
/// unclaimed column scores higher, no earlier unclaimed column scores as
/// high (first-seen ties win).
pub open spec fn is_best(
    headers: Seq<String>,
    rows: Seq<Vec<String>>,
    pats: Seq<Seq<char>>,
    used: Seq<usize>,
    is_part: bool,
    max_columns: int,
    idx: int,
    s: int,
) -> bool {
    &&& 0 <= idx < max_columns
    &&& !is_used(used, idx)
    &&& s == score_of(headers, rows, pats, idx, is_part)
    &&& s > 0
    &&& forall|j: int|
        0 <= j < max_columns && !is_used(used, j) ==> score_of(headers, rows, pats, j, is_part)
            <= s
    &&& forall|j: int|
        0 <= j < idx && !is_used(used, j) ==> score_of(headers, rows, pats, j, is_part) < s
}

/// No unclaimed column scores positive for the role.
pub open spec fn no_positive(
    headers: Seq<String>,
    rows: Seq<Vec<String>>,
    pats: Seq<Seq<char>>,
    used: Seq<usize>,
    is_part: bool,
    max_columns: int,
) -> bool {
    forall|j: int|
        0 <= j < max_columns && !is_used(used, j) ==> score_of(headers, rows, pats, j, is_part)
            <= 0
}

/// The synonyms a role is matched with: the dictionary's patterns for the
/// role, each normalized, empty ones dropped.
pub open spec fn norm_patterns(
    cols: Seq<crate::types::ColumnDictionaryEntry>,
    ct: Seq<char>,
) -> Seq<Seq<char>> {
    role_patterns(cols, ct).map_values(|p: Seq<char>| norm_token(p)).filter(
        |p: Seq<char>| p.len() > 0,
    )
}

/// Computes the score of one column for a role, scaled by one million.
fn score_column(
    headers: &Vec<String>,
    rows: &Vec<Vec<String>>,
    pats: &Vec<Vec<char>>,
    col: usize,
    is_part: bool,
) -> (s: u64)
    ensures
        s as int == score_of(
            headers@,
            rows@,
            pats@.map_values(|p: Vec<char>| p@),
            col as int,
            is_part,
        ),
{
    let ghost pv = pats@.map_values(|p: Vec<char>| p@);
    let hn: Vec<char> = if col < headers.len() {
        norm_chars(headers[col].as_str())
    } else {
        Vec::new()
    };
    proof {
        assert(hn@ == header_norm(headers@, col as int));
    }
    let np = pats.len();
    let mut hits: usize = 0;
    let mut ratio_sum: u128 = 0;
    let mut t: usize = 0;
    while t < np
        invariant
            t <= np,
            np == pats@.len(),
            pv == pats@.map_values(|p: Vec<char>| p@),
            hn@ == header_norm(headers@, col as int),
            hits == header_hits_upto(pv, hn@, t as int),
            hits <= t,
            ratio_sum == ratio_sum_upto(rows@, col as int, pv, hn@, t as int),
            ratio_sum <= 1000000 * t,
        decreases np - t,
    {
        proof {
            assert(pv[t as int] == pats@[t as int]@);
        }
        let pat = &pats[t];
        if contains_chars(&hn, pat) || contains_chars(pat, &hn) {
            hits = hits + 1;
        } else {
            let mt = count_pattern_matches(col, rows, pat);
            let matches = mt.0;
            let total = mt.1;
            if total > 0 {
                let ratio: u128 = ((matches as u128) * 1000000) / (total as u128);
                proof {
                    assert(ratio as int == (matches as int) * 1000000 / (total as int));
                    assert(ratio as int == value_ratio(rows@, col as int, pv[t as int]));
                    assert(ratio as int <= 1000000) by (nonlinear_arith)
                        requires
                            ratio as int == (matches as int) * 1000000 / (total as int),
                            0 < (total as int),
                            0 <= (matches as int) <= (total as int),
                    ;
                }
                ratio_sum = ratio_sum + ratio;
            }
        }
        t = t + 1;
    }
    let base: u64 = if np > 0 {
        let numer: u128 = 2 * 1000000 * (hits as u128) + ratio_sum;
        let b: u128 = numer / (np as u128);
        proof {
            assert(0 <= (numer as int) <= 3 * 1000000 * (np as int)) by (nonlinear_arith)
                requires
                    numer as int == 2 * 1000000 * (hits as int) + (ratio_sum as int),
                    0 <= (hits as int) <= (np as int),
                    0 <= (ratio_sum as int) <= 1000000 * (np as int),
            ;
            assert(b as int == (numer as int) / (np as int));
            assert(b as int <= 3 * 1000000) by (nonlinear_arith)
                requires
                    b as int == (numer as int) / (np as int),
                    0 <= (numer as int) <= 3 * 1000000 * (np as int),
                    (np as int) > 0,
            ;
            assert(b as int == (2 * 1000000 * header_hits_upto(pv, hn@, np as int) + ratio_sum_upto(
                rows@,
                col as int,
                pv,
                hn@,
                np as int,
            )) / (np as int));
        }
        b as u64
    } else {
        0
    };
    let uniq: u64 = if is_part {
        compute_uniqueness_ratio(col, rows)
    } else {
        0
    };
    proof {
        assert(uniq <= 300000) by {
            if is_part {
                let total = count_nonempty_upto(rows@, col as int, rows@.len() as int);
                let distinct = distinct_vals(
                    col_values_upto(rows@, col as int, rows@.len() as int),
                ).len() as int;
                if total != 0 {
                    lemma_distinct_le_total(rows@, col as int);
                    assert(3 * 1000000 * distinct / (10 * total) <= 300000) by (nonlinear_arith)
                        requires
                            0 <= distinct <= total,
                            total > 0,
                    ;
                }
            }
        }
    }
    base + uniq
}

/// The distinct values of a column are no more than its values.
proof fn lemma_distinct_le_total(rows: Seq<Vec<String>>, col: int)
    ensures
        distinct_vals(col_values_upto(rows, col, rows.len() as int)).len() <= count_nonempty_upto(
            rows,
            col,
            rows.len() as int,
        ),
{
    lemma_col_values_len(rows, col, rows.len() as int);
    lemma_distinct_len(col_values_upto(rows, col, rows.len() as int));
}

proof fn lemma_col_values_len(rows: Seq<Vec<String>>, col: int, i: int)
    ensures
        col_values_upto(rows, col, i).len() == count_nonempty_upto(rows, col, i),
    decreases i,
{
    if i > 0 {
        lemma_col_values_len(rows, col, i - 1);
    }
}

proof fn lemma_distinct_len(s: Seq<Seq<char>>)
    ensures
        distinct_vals(s).len() <= s.len(),
    decreases s.len(),
{
    if s.len() > 0 {
        lemma_distinct_len(s.drop_last());
    }
}

/// Scores every unclaimed column for the role and yields the best one:
/// the first strictly-positive maximum, with its scaled score.
pub fn choose_column_from_dictionary(
    column_type: &str,
    headers: &Vec<String>,
    rows: &Vec<Vec<String>>,
    dictionary: &ColumnDictionary,
    used: &Vec<usize>,
    max_columns: usize,
) -> (r: Option<(usize, u64)>)
    ensures
        ({
            let pats = norm_patterns(dictionary.columns@, column_type@);
            let is_part = column_type@ == "part_number"@;
            match r {
                Some((idx, s)) => is_best(
                    headers@,
                    rows@,
                    pats,
                    used@,
                    is_part,
                    max_columns as int,
                    idx as int,
                    s as int,
                ),
                None => no_positive(headers@, rows@, pats, used@, is_part, max_columns as int),
            }
        }),
{
    let ghost pv = norm_patterns(dictionary.columns@, column_type@);
    let raw_pats = dictionary.patterns_for(column_type);
    let mut pats: Vec<Vec<char>> = Vec::new();
    let nrp = raw_pats.len();
    let mut x: usize = 0;
    while x < nrp
        invariant
            x <= nrp,
            nrp == raw_pats@.len(),
            raw_pats@.map_values(|p: String| p@) == role_patterns(
                dictionary.columns@,
                column_type@,
            ),
            pats@.map_values(|p: Vec<char>| p@) == raw_pats@.take(x as int).map_values(
                |p: String| p@,
            ).map_values(|p: Seq<char>| norm_token(p)).filter(|p: Seq<char>| p.len() > 0),
        decreases nrp - x,
    {
        proof {
            let f = |p: String| p@;
            let g = |p: Seq<char>| norm_token(p);
            let h = |p: Seq<char>| p.len() > 0;
            assert(raw_pats@.take(x + 1) =~= raw_pats@.take(x as int).push(raw_pats@[x as int]));
            assert(raw_pats@.take(x + 1).map_values(f).map_values(g) =~= raw_pats@.take(
                x as int,
            ).map_values(f).map_values(g).push(norm_token(raw_pats@[x as int]@)));
            raw_pats@.take(x as int).map_values(f).map_values(g).lemma_filter_push(
                norm_token(raw_pats@[x as int]@),
                h,
            );
        }
        let nt = norm_chars(raw_pats[x].as_str());
        if nt.len() > 0 {
            pats.push(nt);
        }
        x = x + 1;
        proof {
            assert(pats@.map_values(|p: Vec<char>| p@) =~= raw_pats@.take(x as int).map_values(
                |p: String| p@,
            ).map_values(|p: Seq<char>| norm_token(p)).filter(|p: Seq<char>| p.len() > 0));
        }
    }
    proof {
        assert(raw_pats@.take(nrp as int) =~= raw_pats@);
        assert(role_patterns(dictionary.columns@, column_type@).map_values(
            |p: Seq<char>| norm_token(p),
        ) =~= raw_pats@.map_values(|p: String| p@).map_values(|p: Seq<char>| norm_token(p)));
        assert(pats@.map_values(|p: Vec<char>| p@) == pv);
    }

    let is_part = crate::text::str_eq(column_type, "part_number");
    proof {
        if is_part {
            assert(column_type@ == "part_number"@);
        }
    }

    let mut best: Option<(usize, u64)> = None;
    let mut idx: usize = 0;
    while idx < max_columns
        invariant
            idx <= max_columns,
            pv == norm_patterns(dictionary.columns@, column_type@),
            pats@.map_values(|p: Vec<char>| p@) == pv,
            is_part == (column_type@ == "part_number"@),
            match best {
                Some((b, s)) => {
                    &&& (b as int) < (idx as int)
                    &&& !is_used(used@, b as int)
                    &&& s as int == score_of(headers@, rows@, pv, b as int, is_part)
                    &&& s > 0
                    &&& forall|j: int|
                        0 <= j < idx && !is_used(used@, j) ==> score_of(
                            headers@,
                            rows@,
                            pv,
                            j,
                            is_part,
                        ) <= s as int
                    &&& forall|j: int|
                        0 <= j < b && !is_used(used@, j) ==> score_of(
                            headers@,
                            rows@,
                            pv,
                            j,
                            is_part,
                        ) < s as int
                },
                None => forall|j: int|
                    0 <= j < idx && !is_used(used@, j) ==> score_of(headers@, rows@, pv, j, is_part)
                        <= 0,
            },
        decreases max_columns - idx,
    {
        if !used_contains(used, idx) {
            let score = score_column(headers, rows, &pats, idx, is_part);
            if score > 0 {
                match best {
                    Some((_b, bs)) => {
                        if score > bs {
                            best = Some((idx, score));
                        }
                    },
                    None => {
                        best = Some((idx, score));
                    },
                }
            }
        }
        idx = idx + 1;
    }
    best
}

// ---------------------------------------------------------------------------
// Fallback: the first text-like column
// ---------------------------------------------------------------------------

/// Whether the trimmed sampled value contains a Unicode letter.
pub open spec fn has_alpha(s: Seq<char>) -> bool {
    exists|i: int| 0 <= i < s.len() && unicode_alphabetic(#[trigger] s[i])
}

/// How many of the first `i` sampled rows have a non-blank raw value in
/// the column.
pub open spec fn text_total_upto(rows: Seq<Vec<String>>, col: int, i: int) -> int
    decreases i,
{
    if i <= 0 {
        0
    } else {
        text_total_upto(rows, col, i - 1) + match cell_at(rows, i - 1, col) {
            Some(s) => if !is_blank(s) {
                1int
            } else {
                0
            },
            None => 0,
        }
    }
}

/// How many of those contain a letter.
pub open spec fn text_alpha_upto(rows: Seq<Vec<String>>, col: int, i: int) -> int
    decreases i,
{
    if i <= 0 {
        0
    } else {
        text_alpha_upto(rows, col, i - 1) + match cell_at(rows, i - 1, col) {
            Some(s) => if !is_blank(s) && has_alpha(trim_spec(s)) {
                1int
            } else {
                0
            },
            None => 0,
        }
    }
}

/// A text-like column: it has non-blank sampled values and at least 30%
/// of them contain a letter.
pub open spec fn is_text_col(rows: Seq<Vec<String>>, col: int) -> bool {
    let total = text_total_upto(rows, col, rows.len() as int);
    let alpha = text_alpha_upto(rows, col, rows.len() as int);
    total > 0 && 10 * alpha >= 3 * total
}

fn any_alpha(v: &Vec<char>) -> (r: bool)
    ensures
        r == has_alpha(v@),
{
    let n = v.len();
    let mut i: usize = 0;
    while i < n
        invariant
            i <= n,
            n == v@.len(),
            forall|j: int| 0 <= j < i ==> !unicode_alphabetic(#[trigger] v@[j]),
        decreases n - i,
    {
        if char_is_alphabetic(v[i]) {
            return true;
        }
        i = i + 1;
    }
    false
}

fn is_text_col_exec(rows: &Vec<Vec<String>>, col: usize) -> (r: bool)
    ensures
        r == is_text_col(rows@, col as int),
{
    let n = rows.len();
    let mut total: usize = 0;
    let mut alpha: usize = 0;
    let mut i: usize = 0;
    while i < n
        invariant
            i <= n,
            n == rows@.len(),
            total == text_total_upto(rows@, col as int, i as int),
            alpha == text_alpha_upto(rows@, col as int, i as int),
            alpha <= total <= i,
        decreases n - i,
    {
        if col < rows[i].len() {
            let cell = chars_of(rows[i][col].as_str());
            proof {
                assert(cell_at(rows@, i as int, col as int) == Some(
                    rows@[i as int]@[col as int]@,
                ));
            }
            if !crate::text::is_blank_chars(&cell) {
                total = total + 1;
                let trimmed = trim_chars(&cell);
                if any_alpha(&trimmed) {
                    alpha = alpha + 1;
                }
            }
        } else {
            proof {
                assert(cell_at(rows@, i as int, col as int) is None);
            }
        }
        i = i + 1;
    }
    proof {
        assert(total as int <= rows@.len());
    }
    total > 0 && (10 * (alpha as u128)) >= (3 * (total as u128))
}

/// The fallback column for a required role: the first unclaimed text-like
/// column, else the first unclaimed column of any kind, else nothing.
pub fn find_text_column(max_columns: usize, rows: &Vec<Vec<String>>, used: &Vec<usize>) -> (r:
    Option<usize>)
    ensures
        match r {
            Some(idx) => idx < max_columns && !is_used(used@, idx as int) && ((is_text_col(
                rows@,
                idx as int,
            ) && forall|j: int|
                0 <= j < idx && !is_used(used@, j) ==> !is_text_col(rows@, j)) || ((forall|j: int|
                0 <= j < max_columns && !is_used(used@, j) ==> !is_text_col(rows@, j)) && forall|
                j: int,
            |
                0 <= j < idx ==> is_used(used@, j))),
            None => forall|j: int| 0 <= j < max_columns ==> is_used(used@, j),
        },
{
    let mut idx: usize = 0;
    while idx < max_columns
        invariant
            idx <= max_columns,
            forall|j: int|
                0 <= j < idx && !is_used(used@, j) ==> !is_text_col(rows@, j),
        decreases max_columns - idx,
    {
        if !used_contains(used, idx) {
            if is_text_col_exec(rows, idx) {
                return Some(idx);
            }
        }
        idx = idx + 1;
    }
    let mut idx2: usize = 0;
    while idx2 < max_columns
        invariant
            idx2 <= max_columns,
            forall|j: int|
                0 <= j < max_columns && !is_used(used@, j) ==> !is_text_col(rows@, j),
            forall|j: int| 0 <= j < idx2 ==> is_used(used@, j),
        decreases max_columns - idx2,
    {
        if !used_contains(used, idx2) {
            return Some(idx2);
        }
        idx2 = idx2 + 1;
    }
    None
}

// ---------------------------------------------------------------------------
// The mapping
// ---------------------------------------------------------------------------

/// The widest row of the raw sample, or the header count if larger.
pub open spec fn sample_max_columns(headers: Seq<String>, rows: Seq<Vec<String>>) -> int {
    let w = sample_width_upto(rows, rows.len() as int);
    if headers.len() >= w {
        headers.len() as int
    } else {
        w
    }
}

pub open spec fn sample_width_upto(rows: Seq<Vec<String>>, i: int) -> int
    decreases i,
{
    if i <= 0 {
        0
    } else {
        let rest = sample_width_upto(rows, i - 1);
        if rows[i - 1]@.len() > rest {
            rows[i - 1]@.len() as int
        } else {
            rest
        }
    }
}

/// What the part-number (or model-number) stage selects, given the columns
/// already claimed: a dictionary-scored winner, else the text fallback.
pub open spec fn stage_ok(
    headers: Seq<String>,
    rows: Seq<Vec<String>>,
    dict: Seq<crate::types::ColumnDictionaryEntry>,
    ct: Seq<char>,
    used: Seq<usize>,
    max_columns: int,
    idx: int,
) -> bool {
    let pats = norm_patterns(dict, ct);
    let is_part = ct == "part_number"@;
    ||| exists|s: int| is_best(headers, rows, pats, used, is_part, max_columns, idx, s)
    ||| (no_positive(headers, rows, pats, used, is_part, max_columns) && idx < max_columns
        && !is_used(used, idx) && ((is_text_col(rows, idx) && forall|j: int|
        0 <= j < idx && !is_used(used, j) ==> !is_text_col(rows, j)) || ((forall|j: int|
        0 <= j < max_columns && !is_used(used, j) ==> !is_text_col(rows, j)) && forall|j: int|
        0 <= j < idx ==> is_used(used, j))))
}

/// Guesses which column holds which role. The part number is chosen
/// first, then the model number among the remaining columns, then the
/// optional manufacturer; each stage takes the best dictionary match and
/// the required stages fall back to the first text-like column. An empty
/// sample yields nothing.
#[verifier::rlimit(60)]
pub fn detect_column_mapping(
    headers: &Vec<String>,
    rows: &Vec<Vec<String>>,
    dictionary: &ColumnDictionary,
) -> (r: Option<ColumnMapping>)
    ensures
        r is Some ==> sample_max_columns(headers@, rows@) > 0,
        r is Some ==> stage_ok(
            headers@,
            rows@,
            dictionary.columns@,
            "part_number"@,
            Seq::empty(),
            sample_max_columns(headers@, rows@),
            r.unwrap().part_number as int,
        ),
        r is Some ==> stage_ok(
            headers@,
            rows@,
            dictionary.columns@,
            "model_number"@,
            seq![r.unwrap().part_number],
            sample_max_columns(headers@, rows@),
            r.unwrap().model_number as int,
        ),
        r is Some ==> match r.unwrap().manufacturer {
            Some(mi) => exists|s: int|
                is_best(
                    headers@,
                    rows@,
                    norm_patterns(dictionary.columns@, "manufacturer"@),
                    seq![r.unwrap().part_number, r.unwrap().model_number],
                    false,
                    sample_max_columns(headers@, rows@),
                    mi as int,
                    s,
                ),
            None => no_positive(
                headers@,
                rows@,
                norm_patterns(dictionary.columns@, "manufacturer"@),
                seq![r.unwrap().part_number, r.unwrap().model_number],
                false,
                sample_max_columns(headers@, rows@),
            ),
        },
        r is None ==> sample_max_columns(headers@, rows@) == 0 || sample_max_columns(
            headers@,
            rows@,
        ) == 1,
{
    let n = rows.len();
    let mut w: usize = 0;
    let mut i: usize = 0;
    while i < n
        invariant
            i <= n,
            n == rows@.len(),
            w == sample_width_upto(rows@, i as int),
        decreases n - i,
    {
        let rl = rows[i].len();
        if rl > w {
            w = rl;
        }
        i = i + 1;
    }
    let max_columns: usize = if headers.len() >= w {
        headers.len()
    } else {
        w
    };
    proof {
        assert(max_columns as int == sample_max_columns(headers@, rows@));
    }
    if max_columns == 0 {
        return None;
    }

    let used0: Vec<usize> = Vec::new();
    proof {
        assert(used0@ =~= Seq::<usize>::empty());
    }
    let part_idx: usize = match choose_column_from_dictionary(
        "part_number",
        headers,
        rows,
        dictionary,
        &used0,
        max_columns,
    ) {
        Some((idx, _s)) => idx,
        None => {
            match find_text_column(max_columns, rows, &used0) {
                Some(idx) => idx,
                None => {
                    proof {
                        assert(is_used(used0@, 0) == false);
                    }
                    return None;
                },
            }
        },
    };
    let mut used1: Vec<usize> = Vec::new();
    used1.push(part_idx);
    proof {
        assert(used1@ =~= seq![part_idx]);
    }
    let model_idx: usize = match choose_column_from_dictionary(
        "model_number",
        headers,
        rows,
        dictionary,
        &used1,
        max_columns,
    ) {
        Some((idx, _s)) => idx,
        None => {
            match find_text_column(max_columns, rows, &used1) {
                Some(idx) => idx,
                None => {
                    proof {
                        // every column below max_columns is claimed by the
                        // single entry of used1, so there is at most one
                        assert(is_used(used1@, 0int) ==> used1@[0] as int == 0);
                        if max_columns >= 2 {
                            let j: int = if part_idx == 0 {
                                1
                            } else {
                                0
                            };
                            assert(!is_used(used1@, j));
                        }
                    }
                    return None;
                },
            }
        },
    };
    let mut used2: Vec<usize> = Vec::new();
    used2.push(part_idx);
    used2.push(model_idx);
    proof {
        assert(used2@ =~= seq![part_idx, model_idx]);
    }
    proof {
        reveal_strlit("manufacturer");
        reveal_strlit("part_number");
        assert("manufacturer"@.len() != "part_number"@.len());
    }
    let manufacturer: Option<usize> = match choose_column_from_dictionary(
        "manufacturer",
        headers,
        rows,
        dictionary,
        &used2,
        max_columns,
    ) {
        Some((idx, s)) => {
            proof {
                assert(is_best(
                    headers@,
                    rows@,
                    norm_patterns(dictionary.columns@, "manufacturer"@),
                    seq![part_idx, model_idx],
                    false,
                    max_columns as int,
                    idx as int,
                    s as int,
                ));
                assert(exists|s2: int|
                    is_best(
                        headers@,
                        rows@,
                        norm_patterns(dictionary.columns@, "manufacturer"@),
                        seq![part_idx, model_idx],
                        false,
                        max_columns as int,
                        idx as int,
                        s2,
                    ));
            }
            Some(idx)
        },
        None => {
            proof {
                assert(no_positive(
                    headers@,
                    rows@,
                    norm_patterns(dictionary.columns@, "manufacturer"@),
                    seq![part_idx, model_idx],
                    false,
                    max_columns as int,
                ));
            }
            None
        },
    };
    let r_val = ColumnMapping { part_number: part_idx, model_number: model_idx, manufacturer };
    proof {
        assert(max_columns as int == sample_max_columns(headers@, rows@));
        assert(r_val.part_number == part_idx && r_val.model_number == model_idx);
        assert(r_val.manufacturer == manufacturer);
        if manufacturer is Some {
            let mi = manufacturer.unwrap();
            assert(exists|s: int|
                is_best(
                    headers@,
                    rows@,
                    norm_patterns(dictionary.columns@, "manufacturer"@),
                    seq![part_idx, model_idx],
                    false,
                    max_columns as int,
                    mi as int,
                    s,
                ));
        } else {
            assert(no_positive(
                headers@,
                rows@,
                norm_patterns(dictionary.columns@, "manufacturer"@),
                seq![part_idx, model_idx],
                false,
                max_columns as int,
            ));
        }
        assert(match r_val.manufacturer {
            Some(mi) => exists|s: int|
                is_best(
                    headers@,
                    rows@,
                    norm_patterns(dictionary.columns@, "manufacturer"@),
                    seq![r_val.part_number, r_val.model_number],
                    false,
                    sample_max_columns(headers@, rows@),
                    mi as int,
                    s,
                ),
            None => no_positive(
                headers@,
                rows@,
                norm_patterns(dictionary.columns@, "manufacturer"@),
                seq![r_val.part_number, r_val.model_number],
                false,
                sample_max_columns(headers@, rows@),
            ),
        });
    }
    Some(r_val)
}

} // verus!
