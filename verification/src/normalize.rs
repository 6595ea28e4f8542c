//! The normalizer: canonicalizes free-text identifiers.
//!
//! `standardize_string` folds full-width digits and letters to half width,
//! turns newlines into spaces, removes spaces, and upper-cases ASCII
//! letters; it is total and idempotent. `expand_ranges` recognizes the
//! numeric range grammar `prefixN-M` and expands it into the individual
//! identifiers.

use vstd::prelude::*;

use crate::text::chars_of;
use crate::text::dec_chars;
use crate::text::dec_of;
use crate::text::digits_val;
use crate::text::fold_char;
use crate::text::fold_char_exec;
use crate::text::is_digit_char;
use crate::text::is_digit_char_exec;
use crate::text::string_from_chars;
use crate::text::trailing_digits;
use crate::text::upper_char;
use crate::text::upper_char_exec;

verus! {

// ---------------------------------------------------------------------------
// standardize
// ---------------------------------------------------------------------------

/// Characters that standardization removes: the space itself and the two
/// newline characters, which are first turned into spaces.
pub open spec fn is_removed_char(c: char) -> bool {
    c == ' ' || c == '\n' || c == '\r'
}

/// The canonical form of a kept character: full-width folding, then ASCII
/// upper-casing.
pub open spec fn canon_char(c: char) -> char {
    upper_char(fold_char(c))
}

/// What `standardize_string` computes: spaces and newlines disappear,
/// every other character is folded to half width and upper-cased.
pub open spec fn standardize_spec(s: Seq<char>) -> Seq<char>
    decreases s.len(),
{
    if s.len() == 0 {
        Seq::empty()
    } else {
        let rest = standardize_spec(s.drop_last());
        if is_removed_char(s.last()) {
            rest
        } else {
            rest.push(canon_char(s.last()))
        }
    }
}

/// A canonical character is never removed and is its own canonical form.
proof fn lemma_canon_char_fixed(c: char)
    requires
        !is_removed_char(c),
    ensures
        !is_removed_char(canon_char(c)),
        canon_char(canon_char(c)) == canon_char(c),
{
}

/// Standardization is idempotent: applying it to an already standardized
/// sequence changes nothing.
pub proof fn lemma_standardize_idempotent(s: Seq<char>)
    ensures
        standardize_spec(standardize_spec(s)) == standardize_spec(s),
    decreases s.len(),
{
    if s.len() == 0 {
    } else {
        let rest = standardize_spec(s.drop_last());
        lemma_standardize_idempotent(s.drop_last());
        if is_removed_char(s.last()) {
        } else {
            let c = canon_char(s.last());
            lemma_canon_char_fixed(s.last());
            let t = rest.push(c);
            assert(t.drop_last() =~= rest);
            assert(t.last() == c);
            assert(standardize_spec(t) == standardize_spec(rest).push(canon_char(c)));
        }
    }
}

/// Canonicalizes an identifier: folds full-width digits and Latin letters
/// to half width, replaces newlines by spaces, removes all spaces, and
/// upper-cases ASCII letters. Total: unmapped characters pass through.
pub fn standardize_string(input: &str) -> (r: String)
    ensures
        r@ == standardize_spec(input@),
{
    let v = chars_of(input);
    let mut out: Vec<char> = Vec::new();
    let n = v.len();
    let mut i: usize = 0;
    while i < n
        invariant
            i <= n,
            n == v@.len(),
            out@ == standardize_spec(v@.subrange(0, i as int)),
        decreases n - i,
    {
        let c = v[i];
        proof {
            assert(v@.subrange(0, i + 1).drop_last() =~= v@.subrange(0, i as int));
            assert(v@.subrange(0, i + 1).last() == v@[i as int]);
        }
        if c == ' ' || c == '\n' || c == '\r' {
        } else {
            out.push(upper_char_exec(fold_char_exec(c)));
        }
        i = i + 1;
    }
    proof {
        assert(v@.subrange(0, n as int) =~= v@);
    }
    string_from_chars(&out)
}

// ---------------------------------------------------------------------------
// width folding and parenthesis stripping
// ---------------------------------------------------------------------------

/// Folds full-width digits and Latin letters to half width; nothing else
/// changes (no case folding, no whitespace removal).
pub fn fullwidth_to_halfwidth(input: &str) -> (r: String)
    ensures
        r@ == input@.map_values(|c: char| fold_char(c)),
{
    let v = chars_of(input);
    let mut out: Vec<char> = Vec::new();
    let n = v.len();
    let mut i: usize = 0;
    while i < n
        invariant
            i <= n,
            n == v@.len(),
            out@ == v@.subrange(0, i as int).map_values(|c: char| fold_char(c)),
        decreases n - i,
    {
        out.push(fold_char_exec(v[i]));
        i = i + 1;
        proof {
            assert(out@ =~= v@.subrange(0, i as int).map_values(|c: char| fold_char(c)));
        }
    }
    proof {
        assert(v@.subrange(0, n as int) =~= v@);
    }
    string_from_chars(&out)
}

/// Upper-cases ASCII letters; every other character passes through.
pub fn uppercase_ascii(input: &str) -> (r: String)
    ensures
        r@ == input@.map_values(|c: char| upper_char(c)),
{
    let v = chars_of(input);
    let mut out: Vec<char> = Vec::new();
    let n = v.len();
    let mut i: usize = 0;
    while i < n
        invariant
            i <= n,
            n == v@.len(),
            out@ == v@.subrange(0, i as int).map_values(|c: char| upper_char(c)),
        decreases n - i,
    {
        out.push(upper_char_exec(v[i]));
        i = i + 1;
        proof {
            assert(out@ =~= v@.subrange(0, i as int).map_values(|c: char| upper_char(c)));
        }
    }
    proof {
        assert(v@.subrange(0, n as int) =~= v@);
    }
    string_from_chars(&out)
}

/// Removes every literal `(` and `)`.
pub fn remove_parentheses(input: &str) -> (r: String)
    ensures
        r@ == input@.filter(|c: char| c != '(' && c != ')'),
{
    broadcast use vstd::seq_lib::group_filter_ensures;

    let v = chars_of(input);
    let mut out: Vec<char> = Vec::new();
    let n = v.len();
    let mut i: usize = 0;
    while i < n
        invariant
            i <= n,
            n == v@.len(),
            out@ == v@.subrange(0, i as int).filter(|c: char| c != '(' && c != ')'),
        decreases n - i,
    {
        let c = v[i];
        proof {
            assert(v@.subrange(0, i + 1).drop_last() =~= v@.subrange(0, i as int));
            assert(v@.subrange(0, i + 1).last() == v@[i as int]);
            reveal(Seq::filter);
        }
        if c != '(' && c != ')' {
            out.push(c);
        }
        i = i + 1;
    }
    proof {
        assert(v@.subrange(0, n as int) =~= v@);
    }
    string_from_chars(&out)
}

// ---------------------------------------------------------------------------
// rule application
// ---------------------------------------------------------------------------

/// The string rules, in their fixed order: parenthesis removal, then
/// width folding, then case folding. Each applies only when enabled.
pub open spec fn apply_rules_spec(s: Seq<char>, rules: crate::types::PreprocessRules) -> Seq<
    char,
> {
    let s1 = if rules.remove_parentheses {
        s.filter(|c: char| c != '(' && c != ')')
    } else {
        s
    };
    let s2 = if rules.fullwidth_to_halfwidth {
        s1.map_values(|c: char| fold_char(c))
    } else {
        s1
    };
    if rules.lowercase_to_uppercase {
        s2.map_values(|c: char| upper_char(c))
    } else {
        s2
    }
}

/// Applies the enabled string rules to one value.
pub fn apply_string_rules(value: &str, rules: &crate::types::PreprocessRules) -> (r: String)
    ensures
        r@ == apply_rules_spec(value@, *rules),
{
    let mut result: String = value.to_owned();
    if rules.remove_parentheses {
        result = remove_parentheses(result.as_str());
    }
    if rules.fullwidth_to_halfwidth {
        result = fullwidth_to_halfwidth(result.as_str());
    }
    if rules.lowercase_to_uppercase {
        result = uppercase_ascii(result.as_str());
    }
    result
}

// ---------------------------------------------------------------------------
// numeric range expansion
// ---------------------------------------------------------------------------

/// Index of the first occurrence of `c` in `s`, if any.
pub open spec fn find_char(s: Seq<char>, c: char) -> Option<int>
    decreases s.len(),
{
    if s.len() == 0 {
        None
    } else if s[0] == c {
        Some(0)
    } else {
        match find_char(s.drop_first(), c) {
            None => None,
            Some(i) => Some(i + 1),
        }
    }
}

proof fn lemma_find_char_at(s: Seq<char>, c: char, i: int)
    requires
        0 <= i < s.len(),
        s[i] == c,
        forall|j: int| 0 <= j < i ==> s[j] != c,
    ensures
        find_char(s, c) == Some(i),
    decreases s.len(),
{
    if s[0] == c {
    } else {
        lemma_find_char_at(s.drop_first(), c, i - 1);
    }
}

proof fn lemma_find_char_none(s: Seq<char>, c: char)
    requires
        forall|j: int| 0 <= j < s.len() ==> s[j] != c,
    ensures
        find_char(s, c) is None,
    decreases s.len(),
{
    if s.len() > 0 {
        lemma_find_char_none(s.drop_first(), c);
    }
}

/// The value of extracting the trailing decimal number of `s`:
/// `Some` exactly when `s` ends in at least one ASCII digit and the digit
/// run's value fits in a `u32`.
pub open spec fn extract_spec(s: Seq<char>) -> Option<u32> {
    let d = trailing_digits(s);
    if d.len() > 0 && digits_val(d) <= u32::MAX {
        Some(digits_val(d) as u32)
    } else {
        None
    }
}

proof fn lemma_trailing_digits_chars(s: Seq<char>, k: int)
    requires
        0 <= k <= s.len(),
        forall|j: int| k <= j < s.len() ==> is_digit_char(#[trigger] s[j]),
        k > 0 ==> !is_digit_char(s[k - 1]),
    ensures
        trailing_digits(s) == s.skip(k),
    decreases s.len(),
{
    if k == s.len() {
        if s.len() > 0 {
            assert(!is_digit_char(s.last()));
        }
        assert(trailing_digits(s) =~= s.skip(k));
    } else {
        assert(is_digit_char(s.last()));
        lemma_trailing_digits_chars(s.drop_last(), k);
        assert(trailing_digits(s) == s.drop_last().skip(k).push(s.last()));
        assert(s.drop_last().skip(k).push(s.last()) =~= s.skip(k));
    }
}

proof fn lemma_digits_val_take_le(t: Seq<char>, i: int)
    requires
        0 <= i <= t.len(),
    ensures
        digits_val(t.take(i)) <= digits_val(t),
    decreases t.len() - i,
{
    if i < t.len() {
        lemma_digits_val_take_le(t, i + 1);
        assert(t.take(i + 1).drop_last() =~= t.take(i));
        assert(digits_val(t.take(i + 1)) == digits_val(t.take(i)) * 10 + (if is_digit_char(
            t.take(i + 1).last(),
        ) {
            (t.take(i + 1).last() as u32 - 0x30) as nat
        } else {
            0
        }));
        assert(digits_val(t.take(i)) <= digits_val(t.take(i)) * 10) by (nonlinear_arith);
    } else {
        assert(t.take(i) =~= t);
    }
}

/// Parses the trailing run of ASCII digits of `input` as a `u32`; `None`
/// when there is no trailing digit or the value overflows.
pub(crate) fn extract_number(input: &str) -> (r: Option<u32>)
    ensures
        r == extract_spec(input@),
{
    let v = chars_of(input);
    extract_number_chars(&v)
}

pub(crate) fn extract_number_chars(v: &Vec<char>) -> (r: Option<u32>)
    ensures
        r == extract_spec(v@),
{
    let n = v.len();
    // find the start of the trailing digit run
    let mut k: usize = n;
    while k > 0 && is_digit_char_exec(v[k - 1])
        invariant
            k <= n,
            n == v@.len(),
            forall|j: int| k <= j < n ==> is_digit_char(#[trigger] v@[j]),
        decreases k,
    {
        k = k - 1;
    }
    proof {
        lemma_trailing_digits_chars(v@, k as int);
    }
    if k == n {
        proof {
            assert(trailing_digits(v@).len() == 0);
        }
        return None;
    }
    let ghost t = v@.skip(k as int);
    let mut acc: u64 = 0;
    let mut i: usize = k;
    while i < n
        invariant
            k <= i <= n,
            n == v@.len(),
            t == v@.skip(k as int),
            trailing_digits(v@) == t,
            forall|j: int| k <= j < n ==> is_digit_char(#[trigger] v@[j]),
            acc == digits_val(t.take(i - k)),
            acc <= u32::MAX,
        decreases n - i,
    {
        let c = v[i];
        let d = (c as u32) - 0x30;
        proof {
            assert(t.take(i - k + 1).drop_last() =~= t.take(i - k));
            assert(t.take(i - k + 1).last() == v@[i as int]);
        }
        let next: u64 = acc * 10 + (d as u64);
        if next > 0xFFFF_FFFF {
            proof {
                assert(digits_val(t.take(i - k + 1)) == next);
                lemma_digits_val_take_le(t, i - k + 1);
                assert(digits_val(t) > u32::MAX);
            }
            return None;
        }
        acc = next;
        i = i + 1;
    }
    proof {
        assert(t.take(n - k) =~= t);
        assert(trailing_digits(v@).len() > 0);
    }
    Some(acc as u32)
}

/// What `expand_ranges` yields on a part number: `Some` exactly when the
/// text has a `-`, both sides end in digit runs whose values fit a `u32`,
/// the left value is strictly below the right one, and the span is at
/// most 100. The expansion keeps the left side's non-digit prefix and
/// appends each number of the range in turn.
pub open spec fn range_expansion(s: Seq<char>) -> Option<Seq<Seq<char>>> {
    match find_char(s, '-') {
        None => None,
        Some(d) => {
            let prefix = s.take(d);
            let suffix = s.skip(d + 1);
            match (extract_spec(prefix), extract_spec(suffix)) {
                (Some(a), Some(b)) => {
                    if a < b && b - a <= 100 {
                        let base = prefix.take(prefix.len() - trailing_digits(prefix).len());
                        Some(Seq::new((b - a + 1) as nat, |i: int| base + dec_of((a + i) as nat)))
                    } else {
                        None
                    }
                },
                _ => None,
            }
        },
    }
}

fn find_dash(v: &Vec<char>) -> (r: Option<usize>)
    ensures
        match r {
            Some(d) => d < v@.len() && find_char(v@, '-') == Some(d as int),
            None => find_char(v@, '-') is None,
        },
{
    let n = v.len();
    let mut d: usize = 0;
    while d < n
        invariant
            d <= n,
            n == v@.len(),
            forall|j: int| 0 <= j < d ==> v@[j] != '-',
        decreases n - d,
    {
        if v[d] == '-' {
            proof {
                lemma_find_char_at(v@, '-', d as int);
            }
            return Some(d);
        }
        d = d + 1;
    }
    proof {
        lemma_find_char_none(v@, '-');
    }
    None
}

/// Expands a numeric range such as `C1-C3` into `C1, C2, C3`; any text
/// that does not match the range grammar yields `None`.
pub fn expand_ranges(input: &str) -> (r: Option<Vec<String>>)
    ensures
        match range_expansion(input@) {
            Some(parts) => r is Some && r.unwrap()@.map_values(|x: String| x@) == parts,
            None => r is None,
        },
{
    let v = chars_of(input);
    let n = v.len();
    let d: usize = match find_dash(&v) {
        Some(d) => d,
        None => {
            return None;
        },
    };
    // split at the dash
    let mut prefix: Vec<char> = Vec::new();
    let mut i: usize = 0;
    while i < d
        invariant
            i <= d <= n,
            n == v@.len(),
            prefix@ == v@.subrange(0, i as int),
        decreases d - i,
    {
        prefix.push(v[i]);
        i = i + 1;
        proof {
            assert(prefix@ =~= v@.subrange(0, i as int));
        }
    }
    let mut suffix: Vec<char> = Vec::new();
    let mut j: usize = d + 1;
    while j < n
        invariant
            d < j <= n || j == d + 1,
            d < n,
            n == v@.len(),
            suffix@ == v@.subrange(d + 1, j as int),
        decreases n - j,
    {
        suffix.push(v[j]);
        j = j + 1;
        proof {
            assert(suffix@ =~= v@.subrange(d + 1, j as int));
        }
    }
    proof {
        assert(prefix@ =~= v@.take(d as int));
        assert(suffix@ =~= v@.skip(d + 1));
    }
    let start_opt = extract_number_chars(&prefix);
    let end_opt = extract_number_chars(&suffix);
    let start: u32 = match start_opt {
        Some(x) => x,
        None => {
            return None;
        },
    };
    let end: u32 = match end_opt {
        Some(x) => x,
        None => {
            return None;
        },
    };
    if !(start < end && end - start <= 100) {
        return None;
    }
    // the base is the prefix with its trailing digits removed
    let mut b: usize = prefix.len();
    while b > 0 && is_digit_char_exec(prefix[b - 1])
        invariant
            b <= prefix@.len(),
            forall|j2: int| b <= j2 < prefix@.len() ==> is_digit_char(#[trigger] prefix@[j2]),
        decreases b,
    {
        b = b - 1;
    }
    proof {
        lemma_trailing_digits_chars(prefix@, b as int);
        assert(trailing_digits(prefix@).len() == prefix@.len() - b);
    }
    let mut base: Vec<char> = Vec::new();
    let mut i2: usize = 0;
    while i2 < b
        invariant
            i2 <= b <= prefix@.len(),
            base@ == prefix@.subrange(0, i2 as int),
        decreases b - i2,
    {
        base.push(prefix[i2]);
        i2 = i2 + 1;
        proof {
            assert(base@ =~= prefix@.subrange(0, i2 as int));
        }
    }
    proof {
        assert(base@ =~= prefix@.take(prefix@.len() - trailing_digits(prefix@).len()));
    }
    let ghost expected = range_expansion(v@).unwrap();
    let span: u32 = end - start;
    let count: u32 = span + 1;
    let mut out: Vec<String> = Vec::new();
    let mut off: u32 = 0;
    while off < count
        invariant
            off <= count,
            count == end - start + 1,
            start < end <= u32::MAX,
            base@ == prefix@.take(prefix@.len() - trailing_digits(prefix@).len()),
            expected == range_expansion(v@).unwrap(),
            range_expansion(v@) is Some,
            expected.len() == count,
            forall|x: int|
                0 <= x < expected.len() ==> expected[x] == base@ + dec_of((start + x) as nat),
            out@.len() == off,
            out@.map_values(|x: String| x@) == expected.take(off as int),
        decreases count - off,
    {
        let cur: u32 = start + off;
        let mut part = base.clone();
        let mut digits = dec_chars(cur as u64);
        part.append(&mut digits);
        let s = string_from_chars(&part);
        out.push(s);
        off = off + 1;
        proof {
            assert(out@.map_values(|x: String| x@) =~= expected.take(off as int));
        }
    }
    proof {
        assert(out@.map_values(|x: String| x@) =~= expected);
    }
    Some(out)
}

} // verus!
