//! Application settings normalization and session kinds.

use vstd::prelude::*;

use crate::text::is_blank;
use crate::text::lower_char;
use crate::text::trim_spec;
use crate::text::trim_string;
use crate::text::str_eq;
use crate::text::chars_of;
use crate::text::lower_char_exec;
use crate::text::string_from_chars;
use crate::types::AppSettings;
use crate::types::FormatRule;
use crate::types::SessionKind;

verus! {

broadcast use Seq::lemma_push_map_commute;

/// ASCII lower case of a whole sequence.
pub open spec fn lower_seq(s: Seq<char>) -> Seq<char> {
    s.map_values(|c: char| lower_char(c))
}

/// Lower-cases the ASCII letters of a string.
pub fn lowercase_ascii(input: &str) -> (r: String)
    ensures
        r@ == lower_seq(input@),
{
    let v = chars_of(input);
    let mut out: Vec<char> = Vec::new();
    let n = v.len();
    let mut i: usize = 0;
    while i < n
        invariant
            i <= n,
            n == v@.len(),
            out@ == v@.subrange(0, i as int).map_values(|c: char| lower_char(c)),
        decreases n - i,
    {
        out.push(lower_char_exec(v[i]));
        i = i + 1;
        proof {
            assert(out@ =~= v@.subrange(0, i as int).map_values(|c: char| lower_char(c)));
        }
    }
    proof {
        assert(v@.subrange(0, n as int) =~= v@);
    }
    string_from_chars(&out)
}

// ---------------------------------------------------------------------------
// Session kinds
// ---------------------------------------------------------------------------

impl SessionKind {
    /// The directory that stores snapshots of this kind.
    pub fn directory(&self) -> (r: &'static str)
        ensures
            *self == SessionKind::Auto ==> r@ == "../sessions/auto"@,
            *self == SessionKind::Manual ==> r@ == "../sessions/manual"@,
    {
        match self {
            SessionKind::Auto => "../sessions/auto",
            SessionKind::Manual => "../sessions/manual",
        }
    }
}

/// Parses a session kind, ignoring ASCII case; anything but `auto` and
/// `manual` is rejected.
pub fn parse_session_kind(kind: &str) -> (r: Result<SessionKind, String>)
    ensures
        lower_seq(kind@) == "auto"@ ==> r == Result::<SessionKind, String>::Ok(SessionKind::Auto),
        lower_seq(kind@) == "manual"@ ==> r == Result::<SessionKind, String>::Ok(
            SessionKind::Manual,
        ),
        lower_seq(kind@) != "auto"@ && lower_seq(kind@) != "manual"@ ==> r is Err
            && r.unwrap_err()@ == "不明なセッション種別です"@,
{
    proof {
        reveal_strlit("auto");
        reveal_strlit("manual");
        assert("auto"@.len() != "manual"@.len());
    }
    let lowered = lowercase_ascii(kind);
    if str_eq(lowered.as_str(), "auto") {
        Ok(SessionKind::Auto)
    } else if str_eq(lowered.as_str(), "manual") {
        Ok(SessionKind::Manual)
    } else {
        Err("不明なセッション種別です".to_owned())
    }
}

// ---------------------------------------------------------------------------
// Settings normalization
// ---------------------------------------------------------------------------

/// The recognized format-rule actions.
pub open spec fn is_settings_action(a: Seq<char>) -> bool {
    a == "copy_above"@ || a == "expand_range"@ || a == "replace_with"@ || a == "ignore"@
}

/// The trimmed makers with duplicates dropped, first occurrence kept,
/// over the first `j` makers.
pub open spec fn makers_upto(makers: Seq<String>, j: int) -> Seq<Seq<char>>
    decreases j,
{
    if j <= 0 {
        Seq::empty()
    } else {
        let rest = makers_upto(makers, j - 1);
        let t = trim_spec(makers[j - 1]@);
        if rest.contains(t) {
            rest
        } else {
            rest.push(t)
        }
    }
}

/// The normalized form of a rule: trimmed pattern, trimmed lower-cased
/// action.
pub open spec fn rule_v(r: FormatRule) -> (Seq<char>, Seq<char>) {
    (trim_spec(r.pattern@), lower_seq(trim_spec(r.action@)))
}

/// The normalized rules with duplicate pattern/action pairs dropped,
/// first occurrence kept, over the first `j` rules.
pub open spec fn rules_upto(rules: Seq<FormatRule>, j: int) -> Seq<(Seq<char>, Seq<char>)>
    decreases j,
{
    if j <= 0 {
        Seq::empty()
    } else {
        let rest = rules_upto(rules, j - 1);
        let rv = rule_v(rules[j - 1]);
        if rest.contains(rv) {
            rest
        } else {
            rest.push(rv)
        }
    }
}

/// Some maker trims to the empty string.
pub open spec fn has_blank_maker(makers: Seq<String>) -> bool {
    exists|i: int| 0 <= i < makers.len() && is_blank((#[trigger] makers[i])@)
}

/// Some rule carries an unrecognized action.
pub open spec fn has_bad_rule(rules: Seq<FormatRule>) -> bool {
    exists|i: int| 0 <= i < rules.len() && !is_settings_action(rule_v(#[trigger] rules[i]).1)
}

/// Normalizes the settings: makers are trimmed and deduplicated (an empty
/// maker is an error), rules get trimmed patterns and lower-cased actions
/// restricted to the recognized set, with duplicate pairs dropped.
pub fn normalize_settings(settings: AppSettings) -> (r: Result<AppSettings, String>)
    ensures
        has_blank_maker(settings.makers@) ==> r is Err && r.unwrap_err()@
            == "メーカー名に空の値は使用できません"@,
        !has_blank_maker(settings.makers@) && has_bad_rule(settings.format_rules@) ==> r is Err
            && exists|i: int|
            0 <= i < settings.format_rules@.len() && !is_settings_action(
                rule_v(#[trigger] settings.format_rules@[i]).1,
            ) && (forall|j: int|
                0 <= j < i ==> is_settings_action(rule_v(#[trigger] settings.format_rules@[j]).1))
                && r.unwrap_err()@ == "無効な処理方法です: "@ + rule_v(settings.format_rules@[i]).1,
        !has_blank_maker(settings.makers@) && !has_bad_rule(settings.format_rules@) ==> r is Ok && {
            let out = r.unwrap();
            &&& out.makers@.map_values(|s: String| s@) == makers_upto(
                settings.makers@,
                settings.makers@.len() as int,
            )
            &&& out.format_rules@.map_values(|x: FormatRule| (x.pattern@, x.action@)) == rules_upto(
                settings.format_rules@,
                settings.format_rules@.len() as int,
            )
        },
{
    let mut makers: Vec<String> = Vec::new();
    let nm = settings.makers.len();
    let mut i: usize = 0;
    while i < nm
        invariant
            i <= nm,
            nm == settings.makers@.len(),
            forall|j: int| 0 <= j < i ==> !is_blank((#[trigger] settings.makers@[j])@),
            makers@.map_values(|s: String| s@) == makers_upto(settings.makers@, i as int),
        decreases nm - i,
    {
        let trimmed = trim_string(settings.makers[i].as_str());
        if trimmed.unicode_len() == 0 {
            proof {
                crate::text::lemma_blank_trim(settings.makers@[i as int]@);
                assert(is_blank(settings.makers@[i as int]@));
                assert(has_blank_maker(settings.makers@));
            }
            return Err("メーカー名に空の値は使用できません".to_owned());
        }
        proof {
            crate::text::lemma_blank_trim(settings.makers@[i as int]@);
        }
        let mut dup = false;
        let ml = makers.len();
        let mut k: usize = 0;
        while k < ml
            invariant
                k <= ml,
                ml == makers@.len(),
                !dup ==> forall|x: int| 0 <= x < k ==> #[trigger] makers@[x]@ != trimmed@,
                dup ==> makers@.map_values(|s: String| s@).contains(trimmed@),
            decreases ml - k,
        {
            if makers[k] == trimmed {
                proof {
                    assert(makers@.map_values(|s: String| s@)[k as int] == trimmed@);
                }
                dup = true;
            }
            k = k + 1;
        }
        proof {
            if !dup {
                let m = makers@.map_values(|s: String| s@);
                if m.contains(trimmed@) {
                    let x = choose|x: int| 0 <= x < ml && #[trigger] m[x] == trimmed@;
                    assert(makers@[x]@ == trimmed@);
                }
            }
        }
        if !dup {
            makers.push(trimmed);
        }
        i = i + 1;
        proof {
            assert(makers@.map_values(|s: String| s@) =~= makers_upto(settings.makers@, i as int));
        }
    }

    let mut rules: Vec<FormatRule> = Vec::new();
    let nr = settings.format_rules.len();
    let mut i2: usize = 0;
    while i2 < nr
        invariant
            i2 <= nr,
            nr == settings.format_rules@.len(),
            nm == settings.makers@.len(),
            forall|j: int|
                0 <= j < i2 ==> is_settings_action(rule_v(#[trigger] settings.format_rules@[j]).1),
            forall|j: int| 0 <= j < nm ==> !is_blank((#[trigger] settings.makers@[j])@),
            makers@.map_values(|s: String| s@) == makers_upto(
                settings.makers@,
                settings.makers@.len() as int,
            ),
            rules@.map_values(|x: FormatRule| (x.pattern@, x.action@)) == rules_upto(
                settings.format_rules@,
                i2 as int,
            ),
        decreases nr - i2,
    {
        let pattern = trim_string(settings.format_rules[i2].pattern.as_str());
        let trimmed_action = trim_string(settings.format_rules[i2].action.as_str());
        let action = lowercase_ascii(trimmed_action.as_str());
        let ok = str_eq(action.as_str(), "copy_above") || str_eq(action.as_str(), "expand_range")
            || str_eq(action.as_str(), "replace_with") || str_eq(action.as_str(), "ignore");
        if !ok {
            let mut message: String = "無効な処理方法です: ".to_owned();
            message.append(action.as_str());
            proof {
                assert(!is_settings_action(rule_v(settings.format_rules@[i2 as int]).1));
                assert(has_bad_rule(settings.format_rules@));
                assert(!has_blank_maker(settings.makers@)) by {
                    if has_blank_maker(settings.makers@) {
                        let w = choose|w: int|
                            0 <= w < settings.makers@.len() && is_blank(
                                (#[trigger] settings.makers@[w])@,
                            );
                        assert(!is_blank(settings.makers@[w]@));
                    }
                }
            }
            return Err(message);
        }
        let mut dup = false;
        let rl = rules.len();
        let mut k: usize = 0;
        while k < rl
            invariant
                k <= rl,
                rl == rules@.len(),
                !dup ==> forall|x: int|
                    0 <= x < k ==> ((#[trigger] rules@[x]).pattern@, rules@[x].action@) != (
                        pattern@,
                        action@,
                    ),
                dup ==> rules@.map_values(|x: FormatRule| (x.pattern@, x.action@)).contains(
                    (pattern@, action@),
                ),
            decreases rl - k,
        {
            if rules[k].pattern == pattern && rules[k].action == action {
                proof {
                    assert(rules@.map_values(|x: FormatRule| (x.pattern@, x.action@))[k as int]
                        == (pattern@, action@));
                }
                dup = true;
            }
            k = k + 1;
        }
        proof {
            if !dup {
                let m = rules@.map_values(|x2: FormatRule| (x2.pattern@, x2.action@));
                if m.contains((pattern@, action@)) {
                    let x = choose|x: int| 0 <= x < rl && #[trigger] m[x] == (pattern@, action@);
                    assert((rules@[x].pattern@, rules@[x].action@) == (pattern@, action@));
                }
            }
        }
        if !dup {
            rules.push(FormatRule { pattern, action });
        }
        i2 = i2 + 1;
        proof {
            assert(rules@.map_values(|x: FormatRule| (x.pattern@, x.action@)) =~= rules_upto(
                settings.format_rules@,
                i2 as int,
            ));
        }
    }
    proof {
        assert(!has_blank_maker(settings.makers@)) by {
            if has_blank_maker(settings.makers@) {
                let w = choose|w: int|
                    0 <= w < settings.makers@.len() && is_blank((#[trigger] settings.makers@[w])@);
                assert(!is_blank(settings.makers@[w]@));
            }
        }
        assert(!has_bad_rule(settings.format_rules@)) by {
            if has_bad_rule(settings.format_rules@) {
                let w = choose|w: int|
                    0 <= w < settings.format_rules@.len() && !is_settings_action(
                        rule_v(#[trigger] settings.format_rules@[w]).1,
                    );
                assert(is_settings_action(rule_v(settings.format_rules@[w]).1));
            }
        }
    }
    Ok(AppSettings { makers, format_rules: rules })
}

} // verus!
