//! Dataset validation: flags blank keys, duplicate part numbers, and
//! identifiers with characters outside the allowed sets.

use vstd::prelude::*;

use crate::text::char_is_alphanumeric;
use crate::text::chars_of;
use crate::text::is_blank;
use crate::text::is_blank_str;
use crate::text::unicode_alphanumeric;
use crate::types::BomData;
use crate::types::BomRow;
use crate::types::ValidationError;
use crate::types::ValidationResult;

verus! {

/// The view of one validation error.
pub ghost struct VErr {
    pub row_number: int,
    pub field: Seq<char>,
    pub message: Seq<char>,
}

pub open spec fn verr_v(e: ValidationError) -> VErr {
    VErr { row_number: e.row_number as int, field: e.field@, message: e.message@ }
}

/// A valid part number: letters, numbers, hyphen, underscore.
pub open spec fn part_chars_ok(s: Seq<char>) -> bool {
    forall|i: int|
        0 <= i < s.len() ==> unicode_alphanumeric(#[trigger] s[i]) || s[i] == '-' || s[i] == '_'
}

/// A valid model number: letters, numbers, hyphen, underscore, period.
pub open spec fn model_chars_ok(s: Seq<char>) -> bool {
    forall|i: int|
        0 <= i < s.len() ==> unicode_alphanumeric(#[trigger] s[i]) || s[i] == '-' || s[i] == '_'
            || s[i] == '.'
}

/// How many records carry this part number.
pub open spec fn part_count(rows: Seq<BomRow>, k: Seq<char>) -> int
    decreases rows.len(),
{
    if rows.len() == 0 {
        0
    } else {
        part_count(rows.drop_last(), k) + if rows.last().part_number@ == k {
            1int
        } else {
            0
        }
    }
}

/// The duplicate-key message for a part number.
pub open spec fn dup_message(part: Seq<char>) -> Seq<char> {
    "部品番号 '"@ + part + "' が重複しています"@
}

/// The errors one record contributes, in check order: blank part number,
/// blank model number, duplicate part number, part-number character set,
/// model-number character set.
pub open spec fn errors_of_row(rows: Seq<BomRow>, i: int) -> Seq<VErr> {
    let row = rows[i];
    let num = i + 1;
    let e1: Seq<VErr> = if is_blank(row.part_number@) {
        seq![VErr { row_number: num, field: "部品番号"@, message: "部品番号は必須です"@ }]
    } else {
        Seq::empty()
    };
    let e2: Seq<VErr> = if is_blank(row.model_number@) {
        seq![VErr { row_number: num, field: "型番"@, message: "型番は必須です"@ }]
    } else {
        Seq::empty()
    };
    let e3: Seq<VErr> = if part_count(rows, row.part_number@) > 1 {
        seq![
            VErr {
                row_number: num,
                field: "部品番号"@,
                message: dup_message(row.part_number@),
            },
        ]
    } else {
        Seq::empty()
    };
    let e4: Seq<VErr> = if !part_chars_ok(row.part_number@) {
        seq![
            VErr {
                row_number: num,
                field: "部品番号"@,
                message: "部品番号は英数字、ハイフン、アンダースコアのみ使用できます"@,
            },
        ]
    } else {
        Seq::empty()
    };
    let e5: Seq<VErr> = if !model_chars_ok(row.model_number@) {
        seq![
            VErr {
                row_number: num,
                field: "型番"@,
                message: "型番は英数字、ハイフン、アンダースコア、ピリオドのみ使用できます"@,
            },
        ]
    } else {
        Seq::empty()
    };
    e1 + e2 + e3 + e4 + e5
}

/// All errors of the first `j` records, in record order.
pub open spec fn errors_upto(rows: Seq<BomRow>, j: int) -> Seq<VErr>
    decreases j,
{
    if j <= 0 {
        Seq::empty()
    } else {
        errors_upto(rows, j - 1) + errors_of_row(rows, j - 1)
    }
}

fn part_chars_ok_exec(s: &String) -> (r: bool)
    ensures
        r == part_chars_ok(s@),
{
    let v = chars_of(s.as_str());
    let n = v.len();
    let mut i: usize = 0;
    while i < n
        invariant
            i <= n,
            n == v@.len(),
            v@ == s@,
            forall|j: int|
                0 <= j < i ==> unicode_alphanumeric(#[trigger] s@[j]) || s@[j] == '-' || s@[j]
                    == '_',
        decreases n - i,
    {
        let c = v[i];
        if !(char_is_alphanumeric(c) || c == '-' || c == '_') {
            return false;
        }
        i = i + 1;
    }
    true
}

fn model_chars_ok_exec(s: &String) -> (r: bool)
    ensures
        r == model_chars_ok(s@),
{
    let v = chars_of(s.as_str());
    let n = v.len();
    let mut i: usize = 0;
    while i < n
        invariant
            i <= n,
            n == v@.len(),
            v@ == s@,
            forall|j: int|
                0 <= j < i ==> unicode_alphanumeric(#[trigger] s@[j]) || s@[j] == '-' || s@[j]
                    == '_' || s@[j] == '.',
        decreases n - i,
    {
        let c = v[i];
        if !(char_is_alphanumeric(c) || c == '-' || c == '_' || c == '.') {
            return false;
        }
        i = i + 1;
    }
    true
}

fn count_part(rows: &Vec<BomRow>, key: &String) -> (r: usize)
    ensures
        r == part_count(rows@, key@),
        r <= rows@.len(),
{
    let n = rows.len();
    let mut count: usize = 0;
    let mut i: usize = 0;
    while i < n
        invariant
            i <= n,
            n == rows@.len(),
            count == part_count(rows@.take(i as int), key@),
            count <= i,
        decreases n - i,
    {
        proof {
            assert(rows@.take(i + 1).drop_last() =~= rows@.take(i as int));
            assert(rows@.take(i + 1).last() == rows@[i as int]);
        }
        if rows[i].part_number == *key {
            count = count + 1;
        }
        i = i + 1;
    }
    proof {
        assert(rows@.take(n as int) =~= rows@);
    }
    count
}

/// Checks every record and reports one error per failed check: blank or
/// duplicate part numbers, blank model numbers, and identifiers outside
/// the allowed character sets. Valid exactly when no error is found.
pub fn validate_bom_data(bom_data: &BomData) -> (r: ValidationResult)
    ensures
        r.errors@.map_values(|e: ValidationError| verr_v(e)) == errors_upto(
            bom_data.rows@,
            bom_data.rows@.len() as int,
        ),
        r.is_valid == (r.errors@.len() == 0),
{
    broadcast use Seq::lemma_push_map_commute;

    let rows = &bom_data.rows;
    let n = rows.len();
    let mut errors: Vec<ValidationError> = Vec::new();
    let mut i: usize = 0;
    while i < n
        invariant
            i <= n,
            n == rows@.len(),
            rows@ == bom_data.rows@,
            errors@.map_values(|e: ValidationError| verr_v(e)) == errors_upto(rows@, i as int),
        decreases n - i,
    {
        let row = &rows[i];
        let row_number = i + 1;
        let ghost before = errors@.map_values(|e: ValidationError| verr_v(e));
        if is_blank_str(row.part_number.as_str()) {
            errors.push(
                ValidationError {
                    row_number,
                    field: "部品番号".to_owned(),
                    message: "部品番号は必須です".to_owned(),
                },
            );
        }
        if is_blank_str(row.model_number.as_str()) {
            errors.push(
                ValidationError {
                    row_number,
                    field: "型番".to_owned(),
                    message: "型番は必須です".to_owned(),
                },
            );
        }
        let dup = count_part(rows, &row.part_number);
        if dup > 1 {
            let mut message: String = "部品番号 '".to_owned();
            message.append(row.part_number.as_str());
            message.append("' が重複しています");
            errors.push(
                ValidationError { row_number, field: "部品番号".to_owned(), message },
            );
        }
        if !part_chars_ok_exec(&row.part_number) {
            errors.push(
                ValidationError {
                    row_number,
                    field: "部品番号".to_owned(),
                    message: "部品番号は英数字、ハイフン、アンダースコアのみ使用できます".to_owned(),
                },
            );
        }
        if !model_chars_ok_exec(&row.model_number) {
            errors.push(
                ValidationError {
                    row_number,
                    field: "型番".to_owned(),
                    message: "型番は英数字、ハイフン、アンダースコア、ピリオドのみ使用できます".to_owned(),
                },
            );
        }
        i = i + 1;
        proof {
            assert(errors@.map_values(|e: ValidationError| verr_v(e)) =~= errors_upto(
                rows@,
                i as int,
            ));
        }
    }
    let is_valid = errors.len() == 0;
    ValidationResult { is_valid, errors }
}

} // verus!
