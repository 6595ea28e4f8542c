//! Pure result formatting: CSV grids and text reports for comparison and
//! synthesis results, the CSV form of a dataset, and the CAD export
//! formats. The surrounding application only writes these to disk.

use vstd::prelude::*;

use crate::text::dec_chars;
use crate::text::dec_of;
use crate::text::str_eq;
use crate::text::string_from_chars;
use crate::types::assoc_get;
use crate::types::attr_pairs;
use crate::types::BomData;
use crate::types::BomRow;
use crate::types::ComparisonResult;
use crate::types::ComparisonRow;
use crate::types::SynthesisResult;
use crate::types::SynthesisRow;

verus! {

broadcast use Seq::lemma_push_map_commute;

// ---------------------------------------------------------------------------
// Joining
// ---------------------------------------------------------------------------

/// The parts joined with the separator between them.
pub open spec fn join(parts: Seq<Seq<char>>, sep: Seq<char>) -> Seq<char>
    decreases parts.len(),
{
    if parts.len() == 0 {
        Seq::empty()
    } else if parts.len() == 1 {
        parts[0]
    } else {
        join(parts.drop_last(), sep) + sep + parts.last()
    }
}

/// Joins strings with a separator.
pub fn join_strings(parts: &Vec<String>, sep: &str) -> (r: String)
    ensures
        r@ == join(parts@.map_values(|s: String| s@), sep@),
{
    let ghost pv = parts@.map_values(|s: String| s@);
    let mut out = String::new();
    let n = parts.len();
    let mut i: usize = 0;
    while i < n
        invariant
            i <= n,
            n == parts@.len(),
            pv == parts@.map_values(|s: String| s@),
            out@ == join(pv.take(i as int), sep@),
        decreases n - i,
    {
        proof {
            assert(pv.take(i + 1).drop_last() =~= pv.take(i as int));
            assert(pv.take(i + 1).last() == pv[i as int]);
            assert(pv[i as int] == parts@[i as int]@);
            if i == 0 {
                assert(pv.take(1) =~= seq![pv[0]]);
            }
        }
        if i > 0 {
            out.append(sep);
        }
        out.append(parts[i].as_str());
        i = i + 1;
    }
    proof {
        assert(pv.take(n as int) =~= pv);
    }
    out
}

/// The decimal text of a count.
pub fn count_string(n: usize) -> (r: String)
    ensures
        r@ == dec_of(n as nat),
{
    let v = dec_chars(n as u64);
    string_from_chars(&v)
}

// ---------------------------------------------------------------------------
// Dataset as CSV
// ---------------------------------------------------------------------------

/// One attribute value of the row, by header name; empty when absent.
pub open spec fn attr_or_empty(row: BomRow, header: Seq<char>) -> Seq<char> {
    match assoc_get(attr_pairs(row.attributes@), header) {
        Some(v) => v,
        None => Seq::empty(),
    }
}

/// The CSV cells of one record: one attribute value per header.
pub open spec fn csv_cells(row: BomRow, headers: Seq<String>) -> Seq<Seq<char>> {
    Seq::new(headers.len(), |j: int| attr_or_empty(row, headers[j]@))
}

/// The CSV lines of the records, over the first `i` rows.
pub open spec fn csv_lines_upto(rows: Seq<BomRow>, headers: Seq<String>, i: int) -> Seq<char>
    decreases i,
{
    if i <= 0 {
        Seq::empty()
    } else {
        csv_lines_upto(rows, headers, i - 1) + join(csv_cells(rows[i - 1], headers), ","@) + "\n"@
    }
}

/// What `bom_data_to_csv` yields: the comma-joined headers, then one
/// comma-joined line of attribute values per record.
pub open spec fn bom_csv(bom: BomData) -> Seq<char> {
    join(bom.headers@.map_values(|s: String| s@), ","@) + "\n"@ + csv_lines_upto(
        bom.rows@,
        bom.headers@,
        bom.rows@.len() as int,
    )
}

/// Renders a dataset as CSV text: the headers, then one line of attribute
/// values per record, cells joined by commas.
pub fn bom_data_to_csv(bom_data: &BomData) -> (r: String)
    ensures
        r@ == bom_csv(*bom_data),
{
    let mut content = join_strings(&bom_data.headers, ",");
    crate::text::push_char(&mut content, '\n');
    proof {
        reveal_strlit("\n");
        assert(content@ =~= join(bom_data.headers@.map_values(|s: String| s@), ","@) + "\n"@);
    }
    let ghost prefix = content@;
    let n = bom_data.rows.len();
    let mut i: usize = 0;
    while i < n
        invariant
            i <= n,
            n == bom_data.rows@.len(),
            prefix == join(bom_data.headers@.map_values(|s: String| s@), ","@) + "\n"@,
            content@ == prefix + csv_lines_upto(bom_data.rows@, bom_data.headers@, i as int),
        decreases n - i,
    {
        let row = &bom_data.rows[i];
        let hn = bom_data.headers.len();
        let mut cells: Vec<String> = Vec::new();
        let mut j: usize = 0;
        while j < hn
            invariant
                j <= hn,
                hn == bom_data.headers@.len(),
                i < n,
                n == bom_data.rows@.len(),
                row == &bom_data.rows@[i as int],
                cells@.map_values(|s: String| s@) == csv_cells(
                    bom_data.rows@[i as int],
                    bom_data.headers@,
                ).take(j as int),
            decreases hn - j,
        {
            let v = match crate::types::attrs_get(&row.attributes, &bom_data.headers[j]) {
                Some(v) => v,
                None => String::new(),
            };
            proof {
                assert(v@ == attr_or_empty(bom_data.rows@[i as int], bom_data.headers@[j as int]@));
            }
            cells.push(v);
            j = j + 1;
            proof {
                assert(cells@.map_values(|s: String| s@) =~= csv_cells(
                    bom_data.rows@[i as int],
                    bom_data.headers@,
                ).take(j as int));
            }
        }
        proof {
            assert(csv_cells(bom_data.rows@[i as int], bom_data.headers@).take(hn as int)
                =~= csv_cells(bom_data.rows@[i as int], bom_data.headers@));
        }
        let line = join_strings(&cells, ",");
        content.append(line.as_str());
        crate::text::push_char(&mut content, '\n');
        i = i + 1;
        proof {
            reveal_strlit("\n");
            assert(content@ =~= prefix + csv_lines_upto(
                bom_data.rows@,
                bom_data.headers@,
                i as int,
            ));
        }
    }
    content
}

// ---------------------------------------------------------------------------
// Status and change-type labels
// ---------------------------------------------------------------------------

/// The display label of a comparison status; unknown statuses pass
/// through.
pub open spec fn comparison_status_label(s: Seq<char>) -> Seq<char> {
    if s == "common"@ {
        "共通部品"@
    } else if s == "a_only"@ {
        "Aのみ"@
    } else if s == "b_only"@ {
        "Bのみ"@
    } else if s == "modified"@ {
        "変更"@
    } else {
        s
    }
}

pub fn get_status_text(status: &str) -> (r: String)
    ensures
        r@ == comparison_status_label(status@),
{
    if str_eq(status, "common") {
        "共通部品".to_owned()
    } else if str_eq(status, "a_only") {
        "Aのみ".to_owned()
    } else if str_eq(status, "b_only") {
        "Bのみ".to_owned()
    } else if str_eq(status, "modified") {
        "変更".to_owned()
    } else {
        status.to_owned()
    }
}

/// The display label of a change type; unknown ones pass through.
pub open spec fn change_type_label(s: Seq<char>) -> Seq<char> {
    if s == "ADDED"@ {
        "追加"@
    } else if s == "REMOVED"@ {
        "削除"@
    } else if s == "MODIFIED"@ {
        "変更"@
    } else if s == "UNCHANGED"@ {
        "変更なし"@
    } else {
        s
    }
}

pub fn get_change_type_text(change_type: &str) -> (r: String)
    ensures
        r@ == change_type_label(change_type@),
{
    if str_eq(change_type, "ADDED") {
        "追加".to_owned()
    } else if str_eq(change_type, "REMOVED") {
        "削除".to_owned()
    } else if str_eq(change_type, "MODIFIED") {
        "変更".to_owned()
    } else if str_eq(change_type, "UNCHANGED") {
        "変更なし".to_owned()
    } else {
        change_type.to_owned()
    }
}

/// The display label of a synthesis status; unknown ones read as unknown.
pub open spec fn synthesis_status_label(s: Seq<char>) -> Seq<char> {
    if s == "common"@ {
        "共通"@
    } else if s == "missing_a"@ {
        "A欠品"@
    } else if s == "missing_b"@ {
        "B欠品"@
    } else {
        "不明"@
    }
}

pub fn get_synthesis_status_text(status: &str) -> (r: String)
    ensures
        r@ == synthesis_status_label(status@),
{
    if str_eq(status, "common") {
        "共通".to_owned()
    } else if str_eq(status, "missing_a") {
        "A欠品".to_owned()
    } else if str_eq(status, "missing_b") {
        "B欠品".to_owned()
    } else {
        "不明".to_owned()
    }
}

// ---------------------------------------------------------------------------
// Comparison result as a CSV grid
// ---------------------------------------------------------------------------

/// The CSV cells of one comparison row.
pub open spec fn comparison_cells(row: ComparisonRow) -> Seq<Seq<char>> {
    seq![
        row.part_number@,
        row.model_a@,
        row.model_b@,
        comparison_status_label(row.status@),
        change_type_label(row.change_type@),
    ]
}

/// All comparison rows in report order: common, left-only, right-only,
/// modified.
pub open spec fn comparison_all_rows(result: ComparisonResult) -> Seq<ComparisonRow> {
    result.common_parts@ + result.a_only_parts@ + result.b_only_parts@ + result.modified_parts@
}

/// Renders a comparison result as a CSV grid: a header row, then one row
/// per comparison row, partitions in report order.
pub fn comparison_to_csv_rows(result: &ComparisonResult) -> (r: Vec<Vec<String>>)
    ensures
        r@.len() == 1 + comparison_all_rows(*result).len(),
        r@[0]@.map_values(|s: String| s@) == seq![
            "部品番号"@,
            "型番A"@,
            "型番B"@,
            "ステータス"@,
            "差分種別"@,
        ],
        forall|i: int|
            0 <= i < comparison_all_rows(*result).len() ==> (#[trigger] r@[i + 1])@.map_values(
                |s: String| s@,
            ) == comparison_cells(comparison_all_rows(*result)[i]),
{
    let ghost all = comparison_all_rows(*result);
    let mut r: Vec<Vec<String>> = Vec::new();
    let mut header: Vec<String> = Vec::new();
    header.push("部品番号".to_owned());
    header.push("型番A".to_owned());
    header.push("型番B".to_owned());
    header.push("ステータス".to_owned());
    header.push("差分種別".to_owned());
    proof {
        assert(header@.map_values(|s: String| s@) =~= seq![
            "部品番号"@,
            "型番A"@,
            "型番B"@,
            "ステータス"@,
            "差分種別"@,
        ]);
    }
    r.push(header);
    push_comparison_rows(&mut r, &result.common_parts, Ghost(all), Ghost(0int));
    push_comparison_rows(
        &mut r,
        &result.a_only_parts,
        Ghost(all),
        Ghost(result.common_parts@.len() as int),
    );
    push_comparison_rows(
        &mut r,
        &result.b_only_parts,
        Ghost(all),
        Ghost((result.common_parts@.len() + result.a_only_parts@.len()) as int),
    );
    push_comparison_rows(
        &mut r,
        &result.modified_parts,
        Ghost(all),
        Ghost(
            (result.common_parts@.len() + result.a_only_parts@.len()
                + result.b_only_parts@.len()) as int,
        ),
    );
    r
}

/// Appends the CSV cells of one partition's rows.
fn push_comparison_rows(
    r: &mut Vec<Vec<String>>,
    part: &Vec<ComparisonRow>,
    all: Ghost<Seq<ComparisonRow>>,
    offset: Ghost<int>,
)
    requires
        0 <= offset@,
        offset@ + part@.len() <= all@.len(),
        old(r)@.len() == 1 + offset@,
        forall|j: int| 0 <= j < part@.len() ==> all@[offset@ + j] == part@[j],
        forall|i: int|
            0 <= i < offset@ ==> (#[trigger] old(r)@[i + 1])@.map_values(|s: String| s@)
                == comparison_cells(all@[i]),
    ensures
        final(r)@.len() == old(r)@.len() + part@.len(),
        final(r)@[0] == old(r)@[0],
        forall|i: int|
            0 <= i < offset@ + part@.len() ==> (#[trigger] final(r)@[i + 1])@.map_values(
                |s: String| s@,
            ) == comparison_cells(all@[i]),
{
    let n = part.len();
    let mut k: usize = 0;
    while k < n
        invariant
            k <= n,
            n == part@.len(),
            0 <= offset@,
            offset@ + part@.len() <= all@.len(),
            r@.len() == 1 + offset@ + k,
            r@[0] == old(r)@[0],
            forall|j: int| 0 <= j < part@.len() ==> all@[offset@ + j] == part@[j],
            forall|i: int|
                0 <= i < offset@ + k ==> (#[trigger] r@[i + 1])@.map_values(|s: String| s@)
                    == comparison_cells(all@[i]),
        decreases n - k,
    {
        let row = &part[k];
        let mut cells: Vec<String> = Vec::new();
        cells.push(row.part_number.clone());
        cells.push(row.model_a.clone());
        cells.push(row.model_b.clone());
        cells.push(get_status_text(row.status.as_str()));
        cells.push(get_change_type_text(row.change_type.as_str()));
        proof {
            assert(cells@.map_values(|s: String| s@) =~= comparison_cells(part@[k as int]));
        }
        r.push(cells);
        k = k + 1;
    }
}

// ---------------------------------------------------------------------------
// Synthesis result as a CSV grid
// ---------------------------------------------------------------------------

/// The CSV cells of one synthesis row.
pub open spec fn synthesis_cells(row: SynthesisRow) -> Seq<Seq<char>> {
    seq![row.part_number@, row.model_a@, row.model_b@, synthesis_status_label(row.status@)]
}

/// Renders a synthesis result as a CSV grid: a header row, then one row
/// per synthesis row.
pub fn synthesis_to_csv_rows(result: &SynthesisResult) -> (r: Vec<Vec<String>>)
    ensures
        r@.len() == 1 + result.rows@.len(),
        r@[0]@.map_values(|s: String| s@) == seq![
            "部品番号"@,
            "型番A"@,
            "型番B"@,
            "ステータス"@,
        ],
        forall|i: int|
            0 <= i < result.rows@.len() ==> (#[trigger] r@[i + 1])@.map_values(|s: String| s@)
                == synthesis_cells(result.rows@[i]),
{
    let mut r: Vec<Vec<String>> = Vec::new();
    let mut header: Vec<String> = Vec::new();
    header.push("部品番号".to_owned());
    header.push("型番A".to_owned());
    header.push("型番B".to_owned());
    header.push("ステータス".to_owned());
    proof {
        assert(header@.map_values(|s: String| s@) =~= seq![
            "部品番号"@,
            "型番A"@,
            "型番B"@,
            "ステータス"@,
        ]);
    }
    r.push(header);
    let n = result.rows.len();
    let mut k: usize = 0;
    while k < n
        invariant
            k <= n,
            n == result.rows@.len(),
            r@.len() == 1 + k,
            r@[0]@.map_values(|s: String| s@) == seq![
                "部品番号"@,
                "型番A"@,
                "型番B"@,
                "ステータス"@,
            ],
            forall|i: int|
                0 <= i < k ==> (#[trigger] r@[i + 1])@.map_values(|s: String| s@)
                    == synthesis_cells(result.rows@[i]),
        decreases n - k,
    {
        let row = &result.rows[k];
        let mut cells: Vec<String> = Vec::new();
        cells.push(row.part_number.clone());
        cells.push(row.model_a.clone());
        cells.push(row.model_b.clone());
        cells.push(get_synthesis_status_text(row.status.as_str()));
        proof {
            assert(cells@.map_values(|s: String| s@) =~= synthesis_cells(result.rows@[k as int]));
        }
        r.push(cells);
        k = k + 1;
    }
    r
}

// ---------------------------------------------------------------------------
// Text reports
// ---------------------------------------------------------------------------

/// The detail line of one comparison row: key, both models, change label.
pub open spec fn comparison_detail_line(row: ComparisonRow) -> Seq<char> {
    row.part_number@ + " | "@ + row.model_a@ + " | "@ + row.model_b@ + " | "@ + change_type_label(
        row.change_type@,
    ) + "\n"@
}

pub open spec fn comparison_detail_upto(rows: Seq<ComparisonRow>, i: int) -> Seq<char>
    decreases i,
{
    if i <= 0 {
        Seq::empty()
    } else {
        comparison_detail_upto(rows, i - 1) + comparison_detail_line(rows[i - 1])
    }
}

/// A key and one model, for the one-sided sections.
pub open spec fn comparison_pair_line(part: Seq<char>, model: Seq<char>) -> Seq<char> {
    part + " | "@ + model + "\n"@
}

pub open spec fn comparison_a_lines_upto(rows: Seq<ComparisonRow>, i: int) -> Seq<char>
    decreases i,
{
    if i <= 0 {
        Seq::empty()
    } else {
        comparison_a_lines_upto(rows, i - 1) + comparison_pair_line(
            rows[i - 1].part_number@,
            rows[i - 1].model_a@,
        )
    }
}

pub open spec fn comparison_b_lines_upto(rows: Seq<ComparisonRow>, i: int) -> Seq<char>
    decreases i,
{
    if i <= 0 {
        Seq::empty()
    } else {
        comparison_b_lines_upto(rows, i - 1) + comparison_pair_line(
            rows[i - 1].part_number@,
            rows[i - 1].model_b@,
        )
    }
}

/// What `comparison_to_text` yields: the counts of each partition, the
/// detail lines of the common and modified rows, then the one-sided
/// sections.
pub open spec fn comparison_text(result: ComparisonResult) -> Seq<char> {
    "=== 部品表比較結果 ===\n\n"@ + "共通部品: "@ + dec_of(result.common_parts@.len()) + "件\n"@
        + "Aのみ部品: "@ + dec_of(result.a_only_parts@.len()) + "件\n"@ + "Bのみ部品: "@ + dec_of(
        result.b_only_parts@.len(),
    ) + "件\n"@ + "変更部品: "@ + dec_of(result.modified_parts@.len()) + "件\n\n"@
        + "=== 共通/変更部品 ===\n"@ + comparison_detail_upto(
        result.common_parts@,
        result.common_parts@.len() as int,
    ) + comparison_detail_upto(result.modified_parts@, result.modified_parts@.len() as int)
        + "\n=== Aのみ部品 ===\n"@ + comparison_a_lines_upto(
        result.a_only_parts@,
        result.a_only_parts@.len() as int,
    ) + "\n=== Bのみ部品 ===\n"@ + comparison_b_lines_upto(
        result.b_only_parts@,
        result.b_only_parts@.len() as int,
    )
}

fn append_comparison_details(content: &mut String, rows: &Vec<ComparisonRow>)
    ensures
        final(content)@ == old(content)@ + comparison_detail_upto(rows@, rows@.len() as int),
{
    let n = rows.len();
    let mut i: usize = 0;
    while i < n
        invariant
            i <= n,
            n == rows@.len(),
            content@ == old(content)@ + comparison_detail_upto(rows@, i as int),
        decreases n - i,
    {
        let row = &rows[i];
        content.append(row.part_number.as_str());
        content.append(" | ");
        content.append(row.model_a.as_str());
        content.append(" | ");
        content.append(row.model_b.as_str());
        content.append(" | ");
        let label = get_change_type_text(row.change_type.as_str());
        content.append(label.as_str());
        content.append("\n");
        i = i + 1;
        proof {
            assert(content@ =~= old(content)@ + comparison_detail_upto(rows@, i as int));
        }
    }
}

/// Renders a comparison result as the plain-text report: partition counts
/// first, then the common and modified rows in detail, then each
/// one-sided partition.
pub fn comparison_to_text(result: &ComparisonResult) -> (r: String)
    ensures
        r@ == comparison_text(*result),
{
    let mut content: String = "=== 部品表比較結果 ===\n\n".to_owned();
    content.append("共通部品: ");
    let c1 = count_string(result.common_parts.len());
    content.append(c1.as_str());
    content.append("件\n");
    content.append("Aのみ部品: ");
    let c2 = count_string(result.a_only_parts.len());
    content.append(c2.as_str());
    content.append("件\n");
    content.append("Bのみ部品: ");
    let c3 = count_string(result.b_only_parts.len());
    content.append(c3.as_str());
    content.append("件\n");
    content.append("変更部品: ");
    let c4 = count_string(result.modified_parts.len());
    content.append(c4.as_str());
    content.append("件\n\n");
    content.append("=== 共通/変更部品 ===\n");
    append_comparison_details(&mut content, &result.common_parts);
    append_comparison_details(&mut content, &result.modified_parts);
    content.append("\n=== Aのみ部品 ===\n");
    let n = result.a_only_parts.len();
    let mut i: usize = 0;
    let ghost mid = content@;
    while i < n
        invariant
            i <= n,
            n == result.a_only_parts@.len(),
            content@ == mid + comparison_a_lines_upto(result.a_only_parts@, i as int),
        decreases n - i,
    {
        let row = &result.a_only_parts[i];
        content.append(row.part_number.as_str());
        content.append(" | ");
        content.append(row.model_a.as_str());
        content.append("\n");
        i = i + 1;
        proof {
            assert(content@ =~= mid + comparison_a_lines_upto(result.a_only_parts@, i as int));
        }
    }
    content.append("\n=== Bのみ部品 ===\n");
    let nb = result.b_only_parts.len();
    let mut i2: usize = 0;
    let ghost mid2 = content@;
    while i2 < nb
        invariant
            i2 <= nb,
            nb == result.b_only_parts@.len(),
            content@ == mid2 + comparison_b_lines_upto(result.b_only_parts@, i2 as int),
        decreases nb - i2,
    {
        let row = &result.b_only_parts[i2];
        content.append(row.part_number.as_str());
        content.append(" | ");
        content.append(row.model_b.as_str());
        content.append("\n");
        i2 = i2 + 1;
        proof {
            assert(content@ =~= mid2 + comparison_b_lines_upto(result.b_only_parts@, i2 as int));
        }
    }
    proof {
        assert(content@ =~= comparison_text(*result));
    }
    content
}

/// The detail line of one synthesis row.
pub open spec fn synthesis_detail_line(row: SynthesisRow) -> Seq<char> {
    row.part_number@ + " | "@ + row.model_a@ + " | "@ + row.model_b@ + " | "@
        + synthesis_status_label(row.status@) + "\n"@
}

pub open spec fn synthesis_detail_upto(rows: Seq<SynthesisRow>, i: int) -> Seq<char>
    decreases i,
{
    if i <= 0 {
        Seq::empty()
    } else {
        synthesis_detail_upto(rows, i - 1) + synthesis_detail_line(rows[i - 1])
    }
}

/// What `synthesis_to_text` yields: the status counts, then one detail
/// line per row.
pub open spec fn synthesis_text(result: SynthesisResult) -> Seq<char> {
    "=== 代替合成部品表 ===\n\n"@ + "総部品数: "@ + dec_of(result.rows@.len()) + "件\n"@
        + "共通部品: "@ + dec_of(
        result.rows@.filter(|row: SynthesisRow| row.status@ == "common"@).len(),
    ) + "件\n"@ + "A欠品: "@ + dec_of(
        result.rows@.filter(|row: SynthesisRow| row.status@ == "missing_a"@).len(),
    ) + "件\n"@ + "B欠品: "@ + dec_of(
        result.rows@.filter(|row: SynthesisRow| row.status@ == "missing_b"@).len(),
    ) + "件\n\n"@ + "=== 部品一覧 ===\n"@ + synthesis_detail_upto(
        result.rows@,
        result.rows@.len() as int,
    )
}

/// Renders a synthesis result as the plain-text report: the status counts,
/// then one line per row.
pub fn synthesis_to_text(result: &SynthesisResult) -> (r: String)
    ensures
        r@ == synthesis_text(*result),
{
    let stats = crate::synthesis::get_synthesis_stats(result);
    let mut content: String = "=== 代替合成部品表 ===\n\n".to_owned();
    content.append("総部品数: ");
    let c1 = count_string(stats.total);
    content.append(c1.as_str());
    content.append("件\n");
    content.append("共通部品: ");
    let c2 = count_string(stats.common);
    content.append(c2.as_str());
    content.append("件\n");
    content.append("A欠品: ");
    let c3 = count_string(stats.missing_a);
    content.append(c3.as_str());
    content.append("件\n");
    content.append("B欠品: ");
    let c4 = count_string(stats.missing_b);
    content.append(c4.as_str());
    content.append("件\n\n");
    content.append("=== 部品一覧 ===\n");
    let n = result.rows.len();
    let mut i: usize = 0;
    let ghost mid = content@;
    while i < n
        invariant
            i <= n,
            n == result.rows@.len(),
            content@ == mid + synthesis_detail_upto(result.rows@, i as int),
        decreases n - i,
    {
        let row = &result.rows[i];
        content.append(row.part_number.as_str());
        content.append(" | ");
        content.append(row.model_a.as_str());
        content.append(" | ");
        content.append(row.model_b.as_str());
        content.append(" | ");
        let label = get_synthesis_status_text(row.status.as_str());
        content.append(label.as_str());
        content.append("\n");
        i = i + 1;
        proof {
            assert(content@ =~= mid + synthesis_detail_upto(result.rows@, i as int));
        }
    }
    proof {
        assert(content@ =~= synthesis_text(*result));
    }
    content
}

// ---------------------------------------------------------------------------
// CAD export
// ---------------------------------------------------------------------------

/// The supported CAD text formats.
#[derive(Clone, Copy, Debug, PartialEq, Eq, Structural)]
pub enum CadFormat {
    Pads,
    Bd,
    Pws,
}

impl CadFormat {
    /// Parses a format name, trimmed and upper-cased; unknown names are
    /// rejected with the offending name in the message.
    pub fn parse(input: &str) -> (r: Result<CadFormat, String>)
        ensures
            ({
                let norm = crate::text::trim_spec(input@).map_values(
                    |c: char| crate::text::upper_char(c),
                );
                &&& (norm == "PADS"@ ==> r == Result::<CadFormat, String>::Ok(CadFormat::Pads))
                &&& (norm == "BD"@ ==> r == Result::<CadFormat, String>::Ok(CadFormat::Bd))
                &&& (norm == "PWS"@ ==> r == Result::<CadFormat, String>::Ok(CadFormat::Pws))
                &&& (norm != "PADS"@ && norm != "BD"@ && norm != "PWS"@ ==> r is Err
                    && r.unwrap_err()@ == "未対応のCADフォーマットです: "@ + norm)
            }),
    {
        proof {
            reveal_strlit("PADS");
            reveal_strlit("BD");
            reveal_strlit("PWS");
            assert("PADS"@.len() != "BD"@.len() && "PADS"@.len() != "PWS"@.len() && "BD"@.len()
                != "PWS"@.len());
        }
        let trimmed = crate::text::trim_string(input);
        let upper = crate::normalize::uppercase_ascii(trimmed.as_str());
        if str_eq(upper.as_str(), "PADS") {
            Ok(CadFormat::Pads)
        } else if str_eq(upper.as_str(), "BD") {
            Ok(CadFormat::Bd)
        } else if str_eq(upper.as_str(), "PWS") {
            Ok(CadFormat::Pws)
        } else {
            let mut message: String = "未対応のCADフォーマットです: ".to_owned();
            message.append(upper.as_str());
            Err(message)
        }
    }

    /// The default file extension of the format.
    pub fn default_extension(&self) -> (r: &'static str)
        ensures
            *self == CadFormat::Pads ==> r@ == "pads"@,
            *self == CadFormat::Bd ==> r@ == "bd"@,
            *self == CadFormat::Pws ==> r@ == "pws"@,
    {
        match self {
            CadFormat::Pads => "pads",
            CadFormat::Bd => "bd",
            CadFormat::Pws => "pws",
        }
    }

    /// The display name of the format.
    pub fn display_name(&self) -> (r: &'static str)
        ensures
            *self == CadFormat::Pads ==> r@ == "PADS"@,
            *self == CadFormat::Bd ==> r@ == "BD"@,
            *self == CadFormat::Pws ==> r@ == "PWS"@,
    {
        match self {
            CadFormat::Pads => "PADS",
            CadFormat::Bd => "BD",
            CadFormat::Pws => "PWS",
        }
    }
}

/// The key/value text of a record's attributes, joined with `, `.
pub open spec fn attrs_line(row: BomRow) -> Seq<char> {
    join(
        attr_pairs(row.attributes@).map_values(|p: (Seq<char>, Seq<char>)| p.0 + "="@ + p.1),
        ", "@,
    )
}

/// The component line of one record in the given format.
pub open spec fn cad_row_line(format: CadFormat, row: BomRow) -> Seq<char> {
    match format {
        CadFormat::Pads => row.part_number@ + "\t"@ + row.model_number@,
        CadFormat::Bd => row.part_number@ + ","@ + row.model_number@,
        CadFormat::Pws => row.part_number@ + "="@ + row.model_number@,
    }
}

/// The two banner lines of the format.
pub open spec fn cad_banner(format: CadFormat) -> Seq<Seq<char>> {
    match format {
        CadFormat::Pads => seq!["!KYODEN BOM TOOL CAD EXPORT - PADS"@, "PART_NUMBER\tMODEL_NUMBER"@],
        CadFormat::Bd => seq!["# Kyoden BOM Tool CAD Export (BD)"@, "PART_NUMBER,MODEL_NUMBER"@],
        CadFormat::Pws => seq!["# Kyoden BOM Tool CAD Export (PWS)"@, "[Component List]"@],
    }
}

/// The attribute section lines of the first `i` records: one line per
/// record with attributes.
pub open spec fn cad_attr_lines_upto(rows: Seq<BomRow>, i: int) -> Seq<Seq<char>>
    decreases i,
{
    if i <= 0 {
        Seq::empty()
    } else {
        let rest = cad_attr_lines_upto(rows, i - 1);
        if rows[i - 1].attributes@.len() == 0 {
            rest
        } else {
            rest.push(rows[i - 1].part_number@ + " => "@ + attrs_line(rows[i - 1]))
        }
    }
}

/// What `build_cad_output` yields: the banner, one component line per
/// record, and, when the dataset has headers, an attribute section.
pub open spec fn cad_output(format: CadFormat, bom: BomData) -> Seq<Seq<char>> {
    let base = cad_banner(format) + Seq::new(
        bom.rows@.len(),
        |i: int| cad_row_line(format, bom.rows@[i]),
    );
    if bom.headers@.len() > 0 {
        base + seq![Seq::<char>::empty(), "# Attributes"@] + cad_attr_lines_upto(
            bom.rows@,
            bom.rows@.len() as int,
        )
    } else {
        base
    }
}

/// Builds the CAD export lines: a banner, one component line per record,
/// and an attribute section when the dataset has headers.
pub fn build_cad_output(format: &CadFormat, bom: &BomData) -> (r: Vec<String>)
    ensures
        r@.map_values(|s: String| s@) == cad_output(*format, *bom),
{
    let mut lines: Vec<String> = Vec::new();
    match format {
        CadFormat::Pads => {
            lines.push("!KYODEN BOM TOOL CAD EXPORT - PADS".to_owned());
            lines.push("PART_NUMBER\tMODEL_NUMBER".to_owned());
        },
        CadFormat::Bd => {
            lines.push("# Kyoden BOM Tool CAD Export (BD)".to_owned());
            lines.push("PART_NUMBER,MODEL_NUMBER".to_owned());
        },
        CadFormat::Pws => {
            lines.push("# Kyoden BOM Tool CAD Export (PWS)".to_owned());
            lines.push("[Component List]".to_owned());
        },
    }
    proof {
        assert(lines@.map_values(|s: String| s@) =~= cad_banner(*format));
    }
    let n = bom.rows.len();
    let mut i: usize = 0;
    while i < n
        invariant
            i <= n,
            n == bom.rows@.len(),
            lines@.map_values(|s: String| s@) == cad_banner(*format) + Seq::new(
                i as nat,
                |x: int| cad_row_line(*format, bom.rows@[x]),
            ),
        decreases n - i,
    {
        let row = &bom.rows[i];
        let mut line = row.part_number.clone();
        match format {
            CadFormat::Pads => {
                crate::text::push_char(&mut line, '\t');
            },
            CadFormat::Bd => {
                crate::text::push_char(&mut line, ',');
            },
            CadFormat::Pws => {
                crate::text::push_char(&mut line, '=');
            },
        }
        line.append(row.model_number.as_str());
        proof {
            reveal_strlit("\t");
            reveal_strlit(",");
            reveal_strlit("=");
            assert(line@ =~= cad_row_line(*format, bom.rows@[i as int]));
        }
        lines.push(line);
        i = i + 1;
        proof {
            assert(lines@.map_values(|s: String| s@) =~= cad_banner(*format) + Seq::new(
                i as nat,
                |x: int| cad_row_line(*format, bom.rows@[x]),
            ));
        }
    }
    if bom.headers.len() > 0 {
        lines.push(String::new());
        lines.push("# Attributes".to_owned());
        proof {
            assert(lines@.map_values(|s: String| s@) =~= cad_banner(*format) + Seq::new(
                n as nat,
                |x: int| cad_row_line(*format, bom.rows@[x]),
            ) + seq![Seq::<char>::empty(), "# Attributes"@] + cad_attr_lines_upto(bom.rows@, 0));
        }
        let ghost base = cad_banner(*format) + Seq::new(
            n as nat,
            |x: int| cad_row_line(*format, bom.rows@[x]),
        ) + seq![Seq::<char>::empty(), "# Attributes"@];
        let mut k: usize = 0;
        while k < n
            invariant
                k <= n,
                n == bom.rows@.len(),
                base == cad_banner(*format) + Seq::new(
                    n as nat,
                    |x: int| cad_row_line(*format, bom.rows@[x]),
                ) + seq![Seq::<char>::empty(), "# Attributes"@],
                lines@.map_values(|s: String| s@) == base + cad_attr_lines_upto(
                    bom.rows@,
                    k as int,
                ),
            decreases n - k,
        {
            let row = &bom.rows[k];
            if row.attributes.len() > 0 {
                let mut pieces: Vec<String> = Vec::new();
                let an = row.attributes.len();
                let mut a: usize = 0;
                while a < an
                    invariant
                        a <= an,
                        k < n,
                        n == bom.rows@.len(),
                        row == &bom.rows@[k as int],
                        an == row.attributes@.len(),
                        pieces@.map_values(|s: String| s@) == attr_pairs(
                            row.attributes@,
                        ).map_values(|p: (Seq<char>, Seq<char>)| p.0 + "="@ + p.1).take(a as int),
                    decreases an - a,
                {
                    let mut piece = row.attributes[a].0.clone();
                    crate::text::push_char(&mut piece, '=');
                    piece.append(row.attributes[a].1.as_str());
                    proof {
                        reveal_strlit("=");
                        assert(piece@ =~= attr_pairs(row.attributes@).map_values(
                            |p: (Seq<char>, Seq<char>)| p.0 + "="@ + p.1,
                        )[a as int]);
                    }
                    pieces.push(piece);
                    a = a + 1;
                    proof {
                        assert(pieces@.map_values(|s: String| s@) =~= attr_pairs(
                            row.attributes@,
                        ).map_values(|p: (Seq<char>, Seq<char>)| p.0 + "="@ + p.1).take(a as int));
                    }
                }
                proof {
                    assert(attr_pairs(row.attributes@).map_values(
                        |p: (Seq<char>, Seq<char>)| p.0 + "="@ + p.1,
                    ).take(an as int) =~= attr_pairs(row.attributes@).map_values(
                        |p: (Seq<char>, Seq<char>)| p.0 + "="@ + p.1,
                    ));
                }
                let joined = join_strings(&pieces, ", ");
                let mut line = row.part_number.clone();
                line.append(" => ");
                line.append(joined.as_str());
                proof {
                    reveal_strlit(" => ");
                    assert(line@ =~= bom.rows@[k as int].part_number@ + " => "@ + attrs_line(
                        bom.rows@[k as int],
                    ));
                }
                lines.push(line);
            }
            k = k + 1;
            proof {
                assert(lines@.map_values(|s: String| s@) =~= base + cad_attr_lines_upto(
                    bom.rows@,
                    k as int,
                ));
            }
        }
        proof {
            assert(base + cad_attr_lines_upto(bom.rows@, n as int) =~= cad_output(*format, *bom));
        }
    } else {
        proof {
            assert(lines@.map_values(|s: String| s@) =~= cad_output(*format, *bom));
        }
    }
    lines
}

} // verus!
