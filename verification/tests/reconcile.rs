//! Tests for the reconciliation engine: comparison, synthesis, their
//! stats, filtering, and the partition counting laws on concrete data.

use bom_recon::compare::get_comparison_stats;
use bom_recon::compare::perform_comparison;
use bom_recon::compare::default_change_type;
use bom_recon::export::comparison_to_text;
use bom_recon::export::synthesis_to_text;
use bom_recon::synthesis::collect_missing_parts;
use bom_recon::synthesis::filter_synthesis_result;
use bom_recon::synthesis::get_synthesis_stats;
use bom_recon::synthesis::perform_synthesis;
use bom_recon::types::BomData;
use bom_recon::types::BomRow;
use bom_recon::types::ComparisonResult;
use bom_recon::types::SynthesisResult;
use bom_recon::types::SynthesisRow;

fn row(part: &str, model: &str) -> BomRow {
    BomRow {
        part_number: part.to_string(),
        model_number: model.to_string(),
        attributes: Vec::new(),
    }
}

fn create_test_bom_a() -> BomData {
    BomData {
        headers: vec!["部品番号".to_string(), "型番".to_string()],
        rows: vec![row("PART001", "MODEL001"), row("PART002", "MODEL002")],
    }
}

fn create_test_bom_b() -> BomData {
    BomData {
        headers: vec!["部品番号".to_string(), "型番".to_string()],
        rows: vec![row("PART001", "MODEL001"), row("PART003", "MODEL003")],
    }
}

#[test]
fn test_perform_comparison() {
    let bom_a = create_test_bom_a();
    let bom_b = create_test_bom_b();

    let result = perform_comparison(&bom_a, &bom_b);

    assert_eq!(result.common_parts.len(), 1);
    assert_eq!(result.a_only_parts.len(), 1);
    assert_eq!(result.b_only_parts.len(), 1);

    assert_eq!(result.common_parts[0].part_number, "PART001");
    assert_eq!(result.a_only_parts[0].part_number, "PART002");
    assert_eq!(result.b_only_parts[0].part_number, "PART003");
}

#[test]
fn comparison_example_partitions() {
    // A = {PART001 -> MODEL001, PART002 -> MODEL002},
    // B = {PART001 -> MODEL001, PART003 -> MODEL003}
    let result = perform_comparison(&create_test_bom_a(), &create_test_bom_b());
    assert_eq!(result.modified_parts.len(), 0);
    assert_eq!(result.common_parts[0].status, "common");
    assert_eq!(result.common_parts[0].change_type, "UNCHANGED");
    assert_eq!(result.a_only_parts[0].status, "a_only");
    assert_eq!(result.a_only_parts[0].change_type, "REMOVED");
    assert_eq!(result.b_only_parts[0].status, "b_only");
    assert_eq!(result.b_only_parts[0].change_type, "ADDED");
}

#[test]
fn comparison_marks_modified_models() {
    let a = BomData {
        headers: vec![],
        rows: vec![row("P1", "M1")],
    };
    let b = BomData {
        headers: vec![],
        rows: vec![row("P1", "M2")],
    };
    let result = perform_comparison(&a, &b);
    assert_eq!(result.common_parts.len(), 1);
    assert_eq!(result.common_parts[0].status, "modified");
    assert_eq!(result.common_parts[0].change_type, "MODIFIED");
    assert_eq!(result.modified_parts.len(), 1);
    assert_eq!(result.modified_parts[0].part_number, "P1");
}

#[test]
fn comparison_counts_partition_the_keys() {
    // duplicate keys collapse (last record wins) before partitioning
    let a = BomData {
        headers: vec![],
        rows: vec![row("P1", "M1"), row("P1", "M2"), row("P2", "M2")],
    };
    let b = BomData {
        headers: vec![],
        rows: vec![row("P1", "M2")],
    };
    let result = perform_comparison(&a, &b);
    // keys(A) = {P1, P2}: common + a_only covers them
    assert_eq!(result.common_parts.len() + result.a_only_parts.len(), 2);
    // keys(B) = {P1}: common + b_only covers them
    assert_eq!(result.common_parts.len() + result.b_only_parts.len(), 1);
    // last write wins: P1 maps to M2 on both sides
    assert_eq!(result.common_parts[0].model_a, "M2");
    assert_eq!(result.common_parts[0].status, "common");
}

#[test]
fn compare_dataset_with_itself_is_all_common() {
    let a = create_test_bom_a();
    let result = perform_comparison(&a, &a);
    assert_eq!(result.common_parts.len(), 2);
    assert_eq!(result.a_only_parts.len(), 0);
    assert_eq!(result.b_only_parts.len(), 0);
    assert_eq!(result.modified_parts.len(), 0);
    for row in &result.common_parts {
        assert_eq!(row.status, "common");
        assert_eq!(row.change_type, "UNCHANGED");
    }
}

#[test]
fn test_get_comparison_stats() {
    let result = ComparisonResult {
        common_parts: vec![],
        a_only_parts: vec![],
        b_only_parts: vec![],
        modified_parts: vec![],
    };

    let stats = get_comparison_stats(&result);
    assert_eq!(stats.common, 0);
    assert_eq!(stats.a_only, 0);
    assert_eq!(stats.b_only, 0);
    assert_eq!(stats.modified, 0);
}

#[test]
fn comparison_stats_totals() {
    let result = perform_comparison(&create_test_bom_a(), &create_test_bom_b());
    let stats = get_comparison_stats(&result);
    assert_eq!(stats.total_a, 2);
    assert_eq!(stats.total_b, 2);
    assert_eq!(stats.common, 1);
}

#[test]
fn default_change_type_is_unchanged() {
    assert_eq!(default_change_type(), "UNCHANGED");
}

#[test]
fn test_perform_synthesis() {
    let bom_a = create_test_bom_a();
    let bom_b = create_test_bom_b();

    let result = perform_synthesis(&bom_a, &bom_b);

    assert_eq!(result.rows.len(), 3);

    let part001 = result.rows.iter().find(|r| r.part_number == "PART001").unwrap();
    assert_eq!(part001.status, "common");

    let part002 = result.rows.iter().find(|r| r.part_number == "PART002").unwrap();
    assert_eq!(part002.status, "missing_b");

    let part003 = result.rows.iter().find(|r| r.part_number == "PART003").unwrap();
    assert_eq!(part003.status, "missing_a");
}

#[test]
fn synthesis_is_sorted_by_part_number() {
    let a = BomData {
        headers: vec![],
        rows: vec![row("ZZ9", "M1"), row("AA1", "M2")],
    };
    let b = BomData {
        headers: vec![],
        rows: vec![row("MM5", "M3")],
    };
    let result = perform_synthesis(&a, &b);
    let keys: Vec<&str> = result.rows.iter().map(|r| r.part_number.as_str()).collect();
    assert_eq!(keys, vec!["AA1", "MM5", "ZZ9"]);
    // the models travel with their keys
    let mm5 = result.rows.iter().find(|r| r.part_number == "MM5").unwrap();
    assert_eq!(mm5.model_a, "");
    assert_eq!(mm5.model_b, "M3");
    assert_eq!(mm5.status, "missing_a");
}

#[test]
fn synthesis_row_count_is_union_of_keys() {
    // duplicates within one side do not inflate the union
    let a = BomData {
        headers: vec![],
        rows: vec![row("P1", "M1"), row("P1", "M9"), row("P2", "M2")],
    };
    let b = BomData {
        headers: vec![],
        rows: vec![row("P2", "M2"), row("P3", "M3")],
    };
    let result = perform_synthesis(&a, &b);
    assert_eq!(result.rows.len(), 3);
}

#[test]
fn test_get_synthesis_stats() {
    let result = SynthesisResult { rows: vec![] };
    let stats = get_synthesis_stats(&result);

    assert_eq!(stats.total, 0);
    assert_eq!(stats.common, 0);
}

#[test]
fn synthesis_stats_count_by_status() {
    let result = perform_synthesis(&create_test_bom_a(), &create_test_bom_b());
    let stats = get_synthesis_stats(&result);
    assert_eq!(stats.total, 3);
    assert_eq!(stats.common, 1);
    assert_eq!(stats.missing_a, 1);
    assert_eq!(stats.missing_b, 1);
}

#[test]
fn test_filter_synthesis_result() {
    let row1 = SynthesisRow {
        part_number: "PART001".to_string(),
        model_a: "MODEL001".to_string(),
        model_b: "MODEL001".to_string(),
        status: "common".to_string(),
    };

    let row2 = SynthesisRow {
        part_number: "PART002".to_string(),
        model_a: "MODEL002".to_string(),
        model_b: String::new(),
        status: "missing_b".to_string(),
    };

    let result = SynthesisResult { rows: vec![row1, row2] };

    let filtered = filter_synthesis_result(&result, Some("common"));
    assert_eq!(filtered.rows.len(), 1);
    assert_eq!(filtered.rows[0].part_number, "PART001");
}

#[test]
fn filter_synthesis_blank_filter_keeps_all() {
    let result = perform_synthesis(&create_test_bom_a(), &create_test_bom_b());
    assert_eq!(filter_synthesis_result(&result, Some("  ")).rows.len(), 3);
    assert_eq!(filter_synthesis_result(&result, None).rows.len(), 3);
    assert_eq!(filter_synthesis_result(&result, Some("COMMON")).rows.len(), 1);
}

#[test]
fn collect_missing_parts_splits_by_side() {
    let result = perform_synthesis(&create_test_bom_a(), &create_test_bom_b());
    let (missing_a, missing_b) = collect_missing_parts(&result);
    assert_eq!(missing_a.len(), 1);
    assert_eq!(missing_a[0].part_number, "PART003");
    assert_eq!(missing_b.len(), 1);
    assert_eq!(missing_b[0].part_number, "PART002");
}

#[test]
fn comparison_text_report_layout() {
    let a = BomData { headers: vec![], rows: vec![row("P1", "M1")] };
    let b = BomData { headers: vec![], rows: vec![row("P1", "M1")] };
    let result = perform_comparison(&a, &b);
    let text = comparison_to_text(&result);
    assert_eq!(
        text,
        "=== 部品表比較結果 ===\n\n共通部品: 1件\nAのみ部品: 0件\nBのみ部品: 0件\n変更部品: 0件\n\n=== 共通/変更部品 ===\nP1 | M1 | M1 | 変更なし\n\n=== Aのみ部品 ===\n\n=== Bのみ部品 ===\n"
    );
}

#[test]
fn synthesis_text_report_layout() {
    let a = BomData { headers: vec![], rows: vec![row("P1", "M1")] };
    let b = BomData { headers: vec![], rows: vec![row("P1", "M2")] };
    let result = perform_synthesis(&a, &b);
    let text = synthesis_to_text(&result);
    assert_eq!(
        text,
        "=== 代替合成部品表 ===\n\n総部品数: 1件\n共通部品: 1件\nA欠品: 0件\nB欠品: 0件\n\n=== 部品一覧 ===\nP1 | M1 | M2 | 共通\n"
    );
}
