//! Tests for the grid-to-record builder, preprocessing, column inference,
//! validation, the registered-name overlay, settings, previews and the
//! export formatters.

use bom_recon::builder::build_bom_from_rows;
use bom_recon::compare::perform_comparison;
use bom_recon::dict_norm::normalize_dictionary;
use bom_recon::dictionary::default_column_dictionary;
use bom_recon::export::bom_data_to_csv;
use bom_recon::export::build_cad_output;
use bom_recon::export::comparison_to_csv_rows;
use bom_recon::export::get_change_type_text;
use bom_recon::export::get_status_text;
use bom_recon::export::get_synthesis_status_text;
use bom_recon::export::synthesis_to_csv_rows;
use bom_recon::export::CadFormat;
use bom_recon::inference::detect_column_mapping;
use bom_recon::optimize::optimize_bom_data;
use bom_recon::overlay::apply_registered_names_to_bom;
use bom_recon::overlay::upsert_override_entry;
use bom_recon::preprocess::preprocess_bom_data;
use bom_recon::preview::generate_preprocessed_preview;
use bom_recon::settings::normalize_settings;
use bom_recon::settings::parse_session_kind;
use bom_recon::synthesis::perform_synthesis;
use bom_recon::types::AppSettings;
use bom_recon::types::BomData;
use bom_recon::types::BomRow;
use bom_recon::types::ColumnDictionary;
use bom_recon::types::ColumnDictionaryEntry;
use bom_recon::types::ColumnMapping;
use bom_recon::types::FormatRule;
use bom_recon::types::OverrideEntry;
use bom_recon::types::OverrideList;
use bom_recon::types::PreprocessRules;
use bom_recon::types::RegisteredNameEntry;
use bom_recon::types::RegisteredNameList;
use bom_recon::types::SessionKind;
use bom_recon::validate::validate_bom_data;

fn strings(parts: &[&str]) -> Vec<String> {
    parts.iter().map(|s| s.to_string()).collect()
}

fn mapping(part: usize, model: usize) -> ColumnMapping {
    ColumnMapping { part_number: part, model_number: model, manufacturer: None }
}

#[test]
fn build_normalizes_and_records_corrections() {
    let headers = strings(&["品番", "型番"]);
    let rows = vec![strings(&["p 1", "ｍ１"]), strings(&["", "m2"]), strings(&["P2", "M2"])];
    let result = build_bom_from_rows(headers, rows, &mapping(0, 1)).unwrap();

    // the blank-key row is dropped, the others normalized
    assert_eq!(result.bom.rows.len(), 2);
    assert_eq!(result.bom.rows[0].part_number, "P1");
    assert_eq!(result.bom.rows[0].model_number, "M1");
    assert_eq!(result.bom.rows[1].part_number, "P2");

    // two corrections on the first kept row, none on the clean one
    assert_eq!(result.corrections.len(), 2);
    assert_eq!(result.corrections[0].row_number, 1);
    assert_eq!(result.corrections[0].rule, "normalize_part_number");
    assert_eq!(result.corrections[0].original_value, "p 1");
    assert_eq!(result.corrections[0].corrected_value, "P1");
    assert_eq!(result.corrections[1].rule, "normalize_model_number");
}

#[test]
fn build_pads_headers_to_widest_row() {
    let headers = strings(&["品番"]);
    let rows = vec![strings(&["P1", "M1", "x"])];
    let result = build_bom_from_rows(headers, rows, &mapping(0, 1)).unwrap();
    assert_eq!(result.bom.headers, strings(&["品番", "列2", "列3"]));
    let row = &result.bom.rows[0];
    assert_eq!(row.model_number, "M1");
    assert_eq!(row.attributes.len(), 3);
    assert_eq!(row.attributes[2], ("列3".to_string(), "X".to_string()));
}

#[test]
fn build_then_compare_round_trip() {
    let headers = strings(&["品番", "型番"]);
    let rows = vec![strings(&["P1", "M1"]), strings(&["P2", "M2"])];
    let result = build_bom_from_rows(headers, rows, &mapping(0, 1)).unwrap();
    let cmp = perform_comparison(&result.bom, &result.bom);
    assert_eq!(cmp.common_parts.len(), 2);
    assert_eq!(cmp.modified_parts.len(), 0);
    assert_eq!(cmp.a_only_parts.len(), 0);
    assert_eq!(cmp.b_only_parts.len(), 0);
}

fn range_row() -> BomRow {
    BomRow {
        part_number: "C1-C3".to_string(),
        model_number: "MODEL".to_string(),
        attributes: vec![
            ("備考".to_string(), "C1-C3".to_string()),
            ("数量".to_string(), "2".to_string()),
        ],
    }
}

#[test]
fn preprocess_expands_ranges_and_tracks_key() {
    let bom = BomData { headers: strings(&["備考", "数量"]), rows: vec![range_row()] };
    let rules = PreprocessRules {
        remove_parentheses: false,
        expand_ranges: true,
        fullwidth_to_halfwidth: false,
        lowercase_to_uppercase: false,
    };
    let out = preprocess_bom_data(&bom, &rules).unwrap();
    assert_eq!(out.rows.len(), 3);
    let parts: Vec<&str> = out.rows.iter().map(|r| r.part_number.as_str()).collect();
    assert_eq!(parts, vec!["C1", "C2", "C3"]);
    for (i, row) in out.rows.iter().enumerate() {
        // the mirroring attribute tracks the new key; the other is kept
        assert_eq!(row.attributes[0].1, format!("C{}", i + 1));
        assert_eq!(row.attributes[1].1, "2");
        assert_eq!(row.model_number, "MODEL");
    }
}

#[test]
fn preprocess_without_expansion_keeps_cardinality() {
    let bom = BomData { headers: strings(&[]), rows: vec![range_row()] };
    let rules = PreprocessRules {
        remove_parentheses: true,
        expand_ranges: false,
        fullwidth_to_halfwidth: true,
        lowercase_to_uppercase: true,
    };
    let out = preprocess_bom_data(&bom, &rules).unwrap();
    assert_eq!(out.rows.len(), 1);
    assert_eq!(out.rows[0].part_number, "C1-C3");
}

#[test]
fn preprocess_applies_rules_in_order() {
    let bom = BomData {
        headers: strings(&[]),
        rows: vec![BomRow {
            part_number: "(ａbc)".to_string(),
            model_number: "ｍ(1)".to_string(),
            attributes: vec![("x".to_string(), "(ｙ)".to_string())],
        }],
    };
    let rules = PreprocessRules {
        remove_parentheses: true,
        expand_ranges: false,
        fullwidth_to_halfwidth: true,
        lowercase_to_uppercase: true,
    };
    let out = preprocess_bom_data(&bom, &rules).unwrap();
    assert_eq!(out.rows[0].part_number, "ABC");
    assert_eq!(out.rows[0].model_number, "M1");
    assert_eq!(out.rows[0].attributes[0].1, "Y");
}

#[test]
fn infer_mapping_on_japanese_headers() {
    let headers = strings(&["品番", "品名", "メーカー"]);
    let rows = vec![
        strings(&["A1", "抵抗", "ACME"]),
        strings(&["A2", "コンデンサ", "BETA"]),
    ];
    let dictionary = default_column_dictionary();
    let m = detect_column_mapping(&headers, &rows, &dictionary).unwrap();
    assert_eq!(m.part_number, 0);
    assert_eq!(m.model_number, 1);
    assert_eq!(m.manufacturer, Some(2));
}

#[test]
fn infer_mapping_empty_sample_yields_nothing() {
    let dictionary = default_column_dictionary();
    assert!(detect_column_mapping(&Vec::new(), &Vec::new(), &dictionary).is_none());
}

#[test]
fn validate_flags_bad_identifiers() {
    let bom = BomData {
        headers: strings(&[]),
        rows: vec![
            BomRow {
                part_number: "PART 001!".to_string(),
                model_number: "M.1".to_string(),
                attributes: vec![],
            },
            BomRow {
                part_number: "OK-1".to_string(),
                model_number: "M_2.0".to_string(),
                attributes: vec![],
            },
        ],
    };
    let result = validate_bom_data(&bom);
    assert!(!result.is_valid);
    assert_eq!(result.errors.len(), 1);
    assert_eq!(result.errors[0].row_number, 1);
    assert_eq!(result.errors[0].field, "部品番号");
}

#[test]
fn validate_flags_blank_and_duplicate_keys() {
    let bom = BomData {
        headers: strings(&[]),
        rows: vec![
            BomRow {
                part_number: "  ".to_string(),
                model_number: String::new(),
                attributes: vec![],
            },
            BomRow { part_number: "D1".to_string(), model_number: "M".to_string(), attributes: vec![] },
            BomRow { part_number: "D1".to_string(), model_number: "M".to_string(), attributes: vec![] },
        ],
    };
    let result = validate_bom_data(&bom);
    assert!(!result.is_valid);
    // row 1: blank part, blank model, part charset (spaces are not alphanumeric)
    // rows 2 and 3: duplicate part number
    assert_eq!(result.errors.len(), 5);
    assert_eq!(result.errors[0].message, "部品番号は必須です");
    assert_eq!(result.errors[1].message, "型番は必須です");
    assert_eq!(result.errors[3].message, "部品番号 'D1' が重複しています");
}

#[test]
fn overlay_override_dominates_registered_name() {
    let mut bom = BomData {
        headers: strings(&["登録名"]),
        rows: vec![
            BomRow { part_number: "P1".to_string(), model_number: "M1".to_string(), attributes: vec![] },
            BomRow { part_number: "P2".to_string(), model_number: "M1".to_string(), attributes: vec![] },
            BomRow { part_number: "P3".to_string(), model_number: "MX".to_string(), attributes: vec![] },
        ],
    };
    let registered = RegisteredNameList {
        entries: vec![RegisteredNameEntry {
            part_model: "M1".to_string(),
            registered_name: "regname".to_string(),
        }],
    };
    let overrides = OverrideList {
        entries: vec![OverrideEntry {
            part_number: "P1".to_string(),
            registered_name: "forced".to_string(),
        }],
    };
    apply_registered_names_to_bom(&mut bom, &Some(registered), &Some(overrides));
    assert_eq!(bom.rows[0].attributes, vec![("登録名".to_string(), "forced".to_string())]);
    assert_eq!(bom.rows[1].attributes, vec![("登録名".to_string(), "regname".to_string())]);
    assert_eq!(bom.rows[2].attributes, vec![]);
}

#[test]
fn upsert_override_replaces_or_appends() {
    let mut list = OverrideList { entries: vec![] };
    upsert_override_entry(
        &mut list,
        OverrideEntry { part_number: "P1".to_string(), registered_name: "a".to_string() },
    );
    upsert_override_entry(
        &mut list,
        OverrideEntry { part_number: "P1".to_string(), registered_name: "b".to_string() },
    );
    upsert_override_entry(
        &mut list,
        OverrideEntry { part_number: "P2".to_string(), registered_name: "c".to_string() },
    );
    assert_eq!(list.entries.len(), 2);
    assert_eq!(list.entries[0].registered_name, "b");
    assert_eq!(list.entries[1].part_number, "P2");
}

#[test]
fn normalize_settings_dedups_and_validates() {
    let settings = AppSettings {
        makers: strings(&[" ACME ", "ACME", "BETA"]),
        format_rules: vec![
            FormatRule { pattern: " x ".to_string(), action: " IGNORE ".to_string() },
            FormatRule { pattern: "x".to_string(), action: "ignore".to_string() },
        ],
    };
    let out = normalize_settings(settings).unwrap();
    assert_eq!(out.makers, strings(&["ACME", "BETA"]));
    assert_eq!(out.format_rules.len(), 1);
    assert_eq!(out.format_rules[0].pattern, "x");
    assert_eq!(out.format_rules[0].action, "ignore");
}

#[test]
fn normalize_settings_rejects_blank_maker_and_bad_action() {
    let blank = AppSettings { makers: strings(&["  "]), format_rules: vec![] };
    assert_eq!(normalize_settings(blank).unwrap_err(), "メーカー名に空の値は使用できません");

    let bad = AppSettings {
        makers: vec![],
        format_rules: vec![FormatRule { pattern: "p".to_string(), action: "zap".to_string() }],
    };
    assert_eq!(normalize_settings(bad).unwrap_err(), "無効な処理方法です: zap");
}

#[test]
fn parse_session_kind_cases() {
    assert_eq!(parse_session_kind("AUTO").unwrap(), SessionKind::Auto);
    assert_eq!(parse_session_kind("manual").unwrap(), SessionKind::Manual);
    assert!(parse_session_kind("weekly").is_err());
    assert_eq!(SessionKind::Auto.directory(), "../sessions/auto");
}

#[test]
fn dictionary_lookup_is_case_insensitive_and_trims() {
    let dictionary = default_column_dictionary();
    let entry = dictionary.entry_for(" Part_Number ").unwrap();
    assert_eq!(entry.column_type, "part_number");
    let patterns = dictionary.patterns_for("model_number");
    assert!(patterns.iter().any(|p| p == "品名"));
    assert!(dictionary.entry_for("nonexistent").is_none());
    assert_eq!(dictionary.patterns_for("nonexistent").len(), 0);
}

#[test]
fn bom_data_to_csv_layout() {
    let bom = BomData {
        headers: strings(&["a", "b"]),
        rows: vec![BomRow {
            part_number: "P1".to_string(),
            model_number: "M1".to_string(),
            attributes: vec![("a".to_string(), "P1".to_string()), ("b".to_string(), "M1".to_string())],
        }],
    };
    assert_eq!(bom_data_to_csv(&bom), "a,b\nP1,M1\n");
}

#[test]
fn cad_output_formats() {
    let bom = BomData {
        headers: strings(&["a"]),
        rows: vec![BomRow {
            part_number: "P1".to_string(),
            model_number: "M1".to_string(),
            attributes: vec![("a".to_string(), "v".to_string())],
        }],
    };
    let pads = build_cad_output(&CadFormat::Pads, &bom);
    assert_eq!(pads[0], "!KYODEN BOM TOOL CAD EXPORT - PADS");
    assert_eq!(pads[2], "P1\tM1");
    assert_eq!(pads[3], "");
    assert_eq!(pads[4], "# Attributes");
    assert_eq!(pads[5], "P1 => a=v");

    let pws = build_cad_output(&CadFormat::Pws, &bom);
    assert_eq!(pws[1], "[Component List]");
    assert_eq!(pws[2], "P1=M1");

    assert_eq!(CadFormat::parse(" pads ").unwrap(), CadFormat::Pads);
    assert!(CadFormat::parse("dxf").is_err());
    assert_eq!(CadFormat::Bd.default_extension(), "bd");
    assert_eq!(CadFormat::Bd.display_name(), "BD");
}

#[test]
fn status_labels() {
    assert_eq!(get_status_text("common"), "共通部品");
    assert_eq!(get_status_text("odd"), "odd");
    assert_eq!(get_change_type_text("ADDED"), "追加");
    assert_eq!(get_synthesis_status_text("missing_a"), "A欠品");
    assert_eq!(get_synthesis_status_text("odd"), "不明");
}

#[test]
fn comparison_csv_grid_shape() {
    let a = BomData { headers: vec![], rows: vec![BomRow {
        part_number: "P1".to_string(),
        model_number: "M1".to_string(),
        attributes: vec![],
    }] };
    let b = BomData { headers: vec![], rows: vec![] };
    let result = perform_comparison(&a, &b);
    let grid = comparison_to_csv_rows(&result);
    assert_eq!(grid.len(), 2);
    assert_eq!(grid[0][0], "部品番号");
    assert_eq!(grid[1], strings(&["P1", "M1", "", "Aのみ", "削除"]));

    let synth = perform_synthesis(&a, &b);
    let sgrid = synthesis_to_csv_rows(&synth);
    assert_eq!(sgrid.len(), 2);
    assert_eq!(sgrid[1], strings(&["P1", "M1", "", "B欠品"]));
}

#[test]
fn preview_substitutes_key_columns() {
    let headers = strings(&["品番", "型番"]);
    let rows = vec![strings(&["C1-C3", "m1"])];
    let built = build_bom_from_rows(headers, rows, &mapping(0, 1)).unwrap();
    let table = generate_preprocessed_preview(&built.bom, &mapping(0, 1)).unwrap();
    assert_eq!(table.total_rows, 3);
    assert_eq!(table.rows.len(), 3);
    assert_eq!(table.rows[0], strings(&["C1", "M1"]));
    assert_eq!(table.rows[2], strings(&["C3", "M1"]));
}

#[test]
fn normalize_dictionary_merges_roles() {
    let dictionary = ColumnDictionary {
        columns: vec![
            ColumnDictionaryEntry {
                column_type: " Part_Number ".to_string(),
                display_name: Some(" 部品 ".to_string()),
                patterns: strings(&[" 品番 ", "品番", "PIN", ""]),
            },
            ColumnDictionaryEntry {
                column_type: "part_number".to_string(),
                display_name: None,
                patterns: strings(&["pin", "ref"]),
            },
        ],
    };
    let out = normalize_dictionary(dictionary).unwrap();
    assert_eq!(out.columns.len(), 1);
    assert_eq!(out.columns[0].column_type, "part_number");
    assert_eq!(out.columns[0].display_name, Some("部品".to_string()));
    // "pin" duplicates "PIN" up to case; patterns come out sorted
    assert_eq!(out.columns[0].patterns, strings(&["PIN", "ref", "品番"]));
}

#[test]
fn normalize_dictionary_sorts_roles_and_rejects_blank() {
    let dictionary = ColumnDictionary {
        columns: vec![
            ColumnDictionaryEntry {
                column_type: "zz".to_string(),
                display_name: None,
                patterns: strings(&["z"]),
            },
            ColumnDictionaryEntry {
                column_type: "aa".to_string(),
                display_name: None,
                patterns: strings(&["a"]),
            },
        ],
    };
    let out = normalize_dictionary(dictionary).unwrap();
    assert_eq!(out.columns[0].column_type, "aa");
    assert_eq!(out.columns[1].column_type, "zz");

    let blank = ColumnDictionary {
        columns: vec![ColumnDictionaryEntry {
            column_type: "  ".to_string(),
            display_name: None,
            patterns: vec![],
        }],
    };
    assert_eq!(normalize_dictionary(blank).unwrap_err(), "列タイプ名は必須です");

    let empty = normalize_dictionary(ColumnDictionary { columns: vec![] }).unwrap();
    assert_eq!(empty.columns.len(), 3);
    assert_eq!(empty.columns[0].column_type, "part_number");
}

#[test]
fn optimize_merges_duplicates_and_sorts() {
    let mut bom = BomData {
        headers: strings(&["a", "b"]),
        rows: vec![
            BomRow {
                part_number: "P2".to_string(),
                model_number: "M2".to_string(),
                attributes: vec![("a".to_string(), "1".to_string())],
            },
            BomRow {
                part_number: "P1".to_string(),
                model_number: "M1".to_string(),
                attributes: vec![],
            },
            BomRow {
                part_number: "P2".to_string(),
                model_number: "M9".to_string(),
                attributes: vec![
                    ("b".to_string(), "2".to_string()),
                    ("a".to_string(), "9".to_string()),
                ],
            },
        ],
    };
    optimize_bom_data(&mut bom);
    assert_eq!(bom.rows.len(), 2);
    assert_eq!(bom.rows[0].part_number, "P1");
    assert_eq!(bom.rows[1].part_number, "P2");
    // the first record's model number wins; later attributes overwrite
    assert_eq!(bom.rows[1].model_number, "M2");
    assert_eq!(
        bom.rows[1].attributes,
        vec![("a".to_string(), "9".to_string()), ("b".to_string(), "2".to_string())]
    );
}

#[test]
fn infer_mapping_falls_back_to_text_columns() {
    // with no dictionary the part number goes to the first column by the
    // uniqueness bonus; the model number falls back to the first unclaimed
    // column whose samples contain letters
    let headers = strings(&["c1", "c2", "c3"]);
    let rows = vec![strings(&["1", "2", "abc"]), strings(&["3", "4", "def"])];
    let dictionary = ColumnDictionary { columns: vec![] };
    let m = detect_column_mapping(&headers, &rows, &dictionary).unwrap();
    assert_eq!(m.part_number, 0);
    assert_eq!(m.model_number, 2);
    assert_eq!(m.manufacturer, None);
}
