use pgtransfer::model::StringPair;
use pgtransfer::model::TransferError;
use pgtransfer::row::Cell;
use pgtransfer::row::CellInterps;
use pgtransfer::row::FetchedRow;
use pgtransfer::row::coerce_to_text;
use pgtransfer::synth::build_dest_cols;
use pgtransfer::synth::build_insert_query;
use pgtransfer::synth::build_select_query;
use pgtransfer::synth::build_source_cols_and_joins;
use pgtransfer::synth::build_values_clause;
use pgtransfer::synth::get_update_source_columns;
use pgtransfer::text::escape_text;

fn pair(source: &str, dest: &str) -> StringPair {
    StringPair {
        source: source.to_string(),
        dest: dest.to_string(),
    }
}

fn no_interps() -> CellInterps {
    CellInterps {
        text: None,
        int32: None,
        float32: None,
        uuid: None,
        timestamp: None,
        timestamptz: None,
    }
}

fn text_cell(name: &str, value: &str) -> Cell {
    let mut v = no_interps();
    v.text = Some(value.to_string());
    Cell {
        name: name.to_string(),
        value: v,
    }
}

fn int_cell(name: &str, value: &str) -> Cell {
    let mut v = no_interps();
    v.int32 = Some(value.to_string());
    Cell {
        name: name.to_string(),
        value: v,
    }
}

#[test]
fn string_pair_parses_two_segments() {
    let p = StringPair::from_str("employees:staff").unwrap();
    assert_eq!(p.source, "employees");
    assert_eq!(p.dest, "staff");
}

#[test]
fn string_pair_rejects_wrong_segment_count() {
    assert_eq!(
        StringPair::from_str("employees").unwrap_err(),
        TransferError::MalformedMapping
    );
    assert_eq!(
        StringPair::from_str("a:b:c").unwrap_err(),
        TransferError::MalformedMapping
    );
    assert_eq!(
        StringPair::from_str("").unwrap_err(),
        TransferError::MalformedMapping
    );
}

#[test]
fn parse_kv_splits_on_equals() {
    let (k, v) = pgtransfer::model::parse_kv("source=legacyA").unwrap();
    assert_eq!(k, "source");
    assert_eq!(v, "legacyA");
}

#[test]
fn parse_kv_rejects_wrong_segment_count() {
    assert_eq!(
        pgtransfer::model::parse_kv("source").unwrap_err(),
        TransferError::MalformedMapping
    );
    assert_eq!(
        pgtransfer::model::parse_kv("a=b=c").unwrap_err(),
        TransferError::MalformedMapping
    );
}

#[test]
fn parse_update_splits_both_halves() {
    let (sc, mv, dc, nv) = pgtransfer::model::parse_update("status=pending:state=active").unwrap();
    assert_eq!(sc, "status");
    assert_eq!(mv, "pending");
    assert_eq!(dc, "state");
    assert_eq!(nv, "active");
}

#[test]
fn parse_update_rejects_malformed_rules() {
    assert_eq!(
        pgtransfer::model::parse_update("status=pending").unwrap_err(),
        TransferError::MalformedUpdateRule
    );
    assert_eq!(
        pgtransfer::model::parse_update("status:state=active").unwrap_err(),
        TransferError::MalformedUpdateRule
    );
    assert_eq!(
        pgtransfer::model::parse_update("status=pending:state").unwrap_err(),
        TransferError::MalformedUpdateRule
    );
    assert_eq!(
        pgtransfer::model::parse_update("a=b=c:d=e").unwrap_err(),
        TransferError::MalformedUpdateRule
    );
}

#[test]
fn simple_mappings_keep_order_and_qualify_columns() {
    let table = pair("employees", "staff");
    let cols = vec![pair("id", "id"), pair("name", "full_name")];
    let (from_cols, joins) = build_source_cols_and_joins(&table, &cols, &None, &None).unwrap();
    assert_eq!(from_cols, "employees.id, employees.name");
    assert_eq!(joins, "");
}

#[test]
fn cross_table_mapping_emits_alias_and_join() {
    let table = pair("a", "dst");
    let cols = vec![pair("a.id/b.name", "x")];
    let (from_cols, joins) = build_source_cols_and_joins(&table, &cols, &None, &None).unwrap();
    assert_eq!(from_cols, "b.name AS a_id_b_name");
    assert_eq!(joins, "INNER JOIN b ON a.id = b.id");
}

#[test]
fn cross_table_select_segment_defaults_to_source_table() {
    let table = pair("employees", "staff");
    let cols = vec![pair("dept.name/dept_name", "dept_name")];
    let (from_cols, joins) = build_source_cols_and_joins(&table, &cols, &None, &None).unwrap();
    assert_eq!(from_cols, "employees.dept_name AS dept_name_dept_name");
    assert_eq!(joins, "INNER JOIN employees ON dept.name = employees.name");
}

#[test]
fn cross_table_join_segment_without_table_is_malformed() {
    let table = pair("a", "dst");
    let cols = vec![pair("id/b.name", "x")];
    assert_eq!(
        build_source_cols_and_joins(&table, &cols, &None, &None).unwrap_err(),
        TransferError::MalformedMapping
    );
}

#[test]
fn projection_appends_update_sources_and_static_literals() {
    let table = pair("employees", "staff");
    let cols = vec![pair("id", "id")];
    let statics = Some(vec![("source".to_string(), "legacyA".to_string())]);
    let updates = Some(vec![(
        "dept_name".to_string(),
        "Sales".to_string(),
        "dept_name".to_string(),
        "Retail".to_string(),
    )]);
    let (from_cols, joins) =
        build_source_cols_and_joins(&table, &cols, &statics, &updates).unwrap();
    assert_eq!(from_cols, "employees.id, dept_name, 'legacyA' AS source");
    assert_eq!(joins, "");
}

#[test]
fn update_source_columns_are_distinct_in_first_occurrence_order() {
    let updates = Some(vec![
        (
            "b".to_string(),
            "1".to_string(),
            "x".to_string(),
            "2".to_string(),
        ),
        (
            "a".to_string(),
            "1".to_string(),
            "y".to_string(),
            "2".to_string(),
        ),
        (
            "b".to_string(),
            "3".to_string(),
            "z".to_string(),
            "4".to_string(),
        ),
    ]);
    let cols = get_update_source_columns(&updates);
    assert_eq!(cols, vec!["b".to_string(), "a".to_string()]);
    assert_eq!(get_update_source_columns(&None), Vec::<String>::new());
}

#[test]
fn dest_cols_suppress_duplicates_by_first_occurrence() {
    let cols = vec![pair("sx", "x"), pair("sy", "y")];
    let statics = Some(vec![("x".to_string(), "5".to_string())]);
    let updates = Some(vec![(
        "sy".to_string(),
        "m".to_string(),
        "y".to_string(),
        "n".to_string(),
    )]);
    assert_eq!(build_dest_cols(&cols, &statics, &updates), "x, y");
}

#[test]
fn dest_cols_take_segment_after_slash() {
    let cols = vec![pair("id", "id"), pair("s", "dept.name/dept_name")];
    let statics = Some(vec![("source".to_string(), "legacyA".to_string())]);
    let updates = Some(vec![(
        "state".to_string(),
        "a".to_string(),
        "state".to_string(),
        "b".to_string(),
    )]);
    assert_eq!(
        build_dest_cols(&cols, &statics, &updates),
        "id, dept_name, source, state"
    );
}

#[test]
fn escape_doubles_embedded_single_quotes() {
    assert_eq!(escape_text("O'Brien"), "O''Brien");
    assert_eq!(escape_text("no quotes"), "no quotes");
    assert_eq!(escape_text("''"), "''''");
    assert_eq!(escape_text(""), "");
}

#[test]
fn fetched_text_value_becomes_escaped_literal() {
    let rows = vec![FetchedRow {
        cells: vec![text_cell("name", "O'Brien")],
    }];
    assert_eq!(build_values_clause(&rows, &None).unwrap(), "('O''Brien')");
}

#[test]
fn update_rule_substitutes_matching_cell_value() {
    let rows = vec![FetchedRow {
        cells: vec![text_cell("status", "pending")],
    }];
    let updates = Some(vec![(
        "status".to_string(),
        "pending".to_string(),
        "state".to_string(),
        "active".to_string(),
    )]);
    assert_eq!(build_values_clause(&rows, &updates).unwrap(), "('active')");
}

#[test]
fn first_matching_update_rule_wins() {
    let rows = vec![FetchedRow {
        cells: vec![text_cell("status", "pending")],
    }];
    let updates = Some(vec![
        (
            "status".to_string(),
            "pending".to_string(),
            "state".to_string(),
            "first".to_string(),
        ),
        (
            "status".to_string(),
            "pending".to_string(),
            "state".to_string(),
            "second".to_string(),
        ),
        (
            "status".to_string(),
            "first".to_string(),
            "state".to_string(),
            "chained".to_string(),
        ),
    ]);
    assert_eq!(build_values_clause(&rows, &updates).unwrap(), "('first')");
}

#[test]
fn update_rule_ignores_other_columns_and_values() {
    let rows = vec![FetchedRow {
        cells: vec![text_cell("status", "done"), text_cell("other", "pending")],
    }];
    let updates = Some(vec![(
        "status".to_string(),
        "pending".to_string(),
        "state".to_string(),
        "active".to_string(),
    )]);
    assert_eq!(
        build_values_clause(&rows, &updates).unwrap(),
        "('done', 'pending')"
    );
}

#[test]
fn coercion_prefers_text_then_int() {
    let mut v = no_interps();
    v.text = Some("textual".to_string());
    v.int32 = Some("7".to_string());
    let c = Cell {
        name: "n".to_string(),
        value: v,
    };
    assert_eq!(coerce_to_text(&c).unwrap(), "textual");

    let mut v2 = no_interps();
    v2.int32 = Some("7".to_string());
    v2.float32 = Some("7.5".to_string());
    let c2 = Cell {
        name: "n".to_string(),
        value: v2,
    };
    assert_eq!(coerce_to_text(&c2).unwrap(), "7");
}

#[test]
fn coercion_failure_names_the_column() {
    let c = Cell {
        name: "payload".to_string(),
        value: no_interps(),
    };
    assert_eq!(
        coerce_to_text(&c).unwrap_err(),
        TransferError::CoercionFailure {
            column: "payload".to_string()
        }
    );
}

#[test]
fn uncoercible_cell_aborts_the_whole_insert() {
    let table = pair("employees", "staff");
    let cols = vec![pair("id", "id"), pair("blob", "blob")];
    let rows = vec![
        FetchedRow {
            cells: vec![int_cell("id", "1"), text_cell("blob", "fine")],
        },
        FetchedRow {
            cells: vec![
                int_cell("id", "2"),
                Cell {
                    name: "blob".to_string(),
                    value: no_interps(),
                },
            ],
        },
    ];
    let r = build_insert_query(&table, &cols, &None, &None, &rows);
    assert_eq!(
        r.unwrap_err(),
        TransferError::CoercionFailure {
            column: "blob".to_string()
        }
    );
}

#[test]
fn errors_describe_their_expected_form() {
    assert_eq!(
        TransferError::MalformedMapping.describe(),
        "Invalid mapping, expected 'source:destination' or 'key=value'"
    );
    assert_eq!(
        TransferError::MalformedUpdateRule.describe(),
        "Invalid update mapping, expected 'source_column=value:dest_column=value'"
    );
    assert_eq!(
        TransferError::CoercionFailure {
            column: "payload".to_string()
        }
        .describe(),
        "could not convert the value in column 'payload'"
    );
}

#[test]
fn select_query_keeps_trailing_join_slot() {
    let table = pair("employees", "staff");
    let cols = vec![pair("id", "id")];
    assert_eq!(
        build_select_query(&table, &cols, &None, &None).unwrap(),
        "SELECT employees.id FROM employees "
    );
}

#[test]
fn end_to_end_transfer_scenario() {
    let table = pair("employees", "staff");
    let cols = vec![pair("id", "id"), pair("dept.name/dept_name", "dept_name")];
    let statics = Some(vec![("source".to_string(), "legacyA".to_string())]);
    let updates = Some(vec![(
        "dept_name".to_string(),
        "Sales".to_string(),
        "dept_name".to_string(),
        "Retail".to_string(),
    )]);

    let select = build_select_query(&table, &cols, &statics, &updates).unwrap();
    assert_eq!(
        select,
        "SELECT employees.id, employees.dept_name AS dept_name_dept_name, dept_name, \
         'legacyA' AS source FROM employees INNER JOIN employees ON dept.name = employees.name"
    );

    let rows = vec![FetchedRow {
        cells: vec![
            int_cell("id", "1"),
            text_cell("dept_name", "Sales"),
            text_cell("source", "legacyA"),
        ],
    }];
    let insert = build_insert_query(&table, &cols, &statics, &updates, &rows).unwrap();
    assert_eq!(
        insert,
        "INSERT INTO staff (id, dept_name, source) VALUES ('1', 'Retail', 'legacyA')"
    );
}

#[test]
fn empty_mappings_give_empty_lists() {
    let table = pair("src", "dst");
    let cols: Vec<StringPair> = Vec::new();
    let (from_cols, joins) = build_source_cols_and_joins(&table, &cols, &None, &None).unwrap();
    assert_eq!(from_cols, "");
    assert_eq!(joins, "");
    assert_eq!(build_dest_cols(&cols, &None, &None), "");
}

#[test]
fn escaping_keeps_multibyte_text() {
    assert_eq!(escape_text("Zoë's"), "Zoë''s");
    let rows = vec![FetchedRow {
        cells: vec![text_cell("name", "Zoë's")],
    }];
    assert_eq!(build_values_clause(&rows, &None).unwrap(), "('Zoë''s')");
}

#[test]
fn values_clause_joins_rows_and_cells() {
    let rows = vec![
        FetchedRow {
            cells: vec![int_cell("id", "1"), text_cell("name", "a")],
        },
        FetchedRow {
            cells: vec![int_cell("id", "2"), text_cell("name", "b")],
        },
    ];
    assert_eq!(
        build_values_clause(&rows, &None).unwrap(),
        "('1', 'a'), ('2', 'b')"
    );
    assert_eq!(build_values_clause(&Vec::new(), &None).unwrap(), "");
}
