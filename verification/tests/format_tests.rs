//! Tests of the tagged value model, the encoder, the decoder and the
//! CSV projector.
use pgclient::decode::{decode, DecodeError};
use pgclient::encode::{csv_project, encode_table, encode_tables, nullable_marker};
use pgclient::table::{is_exported_table_name, PostgresColumn, PostgresResult, PostgresTable};
use pgclient::values::{DriverType, DriverValue, PostgresRowMatcher, TaggedValue};

fn col(name: &str, data_type: &str, is_nullable: bool) -> PostgresColumn {
    PostgresColumn { name: name.to_string(), data_type: data_type.to_string(), is_nullable }
}

#[test]
fn from_declared_number_bad_input_defaults_to_zero() {
    assert_eq!(TaggedValue::from_declared("number", "notanumber"), TaggedValue::Integer(0));
    assert_eq!(TaggedValue::from_declared("number", ""), TaggedValue::Integer(0));
    assert_eq!(TaggedValue::from_declared("number", "2147483648"), TaggedValue::Integer(0));
    assert_eq!(TaggedValue::from_declared("number", "12a"), TaggedValue::Integer(0));
}

#[test]
fn from_declared_number_parses_decimals() {
    assert_eq!(TaggedValue::from_declared("number", "42"), TaggedValue::Integer(42));
    assert_eq!(TaggedValue::from_declared("number", "007"), TaggedValue::Integer(7));
    assert_eq!(TaggedValue::from_declared("number", "+12"), TaggedValue::Integer(12));
    assert_eq!(TaggedValue::from_declared("number", "-9"), TaggedValue::Integer(-9));
    assert_eq!(
        TaggedValue::from_declared("number", "-2147483648"),
        TaggedValue::Integer(i32::MIN)
    );
    assert_eq!(
        TaggedValue::from_declared("number", "2147483647"),
        TaggedValue::Integer(i32::MAX)
    );
}

#[test]
fn from_declared_boolean_only_exact_true() {
    assert_eq!(TaggedValue::from_declared("boolean", "yes"), TaggedValue::Boolean(false));
    assert_eq!(TaggedValue::from_declared("boolean", "true"), TaggedValue::Boolean(true));
    assert_eq!(TaggedValue::from_declared("boolean", "True"), TaggedValue::Boolean(false));
    assert_eq!(TaggedValue::from_declared("boolean", ""), TaggedValue::Boolean(false));
}

#[test]
fn from_declared_text_and_unknown() {
    assert_eq!(
        TaggedValue::from_declared("text", "hello"),
        TaggedValue::Text("hello".to_string())
    );
    assert_eq!(TaggedValue::from_declared("timestamp", "2020"), TaggedValue::Null);
}

#[test]
fn match_type_front_agrees_with_from_declared() {
    let t = "number".to_string();
    let d = "5".to_string();
    assert_eq!(PostgresRowMatcher::match_type(&t, &d), TaggedValue::Integer(5));
}

#[test]
fn render_null_collapses_with_empty_text() {
    // The known, documented collapse of the wire format.
    assert_eq!(TaggedValue::Null.render(), "");
    assert_eq!(TaggedValue::Text(String::new()).render(), "");
    assert_eq!(TaggedValue::Null.render(), TaggedValue::Text(String::new()).render());
}

#[test]
fn render_is_canonical() {
    assert_eq!(TaggedValue::Boolean(true).render(), "true");
    assert_eq!(TaggedValue::Boolean(false).render(), "false");
    assert_eq!(TaggedValue::Integer(42).render(), "42");
    assert_eq!(TaggedValue::Integer(-7).render(), "-7");
    assert_eq!(TaggedValue::Integer(0).render(), "0");
    assert_eq!(TaggedValue::Integer(i32::MIN).render(), "-2147483648");
    assert_eq!(TaggedValue::Integer(i32::MAX).render(), "2147483647");
    assert_eq!(TaggedValue::Text("a|b".to_string()).render(), "a|b");
}

#[test]
fn from_driver_matches_tags() {
    assert_eq!(
        TaggedValue::from_driver(DriverType::Bool, DriverValue::Bool(true)),
        TaggedValue::Boolean(true)
    );
    assert_eq!(
        TaggedValue::from_driver(DriverType::Int4, DriverValue::Int(5)),
        TaggedValue::Integer(5)
    );
    assert_eq!(
        TaggedValue::from_driver(DriverType::Int8, DriverValue::Int(-5)),
        TaggedValue::Integer(-5)
    );
    assert_eq!(
        TaggedValue::from_driver(DriverType::Text, DriverValue::Text("x".to_string())),
        TaggedValue::Text("x".to_string())
    );
    assert_eq!(
        TaggedValue::from_driver(DriverType::Other, DriverValue::Bool(true)),
        TaggedValue::Null
    );
    assert_eq!(
        TaggedValue::from_driver(DriverType::Bool, DriverValue::Missing),
        TaggedValue::Null
    );
    assert_eq!(
        TaggedValue::from_driver(DriverType::Bool, DriverValue::Int(1)),
        TaggedValue::Null
    );
}

#[test]
fn nullable_marker_literals() {
    assert_eq!(nullable_marker(true), "y_null");
    assert_eq!(nullable_marker(false), "n_null");
}

#[test]
fn encode_single_table_exact_text() {
    // The end-to-end scenario: one table, two columns, two rows.
    let table = PostgresTable {
        name: "t".to_string(),
        columns: vec![col("id", "number", false), col("ok", "boolean", true)],
        data: vec![
            vec![TaggedValue::Integer(1), TaggedValue::Boolean(true)],
            vec![TaggedValue::Integer(2), TaggedValue::Null],
        ],
    };
    let text = encode_tables(&vec![table]);
    let expected = "#table=t\n+schema:\n%|id|number|n_null\n%|ok|boolean|y_null\n-schema\n+data:\n%id=_=1|ok=_=true\n%id=_=2|ok=_=\n-data\n\n\n";
    assert_eq!(text, expected);

    // Decoding it returns the rows, with row 2's `ok` collapsing to
    // Boolean(false) by the empty-string coercion rule.
    let outcome = decode(&text);
    assert!(outcome.error.is_none());
    assert_eq!(outcome.tables.len(), 1);
    let t = &outcome.tables[0];
    assert_eq!(t.name, "t");
    assert_eq!(t.columns.len(), 2);
    assert_eq!(t.columns[0].name, "id");
    assert_eq!(t.columns[0].data_type, "number");
    assert!(!t.columns[0].is_nullable);
    assert_eq!(t.columns[1].name, "ok");
    assert_eq!(t.columns[1].data_type, "boolean");
    assert!(t.columns[1].is_nullable);
    assert_eq!(t.data.len(), 2);
    assert_eq!(t.data[0], vec![TaggedValue::Integer(1), TaggedValue::Boolean(true)]);
    assert_eq!(t.data[1], vec![TaggedValue::Integer(2), TaggedValue::Boolean(false)]);
}

#[test]
fn encode_table_uses_fetch_order_for_data_lines() {
    let schema = vec![col("a", "number", false), col("b", "text", true)];
    let data_columns = vec!["b".to_string(), "a".to_string()];
    let rows = vec![vec![TaggedValue::Text("x".to_string()), TaggedValue::Integer(3)]];
    let text = encode_table("t", &schema, &data_columns, &rows);
    let expected =
        "#table=t\n+schema:\n%|a|number|n_null\n%|b|text|y_null\n-schema\n+data:\n%b=_=x|a=_=3\n-data\n\n\n";
    assert_eq!(text, expected);
}

#[test]
fn round_trip_two_tables() {
    let tables = vec![
        PostgresTable {
            name: "users".to_string(),
            columns: vec![col("id", "number", false), col("name", "text", false)],
            data: vec![
                vec![TaggedValue::Integer(1), TaggedValue::Text("ada".to_string())],
                vec![TaggedValue::Integer(2), TaggedValue::Text("bob".to_string())],
            ],
        },
        PostgresTable {
            name: "flags".to_string(),
            columns: vec![col("on", "boolean", true)],
            data: vec![vec![TaggedValue::Boolean(false)]],
        },
    ];
    let text = encode_tables(&tables);
    let outcome = decode(&text);
    assert!(outcome.error.is_none());
    assert_eq!(outcome.tables.len(), 2);
    for (got, want) in outcome.tables.iter().zip(tables.iter()) {
        assert_eq!(got.name, want.name);
        assert_eq!(got.data, want.data);
        assert_eq!(got.columns.len(), want.columns.len());
        for (gc, wc) in got.columns.iter().zip(want.columns.iter()) {
            assert_eq!(gc.name, wc.name);
            assert_eq!(gc.data_type, wc.data_type);
            assert_eq!(gc.is_nullable, wc.is_nullable);
        }
    }
}

#[test]
fn sparse_row_skips_absent_columns() {
    // A data line binding only `a` and `c` yields a two-value row.
    let text = "#table=t\n+schema:\n%|a|number|n_null\n%|b|number|n_null\n%|c|number|n_null\n-schema\n+data:\n%a=_=1|c=_=3\n-data\n";
    let outcome = decode(text);
    assert!(outcome.error.is_none());
    assert_eq!(outcome.tables.len(), 1);
    assert_eq!(
        outcome.tables[0].data[0],
        vec![TaggedValue::Integer(1), TaggedValue::Integer(3)]
    );
}

#[test]
fn header_without_equals_is_fatal() {
    // A well-formed table precedes the bad header: it is preserved,
    // and the decode as a whole reports the failure.
    let text = "#table=good\n+schema:\n%|a|number|n_null\n-schema\n+data:\n%a=_=1\n-data\n\n\n#table\n+schema:\n-schema\n";
    let outcome = decode(text);
    assert_eq!(outcome.error, Some(DecodeError::InvalidHeader));
    assert_eq!(outcome.tables.len(), 1);
    assert_eq!(outcome.tables[0].name, "good");
    assert_eq!(outcome.tables[0].data[0], vec![TaggedValue::Integer(1)]);
}

#[test]
fn malformed_lines_are_skipped() {
    // A short schema line and a pairless data field are dropped, not
    // fatal.
    let text = "#table=t\n+schema:\n%|a|number|n_null\n%|short\n-schema\n+data:\n%a=_=1|junk\n-data\n";
    let outcome = decode(text);
    assert!(outcome.error.is_none());
    let t = &outcome.tables[0];
    assert_eq!(t.columns.len(), 1);
    assert_eq!(t.data[0], vec![TaggedValue::Integer(1)]);
}

#[test]
fn duplicate_data_binding_last_wins() {
    let text = "#table=t\n+schema:\n%|a|number|n_null\n-schema\n+data:\n%a=_=1|a=_=2\n-data\n";
    let outcome = decode(text);
    assert_eq!(outcome.tables[0].data[0], vec![TaggedValue::Integer(2)]);
}

#[test]
fn decode_empty_input_yields_nothing() {
    let outcome = decode("");
    assert!(outcome.error.is_none());
    assert!(outcome.tables.is_empty());
}

#[test]
fn csv_projection_is_plain_and_unquoted() {
    let result = PostgresResult {
        columns: vec!["id".to_string(), "ok".to_string(), "note".to_string()],
        rows: vec![
            vec![
                TaggedValue::Integer(1),
                TaggedValue::Boolean(true),
                TaggedValue::Text("fine".to_string()),
            ],
            vec![TaggedValue::Integer(2), TaggedValue::Boolean(false), TaggedValue::Null],
        ],
    };
    assert_eq!(csv_project(&result), "id,ok,note\n1,true,fine\n2,false,");
}

#[test]
fn csv_projection_of_header_only() {
    let result = PostgresResult { columns: vec!["a".to_string()], rows: vec![] };
    assert_eq!(csv_project(&result), "a");
}

#[test]
fn internal_table_names_are_not_exported() {
    assert!(!is_exported_table_name("pg_catalog"));
    assert!(is_exported_table_name("users"));
    assert!(is_exported_table_name("x"));
}
