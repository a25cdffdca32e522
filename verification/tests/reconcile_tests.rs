use record_identity::errors::ReconcileError;
use record_identity::identifier::{IdentifierValue, KeyValue};
use record_identity::projection::{
    deserialize, FieldDecl, FieldKind, FieldValue, Projection, StoredValue, TypedRecord,
};
use record_identity::reconcile::{
    evaluate, project_record, verify, Expectation, Outcome, RetrievalPath, StoredRecord,
};

fn decl(name: &str, kind: FieldKind) -> FieldDecl {
    FieldDecl { name: name.to_string(), kind }
}

fn shape(fields: Vec<FieldDecl>) -> Projection {
    Projection::new(fields).expect("well-formed shape")
}

fn shape_optional() -> Projection {
    shape(vec![
        decl("rid", FieldKind::IdentityOptional),
        decl("address", FieldKind::PlainText),
    ])
}

fn shape_required() -> Projection {
    shape(vec![
        decl("rid", FieldKind::IdentityRequired),
        decl("address", FieldKind::PlainText),
    ])
}

fn shape_absent() -> Projection {
    shape(vec![decl("address", FieldKind::PlainText)])
}

fn seeded_record() -> StoredRecord {
    StoredRecord {
        id: IdentifierValue::new("building_tbl".to_string(), KeyValue::Numeric(1234567890))
            .expect("constructible identifier"),
        fields: vec![(
            "address".to_string(),
            StoredValue::Text("123 Main St".to_string()),
        )],
    }
}

fn query_with_rid() -> RetrievalPath {
    RetrievalPath::Query { identity_alias: Some("rid".to_string()) }
}

fn query_plain() -> RetrievalPath {
    RetrievalPath::Query { identity_alias: None }
}

#[test]
fn whole_collection_fetch_leaves_optional_identity_unbound() {
    let rec = seeded_record();
    let t = project_record(&rec, &RetrievalPath::WholeCollection, &shape_optional()).unwrap();
    assert!(t.value_of("rid").unwrap() == FieldValue::OptText(None));
    assert!(t.value_of("address").unwrap() == FieldValue::Text("123 Main St".to_string()));
}

#[test]
fn plain_query_behaves_like_whole_collection_fetch() {
    let rec = seeded_record();
    let t = project_record(&rec, &query_plain(), &shape_optional()).unwrap();
    assert!(t.value_of("rid").unwrap() == FieldValue::OptText(None));
    assert!(t.value_of("address").unwrap() == FieldValue::Text("123 Main St".to_string()));
}

#[test]
fn requesting_query_binds_optional_identity() {
    let rec = seeded_record();
    let t = project_record(&rec, &query_with_rid(), &shape_optional()).unwrap();
    assert!(t.value_of("rid").unwrap() == FieldValue::OptText(Some("1234567890".to_string())));
    assert!(t.value_of("address").unwrap() == FieldValue::Text("123 Main St".to_string()));
}

#[test]
fn identity_absent_shape_succeeds_on_either_path() {
    let rec = seeded_record();
    for path in [
        RetrievalPath::WholeCollection,
        query_plain(),
        query_with_rid(),
    ] {
        let t = project_record(&rec, &path, &shape_absent()).unwrap();
        assert!(t.value_of("address").unwrap() == FieldValue::Text("123 Main St".to_string()));
        assert!(t.value_of("rid").is_none());
    }
}

#[test]
fn identity_required_fails_unless_requested() {
    let rec = seeded_record();
    let e = project_record(&rec, &RetrievalPath::WholeCollection, &shape_required())
        .unwrap_err();
    assert!(e == ReconcileError::MissingIdentityField { field: "rid".to_string() });
    let e = project_record(&rec, &query_plain(), &shape_required()).unwrap_err();
    assert!(e == ReconcileError::MissingIdentityField { field: "rid".to_string() });
    let t = project_record(&rec, &query_with_rid(), &shape_required()).unwrap();
    assert!(t.value_of("rid").unwrap() == FieldValue::Text("1234567890".to_string()));
}

#[test]
fn type_mismatch_is_reported_not_defaulted() {
    let stored = vec![("address".to_string(), StoredValue::Int(7))];
    let e = deserialize(&stored, &shape_absent()).unwrap_err();
    assert!(e == ReconcileError::TypeMismatch { field: "address".to_string() });
}

#[test]
fn absent_plain_field_is_a_type_mismatch() {
    let stored: Vec<(String, StoredValue)> = Vec::new();
    let e = deserialize(&stored, &shape_absent()).unwrap_err();
    assert!(e == ReconcileError::TypeMismatch { field: "address".to_string() });
}

#[test]
fn plain_int_field_binds_integer() {
    let stored = vec![("floors".to_string(), StoredValue::Int(12))];
    let s = shape(vec![decl("floors", FieldKind::PlainInt)]);
    let t = deserialize(&stored, &s).unwrap();
    assert!(t.value_of("floors").unwrap() == FieldValue::Int(12));
}

#[test]
fn shape_constructor_refuses_duplicates_and_double_identity() {
    assert!(Projection::new(vec![
        decl("a", FieldKind::PlainText),
        decl("a", FieldKind::PlainInt),
    ])
    .is_none());
    assert!(Projection::new(vec![
        decl("a", FieldKind::IdentityOptional),
        decl("b", FieldKind::IdentityRequired),
    ])
    .is_none());
}

#[test]
fn evaluate_stops_at_first_failing_record() {
    let good = seeded_record();
    let bad = StoredRecord {
        id: IdentifierValue::new("building_tbl".to_string(), KeyValue::Numeric(7))
            .expect("constructible identifier"),
        fields: vec![("address".to_string(), StoredValue::Int(9))],
    };
    let records = vec![good, bad];
    let o = evaluate(&records, &RetrievalPath::WholeCollection, &shape_absent());
    assert!(
        o == Outcome::Failed(ReconcileError::TypeMismatch { field: "address".to_string() })
    );
}

fn expected_optional_row(rid: Option<&str>) -> TypedRecord {
    TypedRecord {
        values: vec![
            (
                "rid".to_string(),
                FieldValue::OptText(rid.map(|s| s.to_string())),
            ),
            (
                "address".to_string(),
                FieldValue::Text("123 Main St".to_string()),
            ),
        ],
    }
}

fn expectations() -> Vec<Expectation> {
    vec![
        Expectation {
            shape_index: 0,
            path: RetrievalPath::WholeCollection,
            expected: Outcome::Rows(vec![expected_optional_row(None)]),
        },
        Expectation {
            shape_index: 0,
            path: query_plain(),
            expected: Outcome::Rows(vec![expected_optional_row(None)]),
        },
        Expectation {
            shape_index: 0,
            path: query_with_rid(),
            expected: Outcome::Rows(vec![expected_optional_row(Some("1234567890"))]),
        },
        Expectation {
            shape_index: 1,
            path: RetrievalPath::WholeCollection,
            expected: Outcome::Failed(ReconcileError::MissingIdentityField {
                field: "rid".to_string(),
            }),
        },
        Expectation {
            shape_index: 2,
            path: query_with_rid(),
            expected: Outcome::Rows(vec![TypedRecord {
                values: vec![(
                    "address".to_string(),
                    FieldValue::Text("123 Main St".to_string()),
                )],
            }]),
        },
    ]
}

#[test]
fn verification_matrix_passes_for_documented_rules() {
    let records = vec![seeded_record()];
    let shapes = vec![shape_optional(), shape_required(), shape_absent()];
    let report = verify(&records, &shapes, &expectations());
    assert_eq!(report.entries.len(), 5);
    for entry in &report.entries {
        assert!(entry.passed);
    }
}

#[test]
fn verification_flags_a_wrong_expectation() {
    let records = vec![seeded_record()];
    let shapes = vec![shape_optional()];
    let exps = vec![Expectation {
        shape_index: 0,
        path: RetrievalPath::WholeCollection,
        expected: Outcome::Rows(vec![expected_optional_row(Some("1234567890"))]),
    }];
    let report = verify(&records, &shapes, &exps);
    assert_eq!(report.entries.len(), 1);
    assert!(!report.entries[0].passed);
}

#[test]
fn identity_name_reports_the_declared_identity_field() {
    assert_eq!(shape_optional().identity_name().as_deref(), Some("rid"));
    assert_eq!(shape_required().identity_name().as_deref(), Some("rid"));
    assert_eq!(shape_absent().identity_name(), None);
}

#[test]
fn engine_failures_are_their_own_error_kind() {
    let a = ReconcileError::EngineFailure { detail: "connection refused".to_string() };
    let b = ReconcileError::EngineFailure { detail: "connection refused".to_string() };
    let c = ReconcileError::EngineFailure { detail: "syntax error".to_string() };
    assert!(a == b);
    assert!(!(a == c));
    assert!(!(a == ReconcileError::MalformedIdentifier));
}

#[test]
fn repeated_verification_runs_are_identical() {
    let records = vec![seeded_record()];
    let shapes = vec![shape_optional(), shape_required(), shape_absent()];
    let first = verify(&records, &shapes, &expectations());
    let second = verify(&records, &shapes, &expectations());
    assert!(first == second);
    let third = verify(&records, &shapes, &expectations());
    assert!(second == third);
}
