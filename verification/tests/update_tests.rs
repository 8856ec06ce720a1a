use fishy::commands::update::run_update;
use fishy::error::Error;
use fishy::files::{
    FieldType, LockFile, RelationId, RelationSchema, RelationType, SchemaField, SchemaFields,
    SchemaFile,
};
use p2panda_rs::entry::traits::AsEncodedEntry;
use p2panda_rs::identity::KeyPair;
use p2panda_rs::test_utils::memory_store::MemoryStore;

fn scalar(field_type: FieldType) -> SchemaField {
    SchemaField::Field { field_type }
}

fn relation_list(target: &str) -> SchemaField {
    SchemaField::Relation {
        field_type: RelationType::RelationList,
        schema: RelationSchema {
            id: RelationId::Name(target.to_string()),
            external: None,
        },
    }
}

fn declaration(schemas: &[(&str, &[(&str, SchemaField)])]) -> SchemaFile {
    let mut file = SchemaFile::new();
    for (name, fields) in schemas {
        let mut schema_fields = SchemaFields::new();
        for (field_name, field) in fields.iter() {
            schema_fields.insert(field_name.to_string(), field.clone());
        }
        file.add_schema(&name.to_string(), &String::new(), &schema_fields);
    }
    file
}

fn run(declaration: &SchemaFile, lock: &LockFile) -> Result<LockFile, Error> {
    let store = MemoryStore::default();
    let key_pair = KeyPair::new();
    run_update(declaration, lock, &store, &key_pair).map(|(lock, _)| lock)
}

#[test]
fn empty_state_yields_one_commit_per_field_and_schema() {
    let file = declaration(&[(
        "schema_c",
        &[
            ("x", scalar(FieldType::String)),
            ("y", scalar(FieldType::Integer)),
            ("z", scalar(FieldType::Boolean)),
        ],
    )]);
    let lock = run(&file, &LockFile::new(Vec::new())).expect("run succeeds");
    assert_eq!(lock.version, 1);
    assert_eq!(lock.commits.len(), 4);
}

#[test]
fn two_schemas_with_a_relation_produce_eight_commits_in_dependency_order() {
    let file = declaration(&[
        (
            "schema_a",
            &[
                ("a", scalar(FieldType::String)),
                ("b", scalar(FieldType::Integer)),
                ("c", scalar(FieldType::Float)),
            ],
        ),
        (
            "schema_b",
            &[
                ("d", relation_list("schema_a")),
                ("e", scalar(FieldType::Boolean)),
                ("f", scalar(FieldType::Boolean)),
            ],
        ),
    ]);
    let lock = run(&file, &LockFile::new(Vec::new())).expect("run succeeds");
    assert_eq!(lock.commits.len(), 8);

    // The schema_a definition commit precedes every schema_b commit, and
    // the commit defining field `d` carries schema_a's resulting view id.
    let schema_a_view_id = &lock.commits[3].entry_hash;
    let field_d_operation = &lock.commits[4].operation;
    let operation_bytes = hex::decode(field_d_operation).expect("hex operation");
    let decoded = p2panda_rs::operation::decode::decode_operation(
        &p2panda_rs::operation::EncodedOperation::new(&operation_bytes),
    )
    .expect("operation decodes");
    let plain = format!("{decoded:?}");
    assert!(
        plain.contains(schema_a_view_id.as_str()),
        "field d must reference schema_a's view id"
    );
}

#[test]
fn rerunning_an_unchanged_declaration_adds_no_commits() {
    let file = declaration(&[
        (
            "schema_a",
            &[
                ("a", scalar(FieldType::String)),
                ("b", scalar(FieldType::Integer)),
                ("c", scalar(FieldType::Float)),
            ],
        ),
        (
            "schema_b",
            &[
                ("d", relation_list("schema_a")),
                ("e", scalar(FieldType::Boolean)),
                ("f", scalar(FieldType::Boolean)),
            ],
        ),
    ]);
    let first = run(&file, &LockFile::new(Vec::new())).expect("first run succeeds");
    assert_eq!(first.commits.len(), 8);
    let second = run(&file, &first).expect("second run succeeds");
    assert_eq!(second.commits.len(), 8);
    assert_eq!(second, first);
}

#[test]
fn changing_one_field_type_updates_field_and_schema_only() {
    let before = declaration(&[
        (
            "schema_x",
            &[
                ("p", scalar(FieldType::String)),
                ("q", scalar(FieldType::Integer)),
            ],
        ),
        ("schema_y", &[("r", scalar(FieldType::Boolean))]),
    ]);
    let first = run(&before, &LockFile::new(Vec::new())).expect("first run succeeds");
    assert_eq!(first.commits.len(), 5);

    let after = declaration(&[
        (
            "schema_x",
            &[
                ("p", scalar(FieldType::String)),
                ("q", scalar(FieldType::Float)),
            ],
        ),
        ("schema_y", &[("r", scalar(FieldType::Boolean))]),
    ]);
    let second = run(&after, &first).expect("second run succeeds");
    assert_eq!(
        second.commits.len(),
        7,
        "one field update and one schema update"
    );
    assert_eq!(second.commits[..5], first.commits[..]);
}

#[test]
fn commit_entry_hashes_are_the_hashes_of_their_entries() {
    let file = declaration(&[("schema_c", &[("x", scalar(FieldType::String))])]);
    let lock = run(&file, &LockFile::new(Vec::new())).expect("run succeeds");
    assert_eq!(lock.commits.len(), 2);
    for commit in &lock.commits {
        let entry_bytes = hex::decode(&commit.entry).expect("hex entry");
        let recomputed = p2panda_rs::entry::EncodedEntry::from_bytes(&entry_bytes)
            .hash()
            .to_string();
        assert_eq!(commit.entry_hash, recomputed);
    }
}

#[test]
fn a_schema_without_fields_is_rejected() {
    let no_fields: &[(&str, SchemaField)] = &[];
    let file = declaration(&[("schema_c", no_fields)]);
    match run(&file, &LockFile::new(Vec::new())) {
        Err(Error::EmptyFields { schema }) => assert_eq!(schema, "schema_c"),
        other => panic!("expected an empty fields error, got {other:?}"),
    }
}

#[test]
fn an_undeclared_relation_target_is_rejected() {
    let file = declaration(&[("schema_b", &[("d", relation_list("schema_a"))])]);
    match run(&file, &LockFile::new(Vec::new())) {
        Err(Error::UnresolvedRelation {
            schema,
            field,
            target,
        }) => {
            assert_eq!(schema, "schema_b");
            assert_eq!(field, "d");
            assert_eq!(target, "schema_a");
        }
        other => panic!("expected an unresolved relation, got {other:?}"),
    }
}

#[test]
fn mutually_related_schemas_are_rejected_as_a_cycle() {
    let file = declaration(&[
        ("schema_a", &[("to_b", relation_list("schema_b"))]),
        ("schema_b", &[("to_a", relation_list("schema_a"))]),
    ]);
    match run(&file, &LockFile::new(Vec::new())) {
        Err(Error::CyclicDependency { name }) => {
            assert!(name == "schema_a" || name == "schema_b");
        }
        other => panic!("expected a cycle, got {other:?}"),
    }
}

#[test]
fn an_invalid_schema_name_is_rejected() {
    let file = declaration(&[("x", &[("a", scalar(FieldType::String))])]);
    match run(&file, &LockFile::new(Vec::new())) {
        Err(Error::InvalidSchemaName { name }) => assert_eq!(name, "x"),
        other => panic!("expected an invalid name, got {other:?}"),
    }
}
