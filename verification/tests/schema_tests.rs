use fishy::commands::init::template_schema_file;
use fishy::commands::publish::{publish_decision, NextArguments, PublishStep};
use fishy::error::Error;
use fishy::files::{
    FieldType, RelationId, RelationSchema, RelationSource, RelationType, SchemaField, SchemaFields,
    SchemaItem,
};
use fishy::schema::{validate_description, validate_name, Schema};

#[test]
fn validate_name_follows_the_schema_name_rules() {
    assert!(validate_name("venues"));
    assert!(validate_name("schema_a"));
    assert!(validate_name("Ab"));
    assert!(validate_name("a2"));
    assert!(!validate_name("a"));
    assert!(!validate_name(""));
    assert!(!validate_name("ends_with_underscore_"));
    assert!(!validate_name("2starts_with_digit"));
    assert!(!validate_name("has space"));
    let max = "a".repeat(64);
    assert!(validate_name(&max));
    let too_long = "a".repeat(65);
    assert!(!validate_name(&too_long));
}

#[test]
fn validate_description_caps_at_256_characters() {
    assert!(validate_description(""));
    assert!(validate_description(&"d".repeat(256)));
    assert!(!validate_description(&"d".repeat(257)));
}

#[test]
fn insert_replaces_a_field_of_the_same_name_in_place() {
    let mut fields = SchemaFields::new();
    fields.insert(
        "first".to_string(),
        SchemaField::Field {
            field_type: FieldType::Integer,
        },
    );
    fields.insert(
        "second".to_string(),
        SchemaField::Field {
            field_type: FieldType::Boolean,
        },
    );
    fields.insert(
        "first".to_string(),
        SchemaField::Field {
            field_type: FieldType::String,
        },
    );
    assert_eq!(fields.len(), 2);
    let entries = fields.iter();
    assert_eq!(entries[0].0, "first");
    assert_eq!(
        entries[0].1,
        SchemaField::Field {
            field_type: FieldType::String
        }
    );
    assert_eq!(entries[1].0, "second");
}

#[test]
fn type_labels_match_the_declaration_file_format() {
    let scalar = SchemaField::Field {
        field_type: FieldType::Float,
    };
    assert_eq!(scalar.type_label(), "float");
    let relation = SchemaField::Relation {
        field_type: RelationType::PinnedRelationList,
        schema: RelationSchema {
            id: RelationId::Name("venues".to_string()),
            external: None,
        },
    };
    assert_eq!(relation.type_label(), "pinned_relation_list");
}

#[test]
fn rendered_schema_lists_fields_under_their_labels() {
    let mut fields = SchemaFields::new();
    fields.insert(
        "title".to_string(),
        SchemaField::Field {
            field_type: FieldType::String,
        },
    );
    fields.insert(
        "venue".to_string(),
        SchemaField::Relation {
            field_type: RelationType::Relation,
            schema: RelationSchema {
                id: RelationId::Name("venues".to_string()),
                external: None,
            },
        },
    );
    let schema = Schema::new(&"events".to_string(), &"all events".to_string(), &fields);
    let item = fishy::schema_file::SchemaItem::from_schema(&schema);
    assert_eq!(item.description, "all events");
    assert_eq!(item.fields.len(), 2);
    assert_eq!(item.fields[0].0, "title");
    assert_eq!(item.fields[0].1.field_type, "str");
    assert_eq!(item.fields[1].0, "venue");
    assert_eq!(item.fields[1].1.field_type, "relation");
}

#[test]
fn lala() {
    let mut schema_item = SchemaItem {
        description: "lala".to_string(),
        fields: SchemaFields::new(),
    };

    schema_item.fields.insert(
        "some_field".into(),
        SchemaField::Relation {
            field_type: RelationType::RelationList,
            schema: RelationSchema {
                id: RelationId::Name("test".to_string()),
                external: Some(RelationSource::Git(
                    "https://github.com/pigoz/effect-crashcourse".into(),
                )),
            },
        },
    );

    schema_item.fields.insert(
        "another_field".into(),
        SchemaField::Field {
            field_type: FieldType::String,
        },
    );

    let mut schema_file = fishy::files::SchemaFile::new();
    schema_file.add_schema(
        &"test".to_string(),
        &schema_item.description,
        &schema_item.fields,
    );
    let entries = schema_file.iter();
    assert_eq!(entries.len(), 1);
    assert_eq!(entries[0].0, "test");
    assert_eq!(entries[0].1.description, "lala");
    assert_eq!(entries[0].1.fields.len(), 2);
    // The field map iterates in name order, as the declaration file does.
    assert_eq!(entries[0].1.fields.iter()[0].0, "another_field");
    assert_eq!(entries[0].1.fields.iter()[1].0, "some_field");
}

#[test]
fn fields_and_schemas_iterate_in_name_order() {
    let mut fields = SchemaFields::new();
    fields.insert(
        "zebra".to_string(),
        SchemaField::Field {
            field_type: FieldType::Integer,
        },
    );
    fields.insert(
        "alpha".to_string(),
        SchemaField::Field {
            field_type: FieldType::String,
        },
    );
    let entries = fields.iter();
    assert_eq!(entries[0].0, "alpha");
    assert_eq!(entries[1].0, "zebra");

    let mut file = fishy::files::SchemaFile::new();
    file.add_schema(&"venues".to_string(), &String::new(), &fields);
    file.add_schema(&"events".to_string(), &String::new(), &fields);
    let schemas = file.iter();
    assert_eq!(schemas[0].0, "events");
    assert_eq!(schemas[1].0, "venues");
}

#[test]
fn template_schema_file_holds_one_string_field() {
    let file = template_schema_file(&"my_schema".to_string()).expect("valid name");
    assert_eq!(file.0.len(), 1);
    assert_eq!(file.0[0].0, "my_schema");
    assert_eq!(file.0[0].1.description, "");
    assert_eq!(file.0[0].1.fields.len(), 1);
    assert_eq!(file.0[0].1.fields.iter()[0].0, "my_field");
    match template_schema_file(&"bad name".to_string()) {
        Err(Error::InvalidSchemaName { name }) => assert_eq!(name, "bad name"),
        other => panic!("expected an invalid name, got {other:?}"),
    }
}

#[test]
fn publish_decision_skips_already_published_entries() {
    let remote = Some(NextArguments {
        log_id: 0,
        seq_num: 9,
        skiplink: None,
        backlink: None,
    });
    assert_eq!(publish_decision(0, 4, &remote), Ok(PublishStep::Skip));
    assert_eq!(publish_decision(0, 9, &remote), Ok(PublishStep::Publish));
    assert_eq!(publish_decision(0, 12, &remote), Ok(PublishStep::Publish));
    assert_eq!(publish_decision(0, 4, &None), Ok(PublishStep::Publish));
    match publish_decision(1, 4, &remote) {
        Err(Error::RemoteInconsistency {
            local_log_id,
            remote_log_id,
        }) => {
            assert_eq!(local_log_id, 1);
            assert_eq!(remote_log_id, 0);
        }
        other => panic!("expected an inconsistency, got {other:?}"),
    }
}

#[test]
fn error_labels_name_the_failure() {
    let err = Error::EmptyFields {
        schema: "events".to_string(),
    };
    assert_eq!(err.label(), "schema without fields");
    let err = Error::CyclicDependency {
        name: "events".to_string(),
    };
    assert_eq!(err.label(), "cyclic dependency");
}
