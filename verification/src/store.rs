//! The trusted boundary to p2panda-rs: the in-memory log store, key pairs,
//! operation building, signing and materialized documents. Every function
//! here wraps one call into p2panda-rs; the contracts state only what that
//! crate's source shows.

use vstd::prelude::*;
use core::str::FromStr;
use p2panda_rs::document::DocumentViewId;
use p2panda_rs::document::traits::AsDocument;
use p2panda_rs::entry::EncodedEntry;
use p2panda_rs::entry::decode::decode_entry;
use p2panda_rs::entry::traits::AsEncodedEntry;
use p2panda_rs::entry::traits::AsEntry;
use p2panda_rs::operation::EncodedOperation;
use p2panda_rs::operation::OperationAction;
use p2panda_rs::operation::OperationBuilder;
use p2panda_rs::operation::OperationValue;
use p2panda_rs::operation::decode::decode_operation;
use p2panda_rs::operation::encode::encode_operation;
use p2panda_rs::operation::traits::Schematic;
use p2panda_rs::schema::FieldType as PandaFieldType;
use p2panda_rs::schema::SchemaId;
use p2panda_rs::schema::system::SchemaFieldView;
use p2panda_rs::schema::system::SchemaView;
use p2panda_rs::storage_provider::traits::DocumentStore;
use p2panda_rs::test_utils::memory_store::MemoryStore;
use p2panda_rs::test_utils::memory_store::helpers::send_to_store;
use crate::files::RelationType;
use crate::state::ConcreteType;
use crate::state::TypeView;
use crate::state::ids_view;

verus! {

#[verifier::external_type_specification]
#[verifier::external_body]
pub struct ExMemoryStore(MemoryStore);

#[verifier::external_type_specification]
#[verifier::external_body]
pub struct ExKeyPair(p2panda_rs::identity::KeyPair);

#[verifier::external_type_specification]
#[verifier::external_body]
pub struct ExOperation(p2panda_rs::operation::Operation);

#[verifier::external_type_specification]
#[verifier::external_body]
pub struct ExDocument(p2panda_rs::document::Document);

#[verifier::external_type_specification]
#[verifier::external_body]
pub struct ExSchemaFieldView(SchemaFieldView);

/// The entry hash p2panda-rs computes for a hex-encoded signed entry: a
/// function of the entry bytes alone (a BLAKE3 digest in a YASMF wrapper).
pub uninterp spec fn hash_of_entry(entry_hex: Seq<char>) -> Seq<char>;

/// The system schema an operation in the log declares itself under.
#[derive(Debug, PartialEq)]
pub enum SystemSchemaKind {
    /// A schema definition of the given version.
    SchemaDefinition(u8),
    /// A schema field definition of the given version.
    SchemaFieldDefinition(u8),
    /// Anything else, carried as its textual schema id.
    Other(String),
}

/// Ghost-level value of a decoded system schema kind.
pub enum SystemSchemaKindView {
    SchemaDefinition(u8),
    SchemaFieldDefinition(u8),
    Other(Seq<char>),
}

impl View for SystemSchemaKind {
    type V = SystemSchemaKindView;

    open spec fn view(&self) -> SystemSchemaKindView {
        match self {
            SystemSchemaKind::SchemaDefinition(v) => SystemSchemaKindView::SchemaDefinition(*v),
            SystemSchemaKind::SchemaFieldDefinition(v) => SystemSchemaKindView::SchemaFieldDefinition(
                *v,
            ),
            SystemSchemaKind::Other(id) => SystemSchemaKindView::Other(id@),
        }
    }
}

/// The system schema kind a hex-encoded operation decodes to, or nothing
/// when it does not decode: a function of the operation bytes alone.
pub uninterp spec fn commit_kind_of(operation_hex: Seq<char>) -> Option<SystemSchemaKindView>;

/// Whether p2panda-rs supports the given system schema version: fixed by
/// that crate's built-in schema set.
pub uninterp spec fn system_version_ok(field_definition: bool, version: u8) -> bool;

/// The author, log id and sequence number a hex-encoded signed entry
/// decodes to, or nothing when it does not decode: a function of the
/// entry bytes alone.
pub uninterp spec fn entry_meta_of(entry_hex: Seq<char>) -> Option<(Seq<char>, u64, u64)>;

/// The hex encoding of a field definition Create operation carrying
/// exactly the given name and concrete type, or nothing when no such
/// operation can be built: a function of the arguments alone.
pub uninterp spec fn field_create_hex_of(name: Seq<char>, ty: TypeView) -> Option<Seq<char>>;

/// The hex encoding of a field definition Update operation referencing
/// the given previous view id and carrying exactly the given concrete
/// type, or nothing when no such operation can be built.
pub uninterp spec fn field_update_hex_of(previous: Seq<char>, ty: TypeView) -> Option<Seq<char>>;

/// The hex encoding of a schema definition Create operation carrying
/// exactly the given name, description and ordered field view id list,
/// or nothing when no such operation can be built.
pub uninterp spec fn schema_create_hex_of(
    name: Seq<char>,
    description: Seq<char>,
    field_ids: Seq<Seq<char>>,
) -> Option<Seq<char>>;

/// The hex encoding of a schema definition Update operation referencing
/// the given previous view id and carrying exactly the attributes handed
/// in, or nothing when no such operation can be built.
pub uninterp spec fn schema_update_hex_of(
    previous: Seq<char>,
    description: Option<Seq<char>>,
    field_ids: Option<Seq<Seq<char>>>,
) -> Option<Seq<char>>;

/// Relies on hex::decode, p2panda_rs::operation::EncodedOperation::new and
/// p2panda_rs::operation::decode::decode_operation, then reads the decoded
/// operation's schema id: it reports which system schema the operation
/// declares.
#[verifier::external_body]
pub(crate) fn decode_commit_schema_id(operation_hex: &String) -> (r: Result<
    SystemSchemaKind,
    String,
>)
    ensures
        match r {
            Ok(k) => commit_kind_of(operation_hex@) == Some(k@),
            Err(_) => commit_kind_of(operation_hex@) is None,
        },
{
    let encoded = EncodedOperation::new(&hex::decode(operation_hex).map_err(|e| e.to_string())?);
    let plain = decode_operation(&encoded).map_err(|e| e.to_string())?;
    match plain.schema_id() {
        SchemaId::SchemaDefinition(v) => Ok(SystemSchemaKind::SchemaDefinition(*v)),
        SchemaId::SchemaFieldDefinition(v) => Ok(SystemSchemaKind::SchemaFieldDefinition(*v)),
        other => Ok(SystemSchemaKind::Other(other.to_string())),
    }
}

/// Relies on p2panda_rs::schema::Schema::get_system: it reports whether
/// p2panda-rs supports the given system schema version.
#[verifier::external_body]
pub(crate) fn system_schema_supported(field_definition: bool, version: u8) -> (r: bool)
    ensures
        r == system_version_ok(field_definition, version),
{
    let id = if field_definition { SchemaId::SchemaFieldDefinition(version) } else { SchemaId::SchemaDefinition(version) };
    p2panda_rs::schema::Schema::get_system(id).is_ok()
}

/// Relies on p2panda_rs::api::publish (and Schema::get_system for the
/// operation's system schema): it replays one hex-encoded commit into the
/// log store, which validates the entry against its hash chain.
#[verifier::external_body]
pub(crate) fn publish_commit(
    store: &MemoryStore,
    field_definition: bool,
    version: u8,
    entry_hex: &String,
    operation_hex: &String,
) -> (r: Result<(), String>) {
    let id = if field_definition { SchemaId::SchemaFieldDefinition(version) } else { SchemaId::SchemaDefinition(version) };
    let schema = p2panda_rs::schema::Schema::get_system(id).map_err(|e| e.to_string())?;
    let entry = EncodedEntry::from_bytes(&hex::decode(entry_hex).map_err(|e| e.to_string())?);
    let op = EncodedOperation::new(&hex::decode(operation_hex).map_err(|e| e.to_string())?);
    let plain = decode_operation(&op).map_err(|e| e.to_string())?;
    futures::executor::block_on(p2panda_rs::api::publish(store, schema, &entry, &plain, &op))
        .map_err(|e| e.to_string())?;
    Ok(())
}

/// Relies on DocumentStore::get_documents_by_schema on the in-memory
/// store: it lists every materialized schema definition document.
#[verifier::external_body]
pub(crate) fn get_schema_definition_documents(store: &MemoryStore) -> (r: Result<
    Vec<p2panda_rs::document::Document>,
    String,
>) {
    futures::executor::block_on(
        store.get_documents_by_schema(&SchemaId::SchemaDefinition(1)),
    ).map_err(|e| e.to_string())
}

/// Relies on DocumentStore::get_document_by_view_id on the in-memory
/// store: it fetches the document materialized at the given view id.
#[verifier::external_body]
pub(crate) fn get_document_by_view_id(store: &MemoryStore, view_id: &String) -> (r: Result<
    Option<p2panda_rs::document::Document>,
    String,
>) {
    let id = DocumentViewId::from_str(view_id).map_err(|e| e.to_string())?;
    futures::executor::block_on(store.get_document_by_view_id(&id)).map_err(|e| e.to_string())
}

/// Relies on p2panda_rs::schema::system::SchemaView::try_from on the
/// document's view: it reads the recorded name, description, field
/// definition view ids and the document's own view id.
#[verifier::external_body]
pub(crate) fn schema_view_of_document(doc: &p2panda_rs::document::Document) -> (r: Result<
    (String, String, Vec<String>, String),
    String,
>) {
    let view = doc.view().ok_or_else(|| "document without view".to_string())?;
    let schema_view = SchemaView::try_from(view).map_err(|e| e.to_string())?;
    let field_ids: Vec<String> = schema_view.fields().iter().map(|id| id.to_string()).collect();
    let name = schema_view.name().to_string();
    let description = schema_view.description().to_string();
    Ok((name, description, field_ids, schema_view.view_id().to_string()))
}

/// Relies on p2panda_rs::schema::system::SchemaFieldView::try_from on the
/// document's view: it reads the document back as a field definition.
#[verifier::external_body]
pub(crate) fn field_view_of_document(doc: &p2panda_rs::document::Document) -> (r: Result<
    SchemaFieldView,
    String,
>) {
    let view = doc.view().ok_or_else(|| "document without view".to_string())?;
    SchemaFieldView::try_from(view).map_err(|e| e.to_string())
}

/// Relies on SchemaFieldView::name: the field's recorded name.
#[verifier::external_body]
pub(crate) fn field_view_name(f: &SchemaFieldView) -> (r: String) {
    f.name().to_string()
}

/// Relies on SchemaFieldView::id: the view id of the field definition
/// document.
#[verifier::external_body]
pub(crate) fn field_view_id(f: &SchemaFieldView) -> (r: String) {
    f.id().to_string()
}

/// Relies on SchemaFieldView::field_type and SchemaId's textual form: the
/// field's recorded concrete type.
#[verifier::external_body]
pub(crate) fn field_view_type(f: &SchemaFieldView) -> (r: ConcreteType) {
    match f.field_type() {
        PandaFieldType::Boolean => ConcreteType::Boolean,
        PandaFieldType::Bytes => ConcreteType::Bytes,
        PandaFieldType::Integer => ConcreteType::Integer,
        PandaFieldType::Float => ConcreteType::Float,
        PandaFieldType::String => ConcreteType::Str,
        PandaFieldType::Relation(i) => ConcreteType::Relation(RelationType::Relation, i.to_string()),
        PandaFieldType::RelationList(i) => ConcreteType::Relation(RelationType::RelationList, i.to_string()),
        PandaFieldType::PinnedRelation(i) => ConcreteType::Relation(RelationType::PinnedRelation, i.to_string()),
        PandaFieldType::PinnedRelationList(i) => ConcreteType::Relation(RelationType::PinnedRelationList, i.to_string()),
    }
}

#[verifier::external_type_specification]
#[verifier::external_body]
pub struct ExOperationValue(OperationValue);

/// Relies on p2panda_rs::schema::SchemaId::from_str and p2panda's
/// From<FieldType> for OperationValue: it turns a concrete type descriptor
/// into the operation value recorded under a field definition's "type".
#[verifier::external_body]
pub(crate) fn concrete_operation_value(field_type: &ConcreteType) -> (r: Result<
    OperationValue,
    String,
>) {
    let pt = match field_type {
        ConcreteType::Boolean => PandaFieldType::Boolean,
        ConcreteType::Bytes => PandaFieldType::Bytes, ConcreteType::Integer => PandaFieldType::Integer,
        ConcreteType::Float => PandaFieldType::Float, ConcreteType::Str => PandaFieldType::String,
        ConcreteType::Relation(rt, id) => {
            let sid = SchemaId::from_str(id).map_err(|e| e.to_string())?;
            match rt {
                RelationType::Relation => PandaFieldType::Relation(sid),
                RelationType::RelationList => PandaFieldType::RelationList(sid),
                RelationType::PinnedRelation => PandaFieldType::PinnedRelation(sid),
                RelationType::PinnedRelationList => PandaFieldType::PinnedRelationList(sid) }
        },
    };
    Ok(pt.into())
}

/// Relies on p2panda_rs::operation::OperationBuilder and
/// encode::encode_operation: it builds and encodes the field definition
/// Create operation for the given name and type. The operation fields are
/// a name-keyed map and the encoding is deterministic, so the hex depends
/// on the arguments alone.
#[verifier::external_body]
pub(crate) fn build_field_create_operation(name: &String, field_type: &ConcreteType) -> (r:
    Result<(p2panda_rs::operation::Operation, String), String>)
    ensures
        r matches Ok(p) ==> Some(p.1@) == field_create_hex_of(name@, field_type@),
        r matches Err(_) ==> field_create_hex_of(name@, field_type@) is None,
{
    let tv = concrete_operation_value(field_type)?;
    let fields: Vec<(String, OperationValue)> = vec![("name".to_string(), name.clone().into()), ("type".to_string(), tv)];
    let op = OperationBuilder::new(&SchemaId::SchemaFieldDefinition(1)).action(OperationAction::Create).fields(&fields).build().map_err(|e| e.to_string())?;
    let hex = encode_operation(&op).map(|e| e.to_string()).map_err(|e| e.to_string())?;
    Ok((op, hex))
}

/// Relies on p2panda_rs::operation::OperationBuilder and
/// encode::encode_operation: it builds and encodes the field definition
/// Update operation referencing `previous` and carrying only the type.
#[verifier::external_body]
pub(crate) fn build_field_update_operation(previous: &String, field_type: &ConcreteType) -> (r:
    Result<(p2panda_rs::operation::Operation, String), String>)
    ensures
        r matches Ok(p) ==> Some(p.1@) == field_update_hex_of(previous@, field_type@),
        r matches Err(_) ==> field_update_hex_of(previous@, field_type@) is None,
{
    let tv = concrete_operation_value(field_type)?;
    let prev = DocumentViewId::from_str(previous).map_err(|e| e.to_string())?;
    let fields: Vec<(String, OperationValue)> = vec![("type".to_string(), tv)];
    let op = OperationBuilder::new(&SchemaId::SchemaFieldDefinition(1)).action(OperationAction::Update).fields(&fields).previous(&prev).build().map_err(|e| e.to_string())?;
    let hex = encode_operation(&op).map(|e| e.to_string()).map_err(|e| e.to_string())?;
    Ok((op, hex))
}

/// Relies on DocumentViewId::from_str and p2panda's From conversion: it
/// turns a view id list into the operation value recorded under a schema
/// definition's "fields".
#[verifier::external_body]
pub(crate) fn field_ids_value(ids: &Vec<String>) -> (r: Result<OperationValue, String>) {
    let v: Vec<DocumentViewId> = ids.iter().map(|i| DocumentViewId::from_str(i)).collect::<Result<_, _>>().map_err(|e| e.to_string())?;
    Ok(v.into())
}

/// Relies on p2panda_rs::operation::OperationBuilder and
/// encode::encode_operation: it builds and encodes the schema definition
/// Create operation carrying the name, description and field id list.
#[verifier::external_body]
pub(crate) fn build_schema_create_operation(
    name: &String,
    description: &String,
    field_ids: &Vec<String>,
) -> (r: Result<(p2panda_rs::operation::Operation, String), String>)
    ensures
        r matches Ok(p) ==> Some(p.1@) == schema_create_hex_of(
            name@,
            description@,
            ids_view(field_ids@),
        ),
        r matches Err(_) ==> schema_create_hex_of(name@, description@, ids_view(field_ids@)) is None,
{
    let idsv = field_ids_value(field_ids)?;
    let fields: Vec<(String, OperationValue)> = vec![("name".to_string(), name.clone().into()), ("description".to_string(), description.clone().into()), ("fields".to_string(), idsv)];
    let op = OperationBuilder::new(&SchemaId::SchemaDefinition(1)).action(OperationAction::Create).fields(&fields).build().map_err(|e| e.to_string())?;
    let hex = encode_operation(&op).map(|e| e.to_string()).map_err(|e| e.to_string())?;
    Ok((op, hex))
}

/// Relies on p2panda_rs::operation::OperationBuilder and
/// encode::encode_operation: it builds and encodes the schema definition
/// Update operation referencing `previous` and carrying exactly the
/// attributes handed in.
#[verifier::external_body]
pub(crate) fn build_schema_update_operation(
    previous: &String,
    description: Option<&String>,
    field_ids: Option<&Vec<String>>,
) -> (r: Result<(p2panda_rs::operation::Operation, String), String>)
    ensures
        r matches Ok(p) ==> Some(p.1@) == schema_update_hex_of(
            previous@,
            match description {
                Some(d) => Some(d@),
                None => None,
            },
            match field_ids {
                Some(v) => Some(ids_view(v@)),
                None => None,
            },
        ),
        r matches Err(_) ==> schema_update_hex_of(
            previous@,
            match description {
                Some(d) => Some(d@),
                None => None,
            },
            match field_ids {
                Some(v) => Some(ids_view(v@)),
                None => None,
            },
        ) is None,
{
    let mut f: Vec<(String, OperationValue)> = Vec::new();
    if let Some(d) = description {
        f.push(("description".to_string(), d.clone().into()));
    }
    if let Some(ids) = field_ids {
        f.push(("fields".to_string(), field_ids_value(ids)?));
    }
    let prev = DocumentViewId::from_str(previous).map_err(|e| e.to_string())?;
    let op = OperationBuilder::new(&SchemaId::SchemaDefinition(1)).action(OperationAction::Update).fields(&f).previous(&prev).build().map_err(|e| e.to_string())?;
    let hex = encode_operation(&op).map(|e| e.to_string()).map_err(|e| e.to_string())?;
    Ok((op, hex))
}

/// Relies on p2panda_rs::test_utils::memory_store::helpers::send_to_store
/// (and Schema::get_system for the operation's system schema): it signs
/// the operation into a new entry of the key pair's log inside the store,
/// and reports the hex entry with its hash. The hash p2panda-rs computes
/// depends on the entry bytes alone.
#[verifier::external_body]
pub(crate) fn sign_and_store(
    store: &MemoryStore,
    operation: &p2panda_rs::operation::Operation,
    field_definition: bool,
    version: u8,
    key_pair: &p2panda_rs::identity::KeyPair,
) -> (r: Result<(String, String), String>)
    ensures
        r matches Ok(he) ==> he.0@ == hash_of_entry(he.1@),
{
    let id = if field_definition { SchemaId::SchemaFieldDefinition(version) } else { SchemaId::SchemaDefinition(version) };
    let schema = p2panda_rs::schema::Schema::get_system(id).map_err(|e| e.to_string())?;
    let (encoded_entry, _) = futures::executor::block_on(send_to_store(store, operation, schema, key_pair))
        .map_err(|e| e.to_string())?;
    Ok((encoded_entry.hash().to_string(), encoded_entry.to_string()))
}

/// Relies on p2panda_rs::entry::decode::decode_entry: it reads the public
/// key, log id and sequence number recorded in a hex-encoded signed
/// entry.
#[verifier::external_body]
pub(crate) fn decode_entry_meta(entry_hex: &String) -> (r: Result<(String, u64, u64), String>)
    ensures
        match r {
            Ok(meta) => entry_meta_of(entry_hex@) == Some((meta.0@, meta.1, meta.2)),
            Err(_) => entry_meta_of(entry_hex@) is None,
        },
{
    let encoded = EncodedEntry::from_bytes(&hex::decode(entry_hex).map_err(|e| e.to_string())?);
    let entry = decode_entry(&encoded).map_err(|e| e.to_string())?;
    Ok((entry.public_key().to_string(), entry.log_id().as_u64(), entry.seq_num().as_u64()))
}

} // verus!
