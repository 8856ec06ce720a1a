//! File models: the declared schema set and the lock file of signed commits.

pub mod lock;
pub mod schema;

pub use lock::Commit;
pub use lock::LockFile;
pub use schema::FieldType;
pub use schema::RelationId;
pub use schema::RelationSchema;
pub use schema::RelationSource;
pub use schema::RelationType;
pub use schema::SchemaField;
pub use schema::SchemaFields;
pub use schema::SchemaFile;
pub use schema::SchemaItem;
