//! Errors raised by the reconciliation pipeline. Every variant carries the
//! name or identifier a user needs to locate the offending input.

use vstd::prelude::*;

verus! {

/// Why a run was aborted. Validation variants are raised before any log
/// interaction; materialization variants while replaying or querying the
/// log store; signing variants while committing.
#[derive(Debug, PartialEq)]
pub enum Error {
    /// A declared schema has no fields.
    EmptyFields { schema: String },
    /// The same schema name is declared twice.
    DuplicateSchemaName { name: String },
    /// A schema name breaks the schema name rules.
    InvalidSchemaName { name: String },
    /// A schema description is too long.
    InvalidSchemaDescription { schema: String },
    /// A relation field names a target schema that is not declared.
    UnresolvedRelation { schema: String, field: String, target: String },
    /// The declared schemas relate to each other in a cycle; the named
    /// schema lies on it.
    CyclicDependency { name: String },
    /// A commit in the lock file uses an unsupported system schema version.
    IncompatibleSystemVersion { commit: usize },
    /// A commit in the lock file carries an operation for something other
    /// than a schema or schema field definition.
    InvalidSchemaId { id: String },
    /// A commit in the lock file was rejected by the log store on replay.
    PublishFailed { commit: usize, detail: String },
    /// A materialized document could not be read back as a schema or field
    /// definition.
    MalformedDocument { detail: String },
    /// Two materialized schema definitions resolve to the same name.
    DuplicateMaterializedName { name: String },
    /// A schema definition references a field document that the log store
    /// cannot resolve.
    MissingFieldDocument { view_id: String },
    /// A sign request failed; nothing produced by the run is kept.
    Signing { detail: String },
    /// The remote reports a different log id for an entry's author than
    /// the entry itself records.
    RemoteInconsistency { local_log_id: u64, remote_log_id: u64 },
}

impl Error {
    /// A short, stable label for the error kind, for user-facing output.
    pub fn label(&self) -> (r: &'static str)
        ensures
            r@ == self.spec_label(),
    {
        match self {
            Error::EmptyFields { .. } => "schema without fields",
            Error::DuplicateSchemaName { .. } => "duplicate schema name",
            Error::InvalidSchemaName { .. } => "invalid schema name",
            Error::InvalidSchemaDescription { .. } => "invalid schema description",
            Error::UnresolvedRelation { .. } => "unresolved relation target",
            Error::CyclicDependency { .. } => "cyclic dependency",
            Error::IncompatibleSystemVersion { .. } => "incompatible system schema version",
            Error::InvalidSchemaId { .. } => "invalid schema id in lock file",
            Error::PublishFailed { .. } => "lock file commit rejected on replay",
            Error::MalformedDocument { .. } => "malformed materialized document",
            Error::DuplicateMaterializedName { .. } => "duplicate materialized schema name",
            Error::MissingFieldDocument { .. } => "missing field document",
            Error::Signing { .. } => "sign request failed",
            Error::RemoteInconsistency { .. } => "remote log inconsistency",
        }
    }

    /// The label each variant maps to.
    pub open spec fn spec_label(self) -> Seq<char> {
        match self {
            Error::EmptyFields { .. } => "schema without fields"@,
            Error::DuplicateSchemaName { .. } => "duplicate schema name"@,
            Error::InvalidSchemaName { .. } => "invalid schema name"@,
            Error::InvalidSchemaDescription { .. } => "invalid schema description"@,
            Error::UnresolvedRelation { .. } => "unresolved relation target"@,
            Error::CyclicDependency { .. } => "cyclic dependency"@,
            Error::IncompatibleSystemVersion { .. } => "incompatible system schema version"@,
            Error::InvalidSchemaId { .. } => "invalid schema id in lock file"@,
            Error::PublishFailed { .. } => "lock file commit rejected on replay"@,
            Error::MalformedDocument { .. } => "malformed materialized document"@,
            Error::DuplicateMaterializedName { .. } => "duplicate materialized schema name"@,
            Error::MissingFieldDocument { .. } => "missing field document"@,
            Error::Signing { .. } => "sign request failed"@,
            Error::RemoteInconsistency { .. } => "remote log inconsistency"@,
        }
    }
}

} // verus!
