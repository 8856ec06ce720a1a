//! The state materializer: replays the lock file's commits into the log
//! store, then queries the store to reconstruct the current materialized
//! view of every schema and field definition. No field is ever
//! synthesized: a missing referenced document is an error.

use vstd::prelude::*;
use p2panda_rs::test_utils::memory_store::MemoryStore;
use crate::error::Error;
use crate::files::LockFile;
use crate::state::CurrentField;
use crate::state::CurrentSchema;
use crate::store::SystemSchemaKind;
use crate::store::SystemSchemaKindView;
use crate::store::commit_kind_of;
use crate::store::decode_commit_schema_id;
use crate::store::system_version_ok;
use crate::store::field_view_of_document;
use crate::store::field_view_id;
use crate::store::field_view_name;
use crate::store::field_view_type;
use crate::store::get_document_by_view_id;
use crate::store::get_schema_definition_documents;
use crate::store::publish_commit;
use crate::store::schema_view_of_document;
use crate::store::system_schema_supported;

verus! {

/// No two materialized schemas share a name.
pub open spec fn current_names_unique(cur: Seq<CurrentSchema>) -> bool {
    forall|i: int, j: int| 0 <= i < j < cur.len() ==> cur[i].name@ != cur[j].name@
}

/// Every materialized schema resolved one field definition per recorded
/// field view id.
pub open spec fn current_fields_complete(cur: Seq<CurrentSchema>) -> bool {
    forall|i: int|
        0 <= i < cur.len() ==> (#[trigger] cur[i]).fields@.len() == cur[i].field_ids@.len()
}

/// First index in `cur` holding a materialized schema named `name`, or -1.
pub open spec fn find_current_at(cur: Seq<CurrentSchema>, name: Seq<char>) -> int
    decreases cur.len(),
{
    if cur.len() == 0 {
        -1
    } else if cur[0].name@ == name {
        0
    } else {
        let rest = find_current_at(cur.drop_first(), name);
        if rest == -1 {
            -1
        } else {
            rest + 1
        }
    }
}

/// A found index carries the name and is the first to do so.
pub proof fn lemma_find_current_at_spec(cur: Seq<CurrentSchema>, name: Seq<char>)
    ensures
        find_current_at(cur, name) == -1 ==> forall|k: int|
            0 <= k < cur.len() ==> (#[trigger] cur[k]).name@ != name,
        find_current_at(cur, name) != -1 ==> {
            let at = find_current_at(cur, name);
            &&& 0 <= at < cur.len()
            &&& cur[at].name@ == name
            &&& forall|k: int| 0 <= k < at ==> (#[trigger] cur[k]).name@ != name
        },
    decreases cur.len(),
{
    if cur.len() > 0 {
        lemma_find_current_at_spec(cur.drop_first(), name);
        if cur[0].name@ != name {
            let rest = find_current_at(cur.drop_first(), name);
            if rest == -1 {
                assert forall|k: int| 0 <= k < cur.len() implies (#[trigger] cur[k]).name@
                    != name by {
                    if k > 0 {
                        assert(cur[k] == cur.drop_first()[k - 1]);
                    }
                }
            } else {
                assert(cur[rest + 1] == cur.drop_first()[rest]);
                assert forall|k: int| 0 <= k < rest + 1 implies (#[trigger] cur[k]).name@
                    != name by {
                    if k > 0 {
                        assert(cur[k] == cur.drop_first()[k - 1]);
                    }
                }
            }
        }
    }
}

/// First index in `fields` holding a materialized field named `name`, or
/// -1.
pub open spec fn find_current_field_at(fields: Seq<CurrentField>, name: Seq<char>) -> int
    decreases fields.len(),
{
    if fields.len() == 0 {
        -1
    } else if fields[0].name@ == name {
        0
    } else {
        let rest = find_current_field_at(fields.drop_first(), name);
        if rest == -1 {
            -1
        } else {
            rest + 1
        }
    }
}

/// A found index carries the name and is the first to do so.
pub proof fn lemma_find_current_field_at_spec(fields: Seq<CurrentField>, name: Seq<char>)
    ensures
        find_current_field_at(fields, name) == -1 ==> forall|k: int|
            0 <= k < fields.len() ==> (#[trigger] fields[k]).name@ != name,
        find_current_field_at(fields, name) != -1 ==> {
            let at = find_current_field_at(fields, name);
            &&& 0 <= at < fields.len()
            &&& fields[at].name@ == name
            &&& forall|k: int| 0 <= k < at ==> (#[trigger] fields[k]).name@ != name
        },
    decreases fields.len(),
{
    if fields.len() > 0 {
        lemma_find_current_field_at_spec(fields.drop_first(), name);
        if fields[0].name@ != name {
            let rest = find_current_field_at(fields.drop_first(), name);
            if rest == -1 {
                assert forall|k: int| 0 <= k < fields.len() implies (#[trigger] fields[k]).name@
                    != name by {
                    if k > 0 {
                        assert(fields[k] == fields.drop_first()[k - 1]);
                    }
                }
            } else {
                assert(fields[rest + 1] == fields.drop_first()[rest]);
                assert forall|k: int| 0 <= k < rest + 1 implies (#[trigger] fields[k]).name@
                    != name by {
                    if k > 0 {
                        assert(fields[k] == fields.drop_first()[k - 1]);
                    }
                }
            }
        }
    }
}

/// The commit's operation decodes to a schema or schema field definition
/// of a system version p2panda-rs supports.
pub open spec fn commit_kind_good(operation_hex: Seq<char>) -> bool {
    match commit_kind_of(operation_hex) {
        Option::Some(SystemSchemaKindView::SchemaDefinition(v)) => system_version_ok(false, v),
        Option::Some(SystemSchemaKindView::SchemaFieldDefinition(v)) => system_version_ok(
            true,
            v,
        ),
        _ => false,
    }
}

/// Replays every commit of the lock file into the log store, in file
/// order, then reads back the materialized schema definitions with their
/// resolved field definitions. Fails on an unsupported system schema
/// version, on a commit for anything but a schema or field definition, on
/// a commit the store rejects, on an unresolvable field document, and on
/// two materialized schemas sharing a name.
pub fn materialize(lock: &LockFile, store: &MemoryStore) -> (r: Result<Vec<CurrentSchema>, Error>)
    ensures
        match r {
            Ok(cur) => {
                &&& current_names_unique(cur@)
                &&& current_fields_complete(cur@)
                &&& forall|idx: int|
                    0 <= idx < lock.commits@.len() ==> commit_kind_good(
                        (#[trigger] lock.commits@[idx]).operation@,
                    )
            },
            Err(e) => {
                &&& (e matches Error::IncompatibleSystemVersion { .. } || e matches
                    Error::InvalidSchemaId { .. } || e matches Error::PublishFailed { .. }
                    || e matches Error::MalformedDocument { .. } || e matches
                    Error::MissingFieldDocument { .. } || e matches
                    Error::DuplicateMaterializedName { .. })
                &&& (e matches Error::PublishFailed { commit, .. } ==> commit
                    < lock.commits@.len() && (forall|t: int|
                    0 <= t < commit ==> commit_kind_good(
                        (#[trigger] lock.commits@[t]).operation@,
                    )) && (commit_kind_of(lock.commits@[commit as int].operation@) is None
                    || commit_kind_good(lock.commits@[commit as int].operation@)))
                &&& (e matches Error::InvalidSchemaId { id } ==> exists|idx: int|
                    0 <= idx < lock.commits@.len() && commit_kind_of(
                        (#[trigger] lock.commits@[idx]).operation@,
                    ) == Some(SystemSchemaKindView::Other(id@)) && (forall|t: int|
                        0 <= t < idx ==> commit_kind_good((#[trigger] lock.commits@[t]).operation@)))
                &&& (e matches Error::IncompatibleSystemVersion { commit } ==> commit
                    < lock.commits@.len() && (forall|t: int|
                    0 <= t < commit ==> commit_kind_good(
                        (#[trigger] lock.commits@[t]).operation@,
                    )) && match commit_kind_of(
                    lock.commits@[commit as int].operation@,
                ) {
                    Option::Some(SystemSchemaKindView::SchemaDefinition(v)) => !system_version_ok(
                        false,
                        v,
                    ),
                    Option::Some(SystemSchemaKindView::SchemaFieldDefinition(v)) => !system_version_ok(
                        true,
                        v,
                    ),
                    _ => false,
                })
            },
        },
{
    let n = lock.commits.len();
    let mut idx: usize = 0;
    while idx < n
        invariant
            n == lock.commits@.len(),
            0 <= idx <= n,
            forall|t: int|
                0 <= t < idx ==> commit_kind_good((#[trigger] lock.commits@[t]).operation@),
        decreases n - idx,
    {
        let commit = &lock.commits[idx];
        let kind = match decode_commit_schema_id(&commit.operation) {
            Ok(k) => k,
            Err(detail) => {
                return Err(Error::PublishFailed { commit: idx, detail });
            },
        };
        let (field_definition, version) = match kind {
            SystemSchemaKind::SchemaDefinition(v) => (false, v),
            SystemSchemaKind::SchemaFieldDefinition(v) => (true, v),
            SystemSchemaKind::Other(id) => {
                return Err(Error::InvalidSchemaId { id });
            },
        };
        if !system_schema_supported(field_definition, version) {
            return Err(Error::IncompatibleSystemVersion { commit: idx });
        }
        match publish_commit(store, field_definition, version, &commit.entry, &commit.operation) {
            Ok(()) => {},
            Err(detail) => {
                return Err(Error::PublishFailed { commit: idx, detail });
            },
        }
        idx = idx + 1;
    }
    let documents = match get_schema_definition_documents(store) {
        Ok(d) => d,
        Err(detail) => {
            return Err(Error::MalformedDocument { detail });
        },
    };
    let mut current: Vec<CurrentSchema> = Vec::new();
    let dn = documents.len();
    let mut d: usize = 0;
    while d < dn
        invariant
            dn == documents@.len(),
            0 <= d <= dn,
            current_names_unique(current@),
            current_fields_complete(current@),
        decreases dn - d,
    {
        let (name, description, field_ids, view_id) = match schema_view_of_document(
            &documents[d],
        ) {
            Ok(v) => v,
            Err(detail) => {
                return Err(Error::MalformedDocument { detail });
            },
        };
        let fn_count = field_ids.len();
        let mut fields: Vec<CurrentField> = Vec::new();
        let mut f: usize = 0;
        while f < fn_count
            invariant
                fn_count == field_ids@.len(),
                0 <= f <= fn_count,
                fields@.len() == f,
            decreases fn_count - f,
        {
            let field_document = match get_document_by_view_id(store, &field_ids[f]) {
                Ok(Some(doc)) => doc,
                Ok(None) => {
                    return Err(Error::MissingFieldDocument { view_id: field_ids[f].clone() });
                },
                Err(detail) => {
                    return Err(Error::MalformedDocument { detail });
                },
            };
            let field_view = match field_view_of_document(&field_document) {
                Ok(v) => v,
                Err(detail) => {
                    return Err(Error::MalformedDocument { detail });
                },
            };
            let field = CurrentField {
                name: field_view_name(&field_view),
                field_type: field_view_type(&field_view),
                view_id: field_view_id(&field_view),
            };
            fields.push(field);
            f = f + 1;
        }
        let mut c: usize = 0;
        let cn = current.len();
        while c < cn
            invariant
                cn == current@.len(),
                0 <= c <= cn,
                forall|k: int| 0 <= k < c ==> (#[trigger] current@[k]).name@ != name@,
            decreases cn - c,
        {
            if current[c].name == name {
                return Err(Error::DuplicateMaterializedName { name });
            }
            c = c + 1;
        }
        let ghost oldcur = current@;
        current.push(CurrentSchema { name, description, field_ids, view_id, fields });
        proof {
            assert forall|i: int, j: int|
                0 <= i < j < current@.len() implies current@[i].name@ != current@[j].name@ by {
                if j < oldcur.len() {
                    assert(current@[i] == oldcur[i]);
                    assert(current@[j] == oldcur[j]);
                } else {
                    assert(current@[i] == oldcur[i]);
                }
            }
            assert forall|i: int|
                0 <= i < current@.len() implies (#[trigger] current@[i]).fields@.len()
                == current@[i].field_ids@.len() by {
                if i < oldcur.len() {
                    assert(current@[i] == oldcur[i]);
                }
            }
        }
        d = d + 1;
    }
    Ok(current)
}

} // verus!
