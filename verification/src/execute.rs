//! The commit executor: walks the plan in dependency order, builds the
//! operation payload for every Create or Update decision, has the signer
//! turn it into a signed log entry, and accumulates the resulting commits.
//! NoOp nodes produce no commit and forward their existing view id.

use vstd::prelude::*;
use p2panda_rs::identity::KeyPair;
use p2panda_rs::test_utils::memory_store::MemoryStore;
use crate::error::Error;
use crate::files::lock::Commit;
use crate::plan::Decision;
use crate::plan::FieldTypePlan;
use crate::plan::SchemaPlan;
use crate::plan::field_commits_upto;
use crate::plan::field_decision;
use crate::plan::field_decision_at;
use crate::plan::field_type_view;
use crate::plan::commit_count;
use crate::plan::commits_upto;
use crate::plan::lemma_commits_upto_bounds;
use crate::plan::lemma_commits_upto_ids_agree;
use crate::plan::lemma_field_commits_upto_ids_agree;
use crate::plan::lemma_field_commits_upto_mono;
use crate::plan::lemma_field_type_view_ids_agree;
use crate::plan::lemma_schema_exec_ok_ids_agree;
use crate::plan::plans_exec_ok;
use crate::plan::plans_wf;
use crate::plan::schema_decision;
use crate::plan::schema_unchanged_at;
use crate::plan::schema_exec_ok;
use crate::state::ConcreteType;
use crate::state::ctype_eq;
use crate::state::ids_view;
use crate::state::scalar_concrete;
use crate::store::build_field_create_operation;
use crate::store::build_field_update_operation;
use crate::store::build_schema_create_operation;
use crate::store::build_schema_update_operation;
use crate::store::field_create_hex_of;
use crate::store::field_update_hex_of;
use crate::store::hash_of_entry;
use crate::store::schema_create_hex_of;
use crate::store::schema_update_hex_of;
use crate::store::sign_and_store;

verus! {

/// A commit's recorded hash is the hash of its entry.
pub open spec fn commit_wf(c: Commit) -> bool {
    c.entry_hash@ == hash_of_entry(c.entry@)
}

/// Every commit in the sequence is well-formed.
pub open spec fn commits_wf(s: Seq<Commit>) -> bool {
    forall|k: int| 0 <= k < s.len() ==> commit_wf(#[trigger] s[k])
}

/// The operation payload the executor signs for a non-NoOp field: a
/// Create carrying the declared name and concrete type when no current
/// definition exists, else an Update referencing the current view id and
/// carrying only the type.
pub open spec fn field_payload_of(
    plans: Seq<SchemaPlan>,
    i: int,
    j: int,
    ids: Seq<Seq<char>>,
) -> Option<Seq<char>> {
    match plans[i].fields@[j].current {
        Option::None => field_create_hex_of(
            plans[i].fields@[j].name@,
            field_type_view(plans, i, j, ids),
        ),
        Option::Some(curf) => field_update_hex_of(
            curf.view_id@,
            field_type_view(plans, i, j, ids),
        ),
    }
}

/// What the executor has recorded for field `k` of schema `i`: a NoOp
/// field keeps its current view id; any other field's commit sits at its
/// field-commit offset, its entry hash is the field's view id, and its
/// operation is the field's payload.
pub open spec fn field_slot_ok(
    plans: Seq<SchemaPlan>,
    i: int,
    k: int,
    ids: Seq<Seq<char>>,
    c0: int,
    commits: Seq<Commit>,
    fids: Seq<String>,
) -> bool {
    let d = field_decision_at(plans, i, k, ids);
    if d is NoOp {
        fids[k]@ == plans[i].fields@[k].current->Some_0.view_id@
    } else {
        &&& fids[k]@ == commits[c0 + field_commits_upto(plans, i, ids, k)].entry_hash@
        &&& Some(commits[c0 + field_commits_upto(plans, i, ids, k)].operation@)
            == field_payload_of(plans, i, k, ids)
    }
}

/// The operation payloads recorded in one schema's commit block: each
/// non-NoOp field's commit carries exactly its field payload, a schema
/// Create carries name, description and the assigned field id list, and a
/// schema Update references the current view id and carries exactly the
/// changed attributes.
#[verifier::opaque]
pub open spec fn schema_payloads_ok(
    plans: Seq<SchemaPlan>,
    i: int,
    ids_full: Seq<Seq<char>>,
    fids: Seq<Seq<char>>,
    added: Seq<Commit>,
) -> bool {
    let sp = plans[i];
    let sd = schema_decision(sp, fids);
    &&& forall|j: int|
        0 <= j < sp.fields@.len() && !((#[trigger] field_decision_at(
            plans,
            i,
            j,
            ids_full,
        )) is NoOp) ==> Some(added[field_commits_upto(plans, i, ids_full, j)].operation@)
            == field_payload_of(plans, i, j, ids_full)
    &&& (sd is Create ==> Some(added.last().operation@) == schema_create_hex_of(
        sp.name@,
        sp.description@,
        fids,
    ))
    &&& (sd is Update ==> Some(added.last().operation@) == schema_update_hex_of(
        sp.current->Some_0.view_id@,
        if sp.current->Some_0.description@ != sp.description@ {
            Some(sp.description@)
        } else {
            None
        },
        if ids_view(sp.current->Some_0.field_ids@) != fids {
            Some(fids)
        } else {
            None
        },
    ))
}

/// Signs operations with one key pair against one log store, accumulating
/// the commits of the run in order.
pub struct Executor<'a> {
    /// The log store new entries are signed into.
    pub store: &'a MemoryStore,
    /// The key pair that signs every entry of the run.
    pub key_pair: &'a KeyPair,
    /// Every commit produced so far, in signing order.
    pub commits: Vec<Commit>,
}

impl<'a> Executor<'a> {
    /// Starts a run with no commits.
    pub fn new(store: &'a MemoryStore, key_pair: &'a KeyPair) -> (r: Executor<'a>)
        ensures
            r.commits@.len() == 0,
            r.store == store,
            r.key_pair == key_pair,
    {
        Executor { store, key_pair, commits: Vec::new() }
    }

    /// Has the signer produce a signed entry for the operation and
    /// appends the resulting commit, recording the operation's hex
    /// encoding as handed in. Reports the new entry's hash, which serves
    /// as the view id of whatever the operation defined.
    pub fn sign(
        &mut self,
        operation: &p2panda_rs::operation::Operation,
        operation_hex: String,
        field_definition: bool,
    ) -> (r: Result<String, Error>)
        ensures
            final(self).store == old(self).store,
            final(self).key_pair == old(self).key_pair,
            match r {
                Ok(h) => {
                    &&& final(self).commits@.len() == old(self).commits@.len() + 1
                    &&& forall|k: int|
                        0 <= k < old(self).commits@.len() ==> final(self).commits@[k] == old(
                            self,
                        ).commits@[k]
                    &&& final(self).commits@.last().entry_hash@ == h@
                    &&& final(self).commits@.last().operation@ == operation_hex@
                    &&& commit_wf(final(self).commits@.last())
                },
                Err(e) => {
                    &&& final(self).commits@ == old(self).commits@
                    &&& e matches Error::Signing { .. }
                },
            },
    {
        let (entry_hash, entry) = match sign_and_store(
            self.store,
            operation,
            field_definition,
            1,
            self.key_pair,
        ) {
            Ok(x) => x,
            Err(detail) => {
                return Err(Error::Signing { detail });
            },
        };
        let commit = Commit::new(&entry_hash, &entry, &operation_hex);
        self.commits.push(commit);
        Ok(entry_hash)
    }
}

/// Decides whether two view id lists are the same.
fn id_lists_equal(a: &Vec<String>, b: &Vec<String>) -> (r: bool)
    ensures
        r == (ids_view(a@) == ids_view(b@)),
{
    let n = a.len();
    if n != b.len() {
        proof {
            assert(ids_view(a@).len() != ids_view(b@).len());
        }
        return false;
    }
    let mut i: usize = 0;
    while i < n
        invariant
            n == a@.len(),
            n == b@.len(),
            0 <= i <= n,
            forall|k: int| 0 <= k < i ==> a@[k]@ == b@[k]@,
        decreases n - i,
    {
        if !(a[i] == b[i]) {
            proof {
                assert(ids_view(a@)[i as int] == a@[i as int]@);
                assert(ids_view(b@)[i as int] == b@[i as int]@);
            }
            return false;
        }
        i = i + 1;
    }
    proof {
        assert(ids_view(a@) =~= ids_view(b@));
    }
    true
}

/// Handles one planned field: decides Create, Update or NoOp against the
/// current field, signs when needed, and reports the field's view id.
fn execute_field(
    name: &String,
    current: &Option<crate::state::CurrentField>,
    ct: &ConcreteType,
    ex: &mut Executor<'_>,
) -> (r: Result<String, Error>)
    ensures
        final(ex).store == old(ex).store,
        final(ex).key_pair == old(ex).key_pair,
        match r {
            Ok(fid) => {
                let d = field_decision(*current, ct@);
                &&& (d is NoOp ==> final(ex).commits@ == old(ex).commits@ && fid@ == current
                    ->Some_0.view_id@)
                &&& (!(d is NoOp) ==> {
                    &&& final(ex).commits@.len() == old(ex).commits@.len() + 1
                    &&& forall|k: int|
                        0 <= k < old(ex).commits@.len() ==> final(ex).commits@[k] == old(
                            ex,
                        ).commits@[k]
                    &&& commit_wf(final(ex).commits@.last())
                    &&& fid@ == final(ex).commits@.last().entry_hash@
                })
                &&& (d is Create ==> Some(final(ex).commits@.last().operation@)
                    == field_create_hex_of(name@, ct@))
                &&& (d is Update ==> Some(final(ex).commits@.last().operation@)
                    == field_update_hex_of(current->Some_0.view_id@, ct@))
            },
            Err(e) => final(ex).commits@ == old(ex).commits@ && e matches Error::Signing { .. },
        },
        field_decision(*current, ct@) is NoOp ==> r is Ok,
{
    match current {
        Some(cur) => {
            if ctype_eq(&cur.field_type, ct) {
                Ok(cur.view_id.clone())
            } else {
                let (operation, operation_hex) = match build_field_update_operation(
                    &cur.view_id,
                    ct,
                ) {
                    Ok(p) => p,
                    Err(detail) => {
                        return Err(Error::Signing { detail });
                    },
                };
                ex.sign(&operation, operation_hex, true)
            }
        },
        None => {
            let (operation, operation_hex) = match build_field_create_operation(name, ct) {
                Ok(p) => p,
                Err(detail) => {
                    return Err(Error::Signing { detail });
                },
            };
            ex.sign(&operation, operation_hex, true)
        },
    }
}

/// Handles the schema planned at `i`: its fields first, in declaration
/// order, then the schema-level decision, and reports the schema's view
/// id. The commits this appends follow the decision rules exactly, and
/// carry exactly the payloads the decisions call for.
#[verifier::rlimit(100)]
pub fn execute_schema(
    plans: &Vec<SchemaPlan>,
    i: usize,
    ids: &Vec<String>,
    ex: &mut Executor<'_>,
) -> (r: Result<(String, Ghost<Seq<Seq<char>>>), Error>)
    requires
        plans_wf(plans@),
        i < plans@.len(),
        ids@.len() == i,
    ensures
        final(ex).store == old(ex).store,
        final(ex).key_pair == old(ex).key_pair,
        final(ex).commits@.len() >= old(ex).commits@.len(),
        forall|k: int|
            0 <= k < old(ex).commits@.len() ==> final(ex).commits@[k] == old(ex).commits@[k],
        match r {
            Ok(p) => schema_exec_ok(
                plans@,
                i as int,
                ids_view(ids@).push(p.0@),
                p.1@,
                final(ex).commits@.skip(old(ex).commits@.len() as int),
            ) && commits_wf(final(ex).commits@.skip(old(ex).commits@.len() as int)),
            Err(e) => e matches Error::Signing { .. },
        },
        schema_unchanged_at(plans@, i as int, ids_view(ids@)) ==> r is Ok,
        match r {
            Ok(p) => schema_payloads_ok(
                plans@,
                i as int,
                ids_view(ids@).push(p.0@),
                p.1@,
                final(ex).commits@.skip(old(ex).commits@.len() as int),
            ),
            Err(_) => true,
        },
{
    let ghost c0 = ex.commits@.len() as int;
    let ghost idsv = ids_view(ids@);
    let sp_fields_len = plans[i].fields.len();
    let mut fids: Vec<String> = Vec::new();
    let mut j: usize = 0;
    while j < sp_fields_len
        invariant
            plans_wf(plans@),
            i < plans@.len(),
            ids@.len() == i,
            idsv == ids_view(ids@),
            sp_fields_len == plans@[i as int].fields@.len(),
            0 <= j <= sp_fields_len,
            fids@.len() == j,
            ex.store == old(ex).store,
            ex.key_pair == old(ex).key_pair,
            c0 == old(ex).commits@.len(),
            ex.commits@.len() >= c0,
            forall|k: int| 0 <= k < c0 ==> ex.commits@[k] == old(ex).commits@[k],
            ex.commits@.len() - c0 == field_commits_upto(plans@, i as int, idsv, j as int),
            commits_wf(ex.commits@.skip(c0)),
            forall|k: int|
                0 <= k < j ==> field_slot_ok(plans@, i as int, k, idsv, c0, ex.commits@, fids@),
        decreases sp_fields_len - j,
    {
        let ct: ConcreteType = match &plans[i].fields[j].field_type {
            FieldTypePlan::Field(ft) => scalar_concrete(*ft),
            FieldTypePlan::Relation(rt, t) => {
                let mut id = plans[*t].name.clone();
                id.append("_");
                id.append(ids[*t].as_str());
                ConcreteType::Relation(*rt, id)
            },
            FieldTypePlan::RelationId(rt, id) => ConcreteType::Relation(*rt, id.clone()),
        };
        proof {
            assert(ct@ == field_type_view(plans@, i as int, j as int, idsv));
        }
        let ghost pre = ex.commits@;
        let fid = match execute_field(
            &plans[i].fields[j].name,
            &plans[i].fields[j].current,
            &ct,
            ex,
        ) {
            Ok(fid) => fid,
            Err(e) => {
                proof {
                    if schema_unchanged_at(plans@, i as int, idsv) {
                        assert(field_decision_at(plans@, i as int, j as int, idsv) is NoOp);
                        assert(false);
                    }
                }
                return Err(e);
            },
        };
        let ghost fids_pre = fids@;
        fids.push(fid);
        proof {
            let d = field_decision_at(plans@, i as int, j as int, idsv);
            assert(field_commits_upto(plans@, i as int, idsv, j + 1) == field_commits_upto(
                plans@,
                i as int,
                idsv,
                j as int,
            ) + commit_count(d));
            if !(d is NoOp) {
                assert(ex.commits@.len() == pre.len() + 1);
                assert(ex.commits@[c0 + field_commits_upto(plans@, i as int, idsv, j as int)]
                    == ex.commits@.last());
                assert forall|k: int| 0 <= k < ex.commits@.len() - c0 implies commit_wf(
                    #[trigger] ex.commits@.skip(c0)[k],
                ) by {
                    if k < pre.len() - c0 {
                        assert(ex.commits@.skip(c0)[k] == pre.skip(c0)[k]);
                    } else {
                        assert(ex.commits@.skip(c0)[k] == ex.commits@.last());
                    }
                }
            }
            assert forall|k: int| 0 <= k < j + 1 implies field_slot_ok(
                plans@,
                i as int,
                k,
                idsv,
                c0,
                ex.commits@,
                fids@,
            ) by {
                if k < j {
                    assert(field_slot_ok(plans@, i as int, k, idsv, c0, pre, fids_pre));
                    assert(fids@[k] == fids_pre[k]);
                    let dk = field_decision_at(plans@, i as int, k, idsv);
                    if !(dk is NoOp) {
                        lemma_field_commits_upto_mono(plans@, i as int, idsv, k, j as int);
                        assert(c0 + field_commits_upto(plans@, i as int, idsv, k) < pre.len());
                        assert(ex.commits@[c0 + field_commits_upto(plans@, i as int, idsv, k)]
                            == pre[c0 + field_commits_upto(plans@, i as int, idsv, k)]);
                    }
                } else {
                    let dk = field_decision_at(plans@, i as int, k, idsv);
                    if !(dk is NoOp) {
                        assert(ex.commits@[c0 + field_commits_upto(plans@, i as int, idsv, k)]
                            == ex.commits@.last());
                        if plans@[i as int].fields@[k].current is None {
                            assert(dk is Create);
                            assert(Some(ex.commits@.last().operation@) == field_create_hex_of(
                                plans@[i as int].fields@[k].name@,
                                field_type_view(plans@, i as int, k, idsv),
                            ));
                        } else {
                            assert(dk is Update);
                            assert(Some(ex.commits@.last().operation@) == field_update_hex_of(
                                plans@[i as int].fields@[k].current->Some_0.view_id@,
                                field_type_view(plans@, i as int, k, idsv),
                            ));
                        }
                    }
                }
            }
        }
        j = j + 1;
    }
    let ghost field_commit_total = field_commits_upto(
        plans@,
        i as int,
        idsv,
        sp_fields_len as int,
    );
    let ghost pre_schema = ex.commits@;
    let sid: String = match &plans[i].current {
        None => {
            proof {
                assert(!schema_unchanged_at(plans@, i as int, idsv));
            }
            let (operation, operation_hex) = match build_schema_create_operation(
                &plans[i].name,
                &plans[i].description,
                &fids,
            ) {
                Ok(p) => p,
                Err(detail) => {
                    return Err(Error::Signing { detail });
                },
            };
            match ex.sign(&operation, operation_hex, false) {
                Ok(h) => h,
                Err(e) => {
                    return Err(e);
                },
            }
        },
        Some(cur) => {
            let description_same = cur.description == plans[i].description;
            let ids_same = id_lists_equal(&cur.field_ids, &fids);
            if description_same && ids_same {
                cur.view_id.clone()
            } else {
                proof {
                    if schema_unchanged_at(plans@, i as int, idsv) {
                        assert(description_same);
                        assert forall|k: int| 0 <= k < fids@.len() implies ids_view(fids@)[k]
                            == Seq::new(
                            plans@[i as int].fields@.len(),
                            |j2: int| plans@[i as int].fields@[j2].current->Some_0.view_id@,
                        )[k] by {
                            assert(field_slot_ok(plans@, i as int, k, idsv, c0, pre_schema, fids@));
                            assert(field_decision_at(plans@, i as int, k, idsv) is NoOp);
                        }
                        assert(ids_view(fids@) =~= Seq::new(
                            plans@[i as int].fields@.len(),
                            |j2: int| plans@[i as int].fields@[j2].current->Some_0.view_id@,
                        ));
                        assert(ids_same);
                        assert(false);
                    }
                }
                let description_opt = if description_same {
                    None
                } else {
                    Some(&plans[i].description)
                };
                let ids_opt = if ids_same {
                    None
                } else {
                    Some(&fids)
                };
                let (operation, operation_hex) = match build_schema_update_operation(
                    &cur.view_id,
                    description_opt,
                    ids_opt,
                ) {
                    Ok(p) => p,
                    Err(detail) => {
                        return Err(Error::Signing { detail });
                    },
                };
                match ex.sign(&operation, operation_hex, false) {
                    Ok(h) => h,
                    Err(e) => {
                        return Err(e);
                    },
                }
            }
        },
    };
    proof {
        let ids_full = idsv.push(sid@);
        let added = ex.commits@.skip(c0);
        let sd = schema_decision(plans@[i as int], ids_view(fids@));
        assert(pre_schema.len() - c0 == field_commit_total);
        if sd is NoOp {
            assert(ex.commits@ == pre_schema);
        } else {
            assert(ex.commits@.len() == pre_schema.len() + 1);
            assert(forall|k: int| 0 <= k < pre_schema.len() ==> ex.commits@[k] == pre_schema[k]);
            assert(commit_wf(ex.commits@.last()));
            assert(sid@ == ex.commits@.last().entry_hash@);
        }
        assert forall|k: int| 0 <= k < fids@.len() implies ids_view(fids@)[k] == (
        #[trigger] fids@[k])@ by {}
        assert forall|j2: int| 0 <= j2 < sp_fields_len implies {
            let d = field_decision_at(plans@, i as int, j2, ids_full);
            if d is NoOp {
                (#[trigger] ids_view(fids@)[j2]) == plans@[i as int].fields@[j2].current
                    ->Some_0.view_id@
            } else {
                ids_view(fids@)[j2] == added[field_commits_upto(
                    plans@,
                    i as int,
                    ids_full,
                    j2,
                )].entry_hash@
            }
        } by {
            lemma_field_type_view_ids_agree(plans@, i as int, j2, idsv, ids_full);
            lemma_field_commits_upto_ids_agree(plans@, i as int, idsv, ids_full, j2);
            assert(field_slot_ok(plans@, i as int, j2, idsv, c0, pre_schema, fids@));
            let d = field_decision_at(plans@, i as int, j2, idsv);
            if !(d is NoOp) {
                lemma_field_commits_upto_mono(plans@, i as int, idsv, j2, sp_fields_len as int);
                assert(fids@[j2]@ == pre_schema[c0 + field_commits_upto(
                    plans@,
                    i as int,
                    idsv,
                    j2,
                )].entry_hash@);
                assert(ex.commits@[c0 + field_commits_upto(plans@, i as int, idsv, j2)]
                    == pre_schema[c0 + field_commits_upto(plans@, i as int, idsv, j2)]);
                assert(added[field_commits_upto(plans@, i as int, idsv, j2)] == ex.commits@[c0
                    + field_commits_upto(plans@, i as int, idsv, j2)]);
            }
        }
        lemma_field_commits_upto_ids_agree(
            plans@,
            i as int,
            idsv,
            ids_full,
            sp_fields_len as int,
        );
        assert(added.len() == field_commits_upto(plans@, i as int, ids_full, sp_fields_len as int)
            + commit_count(sd));
        assert(sd is NoOp ==> ids_full[i as int] == plans@[i as int].current->Some_0.view_id@);
        assert(!(sd is NoOp) ==> ids_full[i as int] == added.last().entry_hash@);
        assert(schema_exec_ok(plans@, i as int, ids_full, ids_view(fids@), added));
        assert forall|k: int| 0 <= k < added.len() implies commit_wf(#[trigger] added[k]) by {
            if k < pre_schema.len() - c0 {
                assert(added[k] == pre_schema.skip(c0)[k]);
            } else {
                assert(added[k] == ex.commits@.last());
            }
        }
        assert(commits_wf(added));
        reveal(schema_payloads_ok);
        assert forall|j2: int|
            0 <= j2 < sp_fields_len && !((#[trigger] field_decision_at(
                plans@,
                i as int,
                j2,
                ids_full,
            )) is NoOp) implies Some(
            added[field_commits_upto(plans@, i as int, ids_full, j2)].operation@,
        ) == field_payload_of(plans@, i as int, j2, ids_full) by {
            lemma_field_type_view_ids_agree(plans@, i as int, j2, idsv, ids_full);
            lemma_field_commits_upto_ids_agree(plans@, i as int, idsv, ids_full, j2);
            assert(!(field_decision_at(plans@, i as int, j2, idsv) is NoOp));
            assert(field_slot_ok(plans@, i as int, j2, idsv, c0, pre_schema, fids@));
            lemma_field_commits_upto_mono(plans@, i as int, idsv, j2, sp_fields_len as int);
            assert(c0 + field_commits_upto(plans@, i as int, idsv, j2) < pre_schema.len());
            assert(Some(
                pre_schema[c0 + field_commits_upto(plans@, i as int, idsv, j2)].operation@,
            ) == field_payload_of(plans@, i as int, j2, idsv));
            assert(ex.commits@[c0 + field_commits_upto(plans@, i as int, idsv, j2)]
                == pre_schema[c0 + field_commits_upto(plans@, i as int, idsv, j2)]);
            assert(added[field_commits_upto(plans@, i as int, idsv, j2)] == ex.commits@[c0
                + field_commits_upto(plans@, i as int, idsv, j2)]);
            assert(field_payload_of(plans@, i as int, j2, ids_full) == field_payload_of(
                plans@,
                i as int,
                j2,
                idsv,
            ));
        }
        if sd is Create {
            assert(added.last() == ex.commits@.last());
        }
        if sd is Update {
            assert(added.last() == ex.commits@.last());
        }
        assert(schema_payloads_ok(plans@, i as int, ids_full, ids_view(fids@), added));
    }
    Ok((sid, Ghost(ids_view(fids@))))
}

/// Handles the whole plan in order, reporting the view id assigned to
/// each schema. The commits appended to the executor form one consecutive
/// block per schema, each following the decision rules exactly.
#[verifier::rlimit(100)]
pub fn execute_plans(plans: &Vec<SchemaPlan>, ex: &mut Executor<'_>) -> (r: Result<
    (Vec<String>, Ghost<Seq<Seq<Seq<char>>>>),
    Error,
>)
    requires
        plans_wf(plans@),
    ensures
        final(ex).store == old(ex).store,
        final(ex).key_pair == old(ex).key_pair,
        final(ex).commits@.len() >= old(ex).commits@.len(),
        forall|k: int|
            0 <= k < old(ex).commits@.len() ==> final(ex).commits@[k] == old(ex).commits@[k],
        match r {
            Ok(p) => {
                &&& p.0@.len() == plans@.len()
                &&& plans_exec_ok(
                    plans@,
                    ids_view(p.0@),
                    p.1@,
                    final(ex).commits@.skip(old(ex).commits@.len() as int),
                )
                &&& commits_wf(final(ex).commits@.skip(old(ex).commits@.len() as int))
            },
            Err(e) => e matches Error::Signing { .. },
        },
        crate::laws::plan_unchanged(plans@) ==> r is Ok,
{
    let ghost c0 = ex.commits@.len() as int;
    let n = plans.len();
    let mut ids: Vec<String> = Vec::new();
    let ghost mut fidss: Seq<Seq<Seq<char>>> = Seq::empty();
    let mut i: usize = 0;
    while i < n
        invariant
            plans_wf(plans@),
            n == plans@.len(),
            0 <= i <= n,
            ids@.len() == i,
            fidss.len() == i,
            ex.store == old(ex).store,
            ex.key_pair == old(ex).key_pair,
            c0 == old(ex).commits@.len(),
            ex.commits@.len() >= c0,
            forall|k: int| 0 <= k < c0 ==> ex.commits@[k] == old(ex).commits@[k],
            commits_wf(ex.commits@.skip(c0)),
            ex.commits@.len() - c0 == commits_upto(plans@, ids_view(ids@), fidss, i as int),
            crate::laws::plan_unchanged(plans@) ==> forall|t: int|
                0 <= t < i ==> ids_view(ids@)[t] == crate::laws::current_ids(plans@)[t],
            forall|k: int|
                0 <= k < i ==> schema_exec_ok(
                    plans@,
                    k,
                    ids_view(ids@),
                    #[trigger] fidss[k],
                    ex.commits@.skip(c0).subrange(
                        commits_upto(plans@, ids_view(ids@), fidss, k),
                        commits_upto(plans@, ids_view(ids@), fidss, k + 1),
                    ),
                ),
        decreases n - i,
    {
        let ghost pre = ex.commits@;
        let ghost idsv_old = ids_view(ids@);
        let ghost fidss_old = fidss;
        let (sid, fids_g) = match execute_schema(plans, i, &ids, ex) {
            Ok(p) => p,
            Err(e) => {
                proof {
                    if crate::laws::plan_unchanged(plans@) {
                        crate::laws::lemma_unchanged_fields_noop(plans@, idsv_old, i as int);
                        assert(ids_view(plans@[i as int].current->Some_0.field_ids@) =~= Seq::new(
                            plans@[i as int].fields@.len(),
                            |j2: int| plans@[i as int].fields@[j2].current->Some_0.view_id@,
                        ));
                        assert(schema_unchanged_at(plans@, i as int, idsv_old));
                        assert(false);
                    }
                }
                return Err(e);
            },
        };
        ids.push(sid);
        proof {
            fidss = fidss.push(fids_g@);
            let idsv_new = ids_view(ids@);
            assert(idsv_new =~= idsv_old.push(ids@.last()@));
            let added_i = ex.commits@.skip(pre.len() as int);
            assert(schema_exec_ok(plans@, i as int, idsv_new, fids_g@, added_i));
            if crate::laws::plan_unchanged(plans@) {
                assert(forall|t: int|
                    0 <= t < i ==> idsv_new[t] == crate::laws::current_ids(plans@)[t]);
                crate::laws::lemma_unchanged_schema_step(
                    plans@,
                    idsv_new,
                    fids_g@,
                    added_i,
                    i as int,
                );
                assert(forall|t: int|
                    0 <= t < i + 1 ==> idsv_new[t] == crate::laws::current_ids(plans@)[t]);
            }
            lemma_commits_upto_ids_agree(
                plans@,
                idsv_old,
                idsv_new,
                fidss_old,
                fidss,
                i as int,
            );
            let base = commits_upto(plans@, idsv_new, fidss, i as int);
            assert(base == pre.len() - c0);
            let sd = schema_decision(plans@[i as int], fids_g@);
            lemma_field_commits_upto_ids_agree(
                plans@,
                i as int,
                idsv_new,
                idsv_new,
                plans@[i as int].fields@.len() as int,
            );
            assert(added_i.len() == field_commits_upto(
                plans@,
                i as int,
                idsv_new,
                plans@[i as int].fields@.len() as int,
            ) + commit_count(sd));
            assert(commits_upto(plans@, idsv_new, fidss, i + 1) == base + added_i.len());
            assert(ex.commits@.len() - c0 == commits_upto(plans@, idsv_new, fidss, i + 1));
            assert forall|k: int| 0 <= k < i + 1 implies schema_exec_ok(
                plans@,
                k,
                idsv_new,
                #[trigger] fidss[k],
                ex.commits@.skip(c0).subrange(
                    commits_upto(plans@, idsv_new, fidss, k),
                    commits_upto(plans@, idsv_new, fidss, k + 1),
                ),
            ) by {
                if k < i {
                    lemma_commits_upto_ids_agree(plans@, idsv_old, idsv_new, fidss_old, fidss, k);
                    lemma_commits_upto_ids_agree(
                        plans@,
                        idsv_old,
                        idsv_new,
                        fidss_old,
                        fidss,
                        k + 1,
                    );
                    let a = commits_upto(plans@, idsv_new, fidss, k);
                    let b = commits_upto(plans@, idsv_new, fidss, k + 1);
                    lemma_commits_upto_bounds(plans@, idsv_old, fidss_old, k, k + 1);
                    lemma_commits_upto_bounds(plans@, idsv_old, fidss_old, k + 1, i as int);
                    assert(b <= pre.len() - c0);
                    assert forall|t: int| 0 <= t < b - a implies ex.commits@.skip(c0).subrange(
                        a,
                        b,
                    )[t] == pre.skip(c0).subrange(a, b)[t] by {
                        assert(c0 + a + t < pre.len());
                        assert(ex.commits@[c0 + a + t] == pre[c0 + a + t]);
                    }
                    assert(ex.commits@.skip(c0).subrange(a, b) =~= pre.skip(c0).subrange(a, b));
                    lemma_schema_exec_ok_ids_agree(
                        plans@,
                        k,
                        idsv_old,
                        idsv_new,
                        fidss[k],
                        pre.skip(c0).subrange(a, b),
                    );
                } else {
                    assert(fidss[k] == fids_g@);
                    let a = commits_upto(plans@, idsv_new, fidss, k);
                    let b = commits_upto(plans@, idsv_new, fidss, k + 1);
                    assert(ex.commits@.skip(c0).subrange(a, b) =~= added_i);
                }
            }
            assert(commits_wf(ex.commits@.skip(c0))) by {
                assert forall|k: int| 0 <= k < ex.commits@.len() - c0 implies commit_wf(
                    #[trigger] ex.commits@.skip(c0)[k],
                ) by {
                    if k < pre.len() - c0 {
                        assert(ex.commits@.skip(c0)[k] == pre.skip(c0)[k]);
                    } else {
                        assert(ex.commits@.skip(c0)[k] == added_i[k - (pre.len() - c0)]);
                    }
                }
            }
        }
        i = i + 1;
    }
    proof {
        assert(plans_exec_ok(plans@, ids_view(ids@), fidss, ex.commits@.skip(c0)));
    }
    Ok((ids, Ghost(fidss)))
}

} // verus!
