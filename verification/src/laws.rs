//! Laws of the reconciliation engine, proved against the plan and
//! execution model: what a run does against an empty state, and that an
//! unchanged declaration is a no-op.

use vstd::prelude::*;
use crate::files::lock::Commit;
use crate::plan::Decision;
use crate::plan::SchemaPlan;
use crate::plan::commit_count;
use crate::plan::commits_upto;
use crate::plan::field_commits_upto;
use crate::plan::field_decision_at;
use crate::plan::field_type_view;
use crate::plan::lemma_field_type_view_ids_agree;
use crate::plan::plan_of;
use crate::plan::plans_exec_ok;
use crate::plan::plans_wf;
use crate::plan::schema_decision;
use crate::plan::schema_exec_ok;
use crate::schema::Schema;
use crate::state::CurrentSchema;
use crate::state::ids_view;

verus! {

/// Total number of definitions a plan declares: one per field plus one per
/// schema.
pub open spec fn total_definitions(plans: Seq<SchemaPlan>, upto: int) -> int
    decreases upto,
{
    if upto <= 0 {
        0
    } else {
        total_definitions(plans, upto - 1) + plans[upto - 1].fields@.len() + 1
    }
}

/// With no current definition anywhere, every field decision is Create.
proof fn lemma_field_commits_all_create(
    plans: Seq<SchemaPlan>,
    i: int,
    ids: Seq<Seq<char>>,
    upto: int,
)
    requires
        0 <= i < plans.len(),
        0 <= upto <= plans[i].fields@.len(),
        forall|j: int| 0 <= j < plans[i].fields@.len() ==> (#[trigger] plans[i].fields@[j]).current is None,
    ensures
        field_commits_upto(plans, i, ids, upto) == upto,
    decreases upto,
{
    if upto > 0 {
        lemma_field_commits_all_create(plans, i, ids, upto - 1);
        assert(plans[i].fields@[upto - 1].current is None);
        assert(field_decision_at(plans, i, upto - 1, ids) is Create);
    }
}

/// Planning against an empty current state yields one Create per declared
/// field and one Create per schema, no NoOps and no Updates: a run
/// produces exactly one commit for every declared definition.
pub proof fn lemma_empty_state_all_creates(
    sorted: Seq<Schema>,
    plans: Seq<SchemaPlan>,
    ids: Seq<Seq<char>>,
    fidss: Seq<Seq<Seq<char>>>,
    commits: Seq<Commit>,
)
    requires
        plans_wf(plans),
        plan_of(sorted, Seq::<CurrentSchema>::empty(), plans),
        plans_exec_ok(plans, ids, fidss, commits),
    ensures
        forall|i: int| 0 <= i < plans.len() ==> schema_decision(#[trigger] plans[i], fidss[i]) is Create,
        forall|i: int, j: int|
            0 <= i < plans.len() && 0 <= j < plans[i].fields@.len() ==> (
            #[trigger] field_decision_at(plans, i, j, ids)) is Create,
        commits.len() == total_definitions(plans, plans.len() as int),
{
    assert forall|i: int| 0 <= i < plans.len() implies (#[trigger] plans[i]).current is None
        && forall|j: int|
        0 <= j < plans[i].fields@.len() ==> (#[trigger] plans[i].fields@[j]).current is None by {
        assert(crate::plan::plan_schema_of(sorted, Seq::<CurrentSchema>::empty(), plans, i));
        if plans[i].current is Some {
            assert(false);
        }
        assert forall|j: int|
            0 <= j < plans[i].fields@.len() implies (
        #[trigger] plans[i].fields@[j]).current is None by {
            assert(crate::plan::plan_field_of(
                sorted[i],
                plans[i].current,
                plans.take(i),
                plans[i].fields@[j],
                j,
            ));
            if plans[i].fields@[j].current is Some {
                assert(false);
            }
        }
    }
    assert forall|i: int| 0 <= i < plans.len() implies schema_decision(
        #[trigger] plans[i],
        fidss[i],
    ) is Create by {}
    lemma_commits_upto_all_create(plans, ids, fidss, plans.len() as int);
}

/// Sums the all-Create commit counts over a plan prefix.
proof fn lemma_commits_upto_all_create(
    plans: Seq<SchemaPlan>,
    ids: Seq<Seq<char>>,
    fidss: Seq<Seq<Seq<char>>>,
    upto: int,
)
    requires
        upto <= plans.len(),
        forall|i: int| 0 <= i < plans.len() ==> (#[trigger] plans[i]).current is None,
        forall|i: int, j: int|
            0 <= i < plans.len() && 0 <= j < (#[trigger] plans[i]).fields@.len() ==> (
            #[trigger] plans[i].fields@[j]).current is None,
    ensures
        commits_upto(plans, ids, fidss, upto) == total_definitions(plans, upto),
    decreases upto,
{
    if upto > 0 {
        lemma_commits_upto_all_create(plans, ids, fidss, upto - 1);
        lemma_field_commits_all_create(plans, upto - 1, ids, plans[upto - 1].fields@.len() as int);
        assert(schema_decision(plans[upto - 1], fidss[upto - 1]) is Create);
    }
}

/// The view id each schema already has in the current state.
pub open spec fn current_ids(plans: Seq<SchemaPlan>) -> Seq<Seq<char>> {
    Seq::new(plans.len(), |i: int| plans[i].current->Some_0.view_id@)
}

/// The view id each field of schema `i` already has in the current state.
pub open spec fn current_field_ids(plans: Seq<SchemaPlan>, i: int) -> Seq<Seq<char>> {
    Seq::new(plans[i].fields@.len(), |j: int| plans[i].fields@[j].current->Some_0.view_id@)
}

/// The plan finds the current state already as declared: every schema and
/// every field has a current definition, descriptions match, the recorded
/// field lists match, and every field's current concrete type equals the
/// declared one resolved against the current view ids.
pub open spec fn plan_unchanged(plans: Seq<SchemaPlan>) -> bool {
    forall|i: int|
        0 <= i < plans.len() ==> {
            let sp = #[trigger] plans[i];
            &&& sp.current is Some
            &&& sp.current->Some_0.description@ == sp.description@
            &&& ids_view(sp.current->Some_0.field_ids@) == current_field_ids(plans, i)
            &&& forall|j: int|
                0 <= j < sp.fields@.len() ==> {
                    &&& (#[trigger] sp.fields@[j]).current is Some
                    &&& sp.fields@[j].current->Some_0.field_type@ == field_type_view(
                        plans,
                        i,
                        j,
                        current_ids(plans),
                    )
                }
        }
}

/// When all field decisions up to `upto` are NoOp, no field commit is
/// produced.
proof fn lemma_field_commits_all_noop(
    plans: Seq<SchemaPlan>,
    i: int,
    ids: Seq<Seq<char>>,
    upto: int,
)
    requires
        0 <= upto,
        forall|j: int| 0 <= j < upto ==> (#[trigger] field_decision_at(plans, i, j, ids)) is NoOp,
    ensures
        field_commits_upto(plans, i, ids, upto) == 0,
    decreases upto,
{
    if upto > 0 {
        lemma_field_commits_all_noop(plans, i, ids, upto - 1);
        assert(field_decision_at(plans, i, upto - 1, ids) is NoOp);
    }
}

/// One schema of an unchanged plan, stepped by the executor with the
/// earlier view ids stationary: its decision is NoOp, its segment is
/// empty, and its assigned view id is the current one.
#[verifier::spinoff_prover]
pub(crate) proof fn lemma_unchanged_schema_step(
    plans: Seq<SchemaPlan>,
    ids_full: Seq<Seq<char>>,
    fids: Seq<Seq<char>>,
    seg: Seq<Commit>,
    i: int,
)
    requires
        plans_wf(plans),
        plan_unchanged(plans),
        0 <= i < plans.len(),
        i < ids_full.len(),
        forall|t: int| 0 <= t < i ==> ids_full[t] == current_ids(plans)[t],
        schema_exec_ok(plans, i, ids_full, fids, seg),
    ensures
        schema_decision(plans[i], fids) is NoOp,
        seg.len() == 0,
        ids_full[i] == current_ids(plans)[i],
{
    let sp = plans[i];
    let nf = sp.fields@.len() as int;
    lemma_unchanged_fields_noop(plans, ids_full, i);
    lemma_field_commits_all_noop(plans, i, ids_full, nf);
    assert forall|j: int| 0 <= j < nf implies fids[j] == current_field_ids(plans, i)[j] by {
        assert(field_decision_at(plans, i, j, ids_full) is NoOp);
    }
    assert(fids =~= current_field_ids(plans, i));
    assert(ids_view(sp.current->Some_0.field_ids@) == fids);
    assert(schema_decision(sp, fids) is NoOp);
    assert(ids_full[i] == sp.current->Some_0.view_id@);
}

/// Replanning an unchanged declaration yields no commit at all, and every
/// schema keeps the view id it already had: a full run against the lock
/// file it just produced is idempotent.
pub proof fn lemma_unchanged_no_commits(
    plans: Seq<SchemaPlan>,
    ids: Seq<Seq<char>>,
    fidss: Seq<Seq<Seq<char>>>,
    commits: Seq<Commit>,
)
    requires
        plans_wf(plans),
        plan_unchanged(plans),
        plans_exec_ok(plans, ids, fidss, commits),
    ensures
        commits.len() == 0,
        ids == current_ids(plans),
        forall|i: int|
            0 <= i < plans.len() ==> schema_decision(#[trigger] plans[i], fidss[i]) is NoOp,
        forall|i: int, j: int|
            0 <= i < plans.len() && 0 <= j < plans[i].fields@.len() ==> (
            #[trigger] field_decision_at(plans, i, j, ids)) is NoOp,
    decreases plans.len(),
{
    lemma_unchanged_prefix(plans, ids, fidss, commits, plans.len() as int);
    assert(ids =~= current_ids(plans));
}

/// Against an unchanged current state whose earlier schemas kept their
/// view ids, every field of schema `i` resolves to its current concrete
/// type, so every field decision is NoOp.
#[verifier::spinoff_prover]
pub(crate) proof fn lemma_unchanged_fields_noop(plans: Seq<SchemaPlan>, ids: Seq<Seq<char>>, i: int)
    requires
        plans_wf(plans),
        plan_unchanged(plans),
        0 <= i < plans.len(),
        i <= ids.len(),
        forall|t: int| 0 <= t < i ==> ids[t] == current_ids(plans)[t],
    ensures
        forall|j: int|
            0 <= j < plans[i].fields@.len() ==> (#[trigger] field_decision_at(
                plans,
                i,
                j,
                ids,
            )) is NoOp,
{
    assert forall|j: int| 0 <= j < plans[i].fields@.len() implies (#[trigger] field_decision_at(
        plans,
        i,
        j,
        ids,
    )) is NoOp by {
        assert forall|t: int| 0 <= t < i implies ids[t] == current_ids(plans)[t] by {}
        lemma_field_type_view_ids_agree(plans, i, j, ids, current_ids(plans));
        assert(plans[i].fields@[j].current->Some_0.field_type@ == field_type_view(
            plans,
            i,
            j,
            current_ids(plans),
        ));
    }
}

/// The inductive core of the idempotence law: through any prefix of the
/// plan, every decision is NoOp, no commit is produced, and the assigned
/// view ids are the current ones.
#[verifier::rlimit(100)]
#[verifier::spinoff_prover]
proof fn lemma_unchanged_prefix(
    plans: Seq<SchemaPlan>,
    ids: Seq<Seq<char>>,
    fidss: Seq<Seq<Seq<char>>>,
    commits: Seq<Commit>,
    upto: int,
)
    requires
        plans_wf(plans),
        plan_unchanged(plans),
        plans_exec_ok(plans, ids, fidss, commits),
        0 <= upto <= plans.len(),
    ensures
        forall|t: int| 0 <= t < upto ==> ids[t] == current_ids(plans)[t],
        forall|t: int| 0 <= t < upto ==> schema_decision(#[trigger] plans[t], fidss[t]) is NoOp,
        forall|t: int, j: int|
            0 <= t < upto && 0 <= j < plans[t].fields@.len() ==> (#[trigger] field_decision_at(
                plans,
                t,
                j,
                ids,
            )) is NoOp,
        commits_upto(plans, ids, fidss, upto) == 0,
        upto == plans.len() ==> commits.len() == 0,
    decreases upto,
{
    if upto > 0 {
        let i = upto - 1;
        lemma_unchanged_prefix(plans, ids, fidss, commits, i);
        let sp = plans[i];
        let nf = sp.fields@.len() as int;
        lemma_unchanged_fields_noop(plans, ids, i);
        lemma_field_commits_all_noop(plans, i, ids, nf);
        assert(schema_exec_ok(
            plans,
            i,
            ids,
            fidss[i],
            commits.subrange(
                commits_upto(plans, ids, fidss, i),
                commits_upto(plans, ids, fidss, i + 1),
            ),
        ));
        assert forall|j: int| 0 <= j < nf implies fidss[i][j] == current_field_ids(plans, i)[j] by {
            assert(field_decision_at(plans, i, j, ids) is NoOp);
        }
        assert(fidss[i] =~= current_field_ids(plans, i));
        assert(ids_view(sp.current->Some_0.field_ids@) == fidss[i]);
        assert(schema_decision(sp, fidss[i]) is NoOp);
        assert(commits_upto(plans, ids, fidss, upto) == 0);
        assert(ids[i] == sp.current->Some_0.view_id@);
        assert(ids[i] == current_ids(plans)[i]);
    }
}

/// No relation field of any schema points at the plan index `excl`.
#[verifier::opaque]
pub open spec fn no_relation_targets(plans: Seq<SchemaPlan>, excl: int) -> bool {
    forall|i: int, j: int|
        0 <= i < plans.len() && 0 <= j < plans[i].fields@.len() ==> ((
        #[trigger] plans[i].fields@[j]).field_type matches crate::plan::FieldTypePlan::Relation(
            _,
            t,
        ) ==> t != excl)
}

/// The plan finds the current state as declared everywhere except at
/// field `f0` of schema `s0`, whose current concrete type differs from
/// the declared one.
#[verifier::opaque]
pub open spec fn plan_changed_only_at(plans: Seq<SchemaPlan>, s0: int, f0: int) -> bool {
    forall|i: int|
        0 <= i < plans.len() ==> {
            let sp = #[trigger] plans[i];
            &&& sp.current is Some
            &&& sp.current->Some_0.description@ == sp.description@
            &&& ids_view(sp.current->Some_0.field_ids@) == current_field_ids(plans, i)
            &&& forall|j: int|
                0 <= j < sp.fields@.len() ==> {
                    &&& (#[trigger] sp.fields@[j]).current is Some
                    &&& ((i != s0 || j != f0) ==> sp.fields@[j].current->Some_0.field_type@
                        == field_type_view(plans, i, j, current_ids(plans)))
                    &&& ((i == s0 && j == f0) ==> sp.fields@[j].current->Some_0.field_type@
                        != field_type_view(plans, i, j, current_ids(plans)))
                }
        }
}

/// With one Update at `f0` and NoOps elsewhere, the field commits of the
/// schema number zero before `f0` and one from `f0` on.
proof fn lemma_field_commits_single(
    plans: Seq<SchemaPlan>,
    i: int,
    ids: Seq<Seq<char>>,
    upto: int,
    f0: int,
)
    requires
        0 <= upto,
        forall|j: int|
            0 <= j < upto && j != f0 ==> (#[trigger] field_decision_at(plans, i, j, ids)) is NoOp,
        f0 < upto ==> field_decision_at(plans, i, f0, ids) is Update,
    ensures
        field_commits_upto(plans, i, ids, upto) == if f0 < upto && 0 <= f0 {
            1int
        } else {
            0int
        },
    decreases upto,
{
    if upto > 0 {
        lemma_field_commits_single(plans, i, ids, upto - 1, f0);
    }
}

/// Against a current state changed only at `(s0, f0)` and with earlier and
/// later schemas keeping their ids away from `s0`, every field of schema
/// `i` other than `f0` is NoOp, and `f0` itself is Update.
#[verifier::spinoff_prover]
proof fn lemma_changed_fields(
    plans: Seq<SchemaPlan>,
    ids: Seq<Seq<char>>,
    i: int,
    s0: int,
    f0: int,
)
    requires
        plans_wf(plans),
        plan_changed_only_at(plans, s0, f0),
        no_relation_targets(plans, s0),
        0 <= i < plans.len(),
        ids.len() == plans.len(),
        forall|t: int| 0 <= t < i && t != s0 ==> ids[t] == current_ids(plans)[t],
    ensures
        forall|j: int|
            0 <= j < plans[i].fields@.len() && (i != s0 || j != f0) ==> (
            #[trigger] field_decision_at(plans, i, j, ids)) is NoOp,
        i == s0 && 0 <= f0 < plans[i].fields@.len() ==> field_decision_at(
            plans,
            i,
            f0,
            ids,
        ) is Update,
{
    reveal(plan_changed_only_at);
    reveal(no_relation_targets);
    assert forall|j: int|
        0 <= j < plans[i].fields@.len() && (i != s0 || j != f0) implies (
    #[trigger] field_decision_at(plans, i, j, ids)) is NoOp by {
        crate::plan::lemma_field_type_view_ids_agree_except(
            plans,
            i,
            j,
            ids,
            current_ids(plans),
            s0,
        );
        assert(plans[i].fields@[j].current->Some_0.field_type@ == field_type_view(
            plans,
            i,
            j,
            current_ids(plans),
        ));
    }
    if i == s0 && 0 <= f0 < plans[i].fields@.len() {
        crate::plan::lemma_field_type_view_ids_agree_except(
            plans,
            i,
            f0,
            ids,
            current_ids(plans),
            s0,
        );
        assert(plans[i].fields@[f0].current->Some_0.field_type@ != field_type_view(
            plans,
            i,
            f0,
            ids,
        ));
        assert(plans[i].fields@[f0].current is Some);
    }
}

/// One unchanged schema of the single-change run: all its fields are
/// NoOp, it signs nothing and keeps its current view id.
#[verifier::spinoff_prover]
proof fn lemma_changed_step_other(
    plans: Seq<SchemaPlan>,
    ids: Seq<Seq<char>>,
    fids: Seq<Seq<char>>,
    seg: Seq<Commit>,
    s0: int,
    f0: int,
    i: int,
)
    requires
        plans_wf(plans),
        plan_changed_only_at(plans, s0, f0),
        no_relation_targets(plans, s0),
        0 <= i < plans.len(),
        i != s0,
        ids.len() == plans.len(),
        forall|t: int| 0 <= t < i && t != s0 ==> ids[t] == current_ids(plans)[t],
        schema_exec_ok(plans, i, ids, fids, seg),
    ensures
        schema_decision(plans[i], fids) is NoOp,
        ids[i] == current_ids(plans)[i],
        seg.len() == 0,
{
    reveal(plan_changed_only_at);
    let sp = plans[i];
    let nf = sp.fields@.len() as int;
    lemma_changed_fields(plans, ids, i, s0, f0);
    lemma_field_commits_all_noop(plans, i, ids, nf);
    assert forall|j: int| 0 <= j < nf implies fids[j] == current_field_ids(plans, i)[j] by {
        assert(field_decision_at(plans, i, j, ids) is NoOp);
    }
    assert(fids =~= current_field_ids(plans, i));
    assert(ids_view(sp.current->Some_0.field_ids@) == fids);
    assert(schema_decision(sp, fids) is NoOp);
    assert(ids[i] == sp.current->Some_0.view_id@);
}

/// The changed schema of the single-change run: one field Update, and a
/// schema Update whenever the new field view id differs from the old one.
#[verifier::spinoff_prover]
proof fn lemma_changed_step_s0(
    plans: Seq<SchemaPlan>,
    ids: Seq<Seq<char>>,
    fids: Seq<Seq<char>>,
    seg: Seq<Commit>,
    s0: int,
    f0: int,
)
    requires
        plans_wf(plans),
        plan_changed_only_at(plans, s0, f0),
        no_relation_targets(plans, s0),
        0 <= s0 < plans.len(),
        0 <= f0 < plans[s0].fields@.len(),
        ids.len() == plans.len(),
        forall|t: int| 0 <= t < s0 && t != s0 ==> ids[t] == current_ids(plans)[t],
        schema_exec_ok(plans, s0, ids, fids, seg),
    ensures
        seg.len() == 1 + commit_count(schema_decision(plans[s0], fids)),
        fids[f0] == seg[0].entry_hash@,
        fids[f0] != current_field_ids(plans, s0)[f0] ==> schema_decision(
            plans[s0],
            fids,
        ) is Update,
{
    reveal(plan_changed_only_at);
    let sp = plans[s0];
    let nf = sp.fields@.len() as int;
    lemma_changed_fields(plans, ids, s0, s0, f0);
    assert(field_decision_at(plans, s0, f0, ids) is Update);
    lemma_field_commits_single(plans, s0, ids, nf, f0);
    lemma_field_commits_single(plans, s0, ids, f0, f0);
    assert(field_commits_upto(plans, s0, ids, nf) == 1);
    assert(field_commits_upto(plans, s0, ids, f0) == 0);
    assert(fids[f0] == seg[0].entry_hash@);
    if fids[f0] != current_field_ids(plans, s0)[f0] {
        assert(ids_view(sp.current->Some_0.field_ids@)[f0] == current_field_ids(plans, s0)[f0]);
        assert(ids_view(sp.current->Some_0.field_ids@) != fids);
        assert(schema_decision(sp, fids) is Update);
    }
}

/// The first induction of the single-change law: every schema other than
/// the changed one decides NoOp and keeps its current view id.
#[verifier::rlimit(100)]
#[verifier::spinoff_prover]
proof fn lemma_changed_ids_prefix(
    plans: Seq<SchemaPlan>,
    ids: Seq<Seq<char>>,
    fidss: Seq<Seq<Seq<char>>>,
    commits: Seq<Commit>,
    s0: int,
    f0: int,
    upto: int,
)
    requires
        plans_wf(plans),
        plan_changed_only_at(plans, s0, f0),
        no_relation_targets(plans, s0),
        plans_exec_ok(plans, ids, fidss, commits),
        0 <= s0 < plans.len(),
        0 <= f0 < plans[s0].fields@.len(),
        0 <= upto <= plans.len(),
    ensures
        forall|t: int| 0 <= t < upto && t != s0 ==> ids[t] == current_ids(plans)[t],
    decreases upto,
{
    if upto > 0 {
        let i = upto - 1;
        lemma_changed_ids_prefix(plans, ids, fidss, commits, s0, f0, i);
        if i != s0 {
            let a = commits_upto(plans, ids, fidss, i);
            let b = commits_upto(plans, ids, fidss, i + 1);
            let seg = commits.subrange(a, b);
            assert(schema_exec_ok(plans, i, ids, fidss[i], seg));
            lemma_changed_step_other(plans, ids, fidss[i], seg, s0, f0, i);
        }
    }
}

/// With every other schema's view id stationary, each of them decides
/// NoOp and signs nothing.
#[verifier::rlimit(100)]
#[verifier::spinoff_prover]
proof fn lemma_changed_schemas_noop(
    plans: Seq<SchemaPlan>,
    ids: Seq<Seq<char>>,
    fidss: Seq<Seq<Seq<char>>>,
    commits: Seq<Commit>,
    s0: int,
    f0: int,
)
    requires
        plans_wf(plans),
        plan_changed_only_at(plans, s0, f0),
        no_relation_targets(plans, s0),
        plans_exec_ok(plans, ids, fidss, commits),
        0 <= s0 < plans.len(),
        0 <= f0 < plans[s0].fields@.len(),
        forall|t: int| 0 <= t < plans.len() && t != s0 ==> ids[t] == current_ids(plans)[t],
    ensures
        forall|t: int|
            0 <= t < plans.len() && t != s0 ==> schema_decision(
                #[trigger] plans[t],
                fidss[t],
            ) is NoOp,
{
    assert forall|t: int| 0 <= t < plans.len() && t != s0 implies schema_decision(
        #[trigger] plans[t],
        fidss[t],
    ) is NoOp by {
        let a = commits_upto(plans, ids, fidss, t);
        let b = commits_upto(plans, ids, fidss, t + 1);
        let seg = commits.subrange(a, b);
        assert(schema_exec_ok(plans, t, ids, fidss[t], seg));
        lemma_changed_step_other(plans, ids, fidss[t], seg, s0, f0, t);
    }
}

/// The second induction of the single-change law: given that every other
/// schema decides NoOp, only the changed schema's commits count.
#[verifier::rlimit(100)]
#[verifier::spinoff_prover]
proof fn lemma_changed_count_prefix(
    plans: Seq<SchemaPlan>,
    ids: Seq<Seq<char>>,
    fidss: Seq<Seq<Seq<char>>>,
    commits: Seq<Commit>,
    s0: int,
    f0: int,
    upto: int,
)
    requires
        plans_wf(plans),
        plan_changed_only_at(plans, s0, f0),
        no_relation_targets(plans, s0),
        plans_exec_ok(plans, ids, fidss, commits),
        0 <= s0 < plans.len(),
        0 <= f0 < plans[s0].fields@.len(),
        0 <= upto <= plans.len(),
        forall|t: int|
            0 <= t < plans.len() && t != s0 ==> ids[t] == current_ids(plans)[t],
        forall|t: int|
            0 <= t < plans.len() && t != s0 ==> schema_decision(
                #[trigger] plans[t],
                fidss[t],
            ) is NoOp,
    ensures
        commits_upto(plans, ids, fidss, upto) == if s0 < upto {
            1 + commit_count(schema_decision(plans[s0], fidss[s0]))
        } else {
            0int
        },
    decreases upto,
{
    if upto > 0 {
        let i = upto - 1;
        lemma_changed_count_prefix(plans, ids, fidss, commits, s0, f0, i);
        let nf = plans[i].fields@.len() as int;
        lemma_changed_fields(plans, ids, i, s0, f0);
        if i != s0 {
            lemma_field_commits_all_noop(plans, i, ids, nf);
            assert(commit_count(schema_decision(plans[i], fidss[i])) == 0);
        } else {
            lemma_field_commits_single(plans, i, ids, nf, f0);
        }
    }
}

/// Changing exactly one field's type, with every other schema and field
/// unchanged and no schema relating to the changed one, yields exactly one
/// field Update and, whenever the newly signed entry hash differs from the
/// field's previous view id, one schema Update: two commits, touching no
/// other schema.
pub proof fn lemma_single_type_change(
    plans: Seq<SchemaPlan>,
    ids: Seq<Seq<char>>,
    fidss: Seq<Seq<Seq<char>>>,
    commits: Seq<Commit>,
    s0: int,
    f0: int,
)
    requires
        plans_wf(plans),
        plan_changed_only_at(plans, s0, f0),
        no_relation_targets(plans, s0),
        plans_exec_ok(plans, ids, fidss, commits),
        0 <= s0 < plans.len(),
        0 <= f0 < plans[s0].fields@.len(),
    ensures
        field_decision_at(plans, s0, f0, ids) is Update,
        forall|i: int, j: int|
            0 <= i < plans.len() && 0 <= j < plans[i].fields@.len() && (i != s0 || j != f0) ==> (
            #[trigger] field_decision_at(plans, i, j, ids)) is NoOp,
        forall|i: int|
            0 <= i < plans.len() && i != s0 ==> schema_decision(
                #[trigger] plans[i],
                fidss[i],
            ) is NoOp && ids[i] == current_ids(plans)[i],
        commits.len() == 1 + commit_count(schema_decision(plans[s0], fidss[s0])),
        commits[0].entry_hash@ != current_field_ids(plans, s0)[f0] ==> schema_decision(
            plans[s0],
            fidss[s0],
        ) is Update && commits.len() == 2,
{
    lemma_changed_ids_prefix(plans, ids, fidss, commits, s0, f0, plans.len() as int);
    lemma_changed_schemas_noop(plans, ids, fidss, commits, s0, f0);
    lemma_changed_count_prefix(plans, ids, fidss, commits, s0, f0, plans.len() as int);
    lemma_changed_count_prefix(plans, ids, fidss, commits, s0, f0, s0);
    let a = commits_upto(plans, ids, fidss, s0);
    let b = commits_upto(plans, ids, fidss, s0 + 1);
    crate::plan::lemma_commits_upto_bounds(plans, ids, fidss, s0, s0 + 1);
    crate::plan::lemma_commits_upto_bounds(plans, ids, fidss, s0 + 1, plans.len() as int);
    let seg = commits.subrange(a, b);
    assert(seg.len() == b - a);
    assert(schema_exec_ok(plans, s0, ids, fidss[s0], seg));
    lemma_changed_step_s0(plans, ids, fidss[s0], seg, s0, f0);
    assert(a == 0);
    assert(commits.len() == commits_upto(plans, ids, fidss, plans.len() as int));
    assert(seg[0] == commits[0]);
    assert forall|i: int, j: int|
        0 <= i < plans.len() && 0 <= j < plans[i].fields@.len() && (i != s0 || j != f0) implies (
    #[trigger] field_decision_at(plans, i, j, ids)) is NoOp by {
        lemma_changed_fields(plans, ids, i, s0, f0);
    }
    lemma_changed_fields(plans, ids, s0, s0, f0);
}

} // verus!