//! The plan builder: pairs each desired schema, in dependency order, with
//! its current materialized view, and fixes the decision rules that the
//! commit executor follows.
//!
//! Decisions per field: no current field means Create; a current field of
//! another concrete type means Update; the same type means NoOp. Decisions
//! per schema: no current view means Create; a changed description or
//! field list means Update; otherwise NoOp.

use vstd::prelude::*;
use crate::error::Error;
use crate::files::FieldType;
use crate::files::RelationId;
use crate::files::RelationType;
use crate::files::SchemaField;
use crate::files::lock::Commit;
use crate::names::find_key_at;
use crate::names::keys_unique;
use crate::names::lemma_find_key_at_spec;
use crate::schema::Schema;
use crate::state::ConcreteType;
use crate::state::CurrentField;
use crate::state::CurrentSchema;
use crate::state::TypeView;
use crate::state::ids_view;
use crate::state::scalar_view;

verus! {

/// The type a planned field will take: a declared scalar type, a relation
/// to the schema planned at an earlier index, or a relation to an
/// already-materialized schema id.
#[derive(Debug, PartialEq)]
pub enum FieldTypePlan {
    Field(FieldType),
    Relation(RelationType, usize),
    RelationId(RelationType, String),
}

/// One planned field: the declared name and type, paired with the current
/// materialized field definition of that name, when one exists.
#[derive(Debug, PartialEq)]
pub struct FieldPlan {
    pub name: String,
    pub current: Option<CurrentField>,
    pub field_type: FieldTypePlan,
}

/// One planned schema: the declared name, description and fields, paired
/// with the current materialized schema definition, when one exists.
#[derive(Debug, PartialEq)]
pub struct SchemaPlan {
    pub name: String,
    pub current: Option<CurrentSchema>,
    pub description: String,
    pub fields: Vec<FieldPlan>,
}

/// Relation fields only ever point at schemas planned strictly earlier:
/// targets precede dependents.
pub open spec fn plans_wf(plans: Seq<SchemaPlan>) -> bool {
    forall|i: int, j: int|
        0 <= i < plans.len() && 0 <= j < (#[trigger] plans[i]).fields@.len() ==> ((
        #[trigger] plans[i].fields@[j]).field_type matches FieldTypePlan::Relation(_, t) ==> t < i)
}

/// What a schema or field decision can be.
pub enum Decision {
    Create,
    Update,
    NoOp,
}

/// The concrete type the field at `plans[i].fields[j]` takes, given the
/// view ids assigned to the schemas planned before `i`.
pub open spec fn field_type_view(
    plans: Seq<SchemaPlan>,
    i: int,
    j: int,
    ids: Seq<Seq<char>>,
) -> TypeView {
    match plans[i].fields@[j].field_type {
        FieldTypePlan::Field(ft) => scalar_view(ft),
        FieldTypePlan::Relation(rt, t) => TypeView::Relation(
            rt,
            plans[t as int].name@ + "_"@ + ids[t as int],
        ),
        FieldTypePlan::RelationId(rt, id) => TypeView::Relation(rt, id@),
    }
}

/// The decision for one field: Create without a current definition, Update
/// on a changed concrete type, NoOp otherwise.
pub open spec fn field_decision(current: Option<CurrentField>, ct: TypeView) -> Decision {
    match current {
        Option::None => Decision::Create,
        Option::Some(cur) => if cur.field_type@ == ct {
            Decision::NoOp
        } else {
            Decision::Update
        },
    }
}

/// The decision for the field at `plans[i].fields[j]`.
pub open spec fn field_decision_at(
    plans: Seq<SchemaPlan>,
    i: int,
    j: int,
    ids: Seq<Seq<char>>,
) -> Decision {
    field_decision(plans[i].fields@[j].current, field_type_view(plans, i, j, ids))
}

/// How many commits a decision produces.
pub open spec fn commit_count(d: Decision) -> int {
    match d {
        Decision::NoOp => 0,
        _ => 1,
    }
}

/// How many commits the first `upto` fields of `plans[i]` produce.
pub open spec fn field_commits_upto(
    plans: Seq<SchemaPlan>,
    i: int,
    ids: Seq<Seq<char>>,
    upto: int,
) -> int
    decreases upto,
{
    if upto <= 0 {
        0
    } else {
        field_commits_upto(plans, i, ids, upto - 1) + commit_count(
            field_decision_at(plans, i, upto - 1, ids),
        )
    }
}

/// The decision for the schema at `plans[i]`, given its fields' assigned
/// view ids: Create without a current view, Update when the description or
/// the field id list changed, NoOp otherwise.
pub open spec fn schema_decision(sp: SchemaPlan, fids: Seq<Seq<char>>) -> Decision {
    match sp.current {
        Option::None => Decision::Create,
        Option::Some(cur) => if cur.description@ == sp.description@ && ids_view(cur.field_ids@)
            == fids {
            Decision::NoOp
        } else {
            Decision::Update
        },
    }
}

/// The schema planned at `i` finds the current state already as declared,
/// judged against the id assignment `ids`: a current view with the same
/// description, whose recorded field list is its fields' own view ids,
/// and every field decision NoOp. On such a node the executor has nothing
/// to sign.
pub open spec fn schema_unchanged_at(plans: Seq<SchemaPlan>, i: int, ids: Seq<Seq<char>>) -> bool {
    let sp = plans[i];
    &&& sp.current is Some
    &&& sp.current->Some_0.description@ == sp.description@
    &&& ids_view(sp.current->Some_0.field_ids@) == Seq::new(
        sp.fields@.len(),
        |j: int| sp.fields@[j].current->Some_0.view_id@,
    )
    &&& forall|j: int|
        0 <= j < sp.fields@.len() ==> (#[trigger] sp.fields@[j]).current is Some
            && field_decision_at(plans, i, j, ids) is NoOp
}

/// How the commit executor handles the schema planned at index `i`, given
/// the assigned schema view ids `ids`, its fields' assigned view ids
/// `fids`, and the commits `commits` it appended for this schema:
/// each non-NoOp field appends one commit, in field order, and its view id
/// is that commit's entry hash; each NoOp field keeps its current view id;
/// a non-NoOp schema decision appends one final commit whose entry hash
/// becomes the schema's view id; a NoOp schema keeps its current view id.
pub open spec fn schema_exec_ok(
    plans: Seq<SchemaPlan>,
    i: int,
    ids: Seq<Seq<char>>,
    fids: Seq<Seq<char>>,
    commits: Seq<Commit>,
) -> bool {
    let sp = plans[i];
    let nf = sp.fields@.len() as int;
    &&& fids.len() == nf
    &&& forall|j: int|
        0 <= j < nf ==> {
            let d = field_decision_at(plans, i, j, ids);
            if d is NoOp {
                (#[trigger] fids[j]) == plans[i].fields@[j].current->Some_0.view_id@
            } else {
                fids[j] == commits[field_commits_upto(plans, i, ids, j)].entry_hash@
            }
        }
    &&& {
        let sd = schema_decision(sp, fids);
        &&& commits.len() == field_commits_upto(plans, i, ids, nf) + commit_count(sd)
        &&& (sd is NoOp ==> ids[i] == sp.current->Some_0.view_id@)
        &&& (!(sd is NoOp) ==> ids[i] == commits.last().entry_hash@)
    }
}

/// Total commits produced by the schemas planned before `upto`, given the
/// fields' assigned view ids per schema.
pub open spec fn commits_upto(
    plans: Seq<SchemaPlan>,
    ids: Seq<Seq<char>>,
    fidss: Seq<Seq<Seq<char>>>,
    upto: int,
) -> int
    decreases upto,
{
    if upto <= 0 {
        0
    } else {
        let i = upto - 1;
        let sp = plans[i];
        commits_upto(plans, ids, fidss, i) + field_commits_upto(
            plans,
            i,
            ids,
            sp.fields@.len() as int,
        ) + commit_count(schema_decision(sp, fidss[i]))
    }
}

/// How the commit executor handles a whole plan: schemas in plan order,
/// each contributing its own consecutive block of commits.
pub open spec fn plans_exec_ok(
    plans: Seq<SchemaPlan>,
    ids: Seq<Seq<char>>,
    fidss: Seq<Seq<Seq<char>>>,
    commits: Seq<Commit>,
) -> bool {
    &&& ids.len() == plans.len()
    &&& fidss.len() == plans.len()
    &&& commits.len() == commits_upto(plans, ids, fidss, plans.len() as int)
    &&& forall|i: int|
        0 <= i < plans.len() ==> schema_exec_ok(
            plans,
            i,
            ids,
            #[trigger] fidss[i],
            commits.subrange(
                commits_upto(plans, ids, fidss, i),
                commits_upto(plans, ids, fidss, i + 1),
            ),
        )
}

/// Field commit counts are non-negative and grow with the field index.
pub proof fn lemma_field_commits_upto_mono(
    plans: Seq<SchemaPlan>,
    i: int,
    ids: Seq<Seq<char>>,
    a: int,
    b: int,
)
    requires
        0 <= a <= b,
    ensures
        0 <= field_commits_upto(plans, i, ids, a) <= field_commits_upto(plans, i, ids, b),
        b <= plans[i].fields@.len() && a < b && !(field_decision_at(plans, i, a, ids) is NoOp)
            ==> field_commits_upto(plans, i, ids, a) + 1 <= field_commits_upto(plans, i, ids, b),
    decreases b - a + a,
{
    if a == b {
        lemma_field_commits_upto_nonneg(plans, i, ids, a);
    } else {
        lemma_field_commits_upto_mono(plans, i, ids, a, b - 1);
    }
}

/// Field commit counts are non-negative.
proof fn lemma_field_commits_upto_nonneg(plans: Seq<SchemaPlan>, i: int, ids: Seq<Seq<char>>, a: int)
    ensures
        field_commits_upto(plans, i, ids, a) >= 0,
    decreases a,
{
    if a > 0 {
        lemma_field_commits_upto_nonneg(plans, i, ids, a - 1);
    }
}

/// Total commit counts are non-negative and grow with the plan prefix.
pub proof fn lemma_commits_upto_bounds(
    plans: Seq<SchemaPlan>,
    ids: Seq<Seq<char>>,
    fidss: Seq<Seq<Seq<char>>>,
    a: int,
    b: int,
)
    requires
        0 <= a <= b,
    ensures
        0 <= commits_upto(plans, ids, fidss, a) <= commits_upto(plans, ids, fidss, b),
    decreases b - a + a,
{
    if a == b {
        if a > 0 {
            lemma_commits_upto_bounds(plans, ids, fidss, a - 1, a - 1);
            lemma_field_commits_upto_nonneg(
                plans,
                a - 1,
                ids,
                plans[a - 1].fields@.len() as int,
            );
        }
    } else {
        lemma_commits_upto_bounds(plans, ids, fidss, a, b - 1);
        lemma_commits_upto_bounds(plans, ids, fidss, b - 1, b - 1);
        lemma_field_commits_upto_nonneg(plans, b - 1, ids, plans[b - 1].fields@.len() as int);
    }
}

/// A field's concrete type only reads the view ids of schemas planned
/// strictly earlier.
pub proof fn lemma_field_type_view_ids_agree(
    plans: Seq<SchemaPlan>,
    i: int,
    j: int,
    ids1: Seq<Seq<char>>,
    ids2: Seq<Seq<char>>,
)
    requires
        plans_wf(plans),
        0 <= i < plans.len(),
        0 <= j < plans[i].fields@.len(),
        i <= ids1.len(),
        i <= ids2.len(),
        forall|t: int| 0 <= t < i ==> ids1[t] == ids2[t],
    ensures
        field_type_view(plans, i, j, ids1) == field_type_view(plans, i, j, ids2),
        field_decision_at(plans, i, j, ids1) == field_decision_at(plans, i, j, ids2),
{
    assert(plans[i].fields@[j].field_type matches FieldTypePlan::Relation(_, t) ==> t < i);
}

/// A field whose relation target is not the excluded schema reads the
/// same concrete type from two id assignments that agree everywhere else.
pub proof fn lemma_field_type_view_ids_agree_except(
    plans: Seq<SchemaPlan>,
    i: int,
    j: int,
    ids1: Seq<Seq<char>>,
    ids2: Seq<Seq<char>>,
    excl: int,
)
    requires
        plans_wf(plans),
        0 <= i < plans.len(),
        0 <= j < plans[i].fields@.len(),
        i <= ids1.len(),
        i <= ids2.len(),
        forall|t: int| 0 <= t < i && t != excl ==> ids1[t] == ids2[t],
        plans[i].fields@[j].field_type matches FieldTypePlan::Relation(_, t) ==> t != excl,
    ensures
        field_type_view(plans, i, j, ids1) == field_type_view(plans, i, j, ids2),
        field_decision_at(plans, i, j, ids1) == field_decision_at(plans, i, j, ids2),
{
    assert(plans[i].fields@[j].field_type matches FieldTypePlan::Relation(_, t) ==> t < i);
}

/// The field commit count likewise, when no field of the schema targets
/// the excluded one.
pub proof fn lemma_field_commits_upto_ids_agree_except(
    plans: Seq<SchemaPlan>,
    i: int,
    ids1: Seq<Seq<char>>,
    ids2: Seq<Seq<char>>,
    upto: int,
    excl: int,
)
    requires
        plans_wf(plans),
        0 <= i < plans.len(),
        upto <= plans[i].fields@.len(),
        i <= ids1.len(),
        i <= ids2.len(),
        forall|t: int| 0 <= t < i && t != excl ==> ids1[t] == ids2[t],
        forall|j: int|
            0 <= j < plans[i].fields@.len() ==> ((#[trigger] plans[i].fields@[j]).field_type
                matches FieldTypePlan::Relation(_, t) ==> t != excl),
    ensures
        field_commits_upto(plans, i, ids1, upto) == field_commits_upto(plans, i, ids2, upto),
    decreases upto,
{
    if upto > 0 {
        lemma_field_commits_upto_ids_agree_except(plans, i, ids1, ids2, upto - 1, excl);
        lemma_field_type_view_ids_agree_except(plans, i, upto - 1, ids1, ids2, excl);
    }
}

/// A schema's field commit count only reads the view ids of schemas
/// planned strictly earlier.
pub proof fn lemma_field_commits_upto_ids_agree(
    plans: Seq<SchemaPlan>,
    i: int,
    ids1: Seq<Seq<char>>,
    ids2: Seq<Seq<char>>,
    upto: int,
)
    requires
        plans_wf(plans),
        0 <= i < plans.len(),
        upto <= plans[i].fields@.len(),
        i <= ids1.len(),
        i <= ids2.len(),
        forall|t: int| 0 <= t < i ==> ids1[t] == ids2[t],
    ensures
        field_commits_upto(plans, i, ids1, upto) == field_commits_upto(plans, i, ids2, upto),
    decreases upto,
{
    if upto > 0 {
        lemma_field_commits_upto_ids_agree(plans, i, ids1, ids2, upto - 1);
        lemma_field_type_view_ids_agree(plans, i, upto - 1, ids1, ids2);
    }
}

/// A schema's execution record only reads the view ids of itself and of
/// schemas planned strictly earlier.
pub proof fn lemma_schema_exec_ok_ids_agree(
    plans: Seq<SchemaPlan>,
    i: int,
    ids1: Seq<Seq<char>>,
    ids2: Seq<Seq<char>>,
    fids: Seq<Seq<char>>,
    commits: Seq<Commit>,
)
    requires
        plans_wf(plans),
        0 <= i < plans.len(),
        i < ids1.len(),
        i < ids2.len(),
        forall|t: int| 0 <= t <= i ==> ids1[t] == ids2[t],
        schema_exec_ok(plans, i, ids1, fids, commits),
    ensures
        schema_exec_ok(plans, i, ids2, fids, commits),
{
    let nf = plans[i].fields@.len() as int;
    assert forall|j: int| 0 <= j < nf implies {
        let d = field_decision_at(plans, i, j, ids2);
        if d is NoOp {
            (#[trigger] fids[j]) == plans[i].fields@[j].current->Some_0.view_id@
        } else {
            fids[j] == commits[field_commits_upto(plans, i, ids2, j)].entry_hash@
        }
    } by {
        lemma_field_type_view_ids_agree(plans, i, j, ids1, ids2);
        lemma_field_commits_upto_ids_agree(plans, i, ids1, ids2, j);
    }
    lemma_field_commits_upto_ids_agree(plans, i, ids1, ids2, nf);
}

/// The total commit count of a plan prefix only reads the view ids of the
/// schemas in that prefix.
pub proof fn lemma_commits_upto_ids_agree(
    plans: Seq<SchemaPlan>,
    ids1: Seq<Seq<char>>,
    ids2: Seq<Seq<char>>,
    fidss1: Seq<Seq<Seq<char>>>,
    fidss2: Seq<Seq<Seq<char>>>,
    upto: int,
)
    requires
        plans_wf(plans),
        upto <= plans.len(),
        upto <= ids1.len(),
        upto <= ids2.len(),
        upto <= fidss1.len(),
        upto <= fidss2.len(),
        forall|t: int| 0 <= t < upto ==> ids1[t] == ids2[t],
        forall|t: int| 0 <= t < upto ==> fidss1[t] == fidss2[t],
    ensures
        commits_upto(plans, ids1, fidss1, upto) == commits_upto(plans, ids2, fidss2, upto),
    decreases upto,
{
    if upto > 0 {
        lemma_commits_upto_ids_agree(plans, ids1, ids2, fidss1, fidss2, upto - 1);
        lemma_field_commits_upto_ids_agree(
            plans,
            upto - 1,
            ids1,
            ids2,
            plans[upto - 1].fields@.len() as int,
        );
    }
}

/// Both hold the same materialized schema definition.
pub open spec fn schema_like(a: CurrentSchema, b: CurrentSchema) -> bool {
    &&& a.name@ == b.name@
    &&& a.description@ == b.description@
    &&& a.field_ids@ == b.field_ids@
    &&& a.view_id@ == b.view_id@
    &&& a.fields@ == b.fields@
}

/// Every relation-by-name target of a schema is declared earlier in the
/// sorted sequence: what a dependency order guarantees.
pub open spec fn targets_precede(sorted: Seq<Schema>) -> bool {
    forall|i: int, j: int|
        0 <= i < sorted.len() && 0 <= j < (#[trigger] sorted[i]).fields.0@.len() ==> match (
        #[trigger] sorted[i].fields.0@[j]).1 {
            SchemaField::Relation { schema: rs, .. } => match rs.id {
                RelationId::Name(m) => exists|k: int|
                    0 <= k < i && (#[trigger] sorted[k]).name@ == m@,
                RelationId::Id(_) => true,
            },
            SchemaField::Field { .. } => true,
        }
}

/// The planned field `fp` renders field `j` of declaration `s`: same name,
/// the declared type resolved against the plans built so far, and paired
/// with the current field of that name inside `cur_opt`, when one exists.
pub open spec fn plan_field_of(
    s: Schema,
    cur_opt: Option<CurrentSchema>,
    prefix: Seq<SchemaPlan>,
    fp: FieldPlan,
    j: int,
) -> bool {
    let fname = s.fields.0@[j].0;
    let sf = s.fields.0@[j].1;
    &&& fp.name@ == fname@
    &&& match sf {
        SchemaField::Field { field_type } => fp.field_type == FieldTypePlan::Field(field_type),
        SchemaField::Relation { field_type: rt, schema: rs } => match rs.id {
            RelationId::Name(m) => match fp.field_type {
                FieldTypePlan::Relation(rt2, t) => rt2 == rt && t < prefix.len() && prefix[
                    t as int
                ].name@ == m@,
                _ => false,
            },
            RelationId::Id(id) => match fp.field_type {
                FieldTypePlan::RelationId(rt2, id2) => rt2 == rt && id2@ == id@,
                _ => false,
            },
        },
    }
    &&& match fp.current {
        Option::None => match cur_opt {
            Option::Some(cur) => forall|f: int|
                0 <= f < cur.fields@.len() ==> (#[trigger] cur.fields@[f]).name@ != fname@,
            Option::None => true,
        },
        Option::Some(curf) => match cur_opt {
            Option::Some(cur) => exists|f: int|
                0 <= f < cur.fields@.len() && (#[trigger] cur.fields@[f]).name@ == fname@ && curf
                    == cur.fields@[f],
            Option::None => false,
        },
    }
}

/// The plan at index `i` renders declaration `sorted[i]`: same name and
/// description, paired with the current schema of that name when the
/// materialized state holds one, and each declared field planned in order.
pub open spec fn plan_schema_of(
    sorted: Seq<Schema>,
    current: Seq<CurrentSchema>,
    plans: Seq<SchemaPlan>,
    i: int,
) -> bool {
    let s = sorted[i];
    let p = plans[i];
    &&& p.name@ == s.name@
    &&& p.description@ == s.description@
    &&& p.fields@.len() == s.fields.0@.len()
    &&& match p.current {
        Option::None => forall|c: int|
            0 <= c < current.len() ==> (#[trigger] current[c]).name@ != s.name@,
        Option::Some(cur) => exists|c: int|
            0 <= c < current.len() && (#[trigger] current[c]).name@ == s.name@ && schema_like(
                cur,
                current[c],
            ),
    }
    &&& forall|j: int|
        0 <= j < p.fields@.len() ==> plan_field_of(
            s,
            p.current,
            plans.take(i),
            #[trigger] p.fields@[j],
            j,
        )
}

/// The whole plan renders the sorted declaration against the current
/// materialized state.
pub open spec fn plan_of(
    sorted: Seq<Schema>,
    current: Seq<CurrentSchema>,
    plans: Seq<SchemaPlan>,
) -> bool {
    &&& plans.len() == sorted.len()
    &&& forall|i: int| 0 <= i < plans.len() ==> plan_schema_of(sorted, current, plans, i)
}

/// Finds the first materialized schema named `name`.
fn find_current(v: &Vec<CurrentSchema>, name: &String) -> (r: Option<usize>)
    ensures
        match r {
            Some(i) => i < v@.len() && v@[i as int].name@ == name@,
            None => forall|k: int| 0 <= k < v@.len() ==> (#[trigger] v@[k]).name@ != name@,
        },
{
    let n = v.len();
    let mut i: usize = 0;
    while i < n
        invariant
            n == v@.len(),
            0 <= i <= n,
            forall|k: int| 0 <= k < i ==> (#[trigger] v@[k]).name@ != name@,
        decreases n - i,
    {
        if v[i].name == *name {
            return Some(i);
        }
        i = i + 1;
    }
    None
}

/// Finds the first materialized field named `name` within one schema view.
fn find_field(v: &Vec<CurrentField>, name: &String) -> (r: Option<usize>)
    ensures
        match r {
            Some(i) => i < v@.len() && v@[i as int].name@ == name@,
            None => forall|k: int| 0 <= k < v@.len() ==> (#[trigger] v@[k]).name@ != name@,
        },
{
    let n = v.len();
    let mut i: usize = 0;
    while i < n
        invariant
            n == v@.len(),
            0 <= i <= n,
            forall|k: int| 0 <= k < i ==> (#[trigger] v@[k]).name@ != name@,
        decreases n - i,
    {
        if v[i].name == *name {
            return Some(i);
        }
        i = i + 1;
    }
    None
}

/// Finds the first plan named `name` among those built so far.
fn find_plan(v: &Vec<SchemaPlan>, name: &String) -> (r: Option<usize>)
    ensures
        match r {
            Some(i) => i < v@.len() && v@[i as int].name@ == name@,
            None => forall|k: int| 0 <= k < v@.len() ==> (#[trigger] v@[k]).name@ != name@,
        },
{
    let n = v.len();
    let mut i: usize = 0;
    while i < n
        invariant
            n == v@.len(),
            0 <= i <= n,
            forall|k: int| 0 <= k < i ==> (#[trigger] v@[k]).name@ != name@,
        decreases n - i,
    {
        if v[i].name == *name {
            return Some(i);
        }
        i = i + 1;
    }
    None
}

/// An earlier plan correspondence is untouched by growing the plan vector.
proof fn lemma_plan_schema_of_stable(
    sorted: Seq<Schema>,
    current: Seq<CurrentSchema>,
    p1: Seq<SchemaPlan>,
    p2: Seq<SchemaPlan>,
    i: int,
)
    requires
        0 <= i < p1.len(),
        p1.len() <= p2.len(),
        forall|k: int| 0 <= k < p1.len() ==> p2[k] == p1[k],
        plan_schema_of(sorted, current, p1, i),
    ensures
        plan_schema_of(sorted, current, p2, i),
{
    assert(p2.take(i) =~= p1.take(i));
    assert(p2[i] == p1[i]);
}

/// Builds the plan: each sorted schema paired with its current view, each
/// field's declared type resolved, relation targets pointing at earlier
/// plan indices.
pub fn build_plan(sorted: &Vec<Schema>, current: &Vec<CurrentSchema>) -> (r: Vec<SchemaPlan>)
    requires
        targets_precede(sorted@),
    ensures
        plan_of(sorted@, current@, r@),
        plans_wf(r@),
{
    let n = sorted.len();
    let mut plans: Vec<SchemaPlan> = Vec::new();
    let mut i: usize = 0;
    while i < n
        invariant
            n == sorted@.len(),
            targets_precede(sorted@),
            0 <= i <= n,
            plans@.len() == i,
            forall|k: int| 0 <= k < i ==> plan_schema_of(sorted@, current@, plans@, k),
            plans_wf(plans@),
        decreases n - i,
    {
        let s = &sorted[i];
        let cur_opt: Option<CurrentSchema> = match find_current(current, &s.name) {
            Some(c) => Some(current[c].clone()),
            None => None,
        };
        let nf = s.fields.0.len();
        proof {
            assert forall|k: int| 0 <= k < i implies (#[trigger] plans@[k]).name@
                == sorted@[k].name@ by {
                assert(plan_schema_of(sorted@, current@, plans@, k));
            }
        }
        let mut fields: Vec<FieldPlan> = Vec::new();
        let mut j: usize = 0;
        while j < nf
            invariant
                n == sorted@.len(),
                targets_precede(sorted@),
                0 <= i < n,
                s == &sorted@[i as int],
                nf == s.fields.0@.len(),
                plans@.len() == i,
                forall|k: int| 0 <= k < i ==> (#[trigger] plans@[k]).name@ == sorted@[k].name@,
                0 <= j <= nf,
                fields@.len() == j,
                forall|k: int|
                    0 <= k < j ==> plan_field_of(
                        sorted@[i as int],
                        cur_opt,
                        plans@,
                        #[trigger] fields@[k],
                        k,
                    ),
                forall|k: int|
                    0 <= k < j ==> ((#[trigger] fields@[k]).field_type matches
                        FieldTypePlan::Relation(_, t) ==> t < i),
            decreases nf - j,
        {
            let fname: String = s.fields.0[j].0.clone();
            let ftp: FieldTypePlan = match &s.fields.0[j].1 {
                SchemaField::Field { field_type } => FieldTypePlan::Field(*field_type),
                SchemaField::Relation { field_type, schema: rs } => match &rs.id {
                    RelationId::Name(m) => match find_plan(&plans, m) {
                        Some(t) => FieldTypePlan::Relation(*field_type, t),
                        None => {
                            proof {
                                let k = choose|k: int|
                                    0 <= k < i && (#[trigger] sorted@[k]).name@ == m@;
                                assert(plans@[k].name@ == m@);
                                assert(false);
                            }
                            FieldTypePlan::Field(FieldType::Boolean)
                        },
                    },
                    RelationId::Id(id) => FieldTypePlan::RelationId(*field_type, id.clone()),
                },
            };
            let curf: Option<CurrentField> = match &cur_opt {
                Some(cur) => match find_field(&cur.fields, &fname) {
                    Some(f) => Some(cur.fields[f].clone()),
                    None => None,
                },
                None => None,
            };
            let fp = FieldPlan { name: fname, current: curf, field_type: ftp };
            fields.push(fp);
            proof {
                assert(fields@.last() == fp);
                assert(forall|k: int| 0 <= k < j ==> fields@[k] == fields@.subrange(
                    0,
                    j as int,
                )[k]);
            }
            j = j + 1;
        }
        let p = SchemaPlan {
            name: s.name.clone(),
            current: cur_opt,
            description: s.description.clone(),
            fields,
        };
        let ghost oldplans = plans@;
        plans.push(p);
        proof {
            assert(plans@.take(i as int) =~= oldplans);
            assert forall|k: int| 0 <= k < i + 1 implies plan_schema_of(
                sorted@,
                current@,
                plans@,
                k,
            ) by {
                if k < i {
                    lemma_plan_schema_of_stable(sorted@, current@, oldplans, plans@, k);
                } else {
                    assert(plans@[k] == p);
                    assert forall|jj: int| 0 <= jj < p.fields@.len() implies plan_field_of(
                        sorted@[k],
                        p.current,
                        plans@.take(k),
                        #[trigger] p.fields@[jj],
                        jj,
                    ) by {
                        assert(plan_field_of(sorted@[k], p.current, oldplans, p.fields@[jj], jj));
                    }
                }
            }
            assert forall|a: int, b: int|
                0 <= a < plans@.len() && 0 <= b < (#[trigger] plans@[a]).fields@.len() implies ((
            #[trigger] plans@[a].fields@[b]).field_type matches FieldTypePlan::Relation(_, t)
                ==> t < a) by {
                if a < i {
                    assert(plans@[a] == oldplans[a]);
                } else {
                    assert(plans@[a] == p);
                }
            }
        }
        i = i + 1;
    }
    plans
}

} // verus!
