//! The update run: validates the declaration, orders it by dependencies,
//! plans against the materialized current state, executes the plan, and
//! appends the new commits to the lock file.

use vstd::prelude::*;
use p2panda_rs::identity::KeyPair;
use p2panda_rs::test_utils::memory_store::MemoryStore;
use crate::error::Error;
use crate::execute::Executor;
use crate::execute::commits_wf;
use crate::execute::execute_plans;
use crate::files::RelationId;
use crate::files::SchemaFile;
use crate::files::SchemaField;
use crate::files::lock::Commit;
use crate::files::lock::LockFile;
use crate::files::lock::merge;
use crate::graph::DependencyGraph;
use crate::graph::is_valid_order;
use crate::laws::current_field_ids;
use crate::laws::current_ids;
use crate::laws::lemma_unchanged_no_commits;
use crate::laws::plan_unchanged;
use crate::materialize::current_names_unique;
use crate::materialize::find_current_at;
use crate::materialize::find_current_field_at;
use crate::materialize::lemma_find_current_at_spec;
use crate::materialize::lemma_find_current_field_at_spec;
use crate::materialize::materialize;
use crate::names::find_key_at;
use crate::names::lemma_find_key_at_spec;
use crate::plan::FieldTypePlan;
use crate::plan::SchemaPlan;
use crate::plan::field_type_view;
use crate::plan::plan_field_of;
use crate::plan::plan_schema_of;
use crate::plan::schema_like;
use crate::plan::build_plan;
use crate::plan::plan_of;
use crate::plan::plans_exec_ok;
use crate::plan::plans_wf;
use crate::plan::targets_precede;
use crate::schema::Schema;
use crate::schema::valid_schema_description;
use crate::schema::valid_schema_name;
use crate::schema::validate_description;
use crate::schema::validate_name;
use crate::store::SystemSchemaKindView;
use crate::store::commit_kind_of;
use crate::store::system_version_ok;
use crate::files::SchemaItem;
use crate::state::CurrentSchema;
use crate::state::TypeView;
use crate::state::ids_view;
use crate::state::scalar_view;

verus! {

/// Both describe the same schema: same name, description and fields.
pub open spec fn schema_matches(a: Schema, b: Schema) -> bool {
    &&& a.name@ == b.name@
    &&& a.description@ == b.description@
    &&& a.fields.0@ == b.fields.0@
}

/// Whenever node `q`'s field `j` is a relation by name, an edge points
/// from a node of the target's name to `q`.
pub open spec fn edge_covers(
    nodes: Seq<(String, Schema)>,
    edges: Seq<(usize, usize)>,
    q: int,
    j: int,
) -> bool {
    match nodes[q].1.fields.0@[j].1 {
        SchemaField::Relation { schema: rs, .. } => match rs.id {
            RelationId::Name(m) => exists|e: int|
                0 <= e < edges.len() && (#[trigger] edges[e]).1 == q && edges[e].0 < nodes.len()
                    && nodes[edges[e].0 as int].0@ == m@,
            RelationId::Id(_) => true,
        },
        SchemaField::Field { .. } => true,
    }
}

/// No two declared schemas share a name.
pub open spec fn planned_names_unique(planned: Seq<Schema>) -> bool {
    forall|i: int, j: int|
        0 <= i < j < planned.len() ==> (#[trigger] planned[i]).name@ != (
        #[trigger] planned[j]).name@
}

/// Every relation-by-name target of the declaration is itself declared.
pub open spec fn targets_declared(planned: Seq<Schema>) -> bool {
    forall|i: int, j: int|
        #![trigger planned[i].fields.0@[j]]
        0 <= i < planned.len() && 0 <= j < planned[i].fields.0@.len() ==> match planned[i].fields.0@[j].1 {
            SchemaField::Relation { schema: rs, .. } => match rs.id {
                RelationId::Name(m) => exists|t: int|
                    0 <= t < planned.len() && (#[trigger] planned[t]).name@ == m@,
                RelationId::Id(_) => true,
            },
            SchemaField::Field { .. } => true,
        }
}

/// Schema `v` of the declaration relates by name to schema `u`: the edge
/// the dependency graph derives from the declaration.
pub open spec fn planned_edge(planned: Seq<Schema>, u: int, v: int) -> bool {
    exists|j: int|
        0 <= j < planned[v].fields.0@.len() && match (#[trigger] planned[v].fields.0@[j]).1 {
            SchemaField::Relation { schema: rs, .. } => match rs.id {
                RelationId::Name(m) => planned[u].name@ == m@,
                RelationId::Id(_) => false,
            },
            SchemaField::Field { .. } => false,
        }
}

/// A complete, duplicate-free ordering of the declared schemas in which
/// every relation target precedes its dependent. A declaration admitting
/// no such order is cyclic.
pub open spec fn declared_order_ok(planned: Seq<Schema>, order: Seq<usize>) -> bool {
    &&& order.len() == planned.len()
    &&& forall|k: int| 0 <= k < order.len() ==> (#[trigger] order[k]) < planned.len()
    &&& forall|v: usize| v < planned.len() ==> order.contains(v)
    &&& order.no_duplicates()
    &&& forall|k1: int, k2: int|
        #![trigger order[k1], order[k2]]
        0 <= k1 < order.len() && 0 <= k2 < order.len() && planned_edge(
            planned,
            order[k1] as int,
            order[k2] as int,
        ) ==> k1 < k2
}

/// Every built edge stems from a declared relation: its target node is
/// named as the relation names it.
pub open spec fn planned_edges_sound(
    planned: Seq<Schema>,
    edges: Seq<(usize, usize)>,
) -> bool {
    forall|e: int|
        0 <= e < edges.len() ==> (#[trigger] edges[e]).0 < planned.len() && edges[e].1
            < planned.len() && planned_edge(planned, edges[e].0 as int, edges[e].1 as int)
}

/// An ordering that respects the declared relations respects every sound
/// edge, so it is a valid order of the built graph.
proof fn lemma_declared_order_valid(
    planned: Seq<Schema>,
    edges: Seq<(usize, usize)>,
    order: Seq<usize>,
)
    requires
        planned_edges_sound(planned, edges),
        declared_order_ok(planned, order),
    ensures
        is_valid_order(order, planned.len() as int, edges),
{
    assert forall|k1: int, k2: int, e: int|
        #![trigger order[k1], order[k2], edges[e]]
        0 <= k1 < order.len() && 0 <= k2 < order.len() && 0 <= e < edges.len() && order[k1]
            == edges[e].0 && order[k2] == edges[e].1 implies k1 < k2 by {
        assert(planned_edge(planned, order[k1] as int, order[k2] as int));
    }
}

/// Conversely, a valid order of a graph whose edges cover every declared
/// relation, over uniquely named nodes, respects the declared relations.
proof fn lemma_order_declared_ok(
    planned: Seq<Schema>,
    nodes: Seq<(String, Schema)>,
    edges: Seq<(usize, usize)>,
    order: Seq<usize>,
)
    requires
        nodes.len() == planned.len(),
        forall|t: int|
            0 <= t < nodes.len() ==> (#[trigger] nodes[t]).0@ == planned[t].name@
                && nodes[t].1.fields.0@ == planned[t].fields.0@,
        planned_names_unique(planned),
        forall|q2: int, j2: int|
            #![trigger nodes[q2].1.fields.0@[j2]]
            0 <= q2 < nodes.len() && 0 <= j2 < nodes[q2].1.fields.0@.len() ==> edge_covers(
                nodes,
                edges,
                q2,
                j2,
            ),
        is_valid_order(order, planned.len() as int, edges),
    ensures
        declared_order_ok(planned, order),
{
    assert forall|k1: int, k2: int|
        #![trigger order[k1], order[k2]]
        0 <= k1 < order.len() && 0 <= k2 < order.len() && planned_edge(
            planned,
            order[k1] as int,
            order[k2] as int,
        ) implies k1 < k2 by {
        let u = order[k1] as int;
        let v = order[k2] as int;
        let j = choose|j: int|
            0 <= j < planned[v].fields.0@.len() && match (#[trigger] planned[v].fields.0@[j]).1 {
                SchemaField::Relation { schema: rs, .. } => match rs.id {
                    RelationId::Name(m) => planned[u].name@ == m@,
                    RelationId::Id(_) => false,
                },
                SchemaField::Field { .. } => false,
            };
        assert(nodes[v].1.fields.0@[j] == planned[v].fields.0@[j]);
        assert(edge_covers(nodes, edges, v, j));
        match planned[v].fields.0@[j].1 {
            SchemaField::Relation { schema: rs, .. } => {
                match rs.id {
                    RelationId::Name(m) => {
                        let e = choose|e: int|
                            0 <= e < edges.len() && (#[trigger] edges[e]).1 == v as usize
                                && edges[e].0 < nodes.len() && nodes[edges[e].0 as int].0@ == m@;
                        assert(planned[edges[e].0 as int].name@ == m@);
                        assert(planned[u].name@ == m@);
                        assert(edges[e].0 as int == u) by {
                            if edges[e].0 as int != u {
                                assert(false);
                            }
                        }
                        assert(order[k1] == edges[e].0 && order[k2] == edges[e].1);
                    },
                    RelationId::Id(_) => {
                        assert(false);
                    },
                }
            },
            SchemaField::Field { .. } => {
                assert(false);
            },
        }
    }
}

/// What a successful run of the executor proves about its output: the
/// declaration order that sorted the schemas, the sorted declaration, the
/// plan over it, and the decision-conformant commit trace.
#[verifier::opaque]
pub open spec fn run_witness_ok(
    current: Seq<CurrentSchema>,
    planned: Seq<Schema>,
    commits: Seq<Commit>,
    w: (Seq<usize>, Seq<Schema>, Seq<SchemaPlan>, Seq<Seq<char>>, Seq<Seq<Seq<char>>>),
) -> bool {
    let (order, sorted, plans, ids, fidss) = w;
    &&& order.len() == planned.len()
    &&& sorted.len() == planned.len()
    &&& order.no_duplicates()
    &&& forall|t: int| 0 <= t < order.len() ==> (#[trigger] order[t]) < planned.len()
    &&& forall|t: int|
        0 <= t < sorted.len() ==> schema_matches(#[trigger] sorted[t], planned[order[t] as int])
    &&& targets_precede(sorted)
    &&& plans_wf(plans)
    &&& plan_of(sorted, current, plans)
    &&& plans_exec_ok(plans, ids, fidss, commits)
    &&& commits_wf(commits)
}

/// Orders the declared schemas by their relation dependencies, plans each
/// against the materialized current state, and executes the plan in
/// order, producing the run's new commits. Fails on a duplicate declared
/// name, an undeclared relation target, a dependency cycle, or a failed
/// sign request.
#[verifier::rlimit(100)]
pub fn do_it(
    current: &Vec<CurrentSchema>,
    planned: &Vec<Schema>,
    store: &MemoryStore,
    key_pair: &KeyPair,
) -> (r: Result<
    (
        Vec<Commit>,
        Ghost<(Seq<usize>, Seq<Schema>, Seq<SchemaPlan>, Seq<Seq<char>>, Seq<Seq<Seq<char>>>)>,
    ),
    Error,
>)
    ensures
        match r {
            Ok(p) => run_witness_ok(current@, planned@, p.0@, p.1@) && commits_wf(p.0@),
            Err(e) => {
                &&& (e matches Error::DuplicateSchemaName { .. } || e matches
                    Error::UnresolvedRelation { .. } || e matches Error::CyclicDependency { .. }
                    || e matches Error::Signing { .. })
                &&& (e matches Error::DuplicateSchemaName { name } ==> exists|i: int, j: int|
                    #![auto]
                    0 <= i < j < planned@.len() && planned@[i].name@ == planned@[j].name@ && name@
                        == planned@[j].name@)
                &&& (e matches Error::UnresolvedRelation { schema, field, target } ==> {
                    &&& forall|t: int|
                        0 <= t < planned@.len() ==> (#[trigger] planned@[t]).name@ != target@
                    &&& exists|i: int, j: int|
                        #![auto]
                        0 <= i < planned@.len() && 0 <= j < planned@[i].fields.0@.len()
                            && planned@[i].name@ == schema@ && planned@[i].fields.0@[j].0@
                            == field@ && (planned@[i].fields.0@[j].1 matches
                        SchemaField::Relation { schema: rs, .. } && rs.id matches
                        RelationId::Name(m) && m@ == target@)
                })
                &&& (e matches Error::CyclicDependency { name } ==> (forall|order: Seq<usize>|
                    !declared_order_ok(planned@, order)) && exists|i: int|
                    0 <= i < planned@.len() && (#[trigger] planned@[i]).name@ == name@)
                &&& (e matches Error::Signing { .. } ==> planned_names_unique(planned@)
                    && targets_declared(planned@) && exists|order: Seq<usize>|
                    declared_order_ok(planned@, order))
            },
        },
        (planned_names_unique(planned@) && targets_declared(planned@) && (exists|
            order: Seq<usize>,
        |
            declared_order_ok(planned@, order)) && current_names_unique(current@)
            && declared_unchanged(planned@, current@)) ==> (r matches Ok(p) && p.0@.len() == 0),
{
    let n = planned.len();
    let mut graph = DependencyGraph::new();
    let mut k: usize = 0;
    while k < n
        invariant
            n == planned@.len(),
            graph.wf(),
            graph.nodes@.len() == k,
            graph.edges@.len() == 0,
            0 <= k <= n,
            forall|t: int|
                0 <= t < k ==> {
                    &&& (#[trigger] graph.nodes@[t]).0@ == planned@[t].name@
                    &&& graph.nodes@[t].1.name@ == planned@[t].name@
                    &&& graph.nodes@[t].1.description@ == planned@[t].description@
                    &&& graph.nodes@[t].1.fields.0@ == planned@[t].fields.0@
                },
        decreases n - k,
    {
        match graph.add_schema(&planned[k].name, &planned[k]) {
            Ok(()) => {},
            Err(e) => {
                proof {
                    lemma_find_key_at_spec(graph.nodes@, planned@[k as int].name@);
                    let at = find_key_at(graph.nodes@, planned@[k as int].name@);
                    assert(planned@[at].name@ == planned@[k as int].name@);
                    assert(!planned_names_unique(planned@));
                }
                return Err(e);
            },
        }
        k = k + 1;
    }
    proof {
        assert forall|i2: int, j2: int|
            0 <= i2 < j2 < planned@.len() implies (#[trigger] planned@[i2]).name@ != (
        #[trigger] planned@[j2]).name@ by {
            assert(graph.nodes@[i2].0@ == planned@[i2].name@);
            assert(graph.nodes@[j2].0@ == planned@[j2].name@);
        }
        assert(planned_names_unique(planned@));
    }
    let mut q: usize = 0;
    while q < n
        invariant
            n == planned@.len(),
            graph.wf(),
            graph.nodes@.len() == n,
            0 <= q <= n,
            forall|t: int|
                0 <= t < n ==> {
                    &&& (#[trigger] graph.nodes@[t]).0@ == planned@[t].name@
                    &&& graph.nodes@[t].1.name@ == planned@[t].name@
                    &&& graph.nodes@[t].1.description@ == planned@[t].description@
                    &&& graph.nodes@[t].1.fields.0@ == planned@[t].fields.0@
                },
            forall|q2: int, j2: int|
                #![trigger graph.nodes@[q2].1.fields.0@[j2]]
                0 <= q2 < q && 0 <= j2 < graph.nodes@[q2].1.fields.0@.len() ==> edge_covers(
                    graph.nodes@,
                    graph.edges@,
                    q2,
                    j2,
                ),
            planned_edges_sound(planned@, graph.edges@),
        decreases n - q,
    {
        let nf = planned[q].fields.0.len();
        let mut j: usize = 0;
        while j < nf
            invariant
                n == planned@.len(),
                graph.wf(),
                graph.nodes@.len() == n,
                0 <= q < n,
                nf == planned@[q as int].fields.0@.len(),
                0 <= j <= nf,
                forall|t: int|
                    0 <= t < n ==> {
                        &&& (#[trigger] graph.nodes@[t]).0@ == planned@[t].name@
                        &&& graph.nodes@[t].1.name@ == planned@[t].name@
                        &&& graph.nodes@[t].1.description@ == planned@[t].description@
                        &&& graph.nodes@[t].1.fields.0@ == planned@[t].fields.0@
                    },
                forall|q2: int, j2: int|
                    #![trigger graph.nodes@[q2].1.fields.0@[j2]]
                    0 <= q2 < q && 0 <= j2 < graph.nodes@[q2].1.fields.0@.len() ==> edge_covers(
                        graph.nodes@,
                        graph.edges@,
                        q2,
                        j2,
                    ),
                forall|j2: int|
                    0 <= j2 < j ==> edge_covers(graph.nodes@, graph.edges@, q as int, j2),
                planned_edges_sound(planned@, graph.edges@),
            decreases nf - j,
        {
            let target: Option<String> = match &planned[q].fields.0[j].1 {
                SchemaField::Relation { schema: rs, .. } => match &rs.id {
                    RelationId::Name(m) => Some(m.clone()),
                    RelationId::Id(_) => None,
                },
                SchemaField::Field { .. } => None,
            };
            match target {
                Some(m) => {
                    proof {
                        lemma_find_key_at_spec(graph.nodes@, m@);
                        lemma_find_key_at_spec(graph.nodes@, planned@[q as int].name@);
                        assert(graph.nodes@[q as int].0@ == planned@[q as int].name@);
                    }
                    if crate::names::find_key(&graph.nodes, &m).is_none() {
                        proof {
                            assert forall|t: int| 0 <= t < planned@.len() implies (
                            #[trigger] planned@[t]).name@ != m@ by {
                                assert(graph.nodes@[t].0@ == planned@[t].name@);
                            }
                            assert(planned@[q as int].fields.0@[j as int].1 matches
                                SchemaField::Relation { schema: rs, .. } && rs.id matches
                                RelationId::Name(m2) && m2@ == m@);
                            assert(!targets_declared(planned@)) by {
                                if targets_declared(planned@) {
                                    assert(exists|t: int|
                                        0 <= t < planned@.len() && (#[trigger] planned@[t]).name@
                                            == m@);
                                    assert(false);
                                }
                            }
                        }
                        return Err(
                            Error::UnresolvedRelation {
                                schema: planned[q].name.clone(),
                                field: planned[q].fields.0[j].0.clone(),
                                target: m,
                            },
                        );
                    }
                    let ghost oldedges = graph.edges@;
                    match graph.add_dependency(&m, &planned[q].name) {
                        Ok(()) => {},
                        Err(e) => {
                            return Err(e);
                        },
                    }
                    proof {
                        let tq = find_key_at(graph.nodes@, planned@[q as int].name@);
                        assert(graph.nodes@[tq].0@ == planned@[q as int].name@);
                        assert(tq == q as int) by {
                            if tq != q as int {
                                assert(graph.nodes@[tq].0@ == graph.nodes@[q as int].0@);
                                assert(false);
                            }
                        }
                        let tm = find_key_at(graph.nodes@, m@);
                        assert(graph.edges@.last() == (tm as usize, q));
                        assert(graph.nodes@[tm].0@ == m@);
                        assert forall|e2: int| 0 <= e2 < graph.edges@.len() implies (
                        #[trigger] graph.edges@[e2]).0 < planned@.len() && graph.edges@[e2].1
                            < planned@.len() && planned_edge(
                            planned@,
                            graph.edges@[e2].0 as int,
                            graph.edges@[e2].1 as int,
                        ) by {
                            if e2 < oldedges.len() {
                                assert(graph.edges@[e2] == oldedges[e2]);
                            } else {
                                assert(graph.edges@[e2] == (tm as usize, q));
                                assert(planned@[tm].name@ == m@);
                                assert(planned@[q as int].fields.0@[j as int].1 matches
                                    SchemaField::Relation { schema: rs, .. } && rs.id matches
                                    RelationId::Name(m2) && m2@ == m@);
                                assert(planned_edge(planned@, tm, q as int));
                            }
                        }
                        assert forall|q2: int, j2: int|
                            #![trigger graph.nodes@[q2].1.fields.0@[j2]]
                            (0 <= q2 < q && 0 <= j2 < graph.nodes@[q2].1.fields.0@.len()) || (q2
                            == q as int && 0 <= j2 <= j && j2 < graph.nodes@[q2].1.fields.0@.len())
                            implies edge_covers(graph.nodes@, graph.edges@, q2, j2) by {
                            if q2 == q as int && j2 == j as int {
                                assert(graph.edges@[graph.edges@.len() - 1].1 == q);
                            } else {
                                lemma_edge_covers_push(
                                    graph.nodes@,
                                    oldedges,
                                    graph.edges@.last(),
                                    q2,
                                    j2,
                                );
                            }
                        }
                    }
                },
                None => {
                    proof {
                        assert(edge_covers(graph.nodes@, graph.edges@, q as int, j as int));
                    }
                },
            }
            j = j + 1;
        }
        q = q + 1;
    }
    proof {
        assert forall|i2: int, j2: int|
            #![trigger planned@[i2].fields.0@[j2]]
            0 <= i2 < planned@.len() && 0 <= j2 < planned@[i2].fields.0@.len() implies match planned@[i2].fields.0@[j2].1 {
            SchemaField::Relation { schema: rs, .. } => match rs.id {
                RelationId::Name(m) => exists|t: int|
                    0 <= t < planned@.len() && (#[trigger] planned@[t]).name@ == m@,
                RelationId::Id(_) => true,
            },
            SchemaField::Field { .. } => true,
        } by {
            assert(graph.nodes@[i2].1.fields.0@ == planned@[i2].fields.0@);
            assert(edge_covers(graph.nodes@, graph.edges@, i2, j2));
            match planned@[i2].fields.0@[j2].1 {
                SchemaField::Relation { schema: rs, .. } => {
                    match rs.id {
                        RelationId::Name(m) => {
                            let e = choose|e: int|
                                0 <= e < graph.edges@.len() && (#[trigger] graph.edges@[e]).1 == i2
                                    as usize && graph.edges@[e].0 < graph.nodes@.len()
                                    && graph.nodes@[graph.edges@[e].0 as int].0@ == m@;
                            assert(planned@[graph.edges@[e].0 as int].name@ == m@);
                        },
                        RelationId::Id(_) => {},
                    }
                },
                SchemaField::Field { .. } => {},
            }
        }
        assert(targets_declared(planned@));
    }
    let order = match graph.sort() {
        Ok(o) => o,
        Err(e) => {
            proof {
                assert forall|order2: Seq<usize>| !declared_order_ok(planned@, order2) by {
                    if declared_order_ok(planned@, order2) {
                        lemma_declared_order_valid(planned@, graph.edges@, order2);
                        assert(false);
                    }
                }
                let nm = e->CyclicDependency_name;
                let i2 = choose|i2: int|
                    0 <= i2 < graph.nodes@.len() && nm@ == (#[trigger] graph.nodes@[i2]).0@;
                assert(planned@[i2].name@ == nm@);
                if exists|order2: Seq<usize>| declared_order_ok(planned@, order2) {
                    let o2 = choose|o2: Seq<usize>| declared_order_ok(planned@, o2);
                    assert(!declared_order_ok(planned@, o2));
                    assert(false);
                }
            }
            return Err(e);
        },
    };
    proof {
        assert(is_valid_order(order@, graph.nodes@.len() as int, graph.edges@));
        lemma_order_declared_ok(planned@, graph.nodes@, graph.edges@, order@);
    }
    let mut sorted: Vec<Schema> = Vec::new();
    let mut p: usize = 0;
    while p < n
        invariant
            n == planned@.len(),
            n == graph.nodes@.len(),
            order@.len() == n,
            forall|t: int| 0 <= t < n ==> (#[trigger] order@[t]) < n,
            0 <= p <= n,
            sorted@.len() == p,
            forall|t: int|
                0 <= t < n ==> (#[trigger] graph.nodes@[t]).1.name@ == graph.nodes@[t].0@,
            forall|t: int|
                0 <= t < p ==> {
                    &&& (#[trigger] sorted@[t]).name@ == graph.nodes@[order@[t] as int].0@
                    &&& sorted@[t].description@ == graph.nodes@[order@[t] as int].1.description@
                    &&& sorted@[t].fields.0@ == graph.nodes@[order@[t] as int].1.fields.0@
                },
        decreases n - p,
    {
        proof {
            assert(graph.nodes@[order@[p as int] as int].1.name@ == graph.nodes@[order@[
                p as int
            ] as int].0@);
        }
        sorted.push(graph.nodes[order[p]].1.clone());
        p = p + 1;
    }
    proof {
        lemma_sorted_targets_precede(planned@, graph.nodes@, graph.edges@, order@, sorted@);
        assert forall|t: int| 0 <= t < sorted@.len() implies schema_matches(
            #[trigger] sorted@[t],
            planned@[order@[t] as int],
        ) by {}
    }
    let plans = build_plan(&sorted, current);
    let mut ex = Executor::new(store, key_pair);
    let (ids, fidss) = match execute_plans(&plans, &mut ex) {
        Ok(p) => p,
        Err(e) => {
            proof {
                assert(declared_order_ok(planned@, order@));
                if current_names_unique(current@) && declared_unchanged(planned@, current@) {
                    lemma_declared_unchanged_permute(planned@, current@, order@, sorted@);
                    lemma_declared_unchanged_plan(sorted@, current@, plans@);
                    assert(false);
                }
            }
            return Err(e);
        },
    };
    let ghost witness = (order@, sorted@, plans@, crate::state::ids_view(ids@), fidss@);
    proof {
        assert(ex.commits@.skip(0) =~= ex.commits@);
        assert forall|t: int| 0 <= t < sorted@.len() implies schema_matches(
            #[trigger] sorted@[t],
            planned@[order@[t] as int],
        ) by {}
        lemma_run_witness(
            planned@,
            current@,
            order@,
            sorted@,
            plans@,
            crate::state::ids_view(ids@),
            fidss@,
            ex.commits@,
        );
        if current_names_unique(current@) && declared_unchanged(planned@, current@) {
            lemma_declared_unchanged_permute(planned@, current@, order@, sorted@);
            lemma_declared_unchanged_plan(sorted@, current@, plans@);
            lemma_unchanged_no_commits(plans@, crate::state::ids_view(ids@), fidss@, ex.commits@);
            assert(ex.commits@.len() == 0);
        }
    }
    Ok((ex.commits, Ghost(witness)))
}

/// An edge list extended by one edge still covers what it covered.
proof fn lemma_edge_covers_push(
    nodes: Seq<(String, Schema)>,
    edges: Seq<(usize, usize)>,
    added: (usize, usize),
    q: int,
    j: int,
)
    requires
        edge_covers(nodes, edges, q, j),
    ensures
        edge_covers(nodes, edges.push(added), q, j),
{
    match nodes[q].1.fields.0@[j].1 {
        SchemaField::Relation { schema: rs, .. } => {
            match rs.id {
                RelationId::Name(m) => {
                    let e = choose|e: int|
                        0 <= e < edges.len() && (#[trigger] edges[e]).1 == q && edges[e].0
                            < nodes.len() && nodes[edges[e].0 as int].0@ == m@;
                    assert(edges.push(added)[e] == edges[e]);
                },
                RelationId::Id(_) => {},
            }
        },
        SchemaField::Field { .. } => {},
    }
}

/// The concrete type a declared field resolves to when every schema keeps
/// its current view id: relation targets point at the current state's
/// schema of the named target.
pub open spec fn declared_field_type_view(
    planned: Seq<Schema>,
    current: Seq<CurrentSchema>,
    i: int,
    j: int,
) -> TypeView {
    match planned[i].fields.0@[j].1 {
        SchemaField::Field { field_type } => scalar_view(field_type),
        SchemaField::Relation { field_type: rt, schema: rs } => match rs.id {
            RelationId::Name(m) => TypeView::Relation(
                rt,
                m@ + "_"@ + current[find_current_at(current, m@)].view_id@,
            ),
            RelationId::Id(id) => TypeView::Relation(rt, id@),
        },
    }
}

/// The current state holds every declared schema exactly as declared:
/// same description, a uniquely named current field per declared field of
/// the declared concrete type, and the recorded field list being those
/// fields' own view ids, in declared order. On such a state a run has
/// nothing to do.
pub open spec fn declared_unchanged(planned: Seq<Schema>, current: Seq<CurrentSchema>) -> bool {
    forall|i: int|
        0 <= i < planned.len() ==> {
            let c = find_current_at(current, (#[trigger] planned[i]).name@);
            &&& c != -1
            &&& current[c].description@ == planned[i].description@
            &&& (forall|f1: int, f2: int|
                0 <= f1 < f2 < current[c].fields@.len() ==> (
                #[trigger] current[c].fields@[f1]).name@ != (#[trigger] current[c].fields@[f2]).name@)
            &&& ids_view(current[c].field_ids@) == Seq::new(
                planned[i].fields.0@.len(),
                |j: int|
                    current[c].fields@[find_current_field_at(
                        current[c].fields@,
                        planned[i].fields.0@[j].0@,
                    )].view_id@,
            )
            &&& forall|j: int|
                0 <= j < planned[i].fields.0@.len() ==> {
                    let f = find_current_field_at(
                        current[c].fields@,
                        (#[trigger] planned[i].fields.0@[j]).0@,
                    );
                    &&& f != -1
                    &&& current[c].fields@[f].field_type@ == declared_field_type_view(
                        planned,
                        current,
                        i,
                        j,
                    )
                }
        }
}

/// An unchanged declaration stays unchanged under reordering: the
/// per-schema clauses read only the schema itself and the current state.
proof fn lemma_declared_unchanged_permute(
    planned: Seq<Schema>,
    current: Seq<CurrentSchema>,
    order: Seq<usize>,
    sorted: Seq<Schema>,
)
    requires
        declared_unchanged(planned, current),
        order.len() == planned.len(),
        sorted.len() == planned.len(),
        forall|t: int| 0 <= t < order.len() ==> (#[trigger] order[t]) < planned.len(),
        forall|t: int|
            0 <= t < sorted.len() ==> schema_matches(#[trigger] sorted[t], planned[order[t] as int]),
    ensures
        declared_unchanged(sorted, current),
{
    assert forall|i: int| 0 <= i < sorted.len() implies {
        let c = find_current_at(current, (#[trigger] sorted[i]).name@);
        &&& c != -1
        &&& current[c].description@ == sorted[i].description@
        &&& (forall|f1: int, f2: int|
            0 <= f1 < f2 < current[c].fields@.len() ==> (
            #[trigger] current[c].fields@[f1]).name@ != (#[trigger] current[c].fields@[f2]).name@)
        &&& ids_view(current[c].field_ids@) == Seq::new(
            sorted[i].fields.0@.len(),
            |j: int|
                current[c].fields@[find_current_field_at(
                    current[c].fields@,
                    sorted[i].fields.0@[j].0@,
                )].view_id@,
        )
        &&& forall|j: int|
            0 <= j < sorted[i].fields.0@.len() ==> {
                let f = find_current_field_at(
                    current[c].fields@,
                    (#[trigger] sorted[i].fields.0@[j]).0@,
                );
                &&& f != -1
                &&& current[c].fields@[f].field_type@ == declared_field_type_view(
                    sorted,
                    current,
                    i,
                    j,
                )
            }
    } by {
        let q = order[i] as int;
        assert(schema_matches(sorted[i], planned[q]));
        assert(sorted[i].name@ == planned[q].name@);
        assert(sorted[i].fields.0@ == planned[q].fields.0@);
        let c = find_current_at(current, planned[q].name@);
        assert forall|j: int| 0 <= j < sorted[i].fields.0@.len() implies {
            let f = find_current_field_at(
                current[c].fields@,
                (#[trigger] sorted[i].fields.0@[j]).0@,
            );
            &&& f != -1
            &&& current[c].fields@[f].field_type@ == declared_field_type_view(sorted, current, i, j)
        } by {
            assert(sorted[i].fields.0@[j] == planned[q].fields.0@[j]);
            assert(declared_field_type_view(sorted, current, i, j) == declared_field_type_view(
                planned,
                current,
                q,
                j,
            ));
        }
        assert(Seq::new(
            sorted[i].fields.0@.len(),
            |j: int|
                current[c].fields@[find_current_field_at(
                    current[c].fields@,
                    sorted[i].fields.0@[j].0@,
                )].view_id@,
        ) =~= Seq::new(
            planned[q].fields.0@.len(),
            |j: int|
                current[c].fields@[find_current_field_at(
                    current[c].fields@,
                    planned[q].fields.0@[j].0@,
                )].view_id@,
        ));
    }
}

/// When the sorted declaration is unchanged against the current state,
/// the plan built over it finds every node current: planning an unchanged
/// declaration is a no-op.
#[verifier::rlimit(100)]
#[verifier::spinoff_prover]
proof fn lemma_declared_unchanged_plan(
    sorted: Seq<Schema>,
    current: Seq<CurrentSchema>,
    plans: Seq<SchemaPlan>,
)
    requires
        current_names_unique(current),
        declared_unchanged(sorted, current),
        plans_wf(plans),
        plan_of(sorted, current, plans),
    ensures
        plan_unchanged(plans),
{
    assert forall|i: int| 0 <= i < plans.len() implies {
        &&& (#[trigger] plans[i]).current is Some
        &&& plans[i].name@ == sorted[i].name@
        &&& 0 <= find_current_at(current, sorted[i].name@) < current.len()
        &&& schema_like(
            plans[i].current->Some_0,
            current[find_current_at(current, sorted[i].name@)],
        )
    } by {
        assert(plan_schema_of(sorted, current, plans, i));
        lemma_find_current_at_spec(current, sorted[i].name@);
        let c = find_current_at(current, sorted[i].name@);
        assert(c != -1);
        assert(current[c].name@ == sorted[i].name@);
        if plans[i].current is None {
            assert(false);
        }
        let c2 = choose|c2: int|
            0 <= c2 < current.len() && (#[trigger] current[c2]).name@ == sorted[i].name@
                && schema_like(plans[i].current->Some_0, current[c2]);
        if c2 != c {
            assert(false);
        }
    }
    assert forall|i: int| 0 <= i < plans.len() implies {
        let sp = #[trigger] plans[i];
        &&& sp.current is Some
        &&& sp.current->Some_0.description@ == sp.description@
        &&& ids_view(sp.current->Some_0.field_ids@) == current_field_ids(plans, i)
        &&& forall|j: int|
            0 <= j < sp.fields@.len() ==> {
                &&& (#[trigger] sp.fields@[j]).current is Some
                &&& sp.fields@[j].current->Some_0.field_type@ == field_type_view(
                    plans,
                    i,
                    j,
                    current_ids(plans),
                )
            }
    } by {
        let sp = plans[i];
        assert(plan_schema_of(sorted, current, plans, i));
        lemma_find_current_at_spec(current, sorted[i].name@);
        let c = find_current_at(current, sorted[i].name@);
        let cur = sp.current->Some_0;
        assert(schema_like(cur, current[c]));
        assert(cur.description@ == sorted[i].description@);
        assert forall|j: int| 0 <= j < sp.fields@.len() implies {
            &&& (#[trigger] sp.fields@[j]).current is Some
            &&& sp.fields@[j].current->Some_0.field_type@ == field_type_view(
                plans,
                i,
                j,
                current_ids(plans),
            )
            &&& sp.fields@[j].current->Some_0.view_id@ == current[c].fields@[find_current_field_at(
                current[c].fields@,
                sorted[i].fields.0@[j].0@,
            )].view_id@
        } by {
            assert(plan_field_of(sorted[i], sp.current, plans.take(i), sp.fields@[j], j));
            let fname = sorted[i].fields.0@[j].0;
            lemma_find_current_field_at_spec(current[c].fields@, fname@);
            let f = find_current_field_at(current[c].fields@, fname@);
            assert(f != -1);
            assert(current[c].fields@[f].name@ == fname@);
            assert(cur.fields@ == current[c].fields@);
            if sp.fields@[j].current is None {
                assert(false);
            }
            let curf = sp.fields@[j].current->Some_0;
            let f2 = choose|f2: int|
                0 <= f2 < cur.fields@.len() && (#[trigger] cur.fields@[f2]).name@ == fname@ && curf
                    == cur.fields@[f2];
            if f2 != f {
                assert(false);
            }
            assert(curf == current[c].fields@[f]);
            assert(curf.field_type@ == declared_field_type_view(sorted, current, i, j));
            match sorted[i].fields.0@[j].1 {
                SchemaField::Field { field_type } => {
                    assert(sp.fields@[j].field_type == FieldTypePlan::Field(field_type));
                },
                SchemaField::Relation { field_type: rt, schema: rs } => {
                    match rs.id {
                        RelationId::Name(m) => {
                            match sp.fields@[j].field_type {
                                FieldTypePlan::Relation(rt2, t) => {
                                    assert(plans.take(i)[t as int] == plans[t as int]);
                                    assert(plans[t as int].name@ == m@);
                                    assert(sorted[t as int].name@ == m@);
                                    assert(schema_like(
                                        plans[t as int].current->Some_0,
                                        current[find_current_at(current, m@)],
                                    ));
                                    assert(current_ids(plans)[t as int] == plans[
                                        t as int
                                    ].current->Some_0.view_id@);
                                },
                                _ => {
                                    assert(false);
                                },
                            }
                        },
                        RelationId::Id(_) => {},
                    }
                },
            }
        }
        assert(ids_view(cur.field_ids@) =~= current_field_ids(plans, i)) by {
            assert(ids_view(current[c].field_ids@) == Seq::new(
                sorted[i].fields.0@.len(),
                |j: int|
                    current[c].fields@[find_current_field_at(
                        current[c].fields@,
                        sorted[i].fields.0@[j].0@,
                    )].view_id@,
            ));
            assert(cur.field_ids@ == current[c].field_ids@);
        }
    }
}

/// Schema `v` of the declaration file relates by name to schema `u`.
pub open spec fn file_edge(decl: Seq<(String, SchemaItem)>, u: int, v: int) -> bool {
    exists|j: int|
        0 <= j < decl[v].1.fields.0@.len() && match (#[trigger] decl[v].1.fields.0@[j]).1 {
            SchemaField::Relation { schema: rs, .. } => match rs.id {
                RelationId::Name(m) => decl[u].0@ == m@,
                RelationId::Id(_) => false,
            },
            SchemaField::Field { .. } => false,
        }
}

/// A complete, duplicate-free ordering of the declaration file in which
/// every relation target precedes its dependent.
pub open spec fn file_order_ok(decl: Seq<(String, SchemaItem)>, order: Seq<usize>) -> bool {
    &&& order.len() == decl.len()
    &&& forall|k: int| 0 <= k < order.len() ==> (#[trigger] order[k]) < decl.len()
    &&& forall|v: usize| v < decl.len() ==> order.contains(v)
    &&& order.no_duplicates()
    &&& forall|k1: int, k2: int|
        #![trigger order[k1], order[k2]]
        0 <= k1 < order.len() && 0 <= k2 < order.len() && file_edge(
            decl,
            order[k1] as int,
            order[k2] as int,
        ) ==> k1 < k2
}

/// An ordering of the declaration file carries over to the schemas built
/// from it, entry by entry.
proof fn lemma_file_order_transfer(
    planned: Seq<Schema>,
    decl: Seq<(String, SchemaItem)>,
    order: Seq<usize>,
)
    requires
        planned.len() == decl.len(),
        forall|t: int|
            0 <= t < planned.len() ==> (#[trigger] planned[t]).name@ == decl[t].0@
                && planned[t].fields.0@ == decl[t].1.fields.0@,
        file_order_ok(decl, order),
    ensures
        declared_order_ok(planned, order),
{
    assert forall|k1: int, k2: int|
        #![trigger order[k1], order[k2]]
        0 <= k1 < order.len() && 0 <= k2 < order.len() && planned_edge(
            planned,
            order[k1] as int,
            order[k2] as int,
        ) implies k1 < k2 by {
        let u = order[k1] as int;
        let v = order[k2] as int;
        let j = choose|j: int|
            0 <= j < planned[v].fields.0@.len() && match (#[trigger] planned[v].fields.0@[j]).1 {
                SchemaField::Relation { schema: rs, .. } => match rs.id {
                    RelationId::Name(m) => planned[u].name@ == m@,
                    RelationId::Id(_) => false,
                },
                SchemaField::Field { .. } => false,
            };
        assert(decl[v].1.fields.0@[j] == planned[v].fields.0@[j]);
        assert(file_edge(decl, u, v));
    }
}

/// Every declared schema has a well-formed name, a description within
/// bounds, and at least one field.
pub open spec fn declaration_valid(decl: Seq<(String, SchemaItem)>) -> bool {
    forall|i: int|
        0 <= i < decl.len() ==> valid_schema_name((#[trigger] decl[i]).0@)
            && valid_schema_description(decl[i].1.description@) && decl[i].1.fields.0@.len() > 0
}

/// One full reconciliation run against an open store: builds the desired
/// schemas from the declaration, rejecting invalid names, descriptions
/// and empty field sets; materializes the current state by replaying the
/// lock file; produces the new commits; and appends them to the lock
/// file. The previously recorded commits come out first, byte for byte.
pub fn run_update(
    schema_file: &SchemaFile,
    lock_file: &LockFile,
    store: &MemoryStore,
    key_pair: &KeyPair,
) -> (r: Result<(LockFile, Ghost<Seq<Commit>>), Error>)
    ensures
        match r {
            Ok(p) => {
                &&& p.0.version == 1u64
                &&& p.0.commits@ == lock_file.commits@ + p.1@
                &&& p.0.commits@.len() == lock_file.commits@.len() + p.1@.len()
                &&& forall|k: int|
                    0 <= k < lock_file.commits@.len() ==> p.0.commits@[k]
                        == lock_file.commits@[k]
                &&& commits_wf(p.1@)
                &&& declaration_valid(schema_file.0@)
            },
            Err(e) => {
                &&& (e matches Error::InvalidSchemaName { name } ==> !valid_schema_name(name@)
                    && exists|i: int|
                    0 <= i < schema_file.0@.len() && (#[trigger] schema_file.0@[i]).0@ == name@)
                &&& (e matches Error::InvalidSchemaDescription { schema } ==> exists|i: int|
                    #![auto]
                    0 <= i < schema_file.0@.len() && schema_file.0@[i].0@ == schema@
                        && !valid_schema_description(schema_file.0@[i].1.description@))
                &&& (e matches Error::EmptyFields { schema } ==> exists|i: int|
                    #![auto]
                    0 <= i < schema_file.0@.len() && schema_file.0@[i].0@ == schema@
                        && schema_file.0@[i].1.fields.0@.len() == 0)
                &&& (!(e matches Error::EmptyFields { .. } || e matches Error::InvalidSchemaName {
                    ..
                } || e matches Error::InvalidSchemaDescription { .. }) ==> declaration_valid(
                    schema_file.0@,
                ))
                &&& (e matches Error::DuplicateSchemaName { name } ==> exists|i: int, j: int|
                    #![auto]
                    0 <= i < j < schema_file.0@.len() && schema_file.0@[i].0@
                        == schema_file.0@[j].0@ && name@ == schema_file.0@[j].0@)
                &&& (e matches Error::UnresolvedRelation { schema, field, target } ==> {
                    &&& forall|t: int|
                        0 <= t < schema_file.0@.len() ==> (#[trigger] schema_file.0@[t]).0@
                            != target@
                    &&& exists|i: int, j: int|
                        #![auto]
                        0 <= i < schema_file.0@.len() && 0 <= j
                            < schema_file.0@[i].1.fields.0@.len() && schema_file.0@[i].0@
                            == schema@ && schema_file.0@[i].1.fields.0@[j].0@ == field@ && (
                        schema_file.0@[i].1.fields.0@[j].1 matches SchemaField::Relation {
                            schema: rs,
                            ..
                        } && rs.id matches RelationId::Name(m) && m@ == target@)
                })
                &&& (e matches Error::InvalidSchemaId { id } ==> exists|idx: int|
                    0 <= idx < lock_file.commits@.len() && commit_kind_of(
                        (#[trigger] lock_file.commits@[idx]).operation@,
                    ) == Some(SystemSchemaKindView::Other(id@)))
                &&& (e matches Error::PublishFailed { commit, .. } ==> commit
                    < lock_file.commits@.len() && (commit_kind_of(
                    lock_file.commits@[commit as int].operation@,
                ) is None || crate::materialize::commit_kind_good(
                    lock_file.commits@[commit as int].operation@,
                )))
                &&& (e matches Error::CyclicDependency { name } ==> (forall|order: Seq<usize>|
                    !file_order_ok(schema_file.0@, order)) && exists|i: int|
                    0 <= i < schema_file.0@.len() && (#[trigger] schema_file.0@[i]).0@ == name@)
                &&& (e matches Error::IncompatibleSystemVersion { commit } ==> commit
                    < lock_file.commits@.len() && match commit_kind_of(
                    lock_file.commits@[commit as int].operation@,
                ) {
                    Option::Some(SystemSchemaKindView::SchemaDefinition(v)) => !system_version_ok(
                        false,
                        v,
                    ),
                    Option::Some(
                        SystemSchemaKindView::SchemaFieldDefinition(v),
                    ) => !system_version_ok(true, v),
                    _ => false,
                })
            },
        },
{
    let sn = schema_file.0.len();
    let mut planned: Vec<Schema> = Vec::new();
    let mut k: usize = 0;
    while k < sn
        invariant
            sn == schema_file.0@.len(),
            0 <= k <= sn,
            planned@.len() == k,
            forall|t: int|
                0 <= t < k ==> {
                    &&& (#[trigger] planned@[t]).name@ == schema_file.0@[t].0@
                    &&& planned@[t].description@ == schema_file.0@[t].1.description@
                    &&& planned@[t].fields.0@ == schema_file.0@[t].1.fields.0@
                },
            forall|t: int|
                0 <= t < k ==> valid_schema_name((#[trigger] schema_file.0@[t]).0@)
                    && valid_schema_description(schema_file.0@[t].1.description@)
                    && schema_file.0@[t].1.fields.0@.len() > 0,
        decreases sn - k,
    {
        let name = &schema_file.0[k].0;
        let item = &schema_file.0[k].1;
        if !validate_name(name.as_str()) {
            return Err(Error::InvalidSchemaName { name: name.clone() });
        }
        if !validate_description(item.description.as_str()) {
            return Err(Error::InvalidSchemaDescription { schema: name.clone() });
        }
        if item.fields.len() == 0 {
            return Err(Error::EmptyFields { schema: name.clone() });
        }
        planned.push(Schema::new(name, &item.description, &item.fields));
        k = k + 1;
    }
    let current = match materialize(lock_file, store) {
        Ok(c) => c,
        Err(e) => {
            return Err(e);
        },
    };
    let (new_commits, _witness) = match do_it(&current, &planned, store, key_pair) {
        Ok(p) => p,
        Err(e) => {
            proof {
                if e matches Error::DuplicateSchemaName { .. } {
                    let nm = e->DuplicateSchemaName_name;
                    let (i2, j2) = choose|i2: int, j2: int|
                        #![auto]
                        0 <= i2 < j2 < planned@.len() && planned@[i2].name@ == planned@[j2].name@
                            && nm@ == planned@[j2].name@;
                    assert(schema_file.0@[i2].0@ == schema_file.0@[j2].0@);
                    assert(nm@ == schema_file.0@[j2].0@);
                }
                if e matches Error::CyclicDependency { .. } {
                    let nm = e->CyclicDependency_name;
                    assert forall|order2: Seq<usize>| !file_order_ok(
                        schema_file.0@,
                        order2,
                    ) by {
                        if file_order_ok(schema_file.0@, order2) {
                            lemma_file_order_transfer(planned@, schema_file.0@, order2);
                            assert(!declared_order_ok(planned@, order2));
                            assert(false);
                        }
                    }
                    let i2 = choose|i2: int|
                        0 <= i2 < planned@.len() && (#[trigger] planned@[i2]).name@ == nm@;
                    assert(schema_file.0@[i2].0@ == nm@);
                }
                if e matches Error::UnresolvedRelation { .. } {
                    let sc = e->UnresolvedRelation_schema;
                    let fd = e->UnresolvedRelation_field;
                    let tg = e->UnresolvedRelation_target;
                    assert forall|t: int| 0 <= t < schema_file.0@.len() implies (
                    #[trigger] schema_file.0@[t]).0@ != tg@ by {
                        assert(planned@[t].name@ != tg@);
                    }
                    let (i2, j2) = choose|i2: int, j2: int|
                        #![auto]
                        0 <= i2 < planned@.len() && 0 <= j2 < planned@[i2].fields.0@.len()
                            && planned@[i2].name@ == sc@ && planned@[i2].fields.0@[j2].0@ == fd@
                            && (planned@[i2].fields.0@[j2].1 matches SchemaField::Relation {
                            schema: rs,
                            ..
                        } && rs.id matches RelationId::Name(m) && m@ == tg@);
                    assert(schema_file.0@[i2].1.fields.0@[j2] == planned@[i2].fields.0@[j2]);
                    assert(schema_file.0@[i2].0@ == sc@);
                }
            }
            return Err(e);
        },
    };
    let ghost new_view = new_commits@;
    let mut existing: Vec<Commit> = Vec::new();
    let en = lock_file.commits.len();
    let mut i: usize = 0;
    while i < en
        invariant
            en == lock_file.commits@.len(),
            0 <= i <= en,
            existing@ =~= lock_file.commits@.subrange(0, i as int),
        decreases en - i,
    {
        existing.push(lock_file.commits[i].clone());
        i = i + 1;
    }
    proof {
        assert(existing@ =~= lock_file.commits@);
    }
    let merged = merge(existing, new_commits);
    Ok((merged, Ghost(new_view)))
}


/// Facts carried by the graph, the sort order and the cloned sorted
/// sequence, shared by the glue lemmas below.
pub open spec fn sorted_setup_ok(
    planned: Seq<Schema>,
    nodes: Seq<(String, Schema)>,
    edges: Seq<(usize, usize)>,
    order: Seq<usize>,
    sorted: Seq<Schema>,
) -> bool {
    &&& nodes.len() == planned.len()
    &&& forall|t: int|
        0 <= t < nodes.len() ==> {
            &&& (#[trigger] nodes[t]).0@ == planned[t].name@
            &&& nodes[t].1.name@ == planned[t].name@
            &&& nodes[t].1.description@ == planned[t].description@
            &&& nodes[t].1.fields.0@ == planned[t].fields.0@
        }
    &&& forall|q2: int, j2: int|
        #![trigger nodes[q2].1.fields.0@[j2]]
        0 <= q2 < nodes.len() && 0 <= j2 < nodes[q2].1.fields.0@.len() ==> edge_covers(
            nodes,
            edges,
            q2,
            j2,
        )
    &&& is_valid_order(order, nodes.len() as int, edges)
    &&& sorted.len() == planned.len()
    &&& forall|t: int|
        0 <= t < sorted.len() ==> {
            &&& (#[trigger] sorted[t]).name@ == nodes[order[t] as int].0@
            &&& sorted[t].description@ == nodes[order[t] as int].1.description@
            &&& sorted[t].fields.0@ == nodes[order[t] as int].1.fields.0@
        }
}

/// In the sorted sequence produced by a valid order over covered edges,
/// every relation-by-name target stands earlier than its dependent.
proof fn lemma_sorted_targets_precede(
    planned: Seq<Schema>,
    nodes: Seq<(String, Schema)>,
    edges: Seq<(usize, usize)>,
    order: Seq<usize>,
    sorted: Seq<Schema>,
)
    requires
        sorted_setup_ok(planned, nodes, edges, order, sorted),
    ensures
        targets_precede(sorted),
{
    assert forall|i2: int, j2: int|
        0 <= i2 < sorted.len() && 0 <= j2 < (#[trigger] sorted[i2]).fields.0@.len() implies match (
    #[trigger] sorted[i2].fields.0@[j2]).1 {
        SchemaField::Relation { schema: rs, .. } => match rs.id {
            RelationId::Name(m) => exists|t: int|
                0 <= t < i2 && (#[trigger] sorted[t]).name@ == m@,
            RelationId::Id(_) => true,
        },
        SchemaField::Field { .. } => true,
    } by {
        let qq = order[i2] as int;
        assert(sorted[i2].fields.0@ == nodes[qq].1.fields.0@);
        match sorted[i2].fields.0@[j2].1 {
            SchemaField::Relation { schema: rs, .. } => {
                match rs.id {
                    RelationId::Name(m) => {
                        assert(edge_covers(nodes, edges, qq, j2));
                        let e = choose|e: int|
                            0 <= e < edges.len() && (#[trigger] edges[e]).1 == qq as usize
                                && edges[e].0 < nodes.len() && nodes[edges[e].0 as int].0@ == m@;
                        assert(order.contains(edges[e].0));
                        let k1 = choose|k1: int| 0 <= k1 < order.len() && order[k1] == edges[e].0;
                        assert(order[k1] == edges[e].0 && order[i2] == edges[e].1);
                        assert(k1 < i2);
                        assert(sorted[k1].name@ == nodes[edges[e].0 as int].0@);
                    },
                    RelationId::Id(_) => {},
                }
            },
            SchemaField::Field { .. } => {},
        }
    }
}

/// Assembles the run witness from its separately proven parts.
proof fn lemma_run_witness(
    planned: Seq<Schema>,
    current: Seq<CurrentSchema>,
    order: Seq<usize>,
    sorted: Seq<Schema>,
    plans: Seq<SchemaPlan>,
    ids: Seq<Seq<char>>,
    fidss: Seq<Seq<Seq<char>>>,
    commits: Seq<Commit>,
)
    requires
        order.len() == planned.len(),
        sorted.len() == planned.len(),
        order.no_duplicates(),
        forall|t: int| 0 <= t < order.len() ==> (#[trigger] order[t]) < planned.len(),
        forall|t: int|
            0 <= t < sorted.len() ==> schema_matches(#[trigger] sorted[t], planned[order[t] as int]),
        targets_precede(sorted),
        plans_wf(plans),
        plan_of(sorted, current, plans),
        plans_exec_ok(plans, ids, fidss, commits),
        commits_wf(commits),
    ensures
        run_witness_ok(current, planned, commits, (order, sorted, plans, ids, fidss)),
{
    reveal(run_witness_ok);
}

} // verus!