use fishy::error::Error;
use fishy::files::SchemaFields;
use fishy::graph::DependencyGraph;
use fishy::schema::Schema;

fn schema(name: &str) -> Schema {
    let mut fields = SchemaFields::new();
    fields.insert(
        "field".to_string(),
        fishy::files::SchemaField::Field {
            field_type: fishy::files::FieldType::String,
        },
    );
    Schema::new(&name.to_string(), &String::new(), &fields)
}

fn graph_of(names: &[&str], edges: &[(&str, &str)]) -> DependencyGraph {
    let mut graph = DependencyGraph::new();
    for name in names {
        graph
            .add_schema(&name.to_string(), &schema(name))
            .expect("unique name");
    }
    for (target, dependent) in edges {
        graph
            .add_dependency(&target.to_string(), &dependent.to_string())
            .expect("both registered");
    }
    graph
}

#[test]
fn sort_puts_every_edge_target_before_its_dependent() {
    let graph = graph_of(
        &["events", "venues", "cities"],
        &[("cities", "venues"), ("venues", "events")],
    );
    let order = graph.sort().expect("acyclic");
    assert_eq!(order, vec![2, 1, 0]);
}

#[test]
fn sort_breaks_ties_by_registration_order() {
    let graph = graph_of(&["b", "a", "c"], &[]);
    let order = graph.sort().expect("acyclic");
    assert_eq!(order, vec![0, 1, 2]);
}

#[test]
fn sort_reports_a_cycle() {
    let graph = graph_of(&["a", "b"], &[("a", "b"), ("b", "a")]);
    match graph.sort() {
        Err(Error::CyclicDependency { name }) => {
            assert!(name == "a" || name == "b");
        }
        other => panic!("expected a cycle, got {other:?}"),
    }
}

#[test]
fn sort_treats_a_self_edge_as_a_cycle() {
    let graph = graph_of(&["a", "b"], &[("a", "a")]);
    match graph.sort() {
        Err(Error::CyclicDependency { name }) => assert_eq!(name, "a"),
        other => panic!("expected a cycle, got {other:?}"),
    }
}

#[test]
fn duplicate_schema_names_are_rejected() {
    let mut graph = DependencyGraph::new();
    graph
        .add_schema(&"a".to_string(), &schema("a"))
        .expect("first registration");
    match graph.add_schema(&"a".to_string(), &schema("a")) {
        Err(Error::DuplicateSchemaName { name }) => assert_eq!(name, "a"),
        other => panic!("expected a duplicate, got {other:?}"),
    }
}
