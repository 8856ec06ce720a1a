//! A string-typed rendering of a schema for the declaration file on disk:
//! field types appear under their textual labels.

use vstd::prelude::*;
use crate::files::schema::spec_type_label;
use crate::schema::Schema;

verus! {

/// One field of the rendered declaration, typed by its label.
#[derive(Debug, PartialEq)]
pub struct SchemaField {
    pub field_type: String,
}

/// One rendered schema: its description and labelled fields.
#[derive(Debug, PartialEq)]
pub struct SchemaItem {
    pub description: String,
    pub fields: Vec<(String, SchemaField)>,
}

impl SchemaItem {
    /// Renders a schema: the description as it stands, and each field
    /// under its name with its type's label.
    pub fn from_schema(value: &Schema) -> (r: SchemaItem)
        ensures
            r.description@ == value.description@,
            r.fields@.len() == value.fields.0@.len(),
            forall|j: int|
                0 <= j < r.fields@.len() ==> (#[trigger] r.fields@[j]).0@
                    == value.fields.0@[j].0@ && r.fields@[j].1.field_type@ == spec_type_label(
                    value.fields.0@[j].1,
                ),
    {
        let n = value.fields.0.len();
        let mut fields: Vec<(String, SchemaField)> = Vec::new();
        let mut j: usize = 0;
        while j < n
            invariant
                n == value.fields.0@.len(),
                0 <= j <= n,
                fields@.len() == j,
                forall|k: int|
                    0 <= k < j ==> (#[trigger] fields@[k]).0@ == value.fields.0@[k].0@
                        && fields@[k].1.field_type@ == spec_type_label(value.fields.0@[k].1),
            decreases n - j,
        {
            let name = value.fields.0[j].0.clone();
            let field = SchemaField { field_type: value.fields.0[j].1.type_label() };
            fields.push((name, field));
            j = j + 1;
        }
        SchemaItem { description: value.description.clone(), fields }
    }
}

/// The rendered declaration: schema names with their rendered schemas, in
/// the order they were added.
#[derive(Debug, PartialEq)]
pub struct SchemaFile(pub Vec<(String, SchemaItem)>);

impl SchemaFile {
    /// An empty rendered declaration.
    pub fn new() -> (r: SchemaFile)
        ensures
            r.0@.len() == 0,
    {
        SchemaFile(Vec::new())
    }

    /// Appends a schema's rendering under its name.
    pub fn add_schema(&mut self, schema: &Schema)
        ensures
            final(self).0@.len() == old(self).0@.len() + 1,
            forall|k: int| 0 <= k < old(self).0@.len() ==> final(self).0@[k] == old(self).0@[k],
            final(self).0@.last().0@ == schema.name@,
            final(self).0@.last().1.description@ == schema.description@,
            final(self).0@.last().1.fields@.len() == schema.fields.0@.len(),
    {
        let item = SchemaItem::from_schema(schema);
        self.0.push((schema.name.clone(), item));
    }
}

} // verus!
