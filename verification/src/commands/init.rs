//! Initialising a schema folder: the template declaration a fresh project
//! starts from.

use vstd::prelude::*;
use crate::error::Error;
use crate::files::FieldType;
use crate::files::SchemaField;
use crate::files::SchemaFields;
use crate::files::SchemaFile;
use crate::schema::valid_schema_name;
use crate::schema::validate_name;

verus! {

/// Builds the template declaration for a fresh project: one schema of the
/// given name, with an empty description and a single string field named
/// "my_field". Rejects names that break the schema name rules, exactly
/// those.
pub fn template_schema_file(name: &String) -> (r: Result<SchemaFile, Error>)
    ensures
        match r {
            Ok(f) => {
                &&& valid_schema_name(name@)
                &&& f.0@.len() == 1
                &&& f.0@[0].0@ == name@
                &&& f.0@[0].1.description@.len() == 0
                &&& f.0@[0].1.fields.0@.len() == 1
                &&& f.0@[0].1.fields.0@[0].0@ == "my_field"@
                &&& f.0@[0].1.fields.0@[0].1 == (SchemaField::Field {
                    field_type: FieldType::String,
                })
            },
            Err(e) => !valid_schema_name(name@) && e matches Error::InvalidSchemaName { .. },
        },
{
    if !validate_name(name.as_str()) {
        return Err(Error::InvalidSchemaName { name: name.clone() });
    }
    let description = String::new();
    let mut fields = SchemaFields::new();
    fields.insert("my_field".to_owned(), SchemaField::Field { field_type: FieldType::String });
    let mut file = SchemaFile::new();
    file.add_schema(name, &description, &fields);
    Ok(file)
}

} // verus!
