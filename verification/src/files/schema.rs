//! The declared schema set: scalar and relation field types, fields, and the
//! mapping of schema names to their declared definitions.

use vstd::prelude::*;
use crate::names::find_key_at;
use crate::names::keys_sorted;
use crate::names::keys_unique;
use crate::names::lemma_keys_sorted_unique;
use crate::names::sorted_insert;
use crate::names::sorted_insert_pos;

verus! {

/// A scalar field type of a schema field.
#[derive(Debug, Clone, Copy, PartialEq, Eq, Structural)]
pub enum FieldType {
    Boolean,
    Float,
    Integer,
    String,
}

/// The four kinds of relation field: single or list, unpinned or pinned.
#[derive(Debug, Clone, Copy, PartialEq, Eq, Structural)]
pub enum RelationType {
    Relation,
    RelationList,
    PinnedRelation,
    PinnedRelationList,
}

/// The target of a relation field: either the name of a schema declared in
/// the same set, or an already-materialized schema identifier.
#[derive(Debug, PartialEq)]
pub enum RelationId {
    Name(String),
    Id(String),
}

impl Clone for RelationId {
    fn clone(&self) -> (r: Self)
        ensures
            r == *self,
    {
        match self {
            RelationId::Name(n) => RelationId::Name(n.clone()),
            RelationId::Id(i) => RelationId::Id(i.clone()),
        }
    }
}

/// Where an externally maintained relation target lives.
#[derive(Debug, PartialEq)]
pub enum RelationSource {
    Git(String),
    Path(String),
}

impl Clone for RelationSource {
    fn clone(&self) -> (r: Self)
        ensures
            r == *self,
    {
        match self {
            RelationSource::Git(s) => RelationSource::Git(s.clone()),
            RelationSource::Path(s) => RelationSource::Path(s.clone()),
        }
    }
}

/// The schema a relation field points at, with an optional external source.
#[derive(Debug, PartialEq)]
pub struct RelationSchema {
    pub id: RelationId,
    pub external: Option<RelationSource>,
}

impl Clone for RelationSchema {
    fn clone(&self) -> (r: Self)
        ensures
            r == *self,
    {
        RelationSchema {
            id: self.id.clone(),
            external: match &self.external {
                Some(src) => Some(src.clone()),
                None => None,
            },
        }
    }
}

/// One declared field: either a scalar field or a relation field.
#[derive(Debug, PartialEq)]
pub enum SchemaField {
    Field { field_type: FieldType },
    Relation { field_type: RelationType, schema: RelationSchema },
}

impl Clone for SchemaField {
    fn clone(&self) -> (r: Self)
        ensures
            r == *self,
    {
        match self {
            SchemaField::Field { field_type } => SchemaField::Field { field_type: *field_type },
            SchemaField::Relation { field_type, schema } => SchemaField::Relation {
                field_type: *field_type,
                schema: schema.clone(),
            },
        }
    }
}

/// The label a declared field type carries in the declaration file.
pub open spec fn spec_type_label(f: SchemaField) -> Seq<char> {
    match f {
        SchemaField::Field { field_type } => match field_type {
            FieldType::Boolean => "bool"@,
            FieldType::Float => "float"@,
            FieldType::Integer => "int"@,
            FieldType::String => "str"@,
        },
        SchemaField::Relation { field_type, .. } => match field_type {
            RelationType::Relation => "relation"@,
            RelationType::RelationList => "relation_list"@,
            RelationType::PinnedRelation => "pinned_relation"@,
            RelationType::PinnedRelationList => "pinned_relation_list"@,
        },
    }
}

impl SchemaField {
    /// The label this field's type carries in the declaration file.
    pub fn type_label(&self) -> (r: String)
        ensures
            r@ == spec_type_label(*self),
    {
        match self {
            SchemaField::Field { field_type } => match field_type {
                FieldType::Boolean => "bool".to_owned(),
                FieldType::Float => "float".to_owned(),
                FieldType::Integer => "int".to_owned(),
                FieldType::String => "str".to_owned(),
            },
            SchemaField::Relation { field_type, .. } => match field_type {
                RelationType::Relation => "relation".to_owned(),
                RelationType::RelationList => "relation_list".to_owned(),
                RelationType::PinnedRelation => "pinned_relation".to_owned(),
                RelationType::PinnedRelationList => "pinned_relation_list".to_owned(),
            },
        }
    }
}

/// The declared fields of one schema: a mapping of field name to field
/// definition, kept in strictly increasing name order, so field names are
/// unique and repeated runs over an unchanged declaration see the fields
/// in the same order.
#[derive(Debug, PartialEq)]
#[verifier::ext_equal]
pub struct SchemaFields(pub Vec<(String, SchemaField)>);

impl Clone for SchemaFields {
    fn clone(&self) -> (r: Self)
        ensures
            r.0@ == self.0@,
    {
        let n = self.0.len();
        let mut out: Vec<(String, SchemaField)> = Vec::new();
        let mut i: usize = 0;
        while i < n
            invariant
                n == self.0@.len(),
                0 <= i <= n,
                out@ =~= self.0@.subrange(0, i as int),
            decreases n - i,
        {
            let pair = (self.0[i].0.clone(), self.0[i].1.clone());
            out.push(pair);
            i = i + 1;
        }
        proof {
            assert(out@ =~= self.0@);
        }
        SchemaFields(out)
    }
}

impl SchemaFields {
    /// The fields stand in strictly increasing name order, as the
    /// declaration file's map iterates them; names are therefore unique.
    pub open spec fn wf(self) -> bool {
        keys_sorted(self.0@)
    }

    /// Sorted names are unique names.
    pub proof fn lemma_wf_unique(self)
        requires
            self.wf(),
        ensures
            keys_unique(self.0@),
    {
        lemma_keys_sorted_unique(self.0@);
    }

    /// An empty field mapping.
    pub fn new() -> (r: SchemaFields)
        ensures
            r.0@.len() == 0,
            r.wf(),
    {
        SchemaFields(Vec::new())
    }

    /// How many fields are declared.
    pub fn len(&self) -> (r: usize)
        ensures
            r == self.0@.len(),
    {
        self.0.len()
    }

    /// Adds a field under `field_name`: a field already declared under
    /// that name is replaced in place, a new name is placed before the
    /// first larger one, keeping the mapping in name order.
    pub fn insert(&mut self, field_name: String, field: SchemaField)
        requires
            old(self).wf(),
        ensures
            final(self).wf(),
            ({
                let at = find_key_at(old(self).0@, field_name@);
                if at == -1 {
                    final(self).0@ == old(self).0@.insert(
                        sorted_insert_pos(old(self).0@, field_name@),
                        (field_name, field),
                    )
                } else {
                    final(self).0@ == old(self).0@.update(at, (field_name, field))
                }
            }),
    {
        sorted_insert(&mut self.0, field_name, field);
    }

    /// The declared fields, in name order.
    pub fn iter(&self) -> (r: &Vec<(String, SchemaField)>)
        ensures
            r == &self.0,
    {
        &self.0
    }
}

/// One declared schema: its description and its fields.
#[derive(Debug, PartialEq)]
pub struct SchemaItem {
    pub description: String,
    pub fields: SchemaFields,
}

impl Clone for SchemaItem {
    fn clone(&self) -> (r: Self)
        ensures
            r.description@ == self.description@,
            r.fields.0@ == self.fields.0@,
    {
        SchemaItem { description: self.description.clone(), fields: self.fields.clone() }
    }
}

/// The declared schema set: a mapping of schema name to schema, kept in
/// strictly increasing name order, so schema names are unique and
/// repeated runs over an unchanged declaration see the schemas in the
/// same order.
#[derive(Debug, PartialEq)]
pub struct SchemaFile(pub Vec<(String, SchemaItem)>);

impl SchemaFile {
    /// The schemas stand in strictly increasing name order, as the
    /// declaration file's map iterates them; names are therefore unique.
    pub open spec fn wf(self) -> bool {
        keys_sorted(self.0@)
    }

    /// An empty declaration.
    pub fn new() -> (r: SchemaFile)
        ensures
            r.0@.len() == 0,
            r.wf(),
    {
        SchemaFile(Vec::new())
    }

    /// The declared schemas, in name order.
    pub fn iter(&self) -> (r: &Vec<(String, SchemaItem)>)
        ensures
            r == &self.0,
    {
        &self.0
    }

    /// Adds a schema under `name`: a schema already declared under that
    /// name is replaced in place, a new name is placed before the first
    /// larger one, keeping the declaration in name order.
    pub fn add_schema(&mut self, name: &String, description: &String, fields: &SchemaFields)
        requires
            old(self).wf(),
        ensures
            final(self).wf(),
            ({
                let at = find_key_at(old(self).0@, name@);
                let pos = sorted_insert_pos(old(self).0@, name@);
                if at == -1 {
                    &&& final(self).0@.len() == old(self).0@.len() + 1
                    &&& 0 <= pos <= old(self).0@.len()
                    &&& (forall|k: int| 0 <= k < pos ==> final(self).0@[k] == old(self).0@[k])
                    &&& (forall|k: int|
                        pos < k < final(self).0@.len() ==> final(self).0@[k] == old(self).0@[k
                            - 1])
                    &&& final(self).0@[pos].0@ == name@
                    &&& final(self).0@[pos].1.description@ == description@
                    &&& final(self).0@[pos].1.fields.0@ == fields.0@
                } else {
                    &&& final(self).0@.len() == old(self).0@.len()
                    &&& (forall|k: int|
                        0 <= k < old(self).0@.len() && k != at ==> final(self).0@[k] == old(
                            self,
                        ).0@[k])
                    &&& final(self).0@[at].0@ == name@
                    &&& final(self).0@[at].1.description@ == description@
                    &&& final(self).0@[at].1.fields.0@ == fields.0@
                }
            }),
    {
        let item = SchemaItem { description: description.clone(), fields: fields.clone() };
        let name2 = name.clone();
        let ghost orig = self.0@;
        let ghost itemg = item;
        let ghost name2g = name2;
        proof {
            crate::names::lemma_sorted_insert_pos_spec(orig, name@);
        }
        sorted_insert(&mut self.0, name2, item);
        proof {
            assert(name2g == *name);
            assert(name2g@ == name@);
            let at = find_key_at(orig, name@);
            crate::names::lemma_find_key_at_spec(orig, name@);
            assert(find_key_at(orig, name2g@) == at);
            assert(sorted_insert_pos(orig, name2g@) == sorted_insert_pos(orig, name@));
            if at == -1 {
                let pos = sorted_insert_pos(orig, name@);
                assert(self.0@ == orig.insert(pos, (name2g, itemg)));
                orig.insert_ensures(pos, (name2g, itemg));
                assert(self.0@[pos] == (name2g, itemg));
                assert forall|k: int| pos < k < self.0@.len() implies self.0@[k] == orig[k
                    - 1] by {
                    assert(orig.insert(pos, (name2g, itemg))[(k - 1) + 1] == orig[k - 1]);
                }
            } else {
                assert(self.0@ == orig.update(at, (name2g, itemg)));
                assert(self.0@[at] == (name2g, itemg));
            }
        }
    }
}

} // verus!
