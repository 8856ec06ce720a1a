//! The materialized view of the current state: what the persisted log says
//! each schema and field definition currently looks like.

use vstd::prelude::*;
use crate::files::RelationType;
use crate::files::FieldType;

verus! {

/// Ghost-level value of a concrete field type, with relation targets as
/// character sequences.
pub enum TypeView {
    Boolean,
    Bytes,
    Float,
    Integer,
    Str,
    Relation(RelationType, Seq<char>),
}

/// The concrete type descriptor a field definition operation carries:
/// a scalar type, or a relation kind together with the full id
/// (`name_viewid`) of the schema it points at.
#[derive(Debug, PartialEq)]
pub enum ConcreteType {
    Boolean,
    Bytes,
    Float,
    Integer,
    Str,
    Relation(RelationType, String),
}

impl View for ConcreteType {
    type V = TypeView;

    open spec fn view(&self) -> TypeView {
        match self {
            ConcreteType::Boolean => TypeView::Boolean,
            ConcreteType::Bytes => TypeView::Bytes,
            ConcreteType::Float => TypeView::Float,
            ConcreteType::Integer => TypeView::Integer,
            ConcreteType::Str => TypeView::Str,
            ConcreteType::Relation(rt, id) => TypeView::Relation(*rt, id@),
        }
    }
}

impl Clone for ConcreteType {
    fn clone(&self) -> (r: Self)
        ensures
            r == *self,
    {
        match self {
            ConcreteType::Boolean => ConcreteType::Boolean,
            ConcreteType::Bytes => ConcreteType::Bytes,
            ConcreteType::Float => ConcreteType::Float,
            ConcreteType::Integer => ConcreteType::Integer,
            ConcreteType::Str => ConcreteType::Str,
            ConcreteType::Relation(rt, id) => ConcreteType::Relation(*rt, id.clone()),
        }
    }
}

/// The concrete type a declared scalar field maps to.
pub open spec fn scalar_view(ft: FieldType) -> TypeView {
    match ft {
        FieldType::Boolean => TypeView::Boolean,
        FieldType::Float => TypeView::Float,
        FieldType::Integer => TypeView::Integer,
        FieldType::String => TypeView::Str,
    }
}

/// Maps a declared scalar field type to its concrete descriptor.
pub fn scalar_concrete(ft: FieldType) -> (r: ConcreteType)
    ensures
        r@ == scalar_view(ft),
{
    match ft {
        FieldType::Boolean => ConcreteType::Boolean,
        FieldType::Float => ConcreteType::Float,
        FieldType::Integer => ConcreteType::Integer,
        FieldType::String => ConcreteType::Str,
    }
}

/// Decides whether two concrete types are the same descriptor.
pub fn ctype_eq(a: &ConcreteType, b: &ConcreteType) -> (r: bool)
    ensures
        r == (a@ == b@),
{
    match (a, b) {
        (ConcreteType::Boolean, ConcreteType::Boolean) => true,
        (ConcreteType::Bytes, ConcreteType::Bytes) => true,
        (ConcreteType::Float, ConcreteType::Float) => true,
        (ConcreteType::Integer, ConcreteType::Integer) => true,
        (ConcreteType::Str, ConcreteType::Str) => true,
        (ConcreteType::Relation(rta, ida), ConcreteType::Relation(rtb, idb)) => *rta == *rtb
            && *ida == *idb,
        _ => false,
    }
}

/// The current materialized definition of one schema field: its recorded
/// name, concrete type, and the view id of its definition document.
#[derive(Debug, PartialEq)]
pub struct CurrentField {
    pub name: String,
    pub field_type: ConcreteType,
    pub view_id: String,
}

impl Clone for CurrentField {
    fn clone(&self) -> (r: Self)
        ensures
            r == *self,
    {
        CurrentField {
            name: self.name.clone(),
            field_type: self.field_type.clone(),
            view_id: self.view_id.clone(),
        }
    }
}

/// The current materialized definition of one schema: its recorded name,
/// description, ordered field definition view ids, the view id of the
/// schema definition document itself, and the resolved field definitions.
#[derive(Debug, PartialEq)]
pub struct CurrentSchema {
    pub name: String,
    pub description: String,
    pub field_ids: Vec<String>,
    pub view_id: String,
    pub fields: Vec<CurrentField>,
}

impl Clone for CurrentSchema {
    fn clone(&self) -> (r: Self)
        ensures
            r.name@ == self.name@,
            r.description@ == self.description@,
            r.field_ids@ == self.field_ids@,
            r.view_id@ == self.view_id@,
            r.fields@ == self.fields@,
    {
        let mut field_ids: Vec<String> = Vec::new();
        let mut i: usize = 0;
        let n = self.field_ids.len();
        while i < n
            invariant
                n == self.field_ids@.len(),
                0 <= i <= n,
                field_ids@ =~= self.field_ids@.subrange(0, i as int),
            decreases n - i,
        {
            field_ids.push(self.field_ids[i].clone());
            i = i + 1;
        }
        let mut fields: Vec<CurrentField> = Vec::new();
        let m = self.fields.len();
        let mut j: usize = 0;
        while j < m
            invariant
                m == self.fields@.len(),
                0 <= j <= m,
                fields@ =~= self.fields@.subrange(0, j as int),
            decreases m - j,
        {
            fields.push(self.fields[j].clone());
            j = j + 1;
        }
        proof {
            assert(field_ids@ =~= self.field_ids@);
            assert(fields@ =~= self.fields@);
        }
        CurrentSchema {
            name: self.name.clone(),
            description: self.description.clone(),
            field_ids,
            view_id: self.view_id.clone(),
            fields,
        }
    }
}

/// The view ids of `ids` as character sequences, in order.
pub open spec fn ids_view(ids: Seq<String>) -> Seq<Seq<char>> {
    ids.map_values(|s: String| s@)
}

} // verus!
