//! A desired schema: its name, description and declared fields, constructed
//! fresh from the declaration on every run.

use vstd::prelude::*;
use crate::files::SchemaFields;
use crate::names::keys_unique;

verus! {

/// One schema as the declaration wants it to exist.
#[derive(Debug, PartialEq)]
pub struct Schema {
    pub name: String,
    pub description: String,
    pub fields: SchemaFields,
}

impl Clone for Schema {
    fn clone(&self) -> (r: Self)
        ensures
            r.name@ == self.name@,
            r.description@ == self.description@,
            r.fields.0@ == self.fields.0@,
    {
        Schema {
            name: self.name.clone(),
            description: self.description.clone(),
            fields: self.fields.clone(),
        }
    }
}

impl Schema {
    /// True when the declared field names are unique.
    pub open spec fn wf(self) -> bool {
        keys_unique(self.fields.0@)
    }

    pub open spec fn spec_name(self) -> Seq<char> {
        self.name@
    }

    pub open spec fn spec_description(self) -> Seq<char> {
        self.description@
    }

    pub open spec fn spec_fields(self) -> SchemaFields {
        self.fields
    }

    pub fn new(name: &String, description: &String, fields: &SchemaFields) -> (r: Schema)
        ensures
            r.name@ == name@,
            r.description@ == description@,
            r.fields.0@ == fields.0@,
    {
        Schema {
            name: name.clone(),
            description: description.clone(),
            fields: fields.clone(),
        }
    }

    pub fn name(&self) -> (r: &String)
        ensures
            r@ == self.name@,
    {
        &self.name
    }

    pub fn description(&self) -> (r: &String)
        ensures
            r@ == self.description@,
    {
        &self.description
    }

    pub fn fields(&self) -> (r: &SchemaFields)
        ensures
            *r == self.fields,
    {
        &self.fields
    }
}

/// True of characters the schema name rules count as a letter.
pub open spec fn spec_is_letter(c: char) -> bool {
    ('a' <= c && c <= 'z') || ('A' <= c && c <= 'Z')
}

/// True of letters and decimal digits.
pub open spec fn spec_is_letter_or_digit(c: char) -> bool {
    spec_is_letter(c) || ('0' <= c && c <= '9')
}

/// The schema name rules: between 2 and 64 characters, beginning with a
/// letter, using only letters, digits and underscores, and not ending with
/// an underscore.
pub open spec fn valid_schema_name(s: Seq<char>) -> bool {
    &&& 2 <= s.len() <= 64
    &&& spec_is_letter(s[0])
    &&& forall|i: int| 0 < i < s.len() - 1 ==> (spec_is_letter_or_digit(#[trigger] s[i]) || s[i]
        == '_')
    &&& spec_is_letter_or_digit(s[s.len() - 1])
}

/// The schema description rule: at most 256 characters.
pub open spec fn valid_schema_description(s: Seq<char>) -> bool {
    s.len() <= 256
}

fn is_letter(c: char) -> (r: bool)
    ensures
        r == spec_is_letter(c),
{
    ('a' <= c && c <= 'z') || ('A' <= c && c <= 'Z')
}

fn is_letter_or_digit(c: char) -> (r: bool)
    ensures
        r == spec_is_letter_or_digit(c),
{
    is_letter(c) || ('0' <= c && c <= '9')
}

/// Decides whether `name` may serve as a schema name.
pub fn validate_name(name: &str) -> (r: bool)
    ensures
        r == valid_schema_name(name@),
{
    let n = name.unicode_len();
    if n < 2 || n > 64 {
        return false;
    }
    if !is_letter(name.get_char(0)) {
        return false;
    }
    if !is_letter_or_digit(name.get_char(n - 1)) {
        return false;
    }
    let mut i: usize = 1;
    while i < n - 1
        invariant
            2 <= n <= 64,
            n == name@.len(),
            1 <= i <= n - 1,
            forall|k: int| 0 < k < i ==> (spec_is_letter_or_digit(#[trigger] name@[k]) || name@[k]
                == '_'),
        decreases n - i,
    {
        let c = name.get_char(i);
        if !(is_letter_or_digit(c) || c == '_') {
            return false;
        }
        i = i + 1;
    }
    true
}

/// Decides whether `description` may serve as a schema description.
pub fn validate_description(description: &str) -> (r: bool)
    ensures
        r == valid_schema_description(description@),
{
    description.unicode_len() <= 256
}

} // verus!
