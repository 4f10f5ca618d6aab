//! The schema model: a tagged tree of schema kinds, its mathematical
//! view, and the parse-time error taxonomy.
//!
//! Named kinds (records, enums, fixed) carry their fullname, computed
//! at parse time from the Avro naming rules. A [`Schema::Reference`] is
//! a pointer to a named type, resolved through a registry rather than
//! embedded by value, so self- and mutually-referential records stay
//! finite.

use vstd::prelude::*;

use crate::json::JsonValue;
use crate::json::SpecJson;

verus! {

broadcast use vstd::std_specs::vec::group_vec_axioms;

/// Sort order of a record field; metadata only.
#[derive(Debug, PartialEq, Eq, Clone, Copy)]
pub enum SortOrder {
    Ascending,
    Descending,
    Ignore,
}

/// Mathematical view of a schema tree.
pub enum SpecSchema {
    Null,
    Boolean,
    Int,
    Long,
    Float,
    Double,
    Bytes,
    Str,
    Fixed { fullname: Seq<u8>, size: u64 },
    Enum { fullname: Seq<u8>, symbols: Seq<Seq<u8>>, default: Option<Seq<u8>> },
    Array { item: Box<SpecSchema> },
    MapOf { value: Box<SpecSchema> },
    Union { branches: Seq<SpecSchema> },
    Record { fullname: Seq<u8>, fields: Seq<SpecField> },
    Reference { fullname: Seq<u8> },
}

/// Mathematical view of a record field.
pub struct SpecField {
    pub name: Seq<u8>,
    pub doc: Option<Seq<u8>>,
    pub ty: SpecSchema,
    pub default: Option<SpecJson>,
    pub order: Option<SortOrder>,
}

/// Executable schema tree.
#[derive(Debug, PartialEq, Eq)]
pub enum Schema {
    Null,
    Boolean,
    Int,
    Long,
    Float,
    Double,
    Bytes,
    Str,
    Fixed { fullname: Vec<u8>, size: u64 },
    Enum { fullname: Vec<u8>, symbols: Vec<Vec<u8>>, default: Option<Vec<u8>> },
    Array { item: Box<Schema> },
    MapOf { value: Box<Schema> },
    Union { branches: Vec<Schema> },
    Record { fullname: Vec<u8>, fields: Vec<Field> },
    Reference { fullname: Vec<u8> },
}

/// Executable record field.
#[derive(Debug, PartialEq, Eq)]
pub struct Field {
    pub name: Vec<u8>,
    pub doc: Option<Vec<u8>>,
    pub ty: Schema,
    pub default: Option<JsonValue>,
    pub order: Option<SortOrder>,
}

/// View of an optional byte string.
pub open spec fn dv_opt_bytes(o: Option<Vec<u8>>) -> Option<Seq<u8>> {
    match o {
        Some(v) => Some(v@),
        None => None,
    }
}

/// View of a sequence of byte strings, elementwise.
pub open spec fn dv_names(xs: Seq<Vec<u8>>) -> Seq<Seq<u8>>
    decreases xs,
{
    if xs.len() == 0 {
        Seq::empty()
    } else {
        seq![xs[0]@] + dv_names(xs.drop_first())
    }
}

/// The name views index as expected.
pub broadcast proof fn lemma_dv_names(xs: Seq<Vec<u8>>)
    ensures
        (#[trigger] dv_names(xs)).len() == xs.len(),
        forall|i: int| 0 <= i < xs.len() ==> dv_names(xs)[i] == xs[i]@,
    decreases xs.len(),
{
    if xs.len() > 0 {
        lemma_dv_names(xs.drop_first());
    }
}

impl Schema {
    /// Mathematical view of the tree: every `Vec` becomes a `Seq`.
    pub open spec fn dv(&self) -> SpecSchema
        decreases *self,
    {
        match self {
            Schema::Null => SpecSchema::Null,
            Schema::Boolean => SpecSchema::Boolean,
            Schema::Int => SpecSchema::Int,
            Schema::Long => SpecSchema::Long,
            Schema::Float => SpecSchema::Float,
            Schema::Double => SpecSchema::Double,
            Schema::Bytes => SpecSchema::Bytes,
            Schema::Str => SpecSchema::Str,
            Schema::Fixed { fullname, size } => SpecSchema::Fixed {
                fullname: fullname@,
                size: *size,
            },
            Schema::Enum { fullname, symbols, default } => SpecSchema::Enum {
                fullname: fullname@,
                symbols: dv_names(symbols@),
                default: dv_opt_bytes(*default),
            },
            Schema::Array { item } => SpecSchema::Array { item: Box::new(item.dv()) },
            Schema::MapOf { value } => SpecSchema::MapOf { value: Box::new(value.dv()) },
            Schema::Union { branches } => SpecSchema::Union {
                branches: dv_schemas(branches@),
            },
            Schema::Record { fullname, fields } => SpecSchema::Record {
                fullname: fullname@,
                fields: dv_fields(fields@),
            },
            Schema::Reference { fullname } => SpecSchema::Reference { fullname: fullname@ },
        }
    }
}

impl Field {
    /// Mathematical view of the field.
    pub open spec fn dv(&self) -> SpecField
        decreases *self,
    {
        SpecField {
            name: self.name@,
            doc: dv_opt_bytes(self.doc),
            ty: self.ty.dv(),
            default: match self.default {
                Some(d) => Some(d.dv()),
                None => None,
            },
            order: self.order,
        }
    }
}

/// View of a sequence of schemas, elementwise.
pub open spec fn dv_schemas(xs: Seq<Schema>) -> Seq<SpecSchema>
    decreases xs,
{
    if xs.len() == 0 {
        Seq::empty()
    } else {
        seq![xs[0].dv()] + dv_schemas(xs.drop_first())
    }
}

/// View of a sequence of fields, elementwise.
pub open spec fn dv_fields(xs: Seq<Field>) -> Seq<SpecField>
    decreases xs,
{
    if xs.len() == 0 {
        Seq::empty()
    } else {
        seq![xs[0].dv()] + dv_fields(xs.drop_first())
    }
}

/// The schema views index as expected.
pub broadcast proof fn lemma_dv_schemas(xs: Seq<Schema>)
    ensures
        (#[trigger] dv_schemas(xs)).len() == xs.len(),
        forall|i: int| 0 <= i < xs.len() ==> dv_schemas(xs)[i] == xs[i].dv(),
    decreases xs.len(),
{
    if xs.len() > 0 {
        lemma_dv_schemas(xs.drop_first());
    }
}

/// The field views index as expected.
pub broadcast proof fn lemma_dv_fields(xs: Seq<Field>)
    ensures
        (#[trigger] dv_fields(xs)).len() == xs.len(),
        forall|i: int| 0 <= i < xs.len() ==> dv_fields(xs)[i] == xs[i].dv(),
    decreases xs.len(),
{
    if xs.len() > 0 {
        lemma_dv_fields(xs.drop_first());
    }
}

/// Why a document, or a document set, failed to parse or resolve.
pub enum SpecParseError {
    /// The text is not valid JSON.
    MalformedJson,
    /// A type string is neither primitive nor a declared name.
    UnknownType(Seq<u8>),
    /// A record field or named-type attribute is missing or ill-typed;
    /// the payload names the offending attribute or field.
    InvalidField(Seq<u8>),
    /// Two declarations share one fullname.
    DuplicateName(Seq<u8>),
    /// A reference to a fullname that the document set never declares.
    UnresolvedReference(Seq<u8>),
}

/// Executable twin of [`SpecParseError`].
#[derive(Debug, PartialEq, Eq)]
pub enum ParseError {
    MalformedJson,
    UnknownType(Vec<u8>),
    InvalidField(Vec<u8>),
    DuplicateName(Vec<u8>),
    UnresolvedReference(Vec<u8>),
}

impl ParseError {
    /// Mathematical view of the error.
    pub open spec fn dv(&self) -> SpecParseError {
        match self {
            ParseError::MalformedJson => SpecParseError::MalformedJson,
            ParseError::UnknownType(n) => SpecParseError::UnknownType(n@),
            ParseError::InvalidField(n) => SpecParseError::InvalidField(n@),
            ParseError::DuplicateName(n) => SpecParseError::DuplicateName(n@),
            ParseError::UnresolvedReference(n) => SpecParseError::UnresolvedReference(n@),
        }
    }
}

/// A structurally equal copy of an optional byte string.
pub fn opt_bytes_copy(o: &Option<Vec<u8>>) -> (r: Option<Vec<u8>>)
    ensures
        dv_opt_bytes(r) == dv_opt_bytes(*o),
{
    match o {
        Some(v) => Some(vstd::slice::slice_to_vec(v.as_slice())),
        None => None,
    }
}

impl Schema {
    /// A structurally equal copy of the tree.
    pub fn duplicate(&self) -> (r: Schema)
        ensures
            r.dv() == self.dv(),
        decreases *self,
    {
        match self {
            Schema::Null => Schema::Null,
            Schema::Boolean => Schema::Boolean,
            Schema::Int => Schema::Int,
            Schema::Long => Schema::Long,
            Schema::Float => Schema::Float,
            Schema::Double => Schema::Double,
            Schema::Bytes => Schema::Bytes,
            Schema::Str => Schema::Str,
            Schema::Fixed { fullname, size } => Schema::Fixed {
                fullname: vstd::slice::slice_to_vec(fullname.as_slice()),
                size: *size,
            },
            Schema::Enum { fullname, symbols, default } => Schema::Enum {
                fullname: vstd::slice::slice_to_vec(fullname.as_slice()),
                symbols: names_copy(symbols),
                default: opt_bytes_copy(default),
            },
            Schema::Array { item } => Schema::Array { item: Box::new(item.duplicate()) },
            Schema::MapOf { value } => Schema::MapOf {
                value: Box::new(value.duplicate()),
            },
            Schema::Union { branches } => Schema::Union {
                branches: schemas_copy(branches),
            },
            Schema::Record { fullname, fields } => Schema::Record {
                fullname: vstd::slice::slice_to_vec(fullname.as_slice()),
                fields: fields_copy(fields),
            },
            Schema::Reference { fullname } => Schema::Reference {
                fullname: vstd::slice::slice_to_vec(fullname.as_slice()),
            },
        }
    }
}

impl Field {
    /// A structurally equal copy of the field.
    pub fn duplicate(&self) -> (r: Field)
        ensures
            r.dv() == self.dv(),
        decreases *self,
    {
        Field {
            name: vstd::slice::slice_to_vec(self.name.as_slice()),
            doc: opt_bytes_copy(&self.doc),
            ty: self.ty.duplicate(),
            default: match &self.default {
                Some(d) => Some(crate::json::json_copy(d)),
                None => None,
            },
            order: self.order,
        }
    }
}

/// Copies of a vector of byte strings.
pub fn names_copy(xs: &Vec<Vec<u8>>) -> (r: Vec<Vec<u8>>)
    ensures
        dv_names(r@) == dv_names(xs@),
{
    let mut r: Vec<Vec<u8>> = Vec::new();
    let mut i: usize = 0;
    while i < xs.len()
        invariant
            0 <= i <= xs.len(),
            r@.len() == i,
            forall|k: int| 0 <= k < i ==> r@[k]@ == xs@[k]@,
        decreases xs.len() - i,
    {
        r.push(vstd::slice::slice_to_vec(xs[i].as_slice()));
        i += 1;
    }
    proof {
        lemma_dv_names(r@);
        lemma_dv_names(xs@);
        assert(dv_names(r@) =~= dv_names(xs@));
    }
    r
}

/// Copies of a vector of schemas.
pub fn schemas_copy(xs: &Vec<Schema>) -> (r: Vec<Schema>)
    ensures
        dv_schemas(r@) == dv_schemas(xs@),
    decreases *xs,
{
    let mut r: Vec<Schema> = Vec::new();
    let mut i: usize = 0;
    while i < xs.len()
        invariant
            0 <= i <= xs.len(),
            r@.len() == i,
            forall|k: int| 0 <= k < i ==> r@[k].dv() == xs@[k].dv(),
        decreases xs.len() - i,
    {
        r.push(xs[i].duplicate());
        i += 1;
    }
    proof {
        lemma_dv_schemas(r@);
        lemma_dv_schemas(xs@);
        assert(dv_schemas(r@) =~= dv_schemas(xs@));
    }
    r
}

/// Copies of a vector of fields.
pub fn fields_copy(xs: &Vec<Field>) -> (r: Vec<Field>)
    ensures
        dv_fields(r@) == dv_fields(xs@),
    decreases *xs,
{
    let mut r: Vec<Field> = Vec::new();
    let mut i: usize = 0;
    while i < xs.len()
        invariant
            0 <= i <= xs.len(),
            r@.len() == i,
            forall|k: int| 0 <= k < i ==> r@[k].dv() == xs@[k].dv(),
        decreases xs.len() - i,
    {
        r.push(xs[i].duplicate());
        i += 1;
    }
    proof {
        lemma_dv_fields(r@);
        lemma_dv_fields(xs@);
        assert(dv_fields(r@) =~= dv_fields(xs@));
    }
    r
}
} // verus!
