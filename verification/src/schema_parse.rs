//! From a JSON tree to a schema tree: the Avro schema grammar.
//!
//! The grammar is stated as spec functions over [`SpecJson`]; the
//! executable builder returns exactly what they say. Namespaces follow
//! the Avro naming rules: a name containing a dot is a fullname; a bare
//! name takes the `namespace` attribute if present, else the namespace
//! of the innermost enclosing named type.

use vstd::prelude::*;

use crate::json::JsonValue;
use crate::json::SpecJson;
use crate::schema::Field;
use crate::schema::ParseError;
use crate::schema::Schema;
use crate::schema::SortOrder;
use crate::schema::SpecField;
use crate::schema::SpecParseError;
use crate::schema::SpecSchema;
use crate::text::lit_array;
use crate::text::lit_boolean;
use crate::text::lit_bytes;
use crate::text::lit_default;
use crate::text::lit_doc;
use crate::text::lit_double;
use crate::text::lit_enum;
use crate::text::lit_fields;
use crate::text::lit_fixed;
use crate::text::lit_float;
use crate::text::lit_ignore;
use crate::text::lit_int;
use crate::text::lit_items;
use crate::text::lit_long;
use crate::text::lit_map;
use crate::text::lit_name;
use crate::text::lit_namespace;
use crate::text::lit_null;
use crate::text::lit_order;
use crate::text::lit_record;
use crate::text::lit_ascending;
use crate::text::lit_descending;
use crate::text::lit_size;
use crate::text::lit_string;
use crate::text::lit_symbols;
use crate::text::lit_type;
use crate::text::lit_values;

verus! {

broadcast use vstd::std_specs::vec::group_vec_axioms, crate::json::lemma_dv_elems,
    crate::json::lemma_dv_members, crate::schema::lemma_dv_fields,
    crate::schema::lemma_dv_schemas, crate::schema::lemma_dv_names;

/// Index of the last dot strictly below position `n`, or -1.
pub open spec fn spec_rfind_dot(s: Seq<u8>, n: nat) -> int
    decreases n,
{
    if n == 0 {
        -1
    } else if s[n - 1] == 46 {
        n - 1
    } else {
        spec_rfind_dot(s, (n - 1) as nat)
    }
}

/// The fullname of a declaration: a dotted name stands alone; a bare
/// name is qualified by its `namespace` attribute, else by the
/// enclosing namespace; an empty namespace leaves the name bare.
pub open spec fn spec_fullname(
    name: Seq<u8>,
    ns_attr: Option<Seq<u8>>,
    enclosing: Seq<u8>,
) -> Seq<u8> {
    if spec_rfind_dot(name, name.len()) >= 0 {
        name
    } else {
        let ns = match ns_attr {
            Some(n) => n,
            None => enclosing,
        };
        if ns.len() == 0 {
            name
        } else {
            ns + seq![46u8] + name
        }
    }
}

/// The namespace that nested declarations inherit from a declaration.
pub open spec fn spec_child_ns(
    name: Seq<u8>,
    ns_attr: Option<Seq<u8>>,
    enclosing: Seq<u8>,
) -> Seq<u8> {
    let d = spec_rfind_dot(name, name.len());
    if d >= 0 {
        name.subrange(0, d)
    } else {
        match ns_attr {
            Some(n) => n,
            None => enclosing,
        }
    }
}

/// The fullname a reference resolves to: dotted as written, a bare
/// name qualified by the enclosing namespace.
pub open spec fn spec_ref_fullname(name: Seq<u8>, enclosing: Seq<u8>) -> Seq<u8> {
    if spec_rfind_dot(name, name.len()) >= 0 || enclosing.len() == 0 {
        name
    } else {
        enclosing + seq![46u8] + name
    }
}

/// First member at or after `i` whose key is `key`, or -1.
pub open spec fn spec_obj_find(
    ms: Seq<(Seq<u8>, SpecJson)>,
    key: Seq<u8>,
    i: nat,
) -> int
    decreases ms.len() - i,
{
    if i >= ms.len() {
        -1
    } else if ms[i as int].0 == key {
        i as int
    } else {
        spec_obj_find(ms, key, i + 1)
    }
}

/// The result of [`spec_obj_find`] is -1 or an index of a member with
/// the key, for every start position at once.
pub proof fn lemma_obj_find(ms: Seq<(Seq<u8>, SpecJson)>, key: Seq<u8>)
    ensures
        forall|i: nat|
            #[trigger] spec_obj_find(ms, key, i) == -1 || (i <= spec_obj_find(ms, key, i)
                < ms.len() && ms[spec_obj_find(ms, key, i)].0 == key),
{
    assert forall|i: nat|
        #[trigger] spec_obj_find(ms, key, i) == -1 || (i <= spec_obj_find(ms, key, i)
            < ms.len() && ms[spec_obj_find(ms, key, i)].0 == key) by {
        lemma_obj_find_one(ms, key, i);
    }
}

proof fn lemma_obj_find_one(ms: Seq<(Seq<u8>, SpecJson)>, key: Seq<u8>, i: nat)
    ensures
        spec_obj_find(ms, key, i) == -1 || (i <= spec_obj_find(ms, key, i) < ms.len()
            && ms[spec_obj_find(ms, key, i)].0 == key),
    decreases ms.len() - i,
{
    if i < ms.len() && ms[i as int].0 != key {
        lemma_obj_find_one(ms, key, i + 1);
    }
}

/// Is the lexeme a signed decimal integer?
pub open spec fn is_int_lexeme(s: Seq<u8>) -> bool {
    if s.len() == 0 {
        false
    } else if s[0] == 45 {
        s.len() > 1 && forall|k: int| 1 <= k < s.len() ==> 48 <= #[trigger] s[k] <= 57
    } else {
        forall|k: int| 0 <= k < s.len() ==> 48 <= #[trigger] s[k] <= 57
    }
}

/// Value of a sequence of decimal digits.
pub open spec fn spec_digits_val(s: Seq<u8>) -> nat
    decreases s,
{
    if s.len() == 0 {
        0
    } else {
        (spec_digits_val(s.drop_last()) * 10 + (s.last() - 48)) as nat
    }
}

/// Ten to the `n`.
pub open spec fn pow10(n: nat) -> nat
    decreases n,
{
    if n == 0 {
        1
    } else {
        10 * pow10((n - 1) as nat)
    }
}

/// The size attribute of a fixed type: an unsigned decimal integer of
/// at most eighteen digits.
pub open spec fn spec_size_val(s: Seq<u8>) -> Option<u64> {
    if 1 <= s.len() <= 18 && (forall|k: int| 0 <= k < s.len() ==> 48 <= #[trigger] s[k]
        <= 57) {
        Some(spec_digits_val(s) as u64)
    } else {
        None
    }
}

/// Does a default value fit a schema kind? A union default goes by its
/// first branch; a reference cannot be judged at parse time and is
/// accepted.
pub open spec fn spec_default_ok(ty: SpecSchema, v: SpecJson) -> bool
    decreases ty,
{
    match ty {
        SpecSchema::Null => v is Null,
        SpecSchema::Boolean => v is Bool,
        SpecSchema::Int => v is Num && is_int_lexeme(v->Num_0),
        SpecSchema::Long => v is Num && is_int_lexeme(v->Num_0),
        SpecSchema::Float => v is Num,
        SpecSchema::Double => v is Num,
        SpecSchema::Bytes => v is Str,
        SpecSchema::Str => v is Str,
        SpecSchema::Fixed { .. } => v is Str,
        SpecSchema::Enum { .. } => v is Str,
        SpecSchema::Array { .. } => v is Arr,
        SpecSchema::MapOf { .. } => v is Obj,
        SpecSchema::Record { .. } => v is Obj,
        SpecSchema::Union { branches } => branches.len() > 0 && spec_default_ok(
            branches[0],
            v,
        ),
        SpecSchema::Reference { .. } => true,
    }
}

/// A bare type name: a primitive keyword, or a reference; the words
/// for compound kinds cannot stand alone.
pub open spec fn spec_schema_of_name(name: Seq<u8>, ns: Seq<u8>) -> Result<
    SpecSchema,
    SpecParseError,
> {
    if name == lit_null() {
        Ok(SpecSchema::Null)
    } else if name == lit_boolean() {
        Ok(SpecSchema::Boolean)
    } else if name == lit_int() {
        Ok(SpecSchema::Int)
    } else if name == lit_long() {
        Ok(SpecSchema::Long)
    } else if name == lit_float() {
        Ok(SpecSchema::Float)
    } else if name == lit_double() {
        Ok(SpecSchema::Double)
    } else if name == lit_bytes() {
        Ok(SpecSchema::Bytes)
    } else if name == lit_string() {
        Ok(SpecSchema::Str)
    } else if name == lit_record() || name == lit_enum() || name == lit_array() || name
        == lit_map() || name == lit_fixed() {
        Err(SpecParseError::UnknownType(name))
    } else {
        Ok(SpecSchema::Reference { fullname: spec_ref_fullname(name, ns) })
    }
}

/// The field sort order, from its attribute text.
pub open spec fn spec_order_of(s: Seq<u8>) -> Option<SortOrder> {
    if s == lit_ascending() {
        Some(SortOrder::Ascending)
    } else if s == lit_descending() {
        Some(SortOrder::Descending)
    } else if s == lit_ignore() {
        Some(SortOrder::Ignore)
    } else {
        None
    }
}

/// The name attribute of a declaration, which must be a string.
pub open spec fn spec_name_attr(ms: Seq<(Seq<u8>, SpecJson)>) -> Result<
    Seq<u8>,
    SpecParseError,
> {
    let ni = spec_obj_find(ms, lit_name(), 0);
    if ni < 0 {
        Err(SpecParseError::InvalidField(lit_name()))
    } else {
        match ms[ni].1 {
            SpecJson::Str(n) => Ok(n),
            _ => Err(SpecParseError::InvalidField(lit_name())),
        }
    }
}

/// The namespace attribute, if present; it must be a string.
pub open spec fn spec_ns_attr(ms: Seq<(Seq<u8>, SpecJson)>) -> Result<
    Option<Seq<u8>>,
    SpecParseError,
> {
    let ni = spec_obj_find(ms, lit_namespace(), 0);
    if ni < 0 {
        Ok(None)
    } else {
        match ms[ni].1 {
            SpecJson::Str(n) => Ok(Some(n)),
            _ => Err(SpecParseError::InvalidField(lit_namespace())),
        }
    }
}

/// An enum declaration: name, string symbols, and an optional default
/// that must be one of the symbols.
pub open spec fn spec_enum_of(ms: Seq<(Seq<u8>, SpecJson)>, ns: Seq<u8>) -> Result<
    SpecSchema,
    SpecParseError,
> {
    match spec_name_attr(ms) {
        Err(e) => Err(e),
        Ok(name) => match spec_ns_attr(ms) {
            Err(e) => Err(e),
            Ok(nsa) => {
                let fullname = spec_fullname(name, nsa, ns);
                let si = spec_obj_find(ms, lit_symbols(), 0);
                if si < 0 {
                    Err(SpecParseError::InvalidField(lit_symbols()))
                } else {
                    match ms[si].1 {
                        SpecJson::Arr(xs) => match spec_symbols_of(xs, 0) {
                            Err(e) => Err(e),
                            Ok(symbols) => {
                                let di = spec_obj_find(ms, lit_default(), 0);
                                if di < 0 {
                                    Ok(
                                        SpecSchema::Enum {
                                            fullname,
                                            symbols,
                                            default: None,
                                        },
                                    )
                                } else {
                                    match ms[di].1 {
                                        SpecJson::Str(d) => if symbols.contains(d) {
                                            Ok(
                                                SpecSchema::Enum {
                                                    fullname,
                                                    symbols,
                                                    default: Some(d),
                                                },
                                            )
                                        } else {
                                            Err(SpecParseError::InvalidField(lit_default()))
                                        },
                                        _ => Err(SpecParseError::InvalidField(lit_default())),
                                    }
                                }
                            },
                        },
                        _ => Err(SpecParseError::InvalidField(lit_symbols())),
                    }
                }
            },
        },
    }
}

/// The symbols of an enum, each a string.
pub open spec fn spec_symbols_of(xs: Seq<SpecJson>, i: nat) -> Result<
    Seq<Seq<u8>>,
    SpecParseError,
>
    decreases xs.len() - i,
{
    if i >= xs.len() {
        Ok(Seq::empty())
    } else {
        match xs[i as int] {
            SpecJson::Str(s) => match spec_symbols_of(xs, i + 1) {
                Ok(rest) => Ok(seq![s] + rest),
                Err(e) => Err(e),
            },
            _ => Err(SpecParseError::InvalidField(lit_symbols())),
        }
    }
}

/// A fixed declaration: name and byte size.
pub open spec fn spec_fixed_of(ms: Seq<(Seq<u8>, SpecJson)>, ns: Seq<u8>) -> Result<
    SpecSchema,
    SpecParseError,
> {
    match spec_name_attr(ms) {
        Err(e) => Err(e),
        Ok(name) => match spec_ns_attr(ms) {
            Err(e) => Err(e),
            Ok(nsa) => {
                let fullname = spec_fullname(name, nsa, ns);
                let si = spec_obj_find(ms, lit_size(), 0);
                if si < 0 {
                    Err(SpecParseError::InvalidField(lit_size()))
                } else {
                    match ms[si].1 {
                        SpecJson::Num(lex) => match spec_size_val(lex) {
                            Some(size) => Ok(SpecSchema::Fixed { fullname, size }),
                            None => Err(SpecParseError::InvalidField(lit_size())),
                        },
                        _ => Err(SpecParseError::InvalidField(lit_size())),
                    }
                }
            },
        },
    }
}

/// Are the field names pairwise distinct?
pub open spec fn spec_fields_unique(fs: Seq<SpecField>) -> bool {
    forall|i: int, j: int|
        0 <= i < j < fs.len() ==> (#[trigger] fs[i].name) != (#[trigger] fs[j].name)
}

/// The first field whose name already occurred earlier, if any.
pub open spec fn spec_first_dup_field(fs: Seq<SpecField>, i: nat) -> Option<Seq<u8>>
    decreases fs.len() - i,
{
    if i >= fs.len() {
        None
    } else if exists|j: int| 0 <= j < i && (#[trigger] fs[j].name) == fs[i as int].name {
        Some(fs[i as int].name)
    } else {
        spec_first_dup_field(fs, i + 1)
    }
}

/// A schema from a JSON value: a type name, a union array, or a type
/// object.
pub open spec fn spec_schema_of(j: SpecJson, ns: Seq<u8>) -> Result<
    SpecSchema,
    SpecParseError,
>
    decreases j, 0int, 4int,
{
    match j {
        SpecJson::Str(name) => spec_schema_of_name(name, ns),
        SpecJson::Arr(xs) => match spec_union_of(xs, ns, 0) {
            Ok(branches) => Ok(SpecSchema::Union { branches }),
            Err(e) => Err(e),
        },
        SpecJson::Obj(ms) => spec_obj_schema(ms, ns),
        _ => Err(SpecParseError::InvalidField(lit_type())),
    }
}

/// A type object, dispatched on its `type` attribute.
pub open spec fn spec_obj_schema(ms: Seq<(Seq<u8>, SpecJson)>, ns: Seq<u8>) -> Result<
    SpecSchema,
    SpecParseError,
>
    decreases ms, 0int, 3int,
    via spec_obj_schema_dec
{
    let ti = spec_obj_find(ms, lit_type(), 0);
    if ti < 0 {
        Err(SpecParseError::InvalidField(lit_type()))
    } else {
        match ms[ti].1 {
            SpecJson::Str(tn) => {
                if tn == lit_record() {
                    spec_record_of(ms, ns)
                } else if tn == lit_enum() {
                    spec_enum_of(ms, ns)
                } else if tn == lit_fixed() {
                    spec_fixed_of(ms, ns)
                } else if tn == lit_array() {
                    let ai = spec_obj_find(ms, lit_items(), 0);
                    if ai < 0 {
                        Err(SpecParseError::InvalidField(lit_items()))
                    } else {
                        match spec_schema_of(ms[ai].1, ns) {
                            Ok(item) => Ok(SpecSchema::Array { item: Box::new(item) }),
                            Err(e) => Err(e),
                        }
                    }
                } else if tn == lit_map() {
                    let vi = spec_obj_find(ms, lit_values(), 0);
                    if vi < 0 {
                        Err(SpecParseError::InvalidField(lit_values()))
                    } else {
                        match spec_schema_of(ms[vi].1, ns) {
                            Ok(value) => Ok(SpecSchema::MapOf { value: Box::new(value) }),
                            Err(e) => Err(e),
                        }
                    }
                } else {
                    spec_schema_of_name(tn, ns)
                }
            },
            SpecJson::Arr(xs) => match spec_union_of(xs, ns, 0) {
                Ok(branches) => Ok(SpecSchema::Union { branches }),
                Err(e) => Err(e),
            },
            SpecJson::Obj(inner) => spec_obj_schema(inner, ns),
            _ => Err(SpecParseError::InvalidField(lit_type())),
        }
    }
}

/// The branches of a union, each a schema.
pub open spec fn spec_union_of(xs: Seq<SpecJson>, ns: Seq<u8>, i: nat) -> Result<
    Seq<SpecSchema>,
    SpecParseError,
>
    decreases xs, xs.len() - i, 2int,
{
    if i >= xs.len() {
        Ok(Seq::empty())
    } else {
        match spec_schema_of(xs[i as int], ns) {
            Err(e) => Err(e),
            Ok(b) => match spec_union_of(xs, ns, i + 1) {
                Ok(rest) => Ok(seq![b] + rest),
                Err(e) => Err(e),
            },
        }
    }
}

/// A record declaration: name, namespace, and fields with unique names.
pub open spec fn spec_record_of(ms: Seq<(Seq<u8>, SpecJson)>, ns: Seq<u8>) -> Result<
    SpecSchema,
    SpecParseError,
>
    decreases ms, 0int, 2int,
    via spec_record_of_dec
{
    match spec_name_attr(ms) {
        Err(e) => Err(e),
        Ok(name) => match spec_ns_attr(ms) {
            Err(e) => Err(e),
            Ok(nsa) => {
                let fullname = spec_fullname(name, nsa, ns);
                let child = spec_child_ns(name, nsa, ns);
                let fi = spec_obj_find(ms, lit_fields(), 0);
                if fi < 0 {
                    Err(SpecParseError::InvalidField(lit_fields()))
                } else {
                    match ms[fi].1 {
                        SpecJson::Arr(xs) => match spec_fields_of(xs, child, 0) {
                            Err(e) => Err(e),
                            Ok(fields) => match spec_first_dup_field(fields, 0) {
                                Some(n) => Err(SpecParseError::InvalidField(n)),
                                None => Ok(SpecSchema::Record { fullname, fields }),
                            },
                        },
                        _ => Err(SpecParseError::InvalidField(lit_fields())),
                    }
                }
            },
        },
    }
}

/// The fields of a record, each a field object.
pub open spec fn spec_fields_of(xs: Seq<SpecJson>, ns: Seq<u8>, i: nat) -> Result<
    Seq<SpecField>,
    SpecParseError,
>
    decreases xs, xs.len() - i, 2int,
{
    if i >= xs.len() {
        Ok(Seq::empty())
    } else {
        match xs[i as int] {
            SpecJson::Obj(fms) => match spec_field_of(fms, ns) {
                Err(e) => Err(e),
                Ok(f) => match spec_fields_of(xs, ns, i + 1) {
                    Ok(rest) => Ok(seq![f] + rest),
                    Err(e) => Err(e),
                },
            },
            _ => Err(SpecParseError::InvalidField(lit_fields())),
        }
    }
}

/// One record field: required name and type; optional doc, order and
/// default, the default checked against the field's type.
pub open spec fn spec_field_of(fms: Seq<(Seq<u8>, SpecJson)>, ns: Seq<u8>) -> Result<
    SpecField,
    SpecParseError,
>
    decreases fms, 0int, 2int,
    via spec_field_of_dec
{
    match spec_name_attr(fms) {
        Err(_) => Err(SpecParseError::InvalidField(lit_name())),
        Ok(name) => {
            let ti = spec_obj_find(fms, lit_type(), 0);
            if ti < 0 {
                Err(SpecParseError::InvalidField(lit_type()))
            } else {
                match spec_schema_of(fms[ti].1, ns) {
                    Err(e) => Err(e),
                    Ok(ty) => {
                        let di = spec_obj_find(fms, lit_doc(), 0);
                        let doc: Result<Option<Seq<u8>>, SpecParseError> = if di < 0 {
                            Ok(None)
                        } else {
                            match fms[di].1 {
                                SpecJson::Str(d) => Ok(Some(d)),
                                _ => Err(SpecParseError::InvalidField(lit_doc())),
                            }
                        };
                        match doc {
                            Err(e) => Err(e),
                            Ok(doc) => {
                                let oi = spec_obj_find(fms, lit_order(), 0);
                                let order: Result<Option<SortOrder>, SpecParseError> = if oi
                                    < 0 {
                                    Ok(None)
                                } else {
                                    match fms[oi].1 {
                                        SpecJson::Str(o) => match spec_order_of(o) {
                                            Some(o) => Ok(Some(o)),
                                            None => Err(
                                                SpecParseError::InvalidField(lit_order()),
                                            ),
                                        },
                                        _ => Err(SpecParseError::InvalidField(lit_order())),
                                    }
                                };
                                match order {
                                    Err(e) => Err(e),
                                    Ok(order) => {
                                        let dfi = spec_obj_find(fms, lit_default(), 0);
                                        if dfi < 0 {
                                            Ok(
                                                SpecField {
                                                    name,
                                                    doc,
                                                    ty,
                                                    default: None,
                                                    order,
                                                },
                                            )
                                        } else if spec_default_ok(ty, fms[dfi].1) {
                                            Ok(
                                                SpecField {
                                                    name,
                                                    doc,
                                                    ty,
                                                    default: Some(fms[dfi].1),
                                                    order,
                                                },
                                            )
                                        } else {
                                            Err(SpecParseError::InvalidField(lit_default()))
                                        }
                                    },
                                }
                            },
                        }
                    },
                }
            }
        },
    }
}

#[via_fn]
proof fn spec_obj_schema_dec(ms: Seq<(Seq<u8>, SpecJson)>, ns: Seq<u8>) {
    lemma_obj_find(ms, lit_type());
    lemma_obj_find(ms, lit_items());
    lemma_obj_find(ms, lit_values());
}

#[via_fn]
proof fn spec_record_of_dec(ms: Seq<(Seq<u8>, SpecJson)>, ns: Seq<u8>) {
    lemma_obj_find(ms, lit_fields());
}

#[via_fn]
proof fn spec_field_of_dec(fms: Seq<(Seq<u8>, SpecJson)>, ns: Seq<u8>) {
    lemma_obj_find(fms, lit_type());
}

/// The schema of one document: its JSON parse, then the grammar, with
/// the empty enclosing namespace.
pub open spec fn spec_doc_schema(s: Seq<u8>) -> Result<SpecSchema, SpecParseError> {
    match crate::json_parse::spec_json_doc(s) {
        None => Err(SpecParseError::MalformedJson),
        Some(j) => spec_schema_of(j, Seq::empty()),
    }
}
/// View of an optional byte slice.
pub open spec fn dv_opt_slice(o: Option<&[u8]>) -> Option<Seq<u8>> {
    match o {
        Some(v) => Some(v@),
        None => None,
    }
}

/// Executable twin of [`spec_rfind_dot`].
pub fn rfind_dot(s: &[u8], n: usize) -> (r: Option<usize>)
    requires
        n <= s.len(),
    ensures
        match r {
            Some(k) => spec_rfind_dot(s@, n as nat) == k as int && k < n,
            None => spec_rfind_dot(s@, n as nat) == -1,
        },
    decreases n,
{
    if n == 0 {
        None
    } else if s[n - 1] == 46 {
        Some(n - 1)
    } else {
        rfind_dot(s, n - 1)
    }
}

/// Executable twin of [`spec_fullname`].
pub fn fullname_of(name: &[u8], nsa: Option<&[u8]>, enclosing: &[u8]) -> (r: Vec<u8>)
    ensures
        r@ == spec_fullname(name@, dv_opt_slice(nsa), enclosing@),
{
    match rfind_dot(name, name.len()) {
        Some(_) => crate::text::bytes_copy(name),
        None => {
            let ns: &[u8] = match nsa {
                Some(n) => n,
                None => enclosing,
            };
            if ns.len() == 0 {
                crate::text::bytes_copy(name)
            } else {
                let mut out = crate::text::bytes_copy(ns);
                out.push(46);
                crate::text::push_bytes(&mut out, name);
                proof {
                    assert(out@ =~= ns@ + seq![46u8] + name@);
                }
                out
            }
        },
    }
}

/// Executable twin of [`spec_child_ns`].
pub fn child_ns_of(name: &[u8], nsa: Option<&[u8]>, enclosing: &[u8]) -> (r: Vec<u8>)
    ensures
        r@ == spec_child_ns(name@, dv_opt_slice(nsa), enclosing@),
{
    match rfind_dot(name, name.len()) {
        Some(d) => crate::text::bytes_copy(vstd::slice::slice_subrange(name, 0, d)),
        None => match nsa {
            Some(n) => crate::text::bytes_copy(n),
            None => crate::text::bytes_copy(enclosing),
        },
    }
}

/// Executable twin of [`spec_ref_fullname`].
pub fn ref_fullname_of(name: &[u8], enclosing: &[u8]) -> (r: Vec<u8>)
    ensures
        r@ == spec_ref_fullname(name@, enclosing@),
{
    let dotted = match rfind_dot(name, name.len()) {
        Some(_) => true,
        None => false,
    };
    if dotted || enclosing.len() == 0 {
        crate::text::bytes_copy(name)
    } else {
        let mut out = crate::text::bytes_copy(enclosing);
        out.push(46);
        crate::text::push_bytes(&mut out, name);
        proof {
            assert(out@ =~= enclosing@ + seq![46u8] + name@);
        }
        out
    }
}

/// Executable twin of [`spec_obj_find`].
pub fn obj_find(ms: &Vec<(Vec<u8>, JsonValue)>, key: &[u8], i: usize) -> (r: Option<
    usize,
>)
    requires
        i <= ms.len(),
    ensures
        match r {
            Some(k) => spec_obj_find(crate::json::dv_members(ms@), key@, i as nat) == k
                as int && i <= k < ms.len(),
            None => spec_obj_find(crate::json::dv_members(ms@), key@, i as nat) == -1,
        },
    decreases ms.len() - i,
{
    if i >= ms.len() {
        return None;
    }
    if crate::text::bytes_eq(ms[i].0.as_slice(), key) {
        return Some(i);
    }
    obj_find(ms, key, i + 1)
}

/// Are all bytes from `i` on decimal digits?
fn all_digits_from(s: &[u8], i: usize) -> (r: bool)
    requires
        i <= s.len(),
    ensures
        r == (forall|k: int| i <= k < s@.len() ==> 48 <= #[trigger] s@[k] <= 57),
    decreases s.len() - i,
{
    if i >= s.len() {
        true
    } else if s[i] < 48 || s[i] > 57 {
        false
    } else {
        all_digits_from(s, i + 1)
    }
}

/// Executable twin of [`is_int_lexeme`].
pub fn int_lexeme(s: &[u8]) -> (r: bool)
    ensures
        r == is_int_lexeme(s@),
{
    if s.len() == 0 {
        false
    } else if s[0] == 45 {
        if s.len() == 1 {
            false
        } else {
            all_digits_from(s, 1)
        }
    } else {
        all_digits_from(s, 0)
    }
}

/// Powers of ten do not decrease.
proof fn lemma_pow10_mono(a: nat, b: nat)
    requires
        a <= b,
    ensures
        pow10(a) <= pow10(b),
    decreases b,
{
    if a < b {
        lemma_pow10_mono(a, (b - 1) as nat);
    }
}

/// Eighteen digits fit a machine word.
proof fn lemma_pow10_18()
    ensures
        pow10(18) == 1000000000000000000,
{
    reveal_with_fuel(pow10, 20);
}

/// Executable twin of [`spec_size_val`].
pub fn size_val(lex: &[u8]) -> (r: Option<u64>)
    ensures
        r == spec_size_val(lex@),
{
    if lex.len() < 1 || lex.len() > 18 {
        return None;
    }
    let mut acc: u64 = 0;
    let mut i: usize = 0;
    while i < lex.len()
        invariant
            0 <= i <= lex.len() <= 18,
            forall|k: int| 0 <= k < i ==> 48 <= #[trigger] lex@[k] <= 57,
            acc == spec_digits_val(lex@.subrange(0, i as int)),
            acc < pow10(i as nat),
        decreases lex.len() - i,
    {
        let c = lex[i];
        if c < 48 || c > 57 {
            return None;
        }
        proof {
            lemma_pow10_mono((i + 1) as nat, 18);
            lemma_pow10_18();
            assert(lex@.subrange(0, i + 1).drop_last() =~= lex@.subrange(0, i as int));
            assert(lex@.subrange(0, i + 1).last() == lex@[i as int]);
        }
        acc = acc * 10 + ((c - 48) as u64);
        i += 1;
    }
    proof {
        assert(lex@.subrange(0, lex.len() as int) =~= lex@);
    }
    Some(acc)
}

/// Executable twin of [`spec_default_ok`].
#[verifier::rlimit(50)]
pub fn default_ok(ty: &Schema, v: &JsonValue) -> (r: bool)
    ensures
        r == spec_default_ok(ty.dv(), v.dv()),
    decreases *ty,
{
    match ty {
        Schema::Null => match v {
            JsonValue::Null => true,
            _ => false,
        },
        Schema::Boolean => match v {
            JsonValue::Bool(_) => true,
            _ => false,
        },
        Schema::Int => match v {
            JsonValue::Num(lex) => {
                proof {
                    assert(v.dv() == SpecJson::Num(lex@));
                }
                int_lexeme(lex.as_slice())
            },
            _ => false,
        },
        Schema::Long => match v {
            JsonValue::Num(lex) => {
                proof {
                    assert(v.dv() == SpecJson::Num(lex@));
                }
                int_lexeme(lex.as_slice())
            },
            _ => false,
        },
        Schema::Float => match v {
            JsonValue::Num(_) => true,
            _ => false,
        },
        Schema::Double => match v {
            JsonValue::Num(_) => true,
            _ => false,
        },
        Schema::Bytes => match v {
            JsonValue::Str(_) => true,
            _ => false,
        },
        Schema::Str => match v {
            JsonValue::Str(_) => true,
            _ => false,
        },
        Schema::Fixed { .. } => match v {
            JsonValue::Str(_) => true,
            _ => false,
        },
        Schema::Enum { .. } => match v {
            JsonValue::Str(_) => true,
            _ => false,
        },
        Schema::Array { .. } => match v {
            JsonValue::Arr(_) => true,
            _ => false,
        },
        Schema::MapOf { .. } => match v {
            JsonValue::Obj(_) => true,
            _ => false,
        },
        Schema::Record { .. } => match v {
            JsonValue::Obj(_) => true,
            _ => false,
        },
        Schema::Union { branches } => {
            proof {
                crate::schema::lemma_dv_schemas(branches@);
                assert(ty.dv() == SpecSchema::Union {
                    branches: crate::schema::dv_schemas(branches@),
                });
            }
            if branches.len() == 0 {
                false
            } else {
                default_ok(&branches[0], v)
            }
        },
        Schema::Reference { .. } => true,
    }
}

/// Executable twin of [`spec_order_of`].
pub fn order_of(s: &[u8]) -> (r: Option<SortOrder>)
    ensures
        r == spec_order_of(s@),
{
    if crate::text::is_kw_ascending(s) {
        Some(SortOrder::Ascending)
    } else if crate::text::is_kw_descending(s) {
        Some(SortOrder::Descending)
    } else if crate::text::is_kw_ignore(s) {
        Some(SortOrder::Ignore)
    } else {
        None
    }
}

/// Executable twin of [`spec_schema_of_name`].
pub fn schema_of_name(name: &[u8], ns: &[u8]) -> (r: Result<Schema, ParseError>)
    ensures
        match r {
            Ok(s) => spec_schema_of_name(name@, ns@) == Ok::<SpecSchema, SpecParseError>(
                s.dv(),
            ),
            Err(e) => spec_schema_of_name(name@, ns@) == Err::<SpecSchema, SpecParseError>(
                e.dv(),
            ),
        },
{
    if crate::text::is_kw_null(name) {
        Ok(Schema::Null)
    } else if crate::text::is_kw_boolean(name) {
        Ok(Schema::Boolean)
    } else if crate::text::is_kw_int(name) {
        Ok(Schema::Int)
    } else if crate::text::is_kw_long(name) {
        Ok(Schema::Long)
    } else if crate::text::is_kw_float(name) {
        Ok(Schema::Float)
    } else if crate::text::is_kw_double(name) {
        Ok(Schema::Double)
    } else if crate::text::is_kw_bytes(name) {
        Ok(Schema::Bytes)
    } else if crate::text::is_kw_string(name) {
        Ok(Schema::Str)
    } else if crate::text::is_kw_record(name) || crate::text::is_kw_enum(name)
        || crate::text::is_kw_array(name) || crate::text::is_kw_map(name)
        || crate::text::is_kw_fixed(name) {
        Err(ParseError::UnknownType(crate::text::bytes_copy(name)))
    } else {
        Ok(Schema::Reference { fullname: ref_fullname_of(name, ns) })
    }
}
/// View of a schema build result.
pub open spec fn dv_res(r: Result<Schema, ParseError>) -> Result<SpecSchema, SpecParseError> {
    match r {
        Ok(s) => Ok(s.dv()),
        Err(e) => Err(e.dv()),
    }
}

/// View of a field build result.
pub open spec fn dv_res_field(r: Result<Field, ParseError>) -> Result<
    SpecField,
    SpecParseError,
> {
    match r {
        Ok(f) => Ok(f.dv()),
        Err(e) => Err(e.dv()),
    }
}

/// Executable twin of [`spec_name_attr`].
fn name_attr(ms: &Vec<(Vec<u8>, JsonValue)>) -> (r: Result<Vec<u8>, ParseError>)
    ensures
        match r {
            Ok(n) => spec_name_attr(crate::json::dv_members(ms@)) == Ok::<
                Seq<u8>,
                SpecParseError,
            >(n@),
            Err(e) => spec_name_attr(crate::json::dv_members(ms@)) == Err::<
                Seq<u8>,
                SpecParseError,
            >(e.dv()),
        },
{
    let key = crate::text::kw_name();
    match obj_find(ms, key.as_slice(), 0) {
        None => Err(ParseError::InvalidField(key)),
        Some(ni) => match &ms[ni].1 {
            JsonValue::Str(n) => {
                proof {
                    assert(ms@[ni as int].1.dv() == SpecJson::Str(n@));
                }
                Ok(crate::text::bytes_copy(n.as_slice()))
            },
            _ => Err(ParseError::InvalidField(key)),
        },
    }
}

/// Executable twin of [`spec_ns_attr`].
fn ns_attr(ms: &Vec<(Vec<u8>, JsonValue)>) -> (r: Result<Option<Vec<u8>>, ParseError>)
    ensures
        match r {
            Ok(o) => spec_ns_attr(crate::json::dv_members(ms@)) == Ok::<
                Option<Seq<u8>>,
                SpecParseError,
            >(crate::schema::dv_opt_bytes(o)),
            Err(e) => spec_ns_attr(crate::json::dv_members(ms@)) == Err::<
                Option<Seq<u8>>,
                SpecParseError,
            >(e.dv()),
        },
{
    let key = crate::text::kw_namespace();
    match obj_find(ms, key.as_slice(), 0) {
        None => Ok(None),
        Some(ni) => match &ms[ni].1 {
            JsonValue::Str(n) => {
                proof {
                    assert(ms@[ni as int].1.dv() == SpecJson::Str(n@));
                }
                Ok(Some(crate::text::bytes_copy(n.as_slice())))
            },
            _ => Err(ParseError::InvalidField(key)),
        },
    }
}

/// Executable twin of [`spec_symbols_of`].
fn symbols_of(xs: &Vec<JsonValue>, i: usize) -> (r: Result<Vec<Vec<u8>>, ParseError>)
    requires
        i <= xs.len(),
    ensures
        match r {
            Ok(ss) => spec_symbols_of(crate::json::dv_elems(xs@), i as nat) == Ok::<
                Seq<Seq<u8>>,
                SpecParseError,
            >(crate::schema::dv_names(ss@)),
            Err(e) => spec_symbols_of(crate::json::dv_elems(xs@), i as nat) == Err::<
                Seq<Seq<u8>>,
                SpecParseError,
            >(e.dv()),
        },
    decreases xs.len() - i,
{
    if i >= xs.len() {
        let empty: Vec<Vec<u8>> = Vec::new();
        proof {
            assert(crate::schema::dv_names(empty@) =~= Seq::<Seq<u8>>::empty());
        }
        return Ok(empty);
    }
    match &xs[i] {
        JsonValue::Str(s) => {
            proof {
                assert(xs@[i as int].dv() == SpecJson::Str(s@));
            }
            match symbols_of(xs, i + 1) {
                Ok(rest) => {
                    let ghost rest_view = rest@;
                    let mut ss = rest;
                    ss.insert(0, crate::text::bytes_copy(s.as_slice()));
                    proof {
                        assert(ss@.drop_first() =~= rest_view);
                        assert(crate::schema::dv_names(ss@) =~= seq![s@]
                            + crate::schema::dv_names(rest_view));
                    }
                    Ok(ss)
                },
                Err(e) => Err(e),
            }
        },
        _ => Err(ParseError::InvalidField(crate::text::kw_symbols())),
    }
}

/// Does the list of names hold this one?
pub fn names_contains(v: &Vec<Vec<u8>>, x: &[u8]) -> (r: bool)
    ensures
        r == crate::schema::dv_names(v@).contains(x@),
{
    let mut i: usize = 0;
    while i < v.len()
        invariant
            0 <= i <= v.len(),
            forall|j: int| 0 <= j < i ==> v@[j]@ != x@,
        decreases v.len() - i,
    {
        if crate::text::bytes_eq(v[i].as_slice(), x) {
            proof {
                assert(crate::schema::dv_names(v@)[i as int] == x@);
            }
            return true;
        }
        i += 1;
    }
    proof {
        assert forall|j: int|
            0 <= j < crate::schema::dv_names(v@).len() implies crate::schema::dv_names(
            v@,
        )[j] != x@ by {}
    }
    false
}

/// Executable twin of [`spec_enum_of`].
pub fn enum_of(ms: &Vec<(Vec<u8>, JsonValue)>, ns: &[u8]) -> (r: Result<
    Schema,
    ParseError,
>)
    ensures
        dv_res(r) == spec_enum_of(crate::json::dv_members(ms@), ns@),
{
    let name = match name_attr(ms) {
        Ok(n) => n,
        Err(e) => {
            return Err(e);
        },
    };
    let nsa = match ns_attr(ms) {
        Ok(o) => o,
        Err(e) => {
            return Err(e);
        },
    };
    let nsa_ref: Option<&[u8]> = match &nsa {
        Some(n) => Some(n.as_slice()),
        None => None,
    };
    let fullname = fullname_of(name.as_slice(), nsa_ref, ns);
    let skey = crate::text::kw_symbols();
    let si = match obj_find(ms, skey.as_slice(), 0) {
        None => {
            return Err(ParseError::InvalidField(skey));
        },
        Some(si) => si,
    };
    match &ms[si].1 {
        JsonValue::Arr(xs) => {
            proof {
                assert(ms@[si as int].1.dv() == SpecJson::Arr(crate::json::dv_elems(
                    xs@,
                )));
            }
            let symbols = match symbols_of(xs, 0) {
                Ok(ss) => ss,
                Err(e) => {
                    return Err(e);
                },
            };
            let dkey = crate::text::kw_default();
            match obj_find(ms, dkey.as_slice(), 0) {
                None => Ok(
                    Schema::Enum { fullname, symbols, default: None },
                ),
                Some(di) => match &ms[di].1 {
                    JsonValue::Str(d) => {
                        proof {
                            assert(ms@[di as int].1.dv() == SpecJson::Str(d@));
                        }
                        if names_contains(&symbols, d.as_slice()) {
                            Ok(
                                Schema::Enum {
                                    fullname,
                                    symbols,
                                    default: Some(crate::text::bytes_copy(d.as_slice())),
                                },
                            )
                        } else {
                            Err(ParseError::InvalidField(dkey))
                        }
                    },
                    _ => Err(ParseError::InvalidField(dkey)),
                },
            }
        },
        _ => Err(ParseError::InvalidField(skey)),
    }
}

/// Executable twin of [`spec_fixed_of`].
pub fn fixed_of(ms: &Vec<(Vec<u8>, JsonValue)>, ns: &[u8]) -> (r: Result<
    Schema,
    ParseError,
>)
    ensures
        dv_res(r) == spec_fixed_of(crate::json::dv_members(ms@), ns@),
{
    let name = match name_attr(ms) {
        Ok(n) => n,
        Err(e) => {
            return Err(e);
        },
    };
    let nsa = match ns_attr(ms) {
        Ok(o) => o,
        Err(e) => {
            return Err(e);
        },
    };
    let nsa_ref: Option<&[u8]> = match &nsa {
        Some(n) => Some(n.as_slice()),
        None => None,
    };
    let fullname = fullname_of(name.as_slice(), nsa_ref, ns);
    let skey = crate::text::kw_size();
    let si = match obj_find(ms, skey.as_slice(), 0) {
        None => {
            return Err(ParseError::InvalidField(skey));
        },
        Some(si) => si,
    };
    match &ms[si].1 {
        JsonValue::Num(lex) => {
            proof {
                assert(ms@[si as int].1.dv() == SpecJson::Num(lex@));
            }
            match size_val(lex.as_slice()) {
                Some(size) => Ok(Schema::Fixed { fullname, size }),
                None => Err(ParseError::InvalidField(skey)),
            }
        },
        _ => Err(ParseError::InvalidField(skey)),
    }
}

/// Is this name already among the first `n` fields?
fn name_in_prefix(fs: &Vec<Field>, name: &[u8], n: usize) -> (r: bool)
    requires
        n <= fs.len(),
    ensures
        r == exists|j: int|
            0 <= j < n && (#[trigger] crate::schema::dv_fields(fs@)[j].name) == name@,
{
    let mut i: usize = 0;
    while i < n
        invariant
            0 <= i <= n <= fs.len(),
            forall|j: int| 0 <= j < i ==> crate::schema::dv_fields(fs@)[j].name != name@,
        decreases n - i,
    {
        if crate::text::bytes_eq(fs[i].name.as_slice(), name) {
            proof {
                assert(crate::schema::dv_fields(fs@)[i as int].name == name@);
            }
            return true;
        }
        i += 1;
    }
    false
}

/// Executable twin of [`spec_first_dup_field`].
fn first_dup_field(fs: &Vec<Field>, i: usize) -> (r: Option<Vec<u8>>)
    requires
        i <= fs.len(),
    ensures
        match r {
            Some(n) => spec_first_dup_field(crate::schema::dv_fields(fs@), i as nat)
                == Some(n@),
            None => spec_first_dup_field(crate::schema::dv_fields(fs@), i as nat)
                is None,
        },
    decreases fs.len() - i,
{
    if i >= fs.len() {
        return None;
    }
    if name_in_prefix(fs, fs[i].name.as_slice(), i) {
        proof {
            assert(crate::schema::dv_fields(fs@)[i as int].name == fs@[i as int].name@);
        }
        Some(crate::text::bytes_copy(fs[i].name.as_slice()))
    } else {
        first_dup_field(fs, i + 1)
    }
}
/// Executable twin of [`spec_schema_of`].
pub fn schema_of(j: &JsonValue, ns: &[u8]) -> (r: Result<Schema, ParseError>)
    ensures
        dv_res(r) == spec_schema_of(j.dv(), ns@),
    decreases *j, 0int, 4int,
{
    match j {
        JsonValue::Str(name) => {
            proof {
                assert(j.dv() == SpecJson::Str(name@));
            }
            schema_of_name(name.as_slice(), ns)
        },
        JsonValue::Arr(xs) => {
            proof {
                assert(j.dv() == SpecJson::Arr(crate::json::dv_elems(xs@)));
            }
            match union_of(xs, ns, 0) {
                Ok(branches) => Ok(Schema::Union { branches }),
                Err(e) => Err(e),
            }
        },
        JsonValue::Obj(ms) => {
            proof {
                assert(j.dv() == SpecJson::Obj(crate::json::dv_members(ms@)));
            }
            obj_schema(ms, ns)
        },
        _ => Err(ParseError::InvalidField(crate::text::kw_type())),
    }
}

/// Executable twin of [`spec_obj_schema`].
pub fn obj_schema(ms: &Vec<(Vec<u8>, JsonValue)>, ns: &[u8]) -> (r: Result<
    Schema,
    ParseError,
>)
    ensures
        dv_res(r) == spec_obj_schema(crate::json::dv_members(ms@), ns@),
    decreases *ms, 0int, 3int,
{
    let tkey = crate::text::kw_type();
    let ti = match obj_find(ms, tkey.as_slice(), 0) {
        None => {
            return Err(ParseError::InvalidField(tkey));
        },
        Some(ti) => ti,
    };
    match &ms[ti].1 {
        JsonValue::Str(tn) => {
            proof {
                assert(ms@[ti as int].1.dv() == SpecJson::Str(tn@));
            }
            if crate::text::is_kw_record(tn.as_slice()) {
                record_of(ms, ns)
            } else if crate::text::is_kw_enum(tn.as_slice()) {
                enum_of(ms, ns)
            } else if crate::text::is_kw_fixed(tn.as_slice()) {
                fixed_of(ms, ns)
            } else if crate::text::is_kw_array(tn.as_slice()) {
                let ikey = crate::text::kw_items();
                match obj_find(ms, ikey.as_slice(), 0) {
                    None => Err(ParseError::InvalidField(ikey)),
                    Some(ai) => match schema_of(&ms[ai].1, ns) {
                        Ok(item) => Ok(Schema::Array { item: Box::new(item) }),
                        Err(e) => Err(e),
                    },
                }
            } else if crate::text::is_kw_map(tn.as_slice()) {
                let vkey = crate::text::kw_values();
                match obj_find(ms, vkey.as_slice(), 0) {
                    None => Err(ParseError::InvalidField(vkey)),
                    Some(vi) => match schema_of(&ms[vi].1, ns) {
                        Ok(value) => Ok(Schema::MapOf { value: Box::new(value) }),
                        Err(e) => Err(e),
                    },
                }
            } else {
                schema_of_name(tn.as_slice(), ns)
            }
        },
        JsonValue::Arr(xs) => {
            proof {
                assert(ms@[ti as int].1.dv() == SpecJson::Arr(crate::json::dv_elems(
                    xs@,
                )));
            }
            match union_of(xs, ns, 0) {
                Ok(branches) => Ok(Schema::Union { branches }),
                Err(e) => Err(e),
            }
        },
        JsonValue::Obj(inner) => {
            proof {
                assert(ms@[ti as int].1.dv() == SpecJson::Obj(crate::json::dv_members(
                    inner@,
                )));
            }
            obj_schema(inner, ns)
        },
        _ => Err(ParseError::InvalidField(tkey)),
    }
}

/// Executable twin of [`spec_union_of`].
pub fn union_of(xs: &Vec<JsonValue>, ns: &[u8], i: usize) -> (r: Result<
    Vec<Schema>,
    ParseError,
>)
    requires
        i <= xs.len(),
    ensures
        match r {
            Ok(bs) => spec_union_of(crate::json::dv_elems(xs@), ns@, i as nat) == Ok::<
                Seq<SpecSchema>,
                SpecParseError,
            >(crate::schema::dv_schemas(bs@)),
            Err(e) => spec_union_of(crate::json::dv_elems(xs@), ns@, i as nat) == Err::<
                Seq<SpecSchema>,
                SpecParseError,
            >(e.dv()),
        },
    decreases *xs, xs.len() - i, 2int,
{
    if i >= xs.len() {
        let empty: Vec<Schema> = Vec::new();
        proof {
            assert(crate::schema::dv_schemas(empty@) =~= Seq::<SpecSchema>::empty());
        }
        return Ok(empty);
    }
    match schema_of(&xs[i], ns) {
        Err(e) => Err(e),
        Ok(b) => match union_of(xs, ns, i + 1) {
            Ok(rest) => {
                let ghost rest_view = rest@;
                let mut bs = rest;
                bs.insert(0, b);
                proof {
                    assert(bs@.drop_first() =~= rest_view);
                    assert(crate::schema::dv_schemas(bs@) =~= seq![bs@[0].dv()]
                        + crate::schema::dv_schemas(rest_view));
                }
                Ok(bs)
            },
            Err(e) => Err(e),
        },
    }
}

/// Executable twin of [`spec_record_of`].
pub fn record_of(ms: &Vec<(Vec<u8>, JsonValue)>, ns: &[u8]) -> (r: Result<
    Schema,
    ParseError,
>)
    ensures
        dv_res(r) == spec_record_of(crate::json::dv_members(ms@), ns@),
    decreases *ms, 0int, 2int,
{
    let name = match name_attr(ms) {
        Ok(n) => n,
        Err(e) => {
            return Err(e);
        },
    };
    let nsa = match ns_attr(ms) {
        Ok(o) => o,
        Err(e) => {
            return Err(e);
        },
    };
    let nsa_ref: Option<&[u8]> = match &nsa {
        Some(n) => Some(n.as_slice()),
        None => None,
    };
    let fullname = fullname_of(name.as_slice(), nsa_ref, ns);
    let child = child_ns_of(name.as_slice(), nsa_ref, ns);
    let fkey = crate::text::kw_fields();
    let fi = match obj_find(ms, fkey.as_slice(), 0) {
        None => {
            return Err(ParseError::InvalidField(fkey));
        },
        Some(fi) => fi,
    };
    match &ms[fi].1 {
        JsonValue::Arr(xs) => {
            proof {
                assert(ms@[fi as int].1.dv() == SpecJson::Arr(crate::json::dv_elems(
                    xs@,
                )));
            }
            match fields_of(xs, child.as_slice(), 0) {
                Err(e) => Err(e),
                Ok(fields) => match first_dup_field(&fields, 0) {
                    Some(n) => Err(ParseError::InvalidField(n)),
                    None => Ok(Schema::Record { fullname, fields }),
                },
            }
        },
        _ => Err(ParseError::InvalidField(fkey)),
    }
}

/// Executable twin of [`spec_fields_of`].
pub fn fields_of(xs: &Vec<JsonValue>, ns: &[u8], i: usize) -> (r: Result<
    Vec<Field>,
    ParseError,
>)
    requires
        i <= xs.len(),
    ensures
        match r {
            Ok(fs) => spec_fields_of(crate::json::dv_elems(xs@), ns@, i as nat) == Ok::<
                Seq<SpecField>,
                SpecParseError,
            >(crate::schema::dv_fields(fs@)),
            Err(e) => spec_fields_of(crate::json::dv_elems(xs@), ns@, i as nat) == Err::<
                Seq<SpecField>,
                SpecParseError,
            >(e.dv()),
        },
    decreases *xs, xs.len() - i, 2int,
{
    if i >= xs.len() {
        let empty: Vec<Field> = Vec::new();
        proof {
            assert(crate::schema::dv_fields(empty@) =~= Seq::<SpecField>::empty());
        }
        return Ok(empty);
    }
    match &xs[i] {
        JsonValue::Obj(fms) => {
            proof {
                assert(xs@[i as int].dv() == SpecJson::Obj(crate::json::dv_members(
                    fms@,
                )));
            }
            match field_of(fms, ns) {
                Err(e) => Err(e),
                Ok(f) => match fields_of(xs, ns, i + 1) {
                    Ok(rest) => {
                        let ghost rest_view = rest@;
                        let mut fs = rest;
                        fs.insert(0, f);
                        proof {
                            assert(fs@.drop_first() =~= rest_view);
                            assert(crate::schema::dv_fields(fs@) =~= seq![fs@[0].dv()]
                                + crate::schema::dv_fields(rest_view));
                        }
                        Ok(fs)
                    },
                    Err(e) => Err(e),
                },
            }
        },
        _ => Err(ParseError::InvalidField(crate::text::kw_fields())),
    }
}

/// Executable twin of [`spec_field_of`].
pub fn field_of(fms: &Vec<(Vec<u8>, JsonValue)>, ns: &[u8]) -> (r: Result<
    Field,
    ParseError,
>)
    ensures
        dv_res_field(r) == spec_field_of(crate::json::dv_members(fms@), ns@),
    decreases *fms, 0int, 2int,
{
    let name = match name_attr(fms) {
        Ok(n) => n,
        Err(_) => {
            return Err(ParseError::InvalidField(crate::text::kw_name()));
        },
    };
    let tkey = crate::text::kw_type();
    let ti = match obj_find(fms, tkey.as_slice(), 0) {
        None => {
            return Err(ParseError::InvalidField(tkey));
        },
        Some(ti) => ti,
    };
    let ty = match schema_of(&fms[ti].1, ns) {
        Ok(t) => t,
        Err(e) => {
            return Err(e);
        },
    };
    let dkey = crate::text::kw_doc();
    let doc: Option<Vec<u8>> = match obj_find(fms, dkey.as_slice(), 0) {
        None => None,
        Some(di) => match &fms[di].1 {
            JsonValue::Str(d) => {
                proof {
                    assert(fms@[di as int].1.dv() == SpecJson::Str(d@));
                }
                Some(crate::text::bytes_copy(d.as_slice()))
            },
            _ => {
                return Err(ParseError::InvalidField(dkey));
            },
        },
    };
    let okey = crate::text::kw_order();
    let order: Option<SortOrder> = match obj_find(fms, okey.as_slice(), 0) {
        None => None,
        Some(oi) => match &fms[oi].1 {
            JsonValue::Str(o) => {
                proof {
                    assert(fms@[oi as int].1.dv() == SpecJson::Str(o@));
                }
                match order_of(o.as_slice()) {
                    Some(o) => Some(o),
                    None => {
                        return Err(ParseError::InvalidField(okey));
                    },
                }
            },
            _ => {
                return Err(ParseError::InvalidField(okey));
            },
        },
    };
    let dfkey = crate::text::kw_default();
    match obj_find(fms, dfkey.as_slice(), 0) {
        None => Ok(Field { name, doc, ty, default: None, order }),
        Some(dfi) => {
            if default_ok(&ty, &fms[dfi].1) {
                let default = Some(crate::json::json_copy(&fms[dfi].1));
                Ok(Field { name, doc, ty, default, order })
            } else {
                Err(ParseError::InvalidField(dfkey))
            }
        },
    }
}

/// Executable twin of [`spec_doc_schema`]: one document, from bytes to
/// a schema tree.
pub fn doc_schema(doc: &[u8]) -> (r: Result<Schema, ParseError>)
    ensures
        dv_res(r) == spec_doc_schema(doc@),
{
    match crate::json_parse::parse_json(doc) {
        None => Err(ParseError::MalformedJson),
        Some(v) => {
            let empty: Vec<u8> = Vec::new();
            proof {
                assert(empty@ =~= Seq::<u8>::empty());
            }
            schema_of(&v, empty.as_slice())
        },
    }
}
} // verus!
