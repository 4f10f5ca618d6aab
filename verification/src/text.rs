//! Byte-string helpers and the keyword literals of the schema grammar.
//!
//! Schema documents and all names in them are byte strings. Spec-level
//! keyword literals are ASCII character sequences mapped to bytes by
//! [`ascii_seq`]; the executable counterparts are produced or compared
//! by the `kw_*` and `is_kw_*` functions.

use vstd::prelude::*;

verus! {

/// Bytes of an ASCII character sequence, one byte per character.
pub open spec fn ascii_seq(cs: Seq<char>) -> Seq<u8> {
    Seq::new(cs.len(), |i: int| cs[i] as u8)
}

/// Equality of two byte slices, as their views.
pub fn bytes_eq(a: &[u8], b: &[u8]) -> (r: bool)
    ensures
        r == (a@ == b@),
{
    if a.len() != b.len() {
        proof {
            assert(a@.len() != b@.len());
        }
        return false;
    }
    let mut i: usize = 0;
    while i < a.len()
        invariant
            0 <= i <= a.len(),
            a.len() == b.len(),
            forall|k: int| 0 <= k < i ==> a@[k] == b@[k],
        decreases a.len() - i,
    {
        if a[i] != b[i] {
            return false;
        }
        i += 1;
    }
    proof {
        assert(a@ =~= b@);
    }
    true
}

/// The UTF-8 bytes of an ASCII string slice.
pub fn ascii_bytes(s: &str) -> (v: Vec<u8>)
    requires
        vstd::string::is_ascii(s),
    ensures
        v@ == ascii_seq(s@),
{
    let b = s.as_bytes();
    proof {
        vstd::string::is_ascii_spec_bytes(s);
        assert(b@ =~= ascii_seq(s@));
    }
    vstd::slice::slice_to_vec(b)
}

/// Does the byte slice hold exactly the ASCII characters of `kw`?
pub fn bytes_eq_ascii(s: &[u8], kw: &str) -> (r: bool)
    requires
        vstd::string::is_ascii(kw),
    ensures
        r == (s@ == ascii_seq(kw@)),
{
    let kb = kw.as_bytes();
    proof {
        vstd::string::is_ascii_spec_bytes(kw);
        assert(kb@ =~= ascii_seq(kw@));
    }
    bytes_eq(s, kb)
}

/// The grammar word `null`, as bytes.
pub open spec fn lit_null() -> Seq<u8> {
    ascii_seq("null"@)
}

/// The grammar word `boolean`, as bytes.
pub open spec fn lit_boolean() -> Seq<u8> {
    ascii_seq("boolean"@)
}

/// The grammar word `int`, as bytes.
pub open spec fn lit_int() -> Seq<u8> {
    ascii_seq("int"@)
}

/// The grammar word `long`, as bytes.
pub open spec fn lit_long() -> Seq<u8> {
    ascii_seq("long"@)
}

/// The grammar word `float`, as bytes.
pub open spec fn lit_float() -> Seq<u8> {
    ascii_seq("float"@)
}

/// The grammar word `double`, as bytes.
pub open spec fn lit_double() -> Seq<u8> {
    ascii_seq("double"@)
}

/// The grammar word `bytes`, as bytes.
pub open spec fn lit_bytes() -> Seq<u8> {
    ascii_seq("bytes"@)
}

/// The grammar word `string`, as bytes.
pub open spec fn lit_string() -> Seq<u8> {
    ascii_seq("string"@)
}

/// The grammar word `record`, as bytes.
pub open spec fn lit_record() -> Seq<u8> {
    ascii_seq("record"@)
}

/// The grammar word `enum`, as bytes.
pub open spec fn lit_enum() -> Seq<u8> {
    ascii_seq("enum"@)
}

/// The grammar word `array`, as bytes.
pub open spec fn lit_array() -> Seq<u8> {
    ascii_seq("array"@)
}

/// The grammar word `map`, as bytes.
pub open spec fn lit_map() -> Seq<u8> {
    ascii_seq("map"@)
}

/// The grammar word `fixed`, as bytes.
pub open spec fn lit_fixed() -> Seq<u8> {
    ascii_seq("fixed"@)
}

/// The grammar word `name`, as bytes.
pub open spec fn lit_name() -> Seq<u8> {
    ascii_seq("name"@)
}

/// The grammar word `namespace`, as bytes.
pub open spec fn lit_namespace() -> Seq<u8> {
    ascii_seq("namespace"@)
}

/// The grammar word `type`, as bytes.
pub open spec fn lit_type() -> Seq<u8> {
    ascii_seq("type"@)
}

/// The grammar word `fields`, as bytes.
pub open spec fn lit_fields() -> Seq<u8> {
    ascii_seq("fields"@)
}

/// The grammar word `symbols`, as bytes.
pub open spec fn lit_symbols() -> Seq<u8> {
    ascii_seq("symbols"@)
}

/// The grammar word `items`, as bytes.
pub open spec fn lit_items() -> Seq<u8> {
    ascii_seq("items"@)
}

/// The grammar word `values`, as bytes.
pub open spec fn lit_values() -> Seq<u8> {
    ascii_seq("values"@)
}

/// The grammar word `size`, as bytes.
pub open spec fn lit_size() -> Seq<u8> {
    ascii_seq("size"@)
}

/// The grammar word `default`, as bytes.
pub open spec fn lit_default() -> Seq<u8> {
    ascii_seq("default"@)
}

/// The grammar word `doc`, as bytes.
pub open spec fn lit_doc() -> Seq<u8> {
    ascii_seq("doc"@)
}

/// The grammar word `order`, as bytes.
pub open spec fn lit_order() -> Seq<u8> {
    ascii_seq("order"@)
}

/// The grammar word `ascending`, as bytes.
pub open spec fn lit_ascending() -> Seq<u8> {
    ascii_seq("ascending"@)
}

/// The grammar word `descending`, as bytes.
pub open spec fn lit_descending() -> Seq<u8> {
    ascii_seq("descending"@)
}

/// The grammar word `ignore`, as bytes.
pub open spec fn lit_ignore() -> Seq<u8> {
    ascii_seq("ignore"@)
}

/// Is the byte slice the word `null`?
pub fn is_kw_null(s: &[u8]) -> (r: bool)
    ensures
        r == (s@ == lit_null()),
{
    proof {
        reveal_strlit("null");
    }
    bytes_eq_ascii(s, "null")
}

/// Is the byte slice the word `boolean`?
pub fn is_kw_boolean(s: &[u8]) -> (r: bool)
    ensures
        r == (s@ == lit_boolean()),
{
    proof {
        reveal_strlit("boolean");
    }
    bytes_eq_ascii(s, "boolean")
}

/// Is the byte slice the word `int`?
pub fn is_kw_int(s: &[u8]) -> (r: bool)
    ensures
        r == (s@ == lit_int()),
{
    proof {
        reveal_strlit("int");
    }
    bytes_eq_ascii(s, "int")
}

/// Is the byte slice the word `long`?
pub fn is_kw_long(s: &[u8]) -> (r: bool)
    ensures
        r == (s@ == lit_long()),
{
    proof {
        reveal_strlit("long");
    }
    bytes_eq_ascii(s, "long")
}

/// Is the byte slice the word `float`?
pub fn is_kw_float(s: &[u8]) -> (r: bool)
    ensures
        r == (s@ == lit_float()),
{
    proof {
        reveal_strlit("float");
    }
    bytes_eq_ascii(s, "float")
}

/// Is the byte slice the word `double`?
pub fn is_kw_double(s: &[u8]) -> (r: bool)
    ensures
        r == (s@ == lit_double()),
{
    proof {
        reveal_strlit("double");
    }
    bytes_eq_ascii(s, "double")
}

/// Is the byte slice the word `bytes`?
pub fn is_kw_bytes(s: &[u8]) -> (r: bool)
    ensures
        r == (s@ == lit_bytes()),
{
    proof {
        reveal_strlit("bytes");
    }
    bytes_eq_ascii(s, "bytes")
}

/// Is the byte slice the word `string`?
pub fn is_kw_string(s: &[u8]) -> (r: bool)
    ensures
        r == (s@ == lit_string()),
{
    proof {
        reveal_strlit("string");
    }
    bytes_eq_ascii(s, "string")
}

/// Is the byte slice the word `record`?
pub fn is_kw_record(s: &[u8]) -> (r: bool)
    ensures
        r == (s@ == lit_record()),
{
    proof {
        reveal_strlit("record");
    }
    bytes_eq_ascii(s, "record")
}

/// Is the byte slice the word `enum`?
pub fn is_kw_enum(s: &[u8]) -> (r: bool)
    ensures
        r == (s@ == lit_enum()),
{
    proof {
        reveal_strlit("enum");
    }
    bytes_eq_ascii(s, "enum")
}

/// Is the byte slice the word `array`?
pub fn is_kw_array(s: &[u8]) -> (r: bool)
    ensures
        r == (s@ == lit_array()),
{
    proof {
        reveal_strlit("array");
    }
    bytes_eq_ascii(s, "array")
}

/// Is the byte slice the word `map`?
pub fn is_kw_map(s: &[u8]) -> (r: bool)
    ensures
        r == (s@ == lit_map()),
{
    proof {
        reveal_strlit("map");
    }
    bytes_eq_ascii(s, "map")
}

/// Is the byte slice the word `fixed`?
pub fn is_kw_fixed(s: &[u8]) -> (r: bool)
    ensures
        r == (s@ == lit_fixed()),
{
    proof {
        reveal_strlit("fixed");
    }
    bytes_eq_ascii(s, "fixed")
}

/// Is the byte slice the word `ascending`?
pub fn is_kw_ascending(s: &[u8]) -> (r: bool)
    ensures
        r == (s@ == lit_ascending()),
{
    proof {
        reveal_strlit("ascending");
    }
    bytes_eq_ascii(s, "ascending")
}

/// Is the byte slice the word `descending`?
pub fn is_kw_descending(s: &[u8]) -> (r: bool)
    ensures
        r == (s@ == lit_descending()),
{
    proof {
        reveal_strlit("descending");
    }
    bytes_eq_ascii(s, "descending")
}

/// Is the byte slice the word `ignore`?
pub fn is_kw_ignore(s: &[u8]) -> (r: bool)
    ensures
        r == (s@ == lit_ignore()),
{
    proof {
        reveal_strlit("ignore");
    }
    bytes_eq_ascii(s, "ignore")
}

/// The word `name`, as an owned byte string.
pub fn kw_name() -> (v: Vec<u8>)
    ensures
        v@ == lit_name(),
{
    proof {
        reveal_strlit("name");
    }
    ascii_bytes("name")
}

/// The word `namespace`, as an owned byte string.
pub fn kw_namespace() -> (v: Vec<u8>)
    ensures
        v@ == lit_namespace(),
{
    proof {
        reveal_strlit("namespace");
    }
    ascii_bytes("namespace")
}

/// The word `type`, as an owned byte string.
pub fn kw_type() -> (v: Vec<u8>)
    ensures
        v@ == lit_type(),
{
    proof {
        reveal_strlit("type");
    }
    ascii_bytes("type")
}

/// The word `fields`, as an owned byte string.
pub fn kw_fields() -> (v: Vec<u8>)
    ensures
        v@ == lit_fields(),
{
    proof {
        reveal_strlit("fields");
    }
    ascii_bytes("fields")
}

/// The word `symbols`, as an owned byte string.
pub fn kw_symbols() -> (v: Vec<u8>)
    ensures
        v@ == lit_symbols(),
{
    proof {
        reveal_strlit("symbols");
    }
    ascii_bytes("symbols")
}

/// The word `items`, as an owned byte string.
pub fn kw_items() -> (v: Vec<u8>)
    ensures
        v@ == lit_items(),
{
    proof {
        reveal_strlit("items");
    }
    ascii_bytes("items")
}

/// The word `values`, as an owned byte string.
pub fn kw_values() -> (v: Vec<u8>)
    ensures
        v@ == lit_values(),
{
    proof {
        reveal_strlit("values");
    }
    ascii_bytes("values")
}

/// The word `size`, as an owned byte string.
pub fn kw_size() -> (v: Vec<u8>)
    ensures
        v@ == lit_size(),
{
    proof {
        reveal_strlit("size");
    }
    ascii_bytes("size")
}

/// The word `default`, as an owned byte string.
pub fn kw_default() -> (v: Vec<u8>)
    ensures
        v@ == lit_default(),
{
    proof {
        reveal_strlit("default");
    }
    ascii_bytes("default")
}

/// The word `doc`, as an owned byte string.
pub fn kw_doc() -> (v: Vec<u8>)
    ensures
        v@ == lit_doc(),
{
    proof {
        reveal_strlit("doc");
    }
    ascii_bytes("doc")
}

/// The word `order`, as an owned byte string.
pub fn kw_order() -> (v: Vec<u8>)
    ensures
        v@ == lit_order(),
{
    proof {
        reveal_strlit("order");
    }
    ascii_bytes("order")
}

/// An owned copy of a byte slice.
pub fn bytes_copy(v: &[u8]) -> (r: Vec<u8>)
    ensures
        r@ == v@,
{
    vstd::slice::slice_to_vec(v)
}

/// Append a byte slice to an owned byte string.
pub fn push_bytes(dst: &mut Vec<u8>, src: &[u8])
    ensures
        final(dst)@ == old(dst)@ + src@,
{
    let mut i: usize = 0;
    while i < src.len()
        invariant
            0 <= i <= src.len(),
            dst@ == old(dst)@ + src@.subrange(0, i as int),
        decreases src.len() - i,
    {
        dst.push(src[i]);
        proof {
            assert(old(dst)@ + src@.subrange(0, i + 1) =~= (old(dst)@ + src@.subrange(
                0,
                i as int,
            )).push(src@[i as int]));
        }
        i += 1;
    }
    proof {
        assert(src@.subrange(0, src.len() as int) =~= src@);
    }
}
} // verus!
