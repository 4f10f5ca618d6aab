//! The named-type registry and the two-pass resolver.
//!
//! Pass one parses every document and collects every named-type
//! declaration, anywhere in any tree, into one table keyed by fullname;
//! a repeated fullname is a [`ParseError::DuplicateName`]. Pass two
//! checks that every reference names a collected declaration; document
//! order never matters, so forward and cross-document references
//! succeed. A cyclic reference stays a lookup into the finished table,
//! never an expansion.

use vstd::prelude::*;

use crate::schema::ParseError;
use crate::schema::Schema;
use crate::schema::SpecParseError;
use crate::schema::SpecSchema;

verus! {

broadcast use vstd::std_specs::vec::group_vec_axioms, crate::schema::lemma_dv_fields,
    crate::schema::lemma_dv_schemas, crate::schema::lemma_dv_names;

/// View of a table of named declarations.
pub open spec fn dv_entries(xs: Seq<(Vec<u8>, Schema)>) -> Seq<(Seq<u8>, SpecSchema)>
    decreases xs,
{
    if xs.len() == 0 {
        Seq::empty()
    } else {
        seq![(xs[0].0@, xs[0].1.dv())] + dv_entries(xs.drop_first())
    }
}

/// The entry views index as expected.
pub broadcast proof fn lemma_dv_entries(xs: Seq<(Vec<u8>, Schema)>)
    ensures
        (#[trigger] dv_entries(xs)).len() == xs.len(),
        forall|i: int|
            0 <= i < xs.len() ==> dv_entries(xs)[i] == (xs[i].0@, xs[i].1.dv()),
    decreases xs.len(),
{
    if xs.len() > 0 {
        lemma_dv_entries(xs.drop_first());
    }
}

/// Appending one entry extends the view by its view.
pub proof fn lemma_dv_entries_push(xs: Seq<(Vec<u8>, Schema)>, p: (Vec<u8>, Schema))
    ensures
        dv_entries(xs.push(p)) == dv_entries(xs) + seq![(p.0@, p.1.dv())],
{
    lemma_dv_entries(xs.push(p));
    lemma_dv_entries(xs);
    assert(dv_entries(xs.push(p)) =~= dv_entries(xs) + seq![(p.0@, p.1.dv())]);
}

/// Appending one name extends the view by its view.
pub proof fn lemma_dv_names_push(xs: Seq<Vec<u8>>, p: Vec<u8>)
    ensures
        crate::schema::dv_names(xs.push(p)) == crate::schema::dv_names(xs) + seq![p@],
{
    crate::schema::lemma_dv_names(xs.push(p));
    crate::schema::lemma_dv_names(xs);
    assert(crate::schema::dv_names(xs.push(p)) =~= crate::schema::dv_names(xs)
        + seq![p@]);
}

/// The fullname of a named schema kind.
pub open spec fn spec_name_of(s: SpecSchema) -> Option<Seq<u8>> {
    match s {
        SpecSchema::Record { fullname, .. } => Some(fullname),
        SpecSchema::Enum { fullname, .. } => Some(fullname),
        SpecSchema::Fixed { fullname, .. } => Some(fullname),
        _ => None,
    }
}

/// Every named-type declaration in a schema tree, in order of
/// appearance, the declaring tree beside each fullname.
pub open spec fn spec_decls(s: SpecSchema) -> Seq<(Seq<u8>, SpecSchema)>
    decreases s, 0int,
{
    match s {
        SpecSchema::Record { fullname, fields } => seq![
            (fullname, SpecSchema::Record { fullname, fields }),
        ] + spec_decls_fields(fields, 0),
        SpecSchema::Enum { fullname, symbols, default } => seq![
            (fullname, SpecSchema::Enum { fullname, symbols, default }),
        ],
        SpecSchema::Fixed { fullname, size } => seq![
            (fullname, SpecSchema::Fixed { fullname, size }),
        ],
        SpecSchema::Array { item } => spec_decls(*item),
        SpecSchema::MapOf { value } => spec_decls(*value),
        SpecSchema::Union { branches } => spec_decls_list(branches, 0),
        _ => Seq::empty(),
    }
}

/// Declarations under a record's fields.
pub open spec fn spec_decls_fields(fs: Seq<crate::schema::SpecField>, i: nat) -> Seq<
    (Seq<u8>, SpecSchema),
>
    decreases fs, fs.len() - i,
{
    if i >= fs.len() {
        Seq::empty()
    } else {
        spec_decls(fs[i as int].ty) + spec_decls_fields(fs, i + 1)
    }
}

/// Declarations under a union's branches.
pub open spec fn spec_decls_list(bs: Seq<SpecSchema>, i: nat) -> Seq<
    (Seq<u8>, SpecSchema),
>
    decreases bs, bs.len() - i,
{
    if i >= bs.len() {
        Seq::empty()
    } else {
        spec_decls(bs[i as int]) + spec_decls_list(bs, i + 1)
    }
}

/// Every reference fullname in a schema tree, in order of appearance.
pub open spec fn spec_refs(s: SpecSchema) -> Seq<Seq<u8>>
    decreases s, 0int,
{
    match s {
        SpecSchema::Record { fields, .. } => spec_refs_fields(fields, 0),
        SpecSchema::Array { item } => spec_refs(*item),
        SpecSchema::MapOf { value } => spec_refs(*value),
        SpecSchema::Union { branches } => spec_refs_list(branches, 0),
        SpecSchema::Reference { fullname } => seq![fullname],
        _ => Seq::empty(),
    }
}

/// References under a record's fields.
pub open spec fn spec_refs_fields(fs: Seq<crate::schema::SpecField>, i: nat) -> Seq<
    Seq<u8>,
>
    decreases fs, fs.len() - i,
{
    if i >= fs.len() {
        Seq::empty()
    } else {
        spec_refs(fs[i as int].ty) + spec_refs_fields(fs, i + 1)
    }
}

/// References under a union's branches.
pub open spec fn spec_refs_list(bs: Seq<SpecSchema>, i: nat) -> Seq<Seq<u8>>
    decreases bs, bs.len() - i,
{
    if i >= bs.len() {
        Seq::empty()
    } else {
        spec_refs(bs[i as int]) + spec_refs_list(bs, i + 1)
    }
}

/// First entry at or after `i` declaring `name`, or -1.
pub open spec fn spec_reg_find(
    reg: Seq<(Seq<u8>, SpecSchema)>,
    name: Seq<u8>,
    i: nat,
) -> int
    decreases reg.len() - i,
{
    if i >= reg.len() {
        -1
    } else if reg[i as int].0 == name {
        i as int
    } else {
        spec_reg_find(reg, name, i + 1)
    }
}

/// The result of [`spec_reg_find`] is -1 or an index of an entry with
/// the name, for every start position at once.
pub proof fn lemma_reg_find(reg: Seq<(Seq<u8>, SpecSchema)>, name: Seq<u8>)
    ensures
        forall|i: nat|
            #[trigger] spec_reg_find(reg, name, i) == -1 || (i <= spec_reg_find(
                reg,
                name,
                i,
            ) < reg.len() && reg[spec_reg_find(reg, name, i)].0 == name),
{
    assert forall|i: nat|
        #[trigger] spec_reg_find(reg, name, i) == -1 || (i <= spec_reg_find(reg, name, i)
            < reg.len() && reg[spec_reg_find(reg, name, i)].0 == name) by {
        lemma_reg_find_one(reg, name, i);
    }
}

proof fn lemma_reg_find_one(reg: Seq<(Seq<u8>, SpecSchema)>, name: Seq<u8>, i: nat)
    ensures
        spec_reg_find(reg, name, i) == -1 || (i <= spec_reg_find(reg, name, i)
            < reg.len() && reg[spec_reg_find(reg, name, i)].0 == name),
    decreases reg.len() - i,
{
    if i < reg.len() && reg[i as int].0 != name {
        lemma_reg_find_one(reg, name, i + 1);
    }
}

/// The first entry whose name already occurred earlier, if any.
pub open spec fn spec_first_dup(entries: Seq<(Seq<u8>, SpecSchema)>, i: nat) -> Option<
    Seq<u8>,
>
    decreases entries.len() - i,
{
    if i >= entries.len() {
        None
    } else if spec_reg_find(entries, entries[i as int].0, 0) != i {
        Some(entries[i as int].0)
    } else {
        spec_first_dup(entries, i + 1)
    }
}

/// The first reference that no entry declares, if any.
pub open spec fn spec_first_unresolved(
    refs: Seq<Seq<u8>>,
    entries: Seq<(Seq<u8>, SpecSchema)>,
    i: nat,
) -> Option<Seq<u8>>
    decreases refs.len() - i,
{
    if i >= refs.len() {
        None
    } else if spec_reg_find(entries, refs[i as int], 0) < 0 {
        Some(refs[i as int])
    } else {
        spec_first_unresolved(refs, entries, i + 1)
    }
}

/// The schemas of a list of documents, first failure first.
pub open spec fn spec_docs_schemas(docs: Seq<Seq<u8>>, i: nat) -> Result<
    Seq<SpecSchema>,
    SpecParseError,
>
    decreases docs.len() - i,
{
    if i >= docs.len() {
        Ok(Seq::empty())
    } else {
        match crate::schema_parse::spec_doc_schema(docs[i as int]) {
            Err(e) => Err(e),
            Ok(s) => match spec_docs_schemas(docs, i + 1) {
                Ok(rest) => Ok(seq![s] + rest),
                Err(e) => Err(e),
            },
        }
    }
}

/// All declarations of a list of schemas.
pub open spec fn spec_all_decls(ss: Seq<SpecSchema>, i: nat) -> Seq<
    (Seq<u8>, SpecSchema),
>
    decreases ss.len() - i,
{
    if i >= ss.len() {
        Seq::empty()
    } else {
        spec_decls(ss[i as int]) + spec_all_decls(ss, i + 1)
    }
}

/// All references of a list of schemas.
pub open spec fn spec_all_refs(ss: Seq<SpecSchema>, i: nat) -> Seq<Seq<u8>>
    decreases ss.len() - i,
{
    if i >= ss.len() {
        Seq::empty()
    } else {
        spec_refs(ss[i as int]) + spec_all_refs(ss, i + 1)
    }
}

/// A list of documents as one namespace: every declaration collected,
/// no fullname declared twice, every reference declared somewhere.
pub open spec fn spec_resolve(docs: Seq<Seq<u8>>) -> Result<
    Seq<(Seq<u8>, SpecSchema)>,
    SpecParseError,
> {
    match spec_docs_schemas(docs, 0) {
        Err(e) => Err(e),
        Ok(ss) => {
            let entries = spec_all_decls(ss, 0);
            match spec_first_dup(entries, 0) {
                Some(n) => Err(SpecParseError::DuplicateName(n)),
                None => match spec_first_unresolved(spec_all_refs(ss, 0), entries, 0) {
                    Some(n) => Err(SpecParseError::UnresolvedReference(n)),
                    None => Ok(entries),
                },
            }
        },
    }
}

/// One document on its own: parsed, its declarations unique, and every
/// reference declared within the document itself.
pub open spec fn spec_parse(doc: Seq<u8>) -> Result<SpecSchema, SpecParseError> {
    match crate::schema_parse::spec_doc_schema(doc) {
        Err(e) => Err(e),
        Ok(s) => {
            let entries = spec_decls(s);
            match spec_first_dup(entries, 0) {
                Some(n) => Err(SpecParseError::DuplicateName(n)),
                None => match spec_first_unresolved(spec_refs(s), entries, 0) {
                    Some(n) => Err(SpecParseError::UnknownType(n)),
                    None => Ok(s),
                },
            }
        },
    }
}

/// Collect the declarations of a tree into a table.
pub fn decls_into(s: &Schema, out: &mut Vec<(Vec<u8>, Schema)>)
    ensures
        dv_entries(final(out)@) == dv_entries(old(out)@) + spec_decls(s.dv()),
    decreases *s, 0int,
{
    let ghost pre = out@;
    match s {
        Schema::Record { fullname, fields } => {
            out.push((crate::text::bytes_copy(fullname.as_slice()), s.duplicate()));
            proof {
                lemma_dv_entries_push(pre, (out@[out@.len() - 1].0, out@[out@.len()
                    - 1].1));
                assert(out@.drop_last() =~= pre);
                assert(out@ =~= pre.push(out@[out@.len() - 1]));
                assert(dv_entries(out@) =~= dv_entries(pre) + seq![
                    (fullname@, s.dv()),
                ]);
            }
            let ghost mid = out@;
            decls_fields_into(fields, 0, out);
            proof {
                assert(s.dv() == SpecSchema::Record {
                    fullname: fullname@,
                    fields: crate::schema::dv_fields(fields@),
                });
                assert(dv_entries(out@) =~= dv_entries(pre) + spec_decls(s.dv()));
            }
        },
        Schema::Enum { fullname, .. } => {
            out.push((crate::text::bytes_copy(fullname.as_slice()), s.duplicate()));
            proof {
                lemma_dv_entries_push(pre, (out@[out@.len() - 1].0, out@[out@.len()
                    - 1].1));
                assert(out@ =~= pre.push(out@[out@.len() - 1]));
                assert(dv_entries(out@) =~= dv_entries(pre) + spec_decls(s.dv()));
            }
        },
        Schema::Fixed { fullname, .. } => {
            out.push((crate::text::bytes_copy(fullname.as_slice()), s.duplicate()));
            proof {
                lemma_dv_entries_push(pre, (out@[out@.len() - 1].0, out@[out@.len()
                    - 1].1));
                assert(out@ =~= pre.push(out@[out@.len() - 1]));
                assert(dv_entries(out@) =~= dv_entries(pre) + spec_decls(s.dv()));
            }
        },
        Schema::Array { item } => {
            decls_into(item, out);
        },
        Schema::MapOf { value } => {
            decls_into(value, out);
        },
        Schema::Union { branches } => {
            decls_list_into(branches, 0, out);
        },
        _ => {
            proof {
                assert(dv_entries(out@) =~= dv_entries(pre) + spec_decls(s.dv()));
            }
        },
    }
}

/// Collect the declarations under a record's fields.
pub fn decls_fields_into(fs: &Vec<crate::schema::Field>, i: usize, out: &mut Vec<
    (Vec<u8>, Schema),
>)
    requires
        i <= fs.len(),
    ensures
        dv_entries(final(out)@) == dv_entries(old(out)@) + spec_decls_fields(
            crate::schema::dv_fields(fs@),
            i as nat,
        ),
    decreases *fs, fs.len() - i,
{
    let ghost pre = out@;
    if i >= fs.len() {
        proof {
            assert(dv_entries(out@) =~= dv_entries(pre) + spec_decls_fields(
                crate::schema::dv_fields(fs@),
                i as nat,
            ));
        }
        return;
    }
    decls_into(&fs[i].ty, out);
    decls_fields_into(fs, i + 1, out);
    proof {
        assert(dv_entries(out@) =~= dv_entries(pre) + spec_decls_fields(
            crate::schema::dv_fields(fs@),
            i as nat,
        ));
    }
}

/// Collect the declarations under a union's branches.
pub fn decls_list_into(bs: &Vec<Schema>, i: usize, out: &mut Vec<(Vec<u8>, Schema)>)
    requires
        i <= bs.len(),
    ensures
        dv_entries(final(out)@) == dv_entries(old(out)@) + spec_decls_list(
            crate::schema::dv_schemas(bs@),
            i as nat,
        ),
    decreases *bs, bs.len() - i,
{
    let ghost pre = out@;
    if i >= bs.len() {
        proof {
            assert(dv_entries(out@) =~= dv_entries(pre) + spec_decls_list(
                crate::schema::dv_schemas(bs@),
                i as nat,
            ));
        }
        return;
    }
    decls_into(&bs[i], out);
    decls_list_into(bs, i + 1, out);
    proof {
        assert(dv_entries(out@) =~= dv_entries(pre) + spec_decls_list(
            crate::schema::dv_schemas(bs@),
            i as nat,
        ));
    }
}

/// Collect the reference fullnames of a tree.
pub fn refs_into(s: &Schema, out: &mut Vec<Vec<u8>>)
    ensures
        crate::schema::dv_names(final(out)@) == crate::schema::dv_names(old(out)@)
            + spec_refs(s.dv()),
    decreases *s, 0int,
{
    let ghost pre = out@;
    match s {
        Schema::Record { fields, .. } => {
            refs_fields_into(fields, 0, out);
        },
        Schema::Array { item } => {
            refs_into(item, out);
        },
        Schema::MapOf { value } => {
            refs_into(value, out);
        },
        Schema::Union { branches } => {
            refs_list_into(branches, 0, out);
        },
        Schema::Reference { fullname } => {
            out.push(crate::text::bytes_copy(fullname.as_slice()));
            proof {
                lemma_dv_names_push(pre, out@[out@.len() - 1]);
                assert(out@ =~= pre.push(out@[out@.len() - 1]));
                assert(crate::schema::dv_names(out@) =~= crate::schema::dv_names(pre)
                    + spec_refs(s.dv()));
            }
        },
        _ => {
            proof {
                assert(crate::schema::dv_names(out@) =~= crate::schema::dv_names(pre)
                    + spec_refs(s.dv()));
            }
        },
    }
}

/// Collect the references under a record's fields.
pub fn refs_fields_into(fs: &Vec<crate::schema::Field>, i: usize, out: &mut Vec<Vec<u8>>)
    requires
        i <= fs.len(),
    ensures
        crate::schema::dv_names(final(out)@) == crate::schema::dv_names(old(out)@)
            + spec_refs_fields(crate::schema::dv_fields(fs@), i as nat),
    decreases *fs, fs.len() - i,
{
    let ghost pre = out@;
    if i >= fs.len() {
        proof {
            assert(crate::schema::dv_names(out@) =~= crate::schema::dv_names(pre)
                + spec_refs_fields(crate::schema::dv_fields(fs@), i as nat));
        }
        return;
    }
    refs_into(&fs[i].ty, out);
    refs_fields_into(fs, i + 1, out);
    proof {
        assert(crate::schema::dv_names(out@) =~= crate::schema::dv_names(pre)
            + spec_refs_fields(crate::schema::dv_fields(fs@), i as nat));
    }
}

/// Collect the references under a union's branches.
pub fn refs_list_into(bs: &Vec<Schema>, i: usize, out: &mut Vec<Vec<u8>>)
    requires
        i <= bs.len(),
    ensures
        crate::schema::dv_names(final(out)@) == crate::schema::dv_names(old(out)@)
            + spec_refs_list(crate::schema::dv_schemas(bs@), i as nat),
    decreases *bs, bs.len() - i,
{
    let ghost pre = out@;
    if i >= bs.len() {
        proof {
            assert(crate::schema::dv_names(out@) =~= crate::schema::dv_names(pre)
                + spec_refs_list(crate::schema::dv_schemas(bs@), i as nat));
        }
        return;
    }
    refs_into(&bs[i], out);
    refs_list_into(bs, i + 1, out);
    proof {
        assert(crate::schema::dv_names(out@) =~= crate::schema::dv_names(pre)
            + spec_refs_list(crate::schema::dv_schemas(bs@), i as nat));
    }
}

/// Executable twin of [`spec_reg_find`].
pub fn reg_find(entries: &Vec<(Vec<u8>, Schema)>, name: &[u8], i: usize) -> (r: Option<
    usize,
>)
    requires
        i <= entries.len(),
    ensures
        match r {
            Some(k) => spec_reg_find(dv_entries(entries@), name@, i as nat) == k as int
                && i <= k < entries.len(),
            None => spec_reg_find(dv_entries(entries@), name@, i as nat) == -1,
        },
    decreases entries.len() - i,
{
    proof {
        lemma_dv_entries(entries@);
    }
    if i >= entries.len() {
        return None;
    }
    if crate::text::bytes_eq(entries[i].0.as_slice(), name) {
        return Some(i);
    }
    reg_find(entries, name, i + 1)
}

/// Executable twin of [`spec_first_dup`].
pub fn first_dup(entries: &Vec<(Vec<u8>, Schema)>, i: usize) -> (r: Option<Vec<u8>>)
    requires
        i <= entries.len(),
    ensures
        match r {
            Some(n) => spec_first_dup(dv_entries(entries@), i as nat) == Some(n@),
            None => spec_first_dup(dv_entries(entries@), i as nat) is None,
        },
    decreases entries.len() - i,
{
    proof {
        lemma_dv_entries(entries@);
    }
    if i >= entries.len() {
        return None;
    }
    let dup = match reg_find(entries, entries[i].0.as_slice(), 0) {
        Some(k) => k != i,
        None => true,
    };
    if dup {
        Some(crate::text::bytes_copy(entries[i].0.as_slice()))
    } else {
        first_dup(entries, i + 1)
    }
}

/// Executable twin of [`spec_first_unresolved`].
pub fn first_unresolved(refs: &Vec<Vec<u8>>, entries: &Vec<(Vec<u8>, Schema)>, i: usize)
    -> (r: Option<Vec<u8>>)
    requires
        i <= refs.len(),
    ensures
        match r {
            Some(n) => spec_first_unresolved(
                crate::schema::dv_names(refs@),
                dv_entries(entries@),
                i as nat,
            ) == Some(n@),
            None => spec_first_unresolved(
                crate::schema::dv_names(refs@),
                dv_entries(entries@),
                i as nat,
            ) is None,
        },
    decreases refs.len() - i,
{
    if i >= refs.len() {
        return None;
    }
    match reg_find(entries, refs[i].as_slice(), 0) {
        None => Some(crate::text::bytes_copy(refs[i].as_slice())),
        Some(_) => first_unresolved(refs, entries, i + 1),
    }
}

/// Executable twin of [`spec_docs_schemas`].
pub fn docs_schemas(docs: &Vec<Vec<u8>>, i: usize) -> (r: Result<Vec<Schema>, ParseError>)
    requires
        i <= docs.len(),
    ensures
        match r {
            Ok(ss) => spec_docs_schemas(crate::schema::dv_names(docs@), i as nat) == Ok::<
                Seq<SpecSchema>,
                SpecParseError,
            >(crate::schema::dv_schemas(ss@)),
            Err(e) => spec_docs_schemas(crate::schema::dv_names(docs@), i as nat)
                == Err::<Seq<SpecSchema>, SpecParseError>(e.dv()),
        },
    decreases docs.len() - i,
{
    if i >= docs.len() {
        let empty: Vec<Schema> = Vec::new();
        proof {
            assert(crate::schema::dv_schemas(empty@) =~= Seq::<SpecSchema>::empty());
        }
        return Ok(empty);
    }
    match crate::schema_parse::doc_schema(docs[i].as_slice()) {
        Err(e) => Err(e),
        Ok(s) => match docs_schemas(docs, i + 1) {
            Ok(rest) => {
                let ghost rest_view = rest@;
                let mut ss = rest;
                ss.insert(0, s);
                proof {
                    assert(ss@.drop_first() =~= rest_view);
                    assert(crate::schema::dv_schemas(ss@) =~= seq![ss@[0].dv()]
                        + crate::schema::dv_schemas(rest_view));
                }
                Ok(ss)
            },
            Err(e) => Err(e),
        },
    }
}

/// Collect the declarations of a list of schemas.
pub fn all_decls_into(ss: &Vec<Schema>, i: usize, out: &mut Vec<(Vec<u8>, Schema)>)
    requires
        i <= ss.len(),
    ensures
        dv_entries(final(out)@) == dv_entries(old(out)@) + spec_all_decls(
            crate::schema::dv_schemas(ss@),
            i as nat,
        ),
    decreases ss.len() - i,
{
    let ghost pre = out@;
    if i >= ss.len() {
        proof {
            assert(dv_entries(out@) =~= dv_entries(pre) + spec_all_decls(
                crate::schema::dv_schemas(ss@),
                i as nat,
            ));
        }
        return;
    }
    decls_into(&ss[i], out);
    all_decls_into(ss, i + 1, out);
    proof {
        assert(dv_entries(out@) =~= dv_entries(pre) + spec_all_decls(
            crate::schema::dv_schemas(ss@),
            i as nat,
        ));
    }
}

/// Collect the references of a list of schemas.
pub fn all_refs_into(ss: &Vec<Schema>, i: usize, out: &mut Vec<Vec<u8>>)
    requires
        i <= ss.len(),
    ensures
        crate::schema::dv_names(final(out)@) == crate::schema::dv_names(old(out)@)
            + spec_all_refs(crate::schema::dv_schemas(ss@), i as nat),
    decreases ss.len() - i,
{
    let ghost pre = out@;
    if i >= ss.len() {
        proof {
            assert(crate::schema::dv_names(out@) =~= crate::schema::dv_names(pre)
                + spec_all_refs(crate::schema::dv_schemas(ss@), i as nat));
        }
        return;
    }
    refs_into(&ss[i], out);
    all_refs_into(ss, i + 1, out);
    proof {
        assert(crate::schema::dv_names(out@) =~= crate::schema::dv_names(pre)
            + spec_all_refs(crate::schema::dv_schemas(ss@), i as nat));
    }
}

/// A resolved document set: every named type, keyed by fullname.
pub struct Registry {
    pub entries: Vec<(Vec<u8>, Schema)>,
}

impl Registry {
    /// Mathematical view: the table of fullname and schema pairs.
    pub open spec fn dv(&self) -> Seq<(Seq<u8>, SpecSchema)> {
        dv_entries(self.entries@)
    }
}

/// Resolve a list of documents as one namespace, exactly as
/// [`spec_resolve`] says.
pub fn resolve(docs: &Vec<Vec<u8>>) -> (r: Result<Registry, ParseError>)
    ensures
        match r {
            Ok(reg) => spec_resolve(crate::schema::dv_names(docs@)) == Ok::<
                Seq<(Seq<u8>, SpecSchema)>,
                SpecParseError,
            >(reg.dv()),
            Err(e) => spec_resolve(crate::schema::dv_names(docs@)) == Err::<
                Seq<(Seq<u8>, SpecSchema)>,
                SpecParseError,
            >(e.dv()),
        },
{
    let ss = match docs_schemas(docs, 0) {
        Ok(ss) => ss,
        Err(e) => {
            return Err(e);
        },
    };
    let mut entries: Vec<(Vec<u8>, Schema)> = Vec::new();
    proof {
        assert(dv_entries(entries@) =~= Seq::<(Seq<u8>, SpecSchema)>::empty());
    }
    all_decls_into(&ss, 0, &mut entries);
    proof {
        assert(dv_entries(entries@) =~= spec_all_decls(crate::schema::dv_schemas(ss@), 0));
    }
    match first_dup(&entries, 0) {
        Some(n) => Err(ParseError::DuplicateName(n)),
        None => {
            let mut refs: Vec<Vec<u8>> = Vec::new();
            proof {
                assert(crate::schema::dv_names(refs@) =~= Seq::<Seq<u8>>::empty());
            }
            all_refs_into(&ss, 0, &mut refs);
            proof {
                assert(crate::schema::dv_names(refs@) =~= spec_all_refs(
                    crate::schema::dv_schemas(ss@),
                    0,
                ));
            }
            match first_unresolved(&refs, &entries, 0) {
                Some(n) => Err(ParseError::UnresolvedReference(n)),
                None => Ok(Registry { entries }),
            }
        },
    }
}

/// Parse one document on its own, exactly as [`spec_parse`] says.
pub fn parse(doc: &[u8]) -> (r: Result<Schema, ParseError>)
    ensures
        match r {
            Ok(s) => spec_parse(doc@) == Ok::<SpecSchema, SpecParseError>(s.dv()),
            Err(e) => spec_parse(doc@) == Err::<SpecSchema, SpecParseError>(e.dv()),
        },
{
    let s = match crate::schema_parse::doc_schema(doc) {
        Ok(s) => s,
        Err(e) => {
            return Err(e);
        },
    };
    let mut entries: Vec<(Vec<u8>, Schema)> = Vec::new();
    proof {
        assert(dv_entries(entries@) =~= Seq::<(Seq<u8>, SpecSchema)>::empty());
    }
    decls_into(&s, &mut entries);
    proof {
        assert(dv_entries(entries@) =~= spec_decls(s.dv()));
    }
    match first_dup(&entries, 0) {
        Some(n) => Err(ParseError::DuplicateName(n)),
        None => {
            let mut refs: Vec<Vec<u8>> = Vec::new();
            proof {
                assert(crate::schema::dv_names(refs@) =~= Seq::<Seq<u8>>::empty());
            }
            refs_into(&s, &mut refs);
            proof {
                assert(crate::schema::dv_names(refs@) =~= spec_refs(s.dv()));
            }
            match first_unresolved(&refs, &entries, 0) {
                Some(n) => Err(ParseError::UnknownType(n)),
                None => Ok(s),
            }
        },
    }
}
/// One resolution step: a reference whose fullname the table declares
/// becomes the declared schema; anything else stands unchanged.
pub open spec fn resolve_in(reg: Seq<(Seq<u8>, SpecSchema)>, s: SpecSchema) -> SpecSchema {
    match s {
        SpecSchema::Reference { fullname } => {
            let i = spec_reg_find(reg, fullname, 0);
            if i >= 0 && spec_name_of(reg[i].1) is Some {
                reg[i].1
            } else {
                s
            }
        },
        _ => s,
    }
}

/// Executable twin of [`resolve_in`].
pub fn resolve_schema<'a>(reg: &'a Registry, s: &'a Schema) -> (r: &'a Schema)
    ensures
        r.dv() == resolve_in(reg.dv(), s.dv()),
        spec_name_of(r.dv()) is None ==> r == s,
{
    proof {
        lemma_dv_entries(reg.entries@);
    }
    match s {
        Schema::Reference { fullname } => {
            match reg_find(&reg.entries, fullname.as_slice(), 0) {
                Some(i) => {
                    let cand = &reg.entries[i].1;
                    match cand {
                        Schema::Record { .. } => cand,
                        Schema::Enum { .. } => cand,
                        Schema::Fixed { .. } => cand,
                        _ => s,
                    }
                },
                None => s,
            }
        },
        _ => s,
    }
}
} // verus!
