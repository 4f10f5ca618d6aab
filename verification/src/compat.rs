//! The reader/writer compatibility checker.
//!
//! `can_read` decides whether data written with the writer schema can
//! be read through the reader schema, following structural resolution:
//! primitives match or promote along `int` to `long` to `float` to
//! `double` and between `string` and `bytes`; records match reader
//! fields by name, a missing writer field needing a reader default;
//! enums need every writer symbol known to the reader or a reader
//! default; arrays, maps and fixed compare their parts. Named types
//! compare structurally; a fullname pair already entered on the current
//! descent is provisionally compatible, which breaks cycles. The
//! `remaining` argument carries the fullname pairs not yet entered;
//! callers pass every pair of names of the two registries.

use vstd::prelude::*;

use crate::registry::Registry;
use crate::registry::resolve_in;
use crate::registry::spec_name_of;
use crate::schema::Schema;
use crate::schema::SpecField;
use crate::schema::SpecSchema;

verus! {

broadcast use vstd::std_specs::vec::group_vec_axioms, crate::schema::lemma_dv_fields,
    crate::schema::lemma_dv_schemas, crate::schema::lemma_dv_names;

/// Why a pair of schemas is incompatible.
pub enum SpecReason {
    /// The reader requires a field the writer never wrote, and the
    /// reader gives it no default.
    MissingField(Seq<u8>),
    /// The writer may emit an enum symbol the reader does not know,
    /// and the reader has no default symbol.
    UnknownEnumSymbol(Seq<u8>),
    /// The schema kinds do not match and no promotion applies.
    TypeMismatch,
    /// A name of the old set is absent from the new set.
    SchemaRemoved(Seq<u8>),
}

/// An incompatibility, with the field path that leads to it.
pub struct SpecIncompat {
    pub path: Seq<Seq<u8>>,
    pub reason: SpecReason,
}

/// Executable twin of [`SpecReason`].
#[derive(Debug, PartialEq, Eq)]
pub enum CompatReason {
    MissingField(Vec<u8>),
    UnknownEnumSymbol(Vec<u8>),
    TypeMismatch,
    SchemaRemoved(Vec<u8>),
}

impl CompatReason {
    /// Mathematical view of the reason.
    pub open spec fn dv(&self) -> SpecReason {
        match self {
            CompatReason::MissingField(n) => SpecReason::MissingField(n@),
            CompatReason::UnknownEnumSymbol(n) => SpecReason::UnknownEnumSymbol(n@),
            CompatReason::TypeMismatch => SpecReason::TypeMismatch,
            CompatReason::SchemaRemoved(n) => SpecReason::SchemaRemoved(n@),
        }
    }
}

/// Executable twin of [`SpecIncompat`].
#[derive(Debug, PartialEq, Eq)]
pub struct Incompat {
    pub path: Vec<Vec<u8>>,
    pub reason: CompatReason,
}

impl Incompat {
    /// Mathematical view of the incompatibility.
    pub open spec fn dv(&self) -> SpecIncompat {
        SpecIncompat { path: crate::schema::dv_names(self.path@), reason: self.reason.dv() }
    }
}

/// View of a verdict.
pub open spec fn dv_verdict(r: Result<(), Incompat>) -> Result<(), SpecIncompat> {
    match r {
        Ok(()) => Ok(()),
        Err(e) => Err(e.dv()),
    }
}

/// Is this a primitive kind?
pub open spec fn is_primitive(s: SpecSchema) -> bool {
    match s {
        SpecSchema::Null => true,
        SpecSchema::Boolean => true,
        SpecSchema::Int => true,
        SpecSchema::Long => true,
        SpecSchema::Float => true,
        SpecSchema::Double => true,
        SpecSchema::Bytes => true,
        SpecSchema::Str => true,
        _ => false,
    }
}

/// The promotion lattice: may a reader of kind `r` read a writer of
/// kind `w`? Identical kinds always; `int` widens to `long`, `float`
/// and `double`; `long` to `float` and `double`; `float` to `double`;
/// `string` and `bytes` read each other.
pub open spec fn prim_readable(w: SpecSchema, r: SpecSchema) -> bool {
    match (w, r) {
        (SpecSchema::Null, SpecSchema::Null) => true,
        (SpecSchema::Boolean, SpecSchema::Boolean) => true,
        (SpecSchema::Int, SpecSchema::Int) => true,
        (SpecSchema::Int, SpecSchema::Long) => true,
        (SpecSchema::Int, SpecSchema::Float) => true,
        (SpecSchema::Int, SpecSchema::Double) => true,
        (SpecSchema::Long, SpecSchema::Long) => true,
        (SpecSchema::Long, SpecSchema::Float) => true,
        (SpecSchema::Long, SpecSchema::Double) => true,
        (SpecSchema::Float, SpecSchema::Float) => true,
        (SpecSchema::Float, SpecSchema::Double) => true,
        (SpecSchema::Double, SpecSchema::Double) => true,
        (SpecSchema::Bytes, SpecSchema::Bytes) => true,
        (SpecSchema::Bytes, SpecSchema::Str) => true,
        (SpecSchema::Str, SpecSchema::Str) => true,
        (SpecSchema::Str, SpecSchema::Bytes) => true,
        _ => false,
    }
}

/// First field at or after `i` with this name, or -1.
pub open spec fn spec_field_find(fs: Seq<SpecField>, name: Seq<u8>, i: nat) -> int
    decreases fs.len() - i,
{
    if i >= fs.len() {
        -1
    } else if fs[i as int].name == name {
        i as int
    } else {
        spec_field_find(fs, name, i + 1)
    }
}

/// The result of [`spec_field_find`] is -1 or an index of a field with
/// the name, for every start position at once.
pub proof fn lemma_field_find(fs: Seq<SpecField>, name: Seq<u8>)
    ensures
        forall|i: nat|
            #[trigger] spec_field_find(fs, name, i) == -1 || (i <= spec_field_find(
                fs,
                name,
                i,
            ) < fs.len() && fs[spec_field_find(fs, name, i)].name == name),
{
    assert forall|i: nat|
        #[trigger] spec_field_find(fs, name, i) == -1 || (i <= spec_field_find(fs, name, i)
            < fs.len() && fs[spec_field_find(fs, name, i)].name == name) by {
        lemma_field_find_one(fs, name, i);
    }
}

proof fn lemma_field_find_one(fs: Seq<SpecField>, name: Seq<u8>, i: nat)
    ensures
        spec_field_find(fs, name, i) == -1 || (i <= spec_field_find(fs, name, i)
            < fs.len() && fs[spec_field_find(fs, name, i)].name == name),
    decreases fs.len() - i,
{
    if i < fs.len() && fs[i as int].name != name {
        lemma_field_find_one(fs, name, i + 1);
    }
}

/// First pair at or after `i` equal to `(a, b)`, or -1.
pub open spec fn spec_pairs_find(
    ps: Seq<(Seq<u8>, Seq<u8>)>,
    a: Seq<u8>,
    b: Seq<u8>,
    i: nat,
) -> int
    decreases ps.len() - i,
{
    if i >= ps.len() {
        -1
    } else if ps[i as int].0 == a && ps[i as int].1 == b {
        i as int
    } else {
        spec_pairs_find(ps, a, b, i + 1)
    }
}

/// The result of [`spec_pairs_find`] is -1 or an index of the pair,
/// for every pair and start position at once.
pub proof fn lemma_pairs_find(ps: Seq<(Seq<u8>, Seq<u8>)>)
    ensures
        forall|a: Seq<u8>, b: Seq<u8>, i: nat|
            #[trigger] spec_pairs_find(ps, a, b, i) == -1 || (i <= spec_pairs_find(
                ps,
                a,
                b,
                i,
            ) < ps.len()),
{
    assert forall|a: Seq<u8>, b: Seq<u8>, i: nat|
        #[trigger] spec_pairs_find(ps, a, b, i) == -1 || (i <= spec_pairs_find(ps, a, b, i)
            < ps.len()) by {
        lemma_pairs_find_one(ps, a, b, i);
    }
}

proof fn lemma_pairs_find_one(ps: Seq<(Seq<u8>, Seq<u8>)>, a: Seq<u8>, b: Seq<u8>, i: nat)
    ensures
        spec_pairs_find(ps, a, b, i) == -1 || (i <= spec_pairs_find(ps, a, b, i)
            < ps.len()),
    decreases ps.len() - i,
{
    if i < ps.len() && !(ps[i as int].0 == a && ps[i as int].1 == b) {
        lemma_pairs_find_one(ps, a, b, i + 1);
    }
}

/// The first writer symbol the reader does not know, if any.
pub open spec fn spec_first_missing_symbol(
    ws: Seq<Seq<u8>>,
    rs: Seq<Seq<u8>>,
    i: nat,
) -> Option<Seq<u8>>
    decreases ws.len() - i,
{
    if i >= ws.len() {
        None
    } else if !rs.contains(ws[i as int]) {
        Some(ws[i as int])
    } else {
        spec_first_missing_symbol(ws, rs, i + 1)
    }
}

/// Can data written with `w` be read through `r`? `wreg` resolves the
/// writer's references, `rreg` the reader's; `rem` holds the fullname
/// pairs not yet entered on this descent.
pub open spec fn spec_can_read(
    wreg: Seq<(Seq<u8>, SpecSchema)>,
    rreg: Seq<(Seq<u8>, SpecSchema)>,
    w: SpecSchema,
    r: SpecSchema,
    rem: Seq<(Seq<u8>, Seq<u8>)>,
) -> Result<(), SpecIncompat>
    decreases rem.len(), r, w, 0int, 0int,
    via spec_can_read_dec
{
    match w {
        SpecSchema::Union { branches: wbs } => spec_all_wbranches(
            wreg,
            rreg,
            wbs,
            r,
            rem,
            0,
        ),
        _ => match r {
            SpecSchema::Union { branches: rbs } => spec_any_rbranch(
                wreg,
                rreg,
                w,
                rbs,
                rem,
                0,
            ),
            _ => {
                let ww = resolve_in(wreg, w);
                let rr = resolve_in(rreg, r);
                match (spec_name_of(rr), spec_name_of(ww)) {
                    (Some(rn), Some(wn)) => {
                        let pi = spec_pairs_find(rem, rn, wn, 0);
                        if pi < 0 {
                            Ok(())
                        } else {
                            let rem2 = rem.remove(pi);
                            match (rr, ww) {
                                (
                                    SpecSchema::Record { fields: rf, .. },
                                    SpecSchema::Record { fields: wf, .. },
                                ) => spec_check_fields(wreg, rreg, wf, rf, rem2, 0),
                                (
                                    SpecSchema::Enum { symbols: rsy, default: rd, .. },
                                    SpecSchema::Enum { symbols: wsy, .. },
                                ) => match spec_first_missing_symbol(wsy, rsy, 0) {
                                    None => Ok(()),
                                    Some(sym) => if rd is Some {
                                        Ok(())
                                    } else {
                                        Err(
                                            SpecIncompat {
                                                path: Seq::empty(),
                                                reason: SpecReason::UnknownEnumSymbol(sym),
                                            },
                                        )
                                    },
                                },
                                (
                                    SpecSchema::Fixed { fullname: rfn, size: rsz },
                                    SpecSchema::Fixed { fullname: wfn, size: wsz },
                                ) => if rfn == wfn && rsz == wsz {
                                    Ok(())
                                } else {
                                    Err(
                                        SpecIncompat {
                                            path: Seq::empty(),
                                            reason: SpecReason::TypeMismatch,
                                        },
                                    )
                                },
                                _ => Err(
                                    SpecIncompat {
                                        path: Seq::empty(),
                                        reason: SpecReason::TypeMismatch,
                                    },
                                ),
                            }
                        }
                    },
                    _ => match (rr, ww) {
                        (
                            SpecSchema::Array { item: ri },
                            SpecSchema::Array { item: wi },
                        ) => spec_can_read(wreg, rreg, *wi, *ri, rem),
                        (
                            SpecSchema::MapOf { value: rv },
                            SpecSchema::MapOf { value: wv },
                        ) => spec_can_read(wreg, rreg, *wv, *rv, rem),
                        _ => if is_primitive(rr) && is_primitive(ww) && prim_readable(
                            ww,
                            rr,
                        ) {
                            Ok(())
                        } else {
                            Err(
                                SpecIncompat {
                                    path: Seq::empty(),
                                    reason: SpecReason::TypeMismatch,
                                },
                            )
                        },
                    },
                }
            },
        },
    }
}

/// Every writer branch must be readable through the reader.
pub open spec fn spec_all_wbranches(
    wreg: Seq<(Seq<u8>, SpecSchema)>,
    rreg: Seq<(Seq<u8>, SpecSchema)>,
    wbs: Seq<SpecSchema>,
    r: SpecSchema,
    rem: Seq<(Seq<u8>, Seq<u8>)>,
    i: nat,
) -> Result<(), SpecIncompat>
    decreases rem.len(), r, wbs, wbs.len() - i, 1int,
{
    if i >= wbs.len() {
        Ok(())
    } else {
        match spec_can_read(wreg, rreg, wbs[i as int], r, rem) {
            Ok(()) => spec_all_wbranches(wreg, rreg, wbs, r, rem, i + 1),
            Err(e) => Err(e),
        }
    }
}

/// The writer must be readable through at least one reader branch;
/// the first structural match wins.
pub open spec fn spec_any_rbranch(
    wreg: Seq<(Seq<u8>, SpecSchema)>,
    rreg: Seq<(Seq<u8>, SpecSchema)>,
    w: SpecSchema,
    rbs: Seq<SpecSchema>,
    rem: Seq<(Seq<u8>, Seq<u8>)>,
    i: nat,
) -> Result<(), SpecIncompat>
    decreases rem.len(), rbs, w, rbs.len() - i, 1int,
{
    if i >= rbs.len() {
        Err(SpecIncompat { path: Seq::empty(), reason: SpecReason::TypeMismatch })
    } else {
        match spec_can_read(wreg, rreg, w, rbs[i as int], rem) {
            Ok(()) => Ok(()),
            Err(_) => spec_any_rbranch(wreg, rreg, w, rbs, rem, i + 1),
        }
    }
}

/// Every reader field must be written, or carry a default; matched
/// fields must be recursively readable.
pub open spec fn spec_check_fields(
    wreg: Seq<(Seq<u8>, SpecSchema)>,
    rreg: Seq<(Seq<u8>, SpecSchema)>,
    wf: Seq<SpecField>,
    rf: Seq<SpecField>,
    rem: Seq<(Seq<u8>, Seq<u8>)>,
    i: nat,
) -> Result<(), SpecIncompat>
    decreases rem.len(), rf, wf, rf.len() - i, 1int,
    via spec_check_fields_dec
{
    if i >= rf.len() {
        Ok(())
    } else {
        let fld = rf[i as int];
        let wi = spec_field_find(wf, fld.name, 0);
        if wi < 0 {
            if fld.default is Some {
                spec_check_fields(wreg, rreg, wf, rf, rem, i + 1)
            } else {
                Err(
                    SpecIncompat {
                        path: seq![fld.name],
                        reason: SpecReason::MissingField(fld.name),
                    },
                )
            }
        } else {
            match spec_can_read(wreg, rreg, wf[wi].ty, fld.ty, rem) {
                Ok(()) => spec_check_fields(wreg, rreg, wf, rf, rem, i + 1),
                Err(e) => Err(SpecIncompat { path: seq![fld.name] + e.path, reason: e.reason }),
            }
        }
    }
}

#[via_fn]
proof fn spec_can_read_dec(
    wreg: Seq<(Seq<u8>, SpecSchema)>,
    rreg: Seq<(Seq<u8>, SpecSchema)>,
    w: SpecSchema,
    r: SpecSchema,
    rem: Seq<(Seq<u8>, Seq<u8>)>,
) {
    lemma_pairs_find(rem);
    crate::registry::lemma_reg_find(wreg, match w {
        SpecSchema::Reference { fullname } => fullname,
        _ => Seq::empty(),
    });
    crate::registry::lemma_reg_find(rreg, match r {
        SpecSchema::Reference { fullname } => fullname,
        _ => Seq::empty(),
    });
}

#[via_fn]
proof fn spec_check_fields_dec(
    wreg: Seq<(Seq<u8>, SpecSchema)>,
    rreg: Seq<(Seq<u8>, SpecSchema)>,
    wf: Seq<SpecField>,
    rf: Seq<SpecField>,
    rem: Seq<(Seq<u8>, Seq<u8>)>,
    i: nat,
) {
    if i < rf.len() {
        lemma_field_find(wf, rf[i as int].name);
    }
}

/// View of a list of fullname pairs.
pub open spec fn dv_pairs(xs: Seq<(Vec<u8>, Vec<u8>)>) -> Seq<(Seq<u8>, Seq<u8>)>
    decreases xs,
{
    if xs.len() == 0 {
        Seq::empty()
    } else {
        seq![(xs[0].0@, xs[0].1@)] + dv_pairs(xs.drop_first())
    }
}

/// The pair views index as expected.
pub proof fn lemma_dv_pairs(xs: Seq<(Vec<u8>, Vec<u8>)>)
    ensures
        dv_pairs(xs).len() == xs.len(),
        forall|i: int| 0 <= i < xs.len() ==> dv_pairs(xs)[i] == (xs[i].0@, xs[i].1@),
    decreases xs.len(),
{
    if xs.len() > 0 {
        lemma_dv_pairs(xs.drop_first());
    }
}

/// Executable twin of [`spec_pairs_find`].
pub fn pairs_find(ps: &Vec<(Vec<u8>, Vec<u8>)>, a: &[u8], b: &[u8], i: usize) -> (r:
    Option<usize>)
    requires
        i <= ps.len(),
    ensures
        match r {
            Some(k) => spec_pairs_find(dv_pairs(ps@), a@, b@, i as nat) == k as int && i
                <= k < ps.len(),
            None => spec_pairs_find(dv_pairs(ps@), a@, b@, i as nat) == -1,
        },
    decreases ps.len() - i,
{
    proof {
        lemma_dv_pairs(ps@);
    }
    if i >= ps.len() {
        return None;
    }
    if crate::text::bytes_eq(ps[i].0.as_slice(), a) && crate::text::bytes_eq(
        ps[i].1.as_slice(),
        b,
    ) {
        return Some(i);
    }
    pairs_find(ps, a, b, i + 1)
}

/// A copy of the pair list without the entry at `idx`.
pub fn pairs_remove(ps: &Vec<(Vec<u8>, Vec<u8>)>, idx: usize) -> (r: Vec<
    (Vec<u8>, Vec<u8>),
>)
    requires
        idx < ps.len(),
    ensures
        dv_pairs(r@) == dv_pairs(ps@).remove(idx as int),
        r.len() == ps.len() - 1,
{
    let mut r: Vec<(Vec<u8>, Vec<u8>)> = Vec::new();
    let mut i: usize = 0;
    while i < ps.len()
        invariant
            0 <= i <= ps.len(),
            idx < ps.len(),
            r@.len() == if i <= idx {
                i as int
            } else {
                i - 1
            },
            forall|k: int|
                0 <= k < r@.len() ==> r@[k].0@ == (if k < idx {
                    ps@[k].0@
                } else {
                    ps@[k + 1].0@
                }) && r@[k].1@ == (if k < idx {
                    ps@[k].1@
                } else {
                    ps@[k + 1].1@
                }),
        decreases ps.len() - i,
    {
        if i != idx {
            let pair = (
                crate::text::bytes_copy(ps[i].0.as_slice()),
                crate::text::bytes_copy(ps[i].1.as_slice()),
            );
            r.push(pair);
        }
        i += 1;
    }
    proof {
        lemma_dv_pairs(r@);
        lemma_dv_pairs(ps@);
        assert(dv_pairs(r@) =~= dv_pairs(ps@).remove(idx as int));
    }
    r
}

/// Executable twin of [`spec_field_find`].
pub fn field_find(fs: &Vec<crate::schema::Field>, name: &[u8], i: usize) -> (r: Option<
    usize,
>)
    requires
        i <= fs.len(),
    ensures
        match r {
            Some(k) => spec_field_find(crate::schema::dv_fields(fs@), name@, i as nat)
                == k as int && i <= k < fs.len(),
            None => spec_field_find(crate::schema::dv_fields(fs@), name@, i as nat)
                == -1,
        },
    decreases fs.len() - i,
{
    if i >= fs.len() {
        return None;
    }
    if crate::text::bytes_eq(fs[i].name.as_slice(), name) {
        return Some(i);
    }
    field_find(fs, name, i + 1)
}

/// Executable twin of [`spec_first_missing_symbol`].
pub fn first_missing_symbol(ws: &Vec<Vec<u8>>, rs: &Vec<Vec<u8>>, i: usize) -> (r: Option<
    Vec<u8>,
>)
    requires
        i <= ws.len(),
    ensures
        match r {
            Some(n) => spec_first_missing_symbol(
                crate::schema::dv_names(ws@),
                crate::schema::dv_names(rs@),
                i as nat,
            ) == Some(n@),
            None => spec_first_missing_symbol(
                crate::schema::dv_names(ws@),
                crate::schema::dv_names(rs@),
                i as nat,
            ) is None,
        },
    decreases ws.len() - i,
{
    if i >= ws.len() {
        return None;
    }
    if !crate::schema_parse::names_contains(rs, ws[i].as_slice()) {
        Some(crate::text::bytes_copy(ws[i].as_slice()))
    } else {
        first_missing_symbol(ws, rs, i + 1)
    }
}

/// The fullname of a named schema, if it has one.
pub fn name_of_schema<'a>(s: &'a Schema) -> (r: Option<&'a Vec<u8>>)
    ensures
        match r {
            Some(n) => spec_name_of(s.dv()) == Some(n@),
            None => spec_name_of(s.dv()) is None,
        },
{
    match s {
        Schema::Record { fullname, .. } => Some(fullname),
        Schema::Enum { fullname, .. } => Some(fullname),
        Schema::Fixed { fullname, .. } => Some(fullname),
        _ => None,
    }
}

/// Executable twin of [`is_primitive`].
pub fn is_primitive_kind(s: &Schema) -> (r: bool)
    ensures
        r == is_primitive(s.dv()),
{
    match s {
        Schema::Null => true,
        Schema::Boolean => true,
        Schema::Int => true,
        Schema::Long => true,
        Schema::Float => true,
        Schema::Double => true,
        Schema::Bytes => true,
        Schema::Str => true,
        _ => false,
    }
}

/// Executable twin of [`prim_readable`].
pub fn prim_readable_kind(w: &Schema, r: &Schema) -> (res: bool)
    ensures
        res == prim_readable(w.dv(), r.dv()),
{
    match (w, r) {
        (Schema::Null, Schema::Null) => true,
        (Schema::Boolean, Schema::Boolean) => true,
        (Schema::Int, Schema::Int) => true,
        (Schema::Int, Schema::Long) => true,
        (Schema::Int, Schema::Float) => true,
        (Schema::Int, Schema::Double) => true,
        (Schema::Long, Schema::Long) => true,
        (Schema::Long, Schema::Float) => true,
        (Schema::Long, Schema::Double) => true,
        (Schema::Float, Schema::Float) => true,
        (Schema::Float, Schema::Double) => true,
        (Schema::Double, Schema::Double) => true,
        (Schema::Bytes, Schema::Bytes) => true,
        (Schema::Bytes, Schema::Str) => true,
        (Schema::Str, Schema::Str) => true,
        (Schema::Str, Schema::Bytes) => true,
        _ => false,
    }
}

/// A kind-mismatch verdict.
fn mismatch() -> (r: Incompat)
    ensures
        r.dv() == (SpecIncompat { path: Seq::<Seq<u8>>::empty(), reason: SpecReason::TypeMismatch }),
{
    let r = Incompat { path: Vec::new(), reason: CompatReason::TypeMismatch };
    proof {
        assert(crate::schema::dv_names(r.path@) =~= Seq::<Seq<u8>>::empty());
    }
    r
}

/// Executable twin of [`spec_can_read`].
pub fn can_read_in(
    wreg: &Registry,
    rreg: &Registry,
    w: &Schema,
    r: &Schema,
    rem: &Vec<(Vec<u8>, Vec<u8>)>,
) -> (res: Result<(), Incompat>)
    ensures
        dv_verdict(res) == spec_can_read(wreg.dv(), rreg.dv(), w.dv(), r.dv(), dv_pairs(
            rem@,
        )),
    decreases rem.len(), *r, *w, 0int, 0int,
{
    proof {
        lemma_dv_pairs(rem@);
    }
    match w {
        Schema::Union { branches } => {
            proof {
                assert(w.dv() == SpecSchema::Union {
                    branches: crate::schema::dv_schemas(branches@),
                });
            }
            return all_wbranches(wreg, rreg, branches, r, rem, 0);
        },
        _ => {},
    }
    match r {
        Schema::Union { branches } => {
            proof {
                assert(r.dv() == SpecSchema::Union {
                    branches: crate::schema::dv_schemas(branches@),
                });
            }
            return any_rbranch(wreg, rreg, w, branches, rem, 0);
        },
        _ => {},
    }
    let ww = crate::registry::resolve_schema(wreg, w);
    let rr = crate::registry::resolve_schema(rreg, r);
    let rn_opt = name_of_schema(rr);
    let wn_opt = name_of_schema(ww);
    match (rn_opt, wn_opt) {
        (Some(rn), Some(wn)) => {
            match pairs_find(rem, rn.as_slice(), wn.as_slice(), 0) {
                None => Ok(()),
                Some(pi) => {
                    let rem2 = pairs_remove(rem, pi);
                    match (rr, ww) {
                        (
                            Schema::Record { fullname: rfn, fields: rf },
                            Schema::Record { fullname: wfn, fields: wf },
                        ) => {
                            proof {
                                assert(rr.dv() == SpecSchema::Record {
                                    fullname: rfn@,
                                    fields: crate::schema::dv_fields(rf@),
                                });
                                assert(ww.dv() == SpecSchema::Record {
                                    fullname: wfn@,
                                    fields: crate::schema::dv_fields(wf@),
                                });
                            }
                            check_fields(wreg, rreg, wf, rf, &rem2, 0)
                        },
                        (
                            Schema::Enum { fullname: rfn, symbols: rsy, default: rd },
                            Schema::Enum { fullname: wfn, symbols: wsy, default: wd },
                        ) => {
                            proof {
                                assert(rr.dv() == SpecSchema::Enum {
                                    fullname: rfn@,
                                    symbols: crate::schema::dv_names(rsy@),
                                    default: crate::schema::dv_opt_bytes(*rd),
                                });
                                assert(ww.dv() == SpecSchema::Enum {
                                    fullname: wfn@,
                                    symbols: crate::schema::dv_names(wsy@),
                                    default: crate::schema::dv_opt_bytes(*wd),
                                });
                            }
                            match first_missing_symbol(wsy, rsy, 0) {
                                None => Ok(()),
                                Some(sym) => match rd {
                                    Some(_) => Ok(()),
                                    None => Err(
                                        Incompat {
                                            path: Vec::new(),
                                            reason: CompatReason::UnknownEnumSymbol(sym),
                                        },
                                    ),
                                },
                            }
                        },
                        (
                            Schema::Fixed { fullname: rfn, size: rsz },
                            Schema::Fixed { fullname: wfn, size: wsz },
                        ) => {
                            if crate::text::bytes_eq(rfn.as_slice(), wfn.as_slice())
                                && *rsz == *wsz {
                                Ok(())
                            } else {
                                Err(mismatch())
                            }
                        },
                        _ => Err(mismatch()),
                    }
                },
            }
        },
        _ => {
            match (rr, ww) {
                (Schema::Array { item: ri }, Schema::Array { item: wi }) => {
                    proof {
                        assert(rr.dv() == SpecSchema::Array { item: Box::new(ri.dv()) });
                        assert(ww.dv() == SpecSchema::Array { item: Box::new(wi.dv()) });
                        assert(rr == r);
                        assert(ww == w);
                    }
                    can_read_in(wreg, rreg, wi, ri, rem)
                },
                (Schema::MapOf { value: rv }, Schema::MapOf { value: wv }) => {
                    proof {
                        assert(rr.dv() == SpecSchema::MapOf { value: Box::new(rv.dv()) });
                        assert(ww.dv() == SpecSchema::MapOf { value: Box::new(wv.dv()) });
                        assert(rr == r);
                        assert(ww == w);
                    }
                    can_read_in(wreg, rreg, wv, rv, rem)
                },
                _ => {
                    if is_primitive_kind(rr) && is_primitive_kind(ww) && prim_readable_kind(
                        ww,
                        rr,
                    ) {
                        Ok(())
                    } else {
                        Err(mismatch())
                    }
                },
            }
        },
    }
}

/// Executable twin of [`spec_all_wbranches`].
pub fn all_wbranches(
    wreg: &Registry,
    rreg: &Registry,
    wbs: &Vec<Schema>,
    r: &Schema,
    rem: &Vec<(Vec<u8>, Vec<u8>)>,
    i: usize,
) -> (res: Result<(), Incompat>)
    requires
        i <= wbs.len(),
    ensures
        dv_verdict(res) == spec_all_wbranches(
            wreg.dv(),
            rreg.dv(),
            crate::schema::dv_schemas(wbs@),
            r.dv(),
            dv_pairs(rem@),
            i as nat,
        ),
    decreases rem.len(), *r, *wbs, wbs.len() - i, 1int,
{
    if i >= wbs.len() {
        return Ok(());
    }
    match can_read_in(wreg, rreg, &wbs[i], r, rem) {
        Ok(()) => all_wbranches(wreg, rreg, wbs, r, rem, i + 1),
        Err(e) => Err(e),
    }
}

/// Executable twin of [`spec_any_rbranch`].
pub fn any_rbranch(
    wreg: &Registry,
    rreg: &Registry,
    w: &Schema,
    rbs: &Vec<Schema>,
    rem: &Vec<(Vec<u8>, Vec<u8>)>,
    i: usize,
) -> (res: Result<(), Incompat>)
    requires
        i <= rbs.len(),
    ensures
        dv_verdict(res) == spec_any_rbranch(
            wreg.dv(),
            rreg.dv(),
            w.dv(),
            crate::schema::dv_schemas(rbs@),
            dv_pairs(rem@),
            i as nat,
        ),
    decreases rem.len(), *rbs, *w, rbs.len() - i, 1int,
{
    if i >= rbs.len() {
        return Err(mismatch());
    }
    match can_read_in(wreg, rreg, w, &rbs[i], rem) {
        Ok(()) => Ok(()),
        Err(_) => any_rbranch(wreg, rreg, w, rbs, rem, i + 1),
    }
}

/// Executable twin of [`spec_check_fields`].
pub fn check_fields(
    wreg: &Registry,
    rreg: &Registry,
    wf: &Vec<crate::schema::Field>,
    rf: &Vec<crate::schema::Field>,
    rem: &Vec<(Vec<u8>, Vec<u8>)>,
    i: usize,
) -> (res: Result<(), Incompat>)
    requires
        i <= rf.len(),
    ensures
        dv_verdict(res) == spec_check_fields(
            wreg.dv(),
            rreg.dv(),
            crate::schema::dv_fields(wf@),
            crate::schema::dv_fields(rf@),
            dv_pairs(rem@),
            i as nat,
        ),
    decreases rem.len(), *rf, *wf, rf.len() - i, 1int,
{
    if i >= rf.len() {
        return Ok(());
    }
    let fld = &rf[i];
    match field_find(wf, fld.name.as_slice(), 0) {
        None => {
            match &fld.default {
                Some(_) => check_fields(wreg, rreg, wf, rf, rem, i + 1),
                None => {
                    let mut path: Vec<Vec<u8>> = Vec::new();
                    path.push(crate::text::bytes_copy(fld.name.as_slice()));
                    proof {
                        assert(crate::schema::dv_names(path@.drop_first()) =~= Seq::<
                            Seq<u8>,
                        >::empty());
                        assert(crate::schema::dv_names(path@) =~= seq![fld.name@]);
                    }
                    Err(
                        Incompat {
                            path,
                            reason: CompatReason::MissingField(
                                crate::text::bytes_copy(fld.name.as_slice()),
                            ),
                        },
                    )
                },
            }
        },
        Some(wi) => {
            match can_read_in(wreg, rreg, &wf[wi].ty, &fld.ty, rem) {
                Ok(()) => check_fields(wreg, rreg, wf, rf, rem, i + 1),
                Err(e) => {
                    let Incompat { path, reason } = e;
                    let ghost path_view = path@;
                    let mut path = path;
                    path.insert(0, crate::text::bytes_copy(fld.name.as_slice()));
                    proof {
                        assert(path@.drop_first() =~= path_view);
                        assert(crate::schema::dv_names(path@) =~= seq![fld.name@]
                            + crate::schema::dv_names(path_view));
                    }
                    Err(Incompat { path, reason })
                },
            }
        },
    }
}
/// Concatenation distributes over the pair view.
pub proof fn lemma_dv_pairs_concat(a: Seq<(Vec<u8>, Vec<u8>)>, b: Seq<(Vec<u8>, Vec<u8>)>)
    ensures
        dv_pairs(a + b) == dv_pairs(a) + dv_pairs(b),
{
    lemma_dv_pairs(a + b);
    lemma_dv_pairs(a);
    lemma_dv_pairs(b);
    assert(dv_pairs(a + b) =~= dv_pairs(a) + dv_pairs(b));
}

/// The pairs of one reader name with every writer name from `j` on.
pub open spec fn spec_pairs_inner(
    rn: Seq<u8>,
    wreg: Seq<(Seq<u8>, SpecSchema)>,
    j: nat,
) -> Seq<(Seq<u8>, Seq<u8>)>
    decreases wreg.len() - j,
{
    if j >= wreg.len() {
        Seq::empty()
    } else {
        seq![(rn, wreg[j as int].0)] + spec_pairs_inner(rn, wreg, j + 1)
    }
}

/// The pairs of every reader name from `i` on with every writer name.
pub open spec fn spec_pairs_outer(
    rreg: Seq<(Seq<u8>, SpecSchema)>,
    wreg: Seq<(Seq<u8>, SpecSchema)>,
    i: nat,
) -> Seq<(Seq<u8>, Seq<u8>)>
    decreases rreg.len() - i,
{
    if i >= rreg.len() {
        Seq::empty()
    } else {
        spec_pairs_inner(rreg[i as int].0, wreg, 0) + spec_pairs_outer(rreg, wreg, i + 1)
    }
}

/// Every pair of a reader-registry name and a writer-registry name.
pub open spec fn spec_all_pairs(
    rreg: Seq<(Seq<u8>, SpecSchema)>,
    wreg: Seq<(Seq<u8>, SpecSchema)>,
) -> Seq<(Seq<u8>, Seq<u8>)> {
    spec_pairs_outer(rreg, wreg, 0)
}

/// Executable twin of [`spec_pairs_inner`].
fn pairs_inner(rn: &[u8], wreg: &Registry, j: usize) -> (r: Vec<(Vec<u8>, Vec<u8>)>)
    requires
        j <= wreg.entries.len(),
    ensures
        dv_pairs(r@) == spec_pairs_inner(rn@, wreg.dv(), j as nat),
    decreases wreg.entries.len() - j,
{
    proof {
        crate::registry::lemma_dv_entries(wreg.entries@);
    }
    if j >= wreg.entries.len() {
        let empty: Vec<(Vec<u8>, Vec<u8>)> = Vec::new();
        proof {
            assert(dv_pairs(empty@) =~= Seq::<(Seq<u8>, Seq<u8>)>::empty());
        }
        return empty;
    }
    let rest = pairs_inner(rn, wreg, j + 1);
    let ghost rest_view = rest@;
    let mut ps = rest;
    ps.insert(
        0,
        (
            crate::text::bytes_copy(rn),
            crate::text::bytes_copy(wreg.entries[j].0.as_slice()),
        ),
    );
    proof {
        assert(ps@.drop_first() =~= rest_view);
        assert(dv_pairs(ps@) =~= seq![(ps@[0].0@, ps@[0].1@)] + dv_pairs(rest_view));
    }
    ps
}

/// Executable twin of [`spec_pairs_outer`].
fn pairs_outer(rreg: &Registry, wreg: &Registry, i: usize) -> (r: Vec<(Vec<u8>, Vec<u8>)>)
    requires
        i <= rreg.entries.len(),
    ensures
        dv_pairs(r@) == spec_pairs_outer(rreg.dv(), wreg.dv(), i as nat),
    decreases rreg.entries.len() - i,
{
    proof {
        crate::registry::lemma_dv_entries(rreg.entries@);
    }
    if i >= rreg.entries.len() {
        let empty: Vec<(Vec<u8>, Vec<u8>)> = Vec::new();
        proof {
            assert(dv_pairs(empty@) =~= Seq::<(Seq<u8>, Seq<u8>)>::empty());
        }
        return empty;
    }
    let mut head = pairs_inner(rreg.entries[i].0.as_slice(), wreg, 0);
    let ghost head_view = head@;
    let mut rest = pairs_outer(rreg, wreg, i + 1);
    let ghost rest_view = rest@;
    head.append(&mut rest);
    proof {
        lemma_dv_pairs_concat(head_view, rest_view);
    }
    head
}

/// Executable twin of [`spec_all_pairs`].
pub fn all_pairs(rreg: &Registry, wreg: &Registry) -> (r: Vec<(Vec<u8>, Vec<u8>)>)
    ensures
        dv_pairs(r@) == spec_all_pairs(rreg.dv(), wreg.dv()),
{
    pairs_outer(rreg, wreg, 0)
}

/// View of a list of incompatibilities.
pub open spec fn dv_issues(xs: Seq<Incompat>) -> Seq<SpecIncompat>
    decreases xs,
{
    if xs.len() == 0 {
        Seq::empty()
    } else {
        seq![xs[0].dv()] + dv_issues(xs.drop_first())
    }
}

/// The issue views index as expected.
pub proof fn lemma_dv_issues(xs: Seq<Incompat>)
    ensures
        dv_issues(xs).len() == xs.len(),
        forall|i: int| 0 <= i < xs.len() ==> dv_issues(xs)[i] == xs[i].dv(),
    decreases xs.len(),
{
    if xs.len() > 0 {
        lemma_dv_issues(xs.drop_first());
    }
}

/// The verdicts for every name of the old set, in old-set order: a name
/// absent from the new set is removed and breaking; a present one must
/// be readable, in one direction or both. The old set resolves the
/// writer side in the forward direction and the reader side in the
/// reverse one.
pub open spec fn spec_compare_all(
    oreg: Seq<(Seq<u8>, SpecSchema)>,
    nreg: Seq<(Seq<u8>, SpecSchema)>,
    mutual: bool,
    i: nat,
) -> Seq<SpecIncompat>
    decreases oreg.len() - i,
{
    if i >= oreg.len() {
        Seq::empty()
    } else {
        let name = oreg[i as int].0;
        let os = oreg[i as int].1;
        let ni = crate::registry::spec_reg_find(nreg, name, 0);
        let here: Seq<SpecIncompat> = if ni < 0 {
            seq![
                SpecIncompat {
                    path: seq![name],
                    reason: SpecReason::SchemaRemoved(name),
                },
            ]
        } else {
            let ns = nreg[ni].1;
            match spec_can_read(oreg, nreg, os, ns, spec_all_pairs(nreg, oreg)) {
                Err(e) => seq![
                    SpecIncompat { path: seq![name] + e.path, reason: e.reason },
                ],
                Ok(()) => if mutual {
                    match spec_can_read(nreg, oreg, ns, os, spec_all_pairs(oreg, nreg)) {
                        Err(e) => seq![
                            SpecIncompat { path: seq![name] + e.path, reason: e.reason },
                        ],
                        Ok(()) => Seq::empty(),
                    }
                } else {
                    Seq::empty()
                },
            }
        };
        here + spec_compare_all(oreg, nreg, mutual, i + 1)
    }
}

/// Prefix an issue's path with the named type it belongs to.
fn issue_under(name: &[u8], e: Incompat) -> (r: Incompat)
    ensures
        r.dv() == (SpecIncompat {
            path: seq![name@] + e.dv().path,
            reason: e.dv().reason,
        }),
{
    let Incompat { path, reason } = e;
    let ghost path_view = path@;
    let mut path = path;
    path.insert(0, crate::text::bytes_copy(name));
    proof {
        assert(path@.drop_first() =~= path_view);
        assert(crate::schema::dv_names(path@) =~= seq![name@] + crate::schema::dv_names(
            path_view,
        ));
    }
    Incompat { path, reason }
}

/// Executable twin of [`spec_compare_all`].
pub fn compare_all(oreg: &Registry, nreg: &Registry, mutual: bool, i: usize) -> (r: Vec<
    Incompat,
>)
    requires
        i <= oreg.entries.len(),
    ensures
        dv_issues(r@) == spec_compare_all(oreg.dv(), nreg.dv(), mutual, i as nat),
    decreases oreg.entries.len() - i,
{
    proof {
        crate::registry::lemma_dv_entries(oreg.entries@);
        crate::registry::lemma_dv_entries(nreg.entries@);
    }
    if i >= oreg.entries.len() {
        let empty: Vec<Incompat> = Vec::new();
        proof {
            assert(dv_issues(empty@) =~= Seq::<SpecIncompat>::empty());
        }
        return empty;
    }
    let name = oreg.entries[i].0.as_slice();
    let os = &oreg.entries[i].1;
    let here: Option<Incompat> = match crate::registry::reg_find(&nreg.entries, name, 0) {
        None => {
            let mut path: Vec<Vec<u8>> = Vec::new();
            path.push(crate::text::bytes_copy(name));
            proof {
                assert(crate::schema::dv_names(path@.drop_first()) =~= Seq::<
                    Seq<u8>,
                >::empty());
                assert(crate::schema::dv_names(path@) =~= seq![name@]);
            }
            Some(
                Incompat {
                    path,
                    reason: CompatReason::SchemaRemoved(crate::text::bytes_copy(name)),
                },
            )
        },
        Some(ni) => {
            let ns = &nreg.entries[ni].1;
            let fwd_pairs = all_pairs(nreg, oreg);
            match can_read_in(oreg, nreg, os, ns, &fwd_pairs) {
                Err(e) => Some(issue_under(name, e)),
                Ok(()) => {
                    if mutual {
                        let bwd_pairs = all_pairs(oreg, nreg);
                        match can_read_in(nreg, oreg, ns, os, &bwd_pairs) {
                            Err(e) => Some(issue_under(name, e)),
                            Ok(()) => None,
                        }
                    } else {
                        None
                    }
                },
            }
        },
    };
    let rest = compare_all(oreg, nreg, mutual, i + 1);
    match here {
        None => {
            proof {
                assert(dv_issues(rest@) =~= Seq::<SpecIncompat>::empty()
                    + spec_compare_all(oreg.dv(), nreg.dv(), mutual, (i + 1) as nat));
            }
            rest
        },
        Some(e) => {
            let ghost rest_view = rest@;
            let mut out = rest;
            out.insert(0, e);
            proof {
                assert(out@.drop_first() =~= rest_view);
                assert(dv_issues(out@) =~= seq![out@[0].dv()] + dv_issues(rest_view));
                assert(dv_issues(out@) =~= spec_compare_all(
                    oreg.dv(),
                    nreg.dv(),
                    mutual,
                    i as nat,
                ));
            }
            out
        },
    }
}
} // verus!
