//! Laws of the library, proved from the stated model.
//!
//! Each law is a proof function over the spec functions that the
//! executable contracts are pinned to, so it holds of the executable
//! code as well.

use vstd::prelude::*;

use crate::compat::spec_can_read;
use crate::compat::spec_check_fields;
use crate::compat::spec_compare_all;
use crate::compat::spec_field_find;
use crate::compat::SpecIncompat;
use crate::compat::SpecReason;
use crate::registry::spec_reg_find;
use crate::schema::ParseError;
use crate::schema::Schema;
use crate::schema::SpecField;
use crate::schema::SpecSchema;

verus! {

/// Parsing is deterministic: two parses of one document, each meeting
/// the parser's contract, are structurally equal trees, on success and
/// on failure alike.
pub proof fn lemma_parse_idempotent(
    doc: Seq<u8>,
    r1: Result<Schema, ParseError>,
    r2: Result<Schema, ParseError>,
)
    requires
        (match r1 {
            Ok(s) => crate::registry::spec_parse(doc) == Ok::<
                SpecSchema,
                crate::schema::SpecParseError,
            >(s.dv()),
            Err(e) => crate::registry::spec_parse(doc) == Err::<
                SpecSchema,
                crate::schema::SpecParseError,
            >(e.dv()),
        }),
        (match r2 {
            Ok(s) => crate::registry::spec_parse(doc) == Ok::<
                SpecSchema,
                crate::schema::SpecParseError,
            >(s.dv()),
            Err(e) => crate::registry::spec_parse(doc) == Err::<
                SpecSchema,
                crate::schema::SpecParseError,
            >(e.dv()),
        }),
    ensures
        (match (r1, r2) {
            (Ok(a), Ok(b)) => a.dv() == b.dv(),
            (Err(a), Err(b)) => a.dv() == b.dv(),
            _ => false,
        }),
{
}

/// Promoting `int` to `long` is readable in the writer-to-reader
/// direction, whatever the registries and the open pairs; narrowing
/// `long` to `int` never is.
pub proof fn lemma_int_long_promotion(
    wreg: Seq<(Seq<u8>, SpecSchema)>,
    rreg: Seq<(Seq<u8>, SpecSchema)>,
    rem: Seq<(Seq<u8>, Seq<u8>)>,
)
    ensures
        spec_can_read(wreg, rreg, SpecSchema::Int, SpecSchema::Long, rem) is Ok,
        spec_can_read(wreg, rreg, SpecSchema::Long, SpecSchema::Int, rem) is Err,
{
}

/// A reader field with no writer counterpart and no default stops the
/// field check at once, as a missing field at that field's name.
pub proof fn lemma_missing_field(
    wreg: Seq<(Seq<u8>, SpecSchema)>,
    rreg: Seq<(Seq<u8>, SpecSchema)>,
    wf: Seq<SpecField>,
    rf: Seq<SpecField>,
    rem: Seq<(Seq<u8>, Seq<u8>)>,
    i: nat,
)
    requires
        i < rf.len(),
        spec_field_find(wf, rf[i as int].name, 0) == -1,
        rf[i as int].default is None,
    ensures
        spec_check_fields(wreg, rreg, wf, rf, rem, i) == Err::<(), SpecIncompat>(
            SpecIncompat {
                path: seq![rf[i as int].name],
                reason: SpecReason::MissingField(rf[i as int].name),
            },
        ),
{
}

/// A reader field with no writer counterpart but with a default is
/// skipped: the field walk simply continues at the next field.
pub proof fn lemma_default_covers_missing_field(
    wreg: Seq<(Seq<u8>, SpecSchema)>,
    rreg: Seq<(Seq<u8>, SpecSchema)>,
    wf: Seq<SpecField>,
    rf: Seq<SpecField>,
    rem: Seq<(Seq<u8>, Seq<u8>)>,
    i: nat,
)
    requires
        i < rf.len(),
        spec_field_find(wf, rf[i as int].name, 0) == -1,
        rf[i as int].default is Some,
    ensures
        spec_check_fields(wreg, rreg, wf, rf, rem, i) == spec_check_fields(
            wreg,
            rreg,
            wf,
            rf,
            rem,
            i + 1,
        ),
{
}

/// Appending a defaulted field, whose name no writer field has, to the
/// reader's fields keeps a passing field check passing: adding a
/// defaulted record field is compatible in the old-writes, new-reads
/// direction.
pub proof fn lemma_added_default_field_reader(
    wreg: Seq<(Seq<u8>, SpecSchema)>,
    rreg: Seq<(Seq<u8>, SpecSchema)>,
    wf: Seq<SpecField>,
    rf: Seq<SpecField>,
    extra: SpecField,
    rem: Seq<(Seq<u8>, Seq<u8>)>,
    i: nat,
)
    requires
        i <= rf.len(),
        spec_check_fields(wreg, rreg, wf, rf, rem, i) is Ok,
        spec_field_find(wf, extra.name, 0) == -1,
        extra.default is Some,
    ensures
        spec_check_fields(wreg, rreg, wf, rf.push(extra), rem, i) is Ok,
    decreases rf.len() - i,
{
    let rf2 = rf.push(extra);
    if i >= rf.len() {
        assert(rf2[i as int] == extra);
        assert(spec_check_fields(wreg, rreg, wf, rf2, rem, i) == spec_check_fields(
            wreg,
            rreg,
            wf,
            rf2,
            rem,
            i + 1,
        ));
    } else {
        assert(rf2[i as int] == rf[i as int]);
        lemma_added_default_field_reader(wreg, rreg, wf, rf, extra, rem, i + 1);
    }
}

/// Finding a field is unmoved by appending one with another name.
pub proof fn lemma_field_find_push(wf: Seq<SpecField>, extra: SpecField, name: Seq<u8>, i: nat)
    requires
        extra.name != name,
        i <= wf.len(),
    ensures
        spec_field_find(wf.push(extra), name, i) == spec_field_find(wf, name, i),
    decreases wf.len() - i,
{
    let wf2 = wf.push(extra);
    if i < wf.len() {
        assert(wf2[i as int] == wf[i as int]);
        lemma_field_find_push(wf, extra, name, i + 1);
    } else {
        assert(wf2[i as int] == extra);
        assert(spec_field_find(wf2, name, i + 1) == -1);
    }
}

/// A writer field that no reader field names is invisible to the field
/// walk: fields present in the writer but absent from the reader are
/// ignored, so purely additive evolution of the writer is free.
pub proof fn lemma_extra_writer_field(
    wreg: Seq<(Seq<u8>, SpecSchema)>,
    rreg: Seq<(Seq<u8>, SpecSchema)>,
    wf: Seq<SpecField>,
    rf: Seq<SpecField>,
    extra: SpecField,
    rem: Seq<(Seq<u8>, Seq<u8>)>,
    i: nat,
)
    requires
        i <= rf.len(),
        forall|k: int| 0 <= k < rf.len() ==> (#[trigger] rf[k].name) != extra.name,
    ensures
        spec_check_fields(wreg, rreg, wf.push(extra), rf, rem, i) == spec_check_fields(
            wreg,
            rreg,
            wf,
            rf,
            rem,
            i,
        ),
    decreases rf.len() - i,
{
    if i < rf.len() {
        lemma_field_find_push(wf, extra, rf[i as int].name, 0);
        let wi = spec_field_find(wf, rf[i as int].name, 0);
        if wi >= 0 {
            crate::compat::lemma_field_find(wf, rf[i as int].name);
            assert(wf.push(extra)[wi] == wf[wi]);
        }
        lemma_extra_writer_field(wreg, rreg, wf, rf, extra, rem, i + 1);
    }
}

/// A name of the old set that the new set does not declare is always
/// reported as removed, whatever the two declarations look like and
/// whichever direction is asked for.
pub proof fn lemma_removed_name_reported(
    oreg: Seq<(Seq<u8>, SpecSchema)>,
    nreg: Seq<(Seq<u8>, SpecSchema)>,
    mutual: bool,
    i: nat,
    k: int,
)
    requires
        i <= k < oreg.len(),
        spec_reg_find(nreg, oreg[k].0, 0) == -1,
    ensures
        exists|j: int|
            0 <= j < spec_compare_all(oreg, nreg, mutual, i).len() && (
            #[trigger] spec_compare_all(oreg, nreg, mutual, i)[j]).reason
                == SpecReason::SchemaRemoved(oreg[k].0),
    decreases oreg.len() - i,
{
    let out = spec_compare_all(oreg, nreg, mutual, i);
    if i == k {
        assert(out[0].reason == SpecReason::SchemaRemoved(oreg[k].0));
    } else {
        lemma_removed_name_reported(oreg, nreg, mutual, i + 1, k);
        let rest = spec_compare_all(oreg, nreg, mutual, i + 1);
        let j = choose|j: int|
            0 <= j < rest.len() && (#[trigger] rest[j]).reason == SpecReason::SchemaRemoved(
                oreg[k].0,
            );
        let shift = out.len() - rest.len();
        assert(out[shift + j] == rest[j]);
    }
}

/// The verdicts of a comparison are one per incompatible old name: the
/// list is empty exactly when every matched pair passes, so a removed
/// old name always makes the whole comparison fail.
pub proof fn lemma_removed_name_fails_compare(
    old_docs: Seq<Seq<u8>>,
    new_docs: Seq<Seq<u8>>,
    mutual: bool,
    oreg: Seq<(Seq<u8>, SpecSchema)>,
    nreg: Seq<(Seq<u8>, SpecSchema)>,
    k: int,
)
    requires
        crate::registry::spec_resolve(old_docs) == Ok::<
            Seq<(Seq<u8>, SpecSchema)>,
            crate::schema::SpecParseError,
        >(oreg),
        crate::registry::spec_resolve(new_docs) == Ok::<
            Seq<(Seq<u8>, SpecSchema)>,
            crate::schema::SpecParseError,
        >(nreg),
        0 <= k < oreg.len(),
        spec_reg_find(nreg, oreg[k].0, 0) == -1,
    ensures
        crate::spec_compare(old_docs, new_docs, mutual) is Err,
{
    lemma_removed_name_reported(oreg, nreg, mutual, 0, k);
}

/// Adding a record field with a default to the reader's record is
/// compatible in the old-writes, new-reads direction: whenever the
/// writer's record can fill the reader's original fields, it can fill
/// them plus an appended defaulted field the writer does not know.
pub proof fn lemma_added_default_field_record(
    wreg: Seq<(Seq<u8>, SpecSchema)>,
    rreg: Seq<(Seq<u8>, SpecSchema)>,
    wn: Seq<u8>,
    wf: Seq<SpecField>,
    rn: Seq<u8>,
    rf: Seq<SpecField>,
    extra: SpecField,
    rem: Seq<(Seq<u8>, Seq<u8>)>,
)
    requires
        ({
            let pi = crate::compat::spec_pairs_find(rem, rn, wn, 0);
            pi >= 0 ==> spec_check_fields(wreg, rreg, wf, rf, rem.remove(pi), 0) is Ok
        }),
        spec_field_find(wf, extra.name, 0) == -1,
        extra.default is Some,
    ensures
        spec_can_read(
            wreg,
            rreg,
            SpecSchema::Record { fullname: wn, fields: wf },
            SpecSchema::Record { fullname: rn, fields: rf.push(extra) },
            rem,
        ) is Ok,
{
    let pi = crate::compat::spec_pairs_find(rem, rn, wn, 0);
    crate::compat::lemma_pairs_find(rem);
    if pi >= 0 {
        lemma_added_default_field_reader(wreg, rreg, wf, rf, extra, rem.remove(pi), 0);
    }
}

/// Adding a record field to the writer's record that the reader never
/// names cannot change readability in the new-writes, old-reads
/// direction: the reader ignores fields it does not ask for.
pub proof fn lemma_added_writer_field_record(
    wreg: Seq<(Seq<u8>, SpecSchema)>,
    rreg: Seq<(Seq<u8>, SpecSchema)>,
    wn: Seq<u8>,
    wf: Seq<SpecField>,
    rn: Seq<u8>,
    rf: Seq<SpecField>,
    extra: SpecField,
    rem: Seq<(Seq<u8>, Seq<u8>)>,
)
    requires
        forall|k: int| 0 <= k < rf.len() ==> (#[trigger] rf[k].name) != extra.name,
    ensures
        spec_can_read(
            wreg,
            rreg,
            SpecSchema::Record { fullname: wn, fields: wf.push(extra) },
            SpecSchema::Record { fullname: rn, fields: rf },
            rem,
        ) == spec_can_read(
            wreg,
            rreg,
            SpecSchema::Record { fullname: wn, fields: wf },
            SpecSchema::Record { fullname: rn, fields: rf },
            rem,
        ),
{
    let pi = crate::compat::spec_pairs_find(rem, rn, wn, 0);
    crate::compat::lemma_pairs_find(rem);
    if pi >= 0 {
        lemma_extra_writer_field(wreg, rreg, wf, rf, extra, rem.remove(pi), 0);
    }
}
/// With pairwise distinct field names, looking a field's own name up
/// finds that field.
pub proof fn lemma_field_find_unique(fs: Seq<SpecField>, i: int, j: nat)
    requires
        crate::schema_parse::spec_fields_unique(fs),
        0 <= j <= i < fs.len(),
        forall|k: int| j <= k < i ==> (#[trigger] fs[k].name) != fs[i].name,
    ensures
        spec_field_find(fs, fs[i].name, j) == i,
    decreases i - j,
{
    if j < i {
        lemma_field_find_unique(fs, i, j + 1);
    }
}

/// A name that lookup cannot find from `j` on names no field there.
pub proof fn lemma_field_find_absent(fs: Seq<SpecField>, n: Seq<u8>, j: nat)
    requires
        spec_field_find(fs, n, j) == -1,
    ensures
        forall|k: int| j <= k < fs.len() ==> (#[trigger] fs[k].name) != n,
    decreases fs.len() - j,
{
    if j < fs.len() {
        lemma_field_find_absent(fs, n, j + 1);
    }
}

/// A record over primitive field types with distinct names can always
/// fill its own fields.
pub proof fn lemma_flat_record_self_fields(
    wreg: Seq<(Seq<u8>, SpecSchema)>,
    rreg: Seq<(Seq<u8>, SpecSchema)>,
    f: Seq<SpecField>,
    rem: Seq<(Seq<u8>, Seq<u8>)>,
    i: nat,
)
    requires
        crate::schema_parse::spec_fields_unique(f),
        forall|k: int| 0 <= k < f.len() ==> crate::compat::is_primitive((#[trigger] f[k]).ty),
        i <= f.len(),
    ensures
        spec_check_fields(wreg, rreg, f, f, rem, i) is Ok,
    decreases f.len() - i,
{
    if i < f.len() {
        lemma_field_find_unique(f, i as int, 0);
        let t = f[i as int].ty;
        assert(spec_can_read(wreg, rreg, t, t, rem) is Ok);
        lemma_flat_record_self_fields(wreg, rreg, f, rem, i + 1);
    }
}

/// Adding a record field with a default is compatible in both
/// directions, for records over primitive field types with distinct
/// names: the grown record reads the original and the original reads
/// the grown one, whatever the registries and open pairs.
pub proof fn lemma_added_default_field_mutual(
    oreg: Seq<(Seq<u8>, SpecSchema)>,
    nreg: Seq<(Seq<u8>, SpecSchema)>,
    name: Seq<u8>,
    f: Seq<SpecField>,
    extra: SpecField,
    fwd_rem: Seq<(Seq<u8>, Seq<u8>)>,
    bwd_rem: Seq<(Seq<u8>, Seq<u8>)>,
)
    requires
        crate::schema_parse::spec_fields_unique(f),
        forall|k: int| 0 <= k < f.len() ==> crate::compat::is_primitive((#[trigger] f[k]).ty),
        spec_field_find(f, extra.name, 0) == -1,
        extra.default is Some,
    ensures
        spec_can_read(
            oreg,
            nreg,
            SpecSchema::Record { fullname: name, fields: f },
            SpecSchema::Record { fullname: name, fields: f.push(extra) },
            fwd_rem,
        ) is Ok,
        spec_can_read(
            nreg,
            oreg,
            SpecSchema::Record { fullname: name, fields: f.push(extra) },
            SpecSchema::Record { fullname: name, fields: f },
            bwd_rem,
        ) is Ok,
{
    let fpi = crate::compat::spec_pairs_find(fwd_rem, name, name, 0);
    crate::compat::lemma_pairs_find(fwd_rem);
    if fpi >= 0 {
        lemma_flat_record_self_fields(oreg, nreg, f, fwd_rem.remove(fpi), 0);
    }
    lemma_added_default_field_record(oreg, nreg, name, f, name, f, extra, fwd_rem);
    let bpi = crate::compat::spec_pairs_find(bwd_rem, name, name, 0);
    crate::compat::lemma_pairs_find(bwd_rem);
    lemma_field_find_absent(f, extra.name, 0);
    lemma_added_writer_field_record(nreg, oreg, name, f, name, f, extra, bwd_rem);
    if bpi >= 0 {
        lemma_flat_record_self_fields(nreg, oreg, f, bwd_rem.remove(bpi), 0);
    }
}
/// Dropping the reader's first field from the writer, when that field
/// has no default, is incompatible with exactly a missing-field report
/// at that field, once the records' name pair is entered.
pub proof fn lemma_removed_field_record(
    wreg: Seq<(Seq<u8>, SpecSchema)>,
    rreg: Seq<(Seq<u8>, SpecSchema)>,
    wn: Seq<u8>,
    wf: Seq<SpecField>,
    rn: Seq<u8>,
    rf: Seq<SpecField>,
    rem: Seq<(Seq<u8>, Seq<u8>)>,
)
    requires
        crate::compat::spec_pairs_find(rem, rn, wn, 0) >= 0,
        rf.len() > 0,
        spec_field_find(wf, rf[0].name, 0) == -1,
        rf[0].default is None,
    ensures
        spec_can_read(
            wreg,
            rreg,
            SpecSchema::Record { fullname: wn, fields: wf },
            SpecSchema::Record { fullname: rn, fields: rf },
            rem,
        ) == Err::<(), SpecIncompat>(
            SpecIncompat {
                path: seq![rf[0].name],
                reason: SpecReason::MissingField(rf[0].name),
            },
        ),
{
    let pi = crate::compat::spec_pairs_find(rem, rn, wn, 0);
    crate::compat::lemma_pairs_find(rem);
    lemma_missing_field(wreg, rreg, wf, rf, rem.remove(pi), 0);
}
/// A field list that the duplicate scan clears has pairwise distinct
/// names; the parser runs that scan on every record, so every parsed
/// record meets the uniqueness the laws above ask for.
pub proof fn lemma_no_dup_means_unique(fs: Seq<SpecField>, i: nat)
    requires
        crate::schema_parse::spec_first_dup_field(fs, i) is None,
    ensures
        forall|a: int, b: int|
            0 <= a < b < fs.len() && b >= i ==> (#[trigger] fs[a].name) != (
            #[trigger] fs[b].name),
    decreases fs.len() - i,
{
    if i < fs.len() {
        lemma_no_dup_means_unique(fs, i + 1);
    }
}
} // verus!
