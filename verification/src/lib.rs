//! Avro schema linting and evolution checking.
//!
//! The crate parses Avro schema documents (JSON texts, as bytes),
//! resolves named types across a document set, and decides reader and
//! writer compatibility between an old and a new set of schemas. The
//! one-way direction is pinned down as: the old set is the writer, the
//! new set the reader, so data written under the old schemas must stay
//! readable by consumers built against the new ones; the mutual check
//! asks for both directions.

use vstd::prelude::*;

pub mod compat;
pub mod json;
pub mod json_parse;
pub mod laws;
pub mod registry;
pub mod schema;
pub mod schema_parse;
pub mod text;

use compat::CompatReason;
use compat::Incompat;
use compat::SpecIncompat;
use registry::Registry;
use schema::ParseError;
use schema::Schema;
use schema::SpecParseError;

verus! {

/// Why a comparison of two document sets failed.
pub enum SpecCompatFailure {
    /// The old set does not parse or resolve.
    OldSetInvalid(SpecParseError),
    /// The new set does not parse or resolve.
    NewSetInvalid(SpecParseError),
    /// Both sets resolve, and these are all the incompatible names.
    Incompatible(Seq<SpecIncompat>),
}

/// Executable twin of [`SpecCompatFailure`].
#[derive(Debug, PartialEq, Eq)]
pub enum CompatFailure {
    OldSetInvalid(ParseError),
    NewSetInvalid(ParseError),
    Incompatible(Vec<Incompat>),
}

impl CompatFailure {
    /// Mathematical view of the failure.
    pub open spec fn dv(&self) -> SpecCompatFailure {
        match self {
            CompatFailure::OldSetInvalid(e) => SpecCompatFailure::OldSetInvalid(e.dv()),
            CompatFailure::NewSetInvalid(e) => SpecCompatFailure::NewSetInvalid(e.dv()),
            CompatFailure::Incompatible(es) => SpecCompatFailure::Incompatible(
                compat::dv_issues(es@),
            ),
        }
    }
}

/// The verdict on two document sets: both must resolve, no old name may
/// be missing from the new set, and every matched pair must be readable
/// in the asked-for directions.
pub open spec fn spec_compare(
    old_docs: Seq<Seq<u8>>,
    new_docs: Seq<Seq<u8>>,
    mutual: bool,
) -> Result<(), SpecCompatFailure> {
    match registry::spec_resolve(old_docs) {
        Err(e) => Err(SpecCompatFailure::OldSetInvalid(e)),
        Ok(oreg) => match registry::spec_resolve(new_docs) {
            Err(e) => Err(SpecCompatFailure::NewSetInvalid(e)),
            Ok(nreg) => {
                let issues = compat::spec_compare_all(oreg, nreg, mutual, 0);
                if issues.len() == 0 {
                    Ok(())
                } else {
                    Err(SpecCompatFailure::Incompatible(issues))
                }
            },
        },
    }
}

/// Lint one document set: it must parse and resolve as one namespace.
/// Succeeds exactly when [`registry::spec_resolve`] does, and returns
/// the error that it gives.
pub fn validate_schemas(docs: &Vec<Vec<u8>>) -> (r: Result<(), ParseError>)
    ensures
        match r {
            Ok(()) => registry::spec_resolve(schema::dv_names(docs@)) is Ok,
            Err(e) => registry::spec_resolve(schema::dv_names(docs@)) == Err::<
                Seq<(Seq<u8>, schema::SpecSchema)>,
                SpecParseError,
            >(e.dv()),
        },
{
    match registry::resolve(docs) {
        Ok(_) => Ok(()),
        Err(e) => Err(e),
    }
}

/// Compare an old and a new document set, exactly as [`spec_compare`]
/// says: `Ok` precisely when both sets resolve and no incompatibility
/// is found; otherwise the error lists every incompatible name.
pub fn compare_schemas(old_docs: &Vec<Vec<u8>>, new_docs: &Vec<Vec<u8>>, mutual: bool)
    -> (r: Result<(), CompatFailure>)
    ensures
        match r {
            Ok(()) => spec_compare(
                schema::dv_names(old_docs@),
                schema::dv_names(new_docs@),
                mutual,
            ) is Ok,
            Err(e) => spec_compare(
                schema::dv_names(old_docs@),
                schema::dv_names(new_docs@),
                mutual,
            ) == Err::<(), SpecCompatFailure>(e.dv()),
        },
{
    let oreg = match registry::resolve(old_docs) {
        Ok(reg) => reg,
        Err(e) => {
            return Err(CompatFailure::OldSetInvalid(e));
        },
    };
    let nreg = match registry::resolve(new_docs) {
        Ok(reg) => reg,
        Err(e) => {
            return Err(CompatFailure::NewSetInvalid(e));
        },
    };
    let issues = compat::compare_all(&oreg, &nreg, mutual, 0);
    proof {
        compat::lemma_dv_issues(issues@);
    }
    if issues.len() == 0 {
        Ok(())
    } else {
        Err(CompatFailure::Incompatible(issues))
    }
}

/// Can data written with `writer` be read through `reader`? Each side
/// resolves its references in its own registry; the descent starts with
/// every pair of names of the two registries open.
pub fn can_read(writer: &Schema, reader: &Schema, wreg: &Registry, rreg: &Registry) -> (r:
    Result<(), Incompat>)
    ensures
        compat::dv_verdict(r) == compat::spec_can_read(
            wreg.dv(),
            rreg.dv(),
            writer.dv(),
            reader.dv(),
            compat::spec_all_pairs(rreg.dv(), wreg.dv()),
        ),
{
    let rem = compat::all_pairs(rreg, wreg);
    compat::can_read_in(wreg, rreg, writer, reader, &rem)
}

/// Readability in both directions between an old and a new schema,
/// failing on the first direction that fails: first the old writes and
/// the new reads, then the other way around.
pub fn mutual_read(old_s: &Schema, new_s: &Schema, oreg: &Registry, nreg: &Registry) -> (r:
    Result<(), Incompat>)
    ensures
        compat::dv_verdict(r) == (match compat::spec_can_read(
            oreg.dv(),
            nreg.dv(),
            old_s.dv(),
            new_s.dv(),
            compat::spec_all_pairs(nreg.dv(), oreg.dv()),
        ) {
            Err(e) => Err::<(), SpecIncompat>(e),
            Ok(()) => compat::spec_can_read(
                nreg.dv(),
                oreg.dv(),
                new_s.dv(),
                old_s.dv(),
                compat::spec_all_pairs(oreg.dv(), nreg.dv()),
            ),
        }),
{
    match can_read(old_s, new_s, oreg, nreg) {
        Err(e) => Err(e),
        Ok(()) => can_read(new_s, old_s, nreg, oreg),
    }
}

} // verus!
