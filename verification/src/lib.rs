//! Parser for the textual format of Nix derivations (`.drv` files).
//!
//! The bytes of a derivation are first read as a generic [`Atom`] tree
//! (identifiers, strings, tuples, lists and applications), and that tree is
//! then read as a [`Derive`] record.
use vstd::prelude::*;

pub mod atom;
pub mod de;
pub mod derivation;
pub mod derivation_laws;
pub mod error;
pub mod grammar;
pub mod laws;
pub mod parser;
mod text;

pub use atom::{Atom, Ident, SpecAtom};
pub use derivation::{Derivation, Derive, Input, Output, OutputName};
pub use error::{Error, ErrorKind, Failure};

use derivation::{derivation_of, spec_derivation};
use grammar::{spec_drv_atom, Outcome};
use parser::drv_atom;

verus! {

/// The inputs on which parsing a derivation decides: the syntax does not
/// stop for want of bytes, and what it reads has the form of a derivation
/// with valid UTF-8 texts.
pub open spec fn drv_decided(s: Seq<u8>) -> bool {
    match spec_drv_atom(s) {
        Outcome::Done(_, a) => spec_derivation(a) is Some,
        Outcome::Fail(_, _) => true,
        Outcome::Incomplete => false,
    }
}

/// Reads `data` as the atoms of a derivation: an atom applied to an atom,
/// with nothing after them.
pub fn parse_drv_atom_bytes(data: &[u8]) -> (r: Result<Atom, Error>)
    requires
        !(spec_drv_atom(data@) is Incomplete),
    ensures
        r matches Ok(a) ==> spec_drv_atom(data@) == Outcome::Done(data@.len() as int, a@),
        r matches Ok(a) ==> laws::wf_atom(a@),
        r matches Err(e) ==> spec_drv_atom(data@) == Outcome::<SpecAtom>::Fail(
            e.offset as int,
            e.code,
        ),
{
    proof {
        laws::law_drv_atom_wf(data@);
    }
    match drv_atom(data) {
        Ok((_, a)) => Ok(a),
        Err(Failure::Error(e)) => Err(e),
        Err(Failure::Incomplete) => {
            proof {
                assert(false);
            }
            Err(Error { offset: data.len(), code: ErrorKind::Eof })
        },
    }
}

/// Reads `data` as a derivation, or says that the input does not decide
/// (`None`): the bytes end too early, or what they hold does not have the
/// form of a derivation.
pub fn try_parse_drv_bytes(data: &[u8]) -> (r: Option<Result<Derive, de::Error>>)
    ensures
        r is Some <==> drv_decided(data@),
        r matches Some(Ok(d)) ==> spec_drv_atom(data@) matches Outcome::Done(_, a)
            && spec_derivation(a) == Some(d@),
        r matches Some(Err(e)) ==> e matches de::Error::Parse(pe) && spec_drv_atom(data@)
            == Outcome::<SpecAtom>::Fail(pe.offset as int, pe.code),
{
    let atom = match drv_atom(data) {
        Ok((_, a)) => a,
        Err(Failure::Error(e)) => return Some(Err(de::Error::from(e))),
        Err(Failure::Incomplete) => return None,
    };
    match derivation_of(&atom) {
        Some(Derivation::Derive(d)) => Some(Ok(d)),
        None => None,
    }
}

/// Reads `data` as a derivation.
pub fn parse_drv_bytes(data: &[u8]) -> (r: Result<Derive, de::Error>)
    requires
        drv_decided(data@),
    ensures
        r matches Ok(d) ==> spec_drv_atom(data@) matches Outcome::Done(_, a) && spec_derivation(a)
            == Some(d@),
        r matches Err(e) ==> e matches de::Error::Parse(pe) && spec_drv_atom(data@)
            == Outcome::<SpecAtom>::Fail(pe.offset as int, pe.code),
{
    match try_parse_drv_bytes(data) {
        Some(r) => r,
        None => {
            proof {
                assert(false);
            }
            Err(de::Error::Parse(Error { offset: data.len(), code: ErrorKind::Eof }))
        },
    }
}

} // verus!
