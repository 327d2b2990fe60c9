//! Reading values out of an [`Atom`] tree: what each kind of value requires
//! of the atom it is read from.
use vstd::prelude::*;
use vstd::utf8::{decode_utf8, valid_utf8};

use crate::atom::{atoms_view, Atom, SpecAtom};
use crate::text::{lemma_str_of_bytes, str_from_utf8};

verus! {

/// `std::io::Error`, carried in [`Error::Io`].
#[verifier::external_type_specification]
#[verifier::external_body]
pub struct ExIoError(std::io::Error);

/// Why a derivation could not be read.
#[derive(Debug)]
pub enum Error {
    /// Reading the input failed.
    Io(std::io::Error),
    /// The input is not in the derivation syntax.
    Parse(crate::error::Error),
}

impl From<crate::error::Error> for Error {
    fn from(err: crate::error::Error) -> (r: Self) {
        Error::Parse(err)
    }
}

impl vstd::std_specs::convert::FromSpecImpl<crate::error::Error> for Error {
    open spec fn obeys_from_spec() -> bool {
        true
    }

    open spec fn from_spec(err: crate::error::Error) -> Self {
        Error::Parse(err)
    }
}

impl From<std::io::Error> for Error {
    fn from(err: std::io::Error) -> (r: Self) {
        Error::Io(err)
    }
}

impl vstd::std_specs::convert::FromSpecImpl<std::io::Error> for Error {
    open spec fn obeys_from_spec() -> bool {
        true
    }

    open spec fn from_spec(err: std::io::Error) -> Self {
        Error::Io(err)
    }
}

/// The text of a string atom whose bytes are valid UTF-8.
pub open spec fn spec_text(a: SpecAtom) -> Option<Seq<char>> {
    match a {
        SpecAtom::String(b) => if valid_utf8(b) {
            Some(decode_utf8(b))
        } else {
            None
        },
        _ => None,
    }
}

/// The single ASCII byte of a string atom that holds exactly one byte.
pub open spec fn spec_char_byte(a: SpecAtom) -> Option<u8> {
    match a {
        SpecAtom::String(b) => if b.len() == 1 && b[0] < 128 {
            Some(b[0])
        } else {
            None
        },
        _ => None,
    }
}

/// A cursor that reads values out of one atom.
#[derive(Clone, Copy, Debug)]
pub struct Deserializer<'de> {
    atom: &'de Atom,
}

impl<'de> Deserializer<'de> {
    /// The atom that this cursor reads.
    pub closed spec fn spec_atom(&self) -> &'de Atom {
        self.atom
    }

    /// A cursor on `atom`.
    pub fn new(atom: &'de Atom) -> (r: Self)
        ensures
            r.spec_atom() == atom,
    {
        Deserializer { atom }
    }

    /// The atom that this cursor reads.
    pub fn atom(&self) -> (r: &'de Atom)
        ensures
            r == self.spec_atom(),
    {
        self.atom
    }

    /// A character: the atom is a string of exactly one ASCII byte.
    pub fn char_byte(&self) -> (r: Option<u8>)
        ensures
            r == spec_char_byte(self.spec_atom()@),
    {
        match self.atom {
            Atom::String(b) => if b.len() == 1 && b[0] < 128 {
                Some(b[0])
            } else {
                None
            },
            _ => None,
        }
    }

    /// Text: the atom is a string whose bytes are valid UTF-8.
    pub fn text(&self) -> (r: Option<&'de str>)
        ensures
            r is Some <==> spec_text(self.spec_atom()@) is Some,
            r matches Some(s) ==> s@ == spec_text(self.spec_atom()@)->0,
    {
        match self.atom {
            Atom::String(b) => {
                let v = b.as_slice();
                match str_from_utf8(v) {
                    Some(s) => {
                        proof {
                            lemma_str_of_bytes(s, v@);
                        }
                        Some(s)
                    },
                    None => None,
                }
            },
            _ => None,
        }
    }

    /// Bytes: the atom is a string.
    pub fn bytes(&self) -> (r: Option<&'de [u8]>)
        ensures
            r is Some <==> self.spec_atom()@ is String,
            r matches Some(b) ==> self.spec_atom()@ == SpecAtom::String(b@),
    {
        match self.atom {
            Atom::String(b) => Some(b.as_slice()),
            _ => None,
        }
    }

    /// The elements of a sequence: the atom is a list.
    pub fn seq_elements(&self) -> (r: Option<&'de [Atom]>)
        ensures
            r is Some <==> self.spec_atom()@ is List,
            r matches Some(v) ==> self.spec_atom()@ == SpecAtom::List(atoms_view(v@)),
    {
        match self.atom {
            Atom::List(v) => Some(v.as_slice()),
            _ => None,
        }
    }

    /// The elements of a tuple of `len` elements: the atom is a tuple of
    /// exactly that many elements.
    pub fn tuple_elements(&self, len: usize) -> (r: Option<&'de [Atom]>)
        ensures
            r is Some <==> (self.spec_atom()@ matches SpecAtom::Tuple(xs) && xs.len() == len),
            r matches Some(v) ==> self.spec_atom()@ == SpecAtom::Tuple(atoms_view(v@)),
    {
        match self.atom {
            Atom::Tuple(v) => {
                proof {
                    crate::atom::lemma_atoms_view(v@);
                }
                if v.len() == len {
                    Some(v.as_slice())
                } else {
                    None
                }
            },
            _ => None,
        }
    }

    /// The fields of a record of `fields` fields, written as a tuple.
    pub fn struct_elements(&self, fields: usize) -> (r: Option<&'de [Atom]>)
        ensures
            r is Some <==> (self.spec_atom()@ matches SpecAtom::Tuple(xs) && xs.len() == fields),
            r matches Some(v) ==> self.spec_atom()@ == SpecAtom::Tuple(atoms_view(v@)),
    {
        match self.atom {
            Atom::Tuple(_) => self.tuple_elements(fields),
            _ => None,
        }
    }

    /// The variant name and the payload of an enum value: the atom is an
    /// application.
    pub fn enum_parts(&self) -> (r: Option<(Deserializer<'de>, Deserializer<'de>)>)
        ensures
            r is Some <==> self.spec_atom()@ is Apply,
            r matches Some((k, v)) ==> self.spec_atom()@ == SpecAtom::Apply(
                Box::new(k.spec_atom()@),
                Box::new(v.spec_atom()@),
            ),
    {
        match self.atom {
            Atom::Apply(k, v) => Some((Deserializer::new(k), Deserializer::new(v))),
            _ => None,
        }
    }

    /// An identifier: the atom is one.
    pub fn identifier(&self) -> (r: Option<&'de str>)
        ensures
            r is Some <==> self.spec_atom()@ is Ident,
            r matches Some(s) ==> self.spec_atom()@ == SpecAtom::Ident(s@),
    {
        match self.atom {
            Atom::Ident(id) => Some(id.as_str()),
            _ => None,
        }
    }
}

/// A cursor over the elements of a tuple or a list, read in order.
#[derive(Clone, Copy, Debug)]
pub struct Elements<'de> {
    elements: &'de [Atom],
    idx: usize,
}

impl<'de> Elements<'de> {
    /// The elements.
    pub closed spec fn spec_elements(&self) -> Seq<Atom> {
        self.elements@
    }

    /// How many elements have been read.
    pub closed spec fn spec_index(&self) -> int {
        self.idx as int
    }

    /// A cursor before the first of `elements`.
    pub fn new(elements: &'de [Atom]) -> (r: Self)
        ensures
            r.spec_elements() == elements@,
            r.spec_index() == 0,
    {
        Elements { elements, idx: 0 }
    }

    /// The next element, if any is left; the cursor moves past it.
    pub fn next_element(&mut self) -> (r: Option<&'de Atom>)
        ensures
            final(self).spec_elements() == old(self).spec_elements(),
            old(self).spec_index() < old(self).spec_elements().len() ==> {
                &&& r == Some(&old(self).spec_elements()[old(self).spec_index()])
                &&& final(self).spec_index() == old(self).spec_index() + 1
            },
            old(self).spec_index() >= old(self).spec_elements().len() ==> {
                &&& r is None
                &&& final(self).spec_index() == old(self).spec_index()
            },
    {
        if self.idx < self.elements.len() {
            let e = &self.elements[self.idx];
            self.idx = self.idx + 1;
            Some(e)
        } else {
            None
        }
    }

    /// How many elements are left.
    pub fn size_hint(&self) -> (r: usize)
        ensures
            r == if self.spec_index() < self.spec_elements().len() {
                self.spec_elements().len() - self.spec_index()
            } else {
                0
            },
    {
        self.elements.len().saturating_sub(self.idx)
    }
}

} // verus!
