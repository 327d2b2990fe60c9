//! The parsers of the derivation syntax, each proved to compute its
//! counterpart in [`crate::grammar`].
//!
//! A parser takes the whole input and the offset to start at; on success it
//! gives the offset of the first byte it did not read.
use vstd::prelude::*;

use crate::atom::{atoms_view, lemma_atoms_view_push, Atom};
use crate::error::{Error, ErrorKind, Failure};
use crate::grammar::{
    ident_end, is_ident_byte, spec_atom1, spec_atom_complete, spec_atom_streaming,
    spec_atom_tag, spec_delimited_items, spec_drv_atom, spec_escape, spec_is_ident_start,
    spec_list_inner, spec_parse_ident, spec_parse_string, spec_string_inner, spec_tag, Outcome,
    BACKSLASH, CLOSE_BRACKET, CLOSE_PAREN, COMMA, OPEN_BRACKET, OPEN_PAREN, QUOTE,
};
use crate::text::{lemma_ascii_utf8, lemma_str_of_bytes, str_from_utf8};

verus! {

/// What a parser gave agrees with an outcome of the grammar, its value read through `f`.
pub open spec fn agrees<T, V>(r: Result<(usize, T), Failure>, o: Outcome<V>, f: spec_fn(T) -> V) -> bool {
    match r {
        Ok((j, v)) => o == Outcome::Done(j as int, f(v)),
        Err(Failure::Error(e)) => o == Outcome::<V>::Fail(e.offset as int, e.code),
        Err(Failure::Incomplete) => o is Incomplete,
    }
}

/// A parser that gave a value read at least one byte, and no byte past the end.
pub open spec fn advances<T>(r: Result<(usize, T), Failure>, pos: usize, len: int) -> bool {
    r matches Ok((j, _)) ==> pos < j <= len
}

/// An error that a parser reports lies within the input.
pub open spec fn error_in_bounds<T>(r: Result<(usize, T), Failure>, len: int) -> bool {
    r matches Err(Failure::Error(e)) ==> e.offset <= len
}

fn fail<T>(offset: usize, code: ErrorKind) -> (r: Result<(usize, T), Failure>)
    ensures
        r == Err::<(usize, T), Failure>(Failure::Error(Error { offset, code })),
{
    Err(Failure::Error(Error { offset, code }))
}

/// Whether `c` is an ASCII letter.
pub fn is_ident(c: u8) -> (r: bool)
    ensures
        r == is_ident_byte(c),
{
    (65 <= c && c <= 90) || (97 <= c && c <= 122)
}

/// The byte `t` at `pos`.
pub fn tag(data: &[u8], pos: usize, t: u8) -> (r: Result<(usize, ()), Failure>)
    requires
        pos <= data@.len(),
    ensures
        agrees(r, spec_tag(data@, pos as int, t), |u: ()| u),
        advances(r, pos, data@.len() as int),
        error_in_bounds(r, data@.len() as int),
{
    if pos >= data.len() {
        Err(Failure::Incomplete)
    } else if data[pos] == t {
        Ok((pos + 1, ()))
    } else {
        fail(pos, ErrorKind::Tag)
    }
}

/// The byte at `pos`, if an atom can start with it.
pub fn atom_tag(data: &[u8], pos: usize) -> (r: Result<(usize, u8), Failure>)
    requires
        pos <= data@.len(),
    ensures
        agrees(r, spec_atom_tag(data@, pos as int), |c: u8| c),
        advances(r, pos, data@.len() as int),
        error_in_bounds(r, data@.len() as int),
{
    if pos >= data.len() {
        return Err(Failure::Incomplete);
    }
    let c = data[pos];
    if c == QUOTE || c == OPEN_PAREN || c == OPEN_BRACKET {
        return Ok((pos + 1, c));
    }
    is_ident_start(data, pos)
}

/// The letter at `pos`.
pub fn is_ident_start(data: &[u8], pos: usize) -> (r: Result<(usize, u8), Failure>)
    requires
        pos <= data@.len(),
    ensures
        agrees(r, spec_is_ident_start(data@, pos as int), |c: u8| c),
        advances(r, pos, data@.len() as int),
        error_in_bounds(r, data@.len() as int),
{
    if pos >= data.len() {
        Err(Failure::Incomplete)
    } else if is_ident(data[pos]) {
        Ok((pos + 1, data[pos]))
    } else {
        fail(pos, ErrorKind::TakeWhileMN)
    }
}

/// The longest non-empty run of letters at `pos`.
pub fn parse_ident(data: &[u8], pos: usize) -> (r: Result<(usize, String), Failure>)
    requires
        pos <= data@.len(),
    ensures
        agrees(r, spec_parse_ident(data@, pos as int), |s: String| s@),
        advances(r, pos, data@.len() as int),
        error_in_bounds(r, data@.len() as int),
{
    if pos >= data.len() {
        return Err(Failure::Incomplete);
    }
    if !is_ident(data[pos]) {
        return fail(pos, ErrorKind::TakeWhile1);
    }
    let mut k = pos;
    while k < data.len() && is_ident(data[k])
        invariant
            pos <= k <= data@.len(),
            forall|m: int| pos <= m < k ==> is_ident_byte(#[trigger] data@[m]),
            ident_end(data@, pos as int) == ident_end(data@, k as int),
        decreases data@.len() - k,
    {
        k = k + 1;
    }
    if k >= data.len() {
        return Err(Failure::Incomplete);
    }
    let bytes = vstd::slice::slice_subrange(data, pos, k);
    proof {
        assert forall|m: int| 0 <= m < bytes@.len() implies #[trigger] bytes@[m] < 128 by {
            assert(is_ident_byte(data@[pos + m]));
        }
        lemma_ascii_utf8(bytes@);
    }
    match str_from_utf8(bytes) {
        Some(s) => {
            proof {
                lemma_str_of_bytes(s, bytes@);
            }
            Ok((k, s.to_owned()))
        },
        None => {
            proof {
                assert(false);
            }
            Err(Failure::Incomplete)
        },
    }
}

/// A backslash followed by a quote, at `pos`.
pub fn escape(data: &[u8], pos: usize) -> (r: Result<(usize, ()), Failure>)
    requires
        pos <= data@.len(),
    ensures
        agrees(r, spec_escape(data@, pos as int), |u: ()| u),
        advances(r, pos, data@.len() as int),
        error_in_bounds(r, data@.len() as int),
{
    let (j, _) = tag(data, pos, BACKSLASH)?;
    tag(data, j, QUOTE)
}

/// The body of a string literal from `pos`: the offset of the quote that ends it.
pub fn string_inner(data: &[u8], pos: usize) -> (r: Result<(usize, ()), Failure>)
    requires
        pos <= data@.len(),
    ensures
        agrees(r, spec_string_inner(data@, pos as int), |u: ()| u),
        r matches Ok((j, _)) ==> pos <= j < data@.len() && data@[j as int] == QUOTE,
        error_in_bounds(r, data@.len() as int),
{
    let mut k = pos;
    loop
        invariant
            pos <= k <= data@.len(),
            spec_string_inner(data@, pos as int) == spec_string_inner(data@, k as int),
        decreases data@.len() - k,
    {
        if k >= data.len() {
            return Err(Failure::Incomplete);
        }
        if data[k] == QUOTE {
            return Ok((k, ()));
        }
        if data[k] == BACKSLASH {
            let (j, _) = escape(data, k)?;
            k = j;
        } else {
            k = k + 1;
        }
    }
}

/// A string literal at `pos`; its value is the bytes between the quotes.
pub fn parse_string(data: &[u8], pos: usize) -> (r: Result<(usize, Vec<u8>), Failure>)
    requires
        pos <= data@.len(),
    ensures
        agrees(r, spec_parse_string(data@, pos as int), |b: Vec<u8>| b@),
        advances(r, pos, data@.len() as int),
        error_in_bounds(r, data@.len() as int),
{
    let (start, _) = tag(data, pos, QUOTE)?;
    let (end, _) = string_inner(data, start)?;
    let (next, _) = tag(data, end, QUOTE)?;
    let mut body: Vec<u8> = Vec::new();
    let mut k = start;
    while k < end
        invariant
            start <= k <= end < data@.len(),
            body@ == data@.subrange(start as int, k as int),
        decreases end - k,
    {
        body.push(data[k]);
        k = k + 1;
        assert(body@ =~= data@.subrange(start as int, k as int));
    }
    Ok((next, body))
}

/// A non-empty comma-separated sequence of atoms at `pos`.
pub fn list_inner(data: &[u8], pos: usize) -> (r: Result<(usize, Vec<Atom>), Failure>)
    requires
        pos <= data@.len(),
    ensures
        agrees(
            r,
            spec_list_inner(data@, pos as int, Seq::empty()),
            |v: Vec<Atom>| atoms_view(v@),
        ),
        advances(r, pos, data@.len() as int),
        error_in_bounds(r, data@.len() as int),
    decreases data@.len() - pos, 4int,
{
    let mut list: Vec<Atom> = Vec::new();
    let mut k = pos;
    loop
        invariant
            pos <= k <= data@.len(),
            spec_list_inner(data@, pos as int, Seq::empty()) == spec_list_inner(
                data@,
                k as int,
                atoms_view(list@),
            ),
        decreases data@.len() - k,
    {
        let (j, atom) = atom_streaming(data, k)?;
        proof {
            lemma_atoms_view_push(list@, atom);
        }
        list.push(atom);
        if j >= data.len() {
            return Err(Failure::Incomplete);
        }
        if data[j] == COMMA {
            k = j + 1;
        } else {
            return Ok((j, list));
        }
    }
}

/// The atoms between an `open` byte at `pos` and a `close` byte.
fn delimited_items(data: &[u8], pos: usize, open: u8, close: u8) -> (r: Result<
    (usize, Vec<Atom>),
    Failure,
>)
    requires
        pos <= data@.len(),
    ensures
        agrees(
            r,
            spec_delimited_items(data@, pos as int, open, close),
            |v: Vec<Atom>| atoms_view(v@),
        ),
        advances(r, pos, data@.len() as int),
        error_in_bounds(r, data@.len() as int),
    decreases data@.len() - pos, 0int,
{
    let (start, _) = tag(data, pos, open)?;
    let (end, items) = list_inner(data, start)?;
    let (next, _) = tag(data, end, close)?;
    Ok((next, items))
}

/// A tuple `( .. )` at `pos`.
pub fn parse_tuple(data: &[u8], pos: usize) -> (r: Result<(usize, Vec<Atom>), Failure>)
    requires
        pos <= data@.len(),
    ensures
        agrees(
            r,
            spec_delimited_items(data@, pos as int, OPEN_PAREN, CLOSE_PAREN),
            |v: Vec<Atom>| atoms_view(v@),
        ),
        advances(r, pos, data@.len() as int),
        error_in_bounds(r, data@.len() as int),
    decreases data@.len() - pos, 1int,
{
    delimited_items(data, pos, OPEN_PAREN, CLOSE_PAREN)
}

/// A list `[ .. ]` at `pos`.
pub fn parse_list(data: &[u8], pos: usize) -> (r: Result<(usize, Vec<Atom>), Failure>)
    requires
        pos <= data@.len(),
    ensures
        agrees(
            r,
            spec_delimited_items(data@, pos as int, OPEN_BRACKET, CLOSE_BRACKET),
            |v: Vec<Atom>| atoms_view(v@),
        ),
        advances(r, pos, data@.len() as int),
        error_in_bounds(r, data@.len() as int),
    decreases data@.len() - pos, 1int,
{
    delimited_items(data, pos, OPEN_BRACKET, CLOSE_BRACKET)
}

/// One atom at `pos`: a string, a tuple, a list or an identifier, chosen by
/// its first byte.
pub fn atom1(data: &[u8], pos: usize) -> (r: Result<(usize, Atom), Failure>)
    requires
        pos <= data@.len(),
    ensures
        agrees(r, spec_atom1(data@, pos as int), |a: Atom| a@),
        advances(r, pos, data@.len() as int),
        error_in_bounds(r, data@.len() as int),
    decreases data@.len() - pos, 2int,
{
    let (_, c) = atom_tag(data, pos)?;
    if c == QUOTE {
        let (j, b) = parse_string(data, pos)?;
        Ok((j, Atom::String(b)))
    } else if c == OPEN_PAREN {
        let (j, xs) = parse_tuple(data, pos)?;
        Ok((j, Atom::Tuple(xs)))
    } else if c == OPEN_BRACKET {
        let (j, xs) = parse_list(data, pos)?;
        Ok((j, Atom::List(xs)))
    } else {
        let (j, id) = parse_ident(data, pos)?;
        Ok((j, Atom::Ident(id)))
    }
}

/// One or more atoms written one after the other from `pos`, nested to the right.
pub fn atom_streaming(data: &[u8], pos: usize) -> (r: Result<(usize, Atom), Failure>)
    requires
        pos <= data@.len(),
    ensures
        agrees(r, spec_atom_streaming(data@, pos as int), |a: Atom| a@),
        advances(r, pos, data@.len() as int),
        error_in_bounds(r, data@.len() as int),
    decreases data@.len() - pos, 3int,
{
    let (j, lhs) = atom1(data, pos)?;
    match atom_tag(data, j) {
        Ok(_) => {
            let (k, rhs) = atom_streaming(data, j)?;
            Ok((k, Atom::Apply(Box::new(lhs), Box::new(rhs))))
        },
        Err(Failure::Error(_)) => Ok((j, lhs)),
        Err(Failure::Incomplete) => Err(Failure::Incomplete),
    }
}

/// Atoms written one after the other from `pos` up to the end of the input,
/// nested to the right.
pub fn atom_complete(data: &[u8], pos: usize) -> (r: Result<(usize, Atom), Failure>)
    requires
        pos <= data@.len(),
    ensures
        agrees(r, spec_atom_complete(data@, pos as int), |a: Atom| a@),
        advances(r, pos, data@.len() as int),
        error_in_bounds(r, data@.len() as int),
    decreases data@.len() - pos,
{
    let (j, lhs) = atom1(data, pos)?;
    if j >= data.len() {
        Ok((j, lhs))
    } else {
        let (k, rhs) = atom_complete(data, j)?;
        Ok((k, Atom::Apply(Box::new(lhs), Box::new(rhs))))
    }
}

/// A whole derivation: exactly two atoms, and nothing after them.
pub fn drv_atom(data: &[u8]) -> (r: Result<(usize, Atom), Failure>)
    ensures
        agrees(r, spec_drv_atom(data@), |a: Atom| a@),
        r matches Ok((j, _)) ==> j == data@.len(),
        error_in_bounds(r, data@.len() as int),
{
    let (j, lhs) = atom1(data, 0)?;
    let (k, rhs) = atom1(data, j)?;
    if k < data.len() {
        return fail(k, ErrorKind::Eof);
    }
    Ok((k, Atom::Apply(Box::new(lhs), Box::new(rhs))))
}

} // verus!
