//! The derivation syntax, as functions from bytes and a start offset to the
//! outcome of parsing there.
//!
//! The parsers are streaming parsers: when the input ends before a parser can
//! decide, the outcome is `Incomplete` rather than an error.
use vstd::prelude::*;

use crate::atom::SpecAtom;
use crate::error::ErrorKind;

verus! {

/// `"`
pub const QUOTE: u8 = 34;

/// `\`
pub const BACKSLASH: u8 = 92;

/// `(`
pub const OPEN_PAREN: u8 = 40;

/// `)`
pub const CLOSE_PAREN: u8 = 41;

/// `[`
pub const OPEN_BRACKET: u8 = 91;

/// `]`
pub const CLOSE_BRACKET: u8 = 93;

/// `,`
pub const COMMA: u8 = 44;

/// What a parser started at some offset of some bytes comes to.
pub enum Outcome<T> {
    /// It read a value, and the next unread byte is at the given offset.
    Done(int, T),
    /// It refused the input at the given offset.
    Fail(int, ErrorKind),
    /// The input ended before it could decide.
    Incomplete,
}

/// The failure of an outcome, carried over to an outcome of another type.
pub open spec fn failed<A, B>(o: Outcome<A>) -> Outcome<B> {
    match o {
        Outcome::Fail(p, k) => Outcome::Fail(p, k),
        _ => Outcome::Incomplete,
    }
}

/// An ASCII letter.
pub open spec fn is_ident_byte(c: u8) -> bool {
    (65 <= c <= 90) || (97 <= c <= 122)
}

/// A byte that an atom can start with.
pub open spec fn starts_atom(c: u8) -> bool {
    c == QUOTE || c == OPEN_PAREN || c == OPEN_BRACKET || is_ident_byte(c)
}

/// Bytes read as the characters with the same codes.
pub open spec fn ascii_chars(b: Seq<u8>) -> Seq<char> {
    b.map_values(|x: u8| x as char)
}

/// The single byte `t` at offset `i`.
pub open spec fn spec_tag(s: Seq<u8>, i: int, t: u8) -> Outcome<()> {
    if i >= s.len() {
        Outcome::Incomplete
    } else if s[i] == t {
        Outcome::Done(i + 1, ())
    } else {
        Outcome::Fail(i, ErrorKind::Tag)
    }
}

/// The byte at offset `i`, if an atom can start with it.
pub open spec fn spec_atom_tag(s: Seq<u8>, i: int) -> Outcome<u8> {
    if i >= s.len() {
        Outcome::Incomplete
    } else if starts_atom(s[i]) {
        Outcome::Done(i + 1, s[i])
    } else {
        Outcome::Fail(i, ErrorKind::TakeWhileMN)
    }
}

/// The letter at offset `i`.
pub open spec fn spec_is_ident_start(s: Seq<u8>, i: int) -> Outcome<u8> {
    if i >= s.len() {
        Outcome::Incomplete
    } else if is_ident_byte(s[i]) {
        Outcome::Done(i + 1, s[i])
    } else {
        Outcome::Fail(i, ErrorKind::TakeWhileMN)
    }
}

/// The offset of the first byte at or after `i` that is not a letter, if
/// there is one.
pub open spec fn ident_end(s: Seq<u8>, i: int) -> Option<int>
    decreases s.len() - i,
{
    if i < 0 || i >= s.len() {
        None
    } else if !is_ident_byte(s[i]) {
        Some(i)
    } else {
        ident_end(s, i + 1)
    }
}

/// The longest non-empty run of letters at offset `i`; undecided while the
/// run reaches the end of the input.
pub open spec fn spec_parse_ident(s: Seq<u8>, i: int) -> Outcome<Seq<char>> {
    if i >= s.len() {
        Outcome::Incomplete
    } else if !is_ident_byte(s[i]) {
        Outcome::Fail(i, ErrorKind::TakeWhile1)
    } else {
        match ident_end(s, i) {
            Some(k) => Outcome::Done(k, ascii_chars(s.subrange(i, k))),
            None => Outcome::Incomplete,
        }
    }
}

/// A backslash followed by a quote, at offset `i`.
pub open spec fn spec_escape(s: Seq<u8>, i: int) -> Outcome<()> {
    match spec_tag(s, i, BACKSLASH) {
        Outcome::Done(j, _) => spec_tag(s, j, QUOTE),
        o => failed(o),
    }
}

/// The body of a string literal from offset `i`: it ends before the first
/// quote that is not escaped; the only escape is a backslash before a quote.
pub open spec fn spec_string_inner(s: Seq<u8>, i: int) -> Outcome<()>
    decreases s.len() - i,
{
    if i < 0 || i >= s.len() {
        Outcome::Incomplete
    } else if s[i] == QUOTE {
        Outcome::Done(i, ())
    } else if s[i] == BACKSLASH {
        match spec_escape(s, i) {
            Outcome::Done(_, _) => spec_string_inner(s, i + 2),
            o => failed(o),
        }
    } else {
        spec_string_inner(s, i + 1)
    }
}

/// A string literal at offset `i`; its value is the bytes between the quotes.
pub open spec fn spec_parse_string(s: Seq<u8>, i: int) -> Outcome<Seq<u8>> {
    match spec_tag(s, i, QUOTE) {
        Outcome::Done(j, _) => match spec_string_inner(s, j) {
            Outcome::Done(k, _) => match spec_tag(s, k, QUOTE) {
                Outcome::Done(m, _) => Outcome::Done(m, s.subrange(j, k)),
                o => failed(o),
            },
            o => failed(o),
        },
        o => failed(o),
    }
}

/// A non-empty comma-separated sequence of atoms at offset `i`, whose values
/// are appended to `acc`. Undecided while the input ends right after an
/// atom. (An atom always reads at least one byte, so `i < j` below always
/// holds: see `laws::law_atom_streaming_progress`.)
pub open spec fn spec_list_inner(s: Seq<u8>, i: int, acc: Seq<SpecAtom>) -> Outcome<
    Seq<SpecAtom>,
>
    decreases s.len() - i, 3int,
{
    match spec_atom_streaming(s, i) {
        Outcome::Done(j, a) => if i < j && j < s.len() && s[j] == COMMA {
            spec_list_inner(s, j + 1, acc.push(a))
        } else if i < j && j < s.len() {
            Outcome::Done(j, acc.push(a))
        } else {
            Outcome::Incomplete
        },
        o => failed(o),
    }
}

/// The atoms between an `open` byte at offset `i` and a `close` byte.
pub open spec fn spec_delimited_items(s: Seq<u8>, i: int, open: u8, close: u8) -> Outcome<
    Seq<SpecAtom>,
>
    decreases s.len() - i, 0int,
{
    match spec_tag(s, i, open) {
        Outcome::Done(j, _) => match spec_list_inner(s, j, Seq::empty()) {
            Outcome::Done(k, xs) => match spec_tag(s, k, close) {
                Outcome::Done(m, _) => Outcome::Done(m, xs),
                o => failed(o),
            },
            o => failed(o),
        },
        o => failed(o),
    }
}

/// A tuple `( .. )` at offset `i`.
pub open spec fn spec_parse_tuple(s: Seq<u8>, i: int) -> Outcome<Seq<SpecAtom>> {
    spec_delimited_items(s, i, OPEN_PAREN, CLOSE_PAREN)
}

/// A list `[ .. ]` at offset `i`.
pub open spec fn spec_parse_list(s: Seq<u8>, i: int) -> Outcome<Seq<SpecAtom>> {
    spec_delimited_items(s, i, OPEN_BRACKET, CLOSE_BRACKET)
}

/// One atom at offset `i`: a string, a tuple, a list or an identifier,
/// chosen by its first byte.
pub open spec fn spec_atom1(s: Seq<u8>, i: int) -> Outcome<SpecAtom>
    decreases s.len() - i, 1int,
{
    match spec_atom_tag(s, i) {
        Outcome::Done(_, c) => if c == QUOTE {
            match spec_parse_string(s, i) {
                Outcome::Done(j, b) => Outcome::Done(j, SpecAtom::String(b)),
                o => failed(o),
            }
        } else if c == OPEN_PAREN {
            match spec_delimited_items(s, i, OPEN_PAREN, CLOSE_PAREN) {
                Outcome::Done(j, xs) => Outcome::Done(j, SpecAtom::Tuple(xs)),
                o => failed(o),
            }
        } else if c == OPEN_BRACKET {
            match spec_delimited_items(s, i, OPEN_BRACKET, CLOSE_BRACKET) {
                Outcome::Done(j, xs) => Outcome::Done(j, SpecAtom::List(xs)),
                o => failed(o),
            }
        } else {
            match spec_parse_ident(s, i) {
                Outcome::Done(j, id) => Outcome::Done(j, SpecAtom::Ident(id)),
                o => failed(o),
            }
        },
        o => failed(o),
    }
}

/// One or more atoms written one after the other from offset `i`, nested to
/// the right: `a b c` is `Apply(a, Apply(b, c))`. Undecided while the input
/// ends right after an atom. (`i < j` below always holds: see
/// `laws::law_atom1_progress`.)
pub open spec fn spec_atom_streaming(s: Seq<u8>, i: int) -> Outcome<SpecAtom>
    decreases s.len() - i, 2int,
{
    match spec_atom1(s, i) {
        Outcome::Done(j, lhs) => if i < j {
            match spec_atom_tag(s, j) {
                Outcome::Done(_, _) => match spec_atom_streaming(s, j) {
                    Outcome::Done(k, rhs) => Outcome::Done(
                        k,
                        SpecAtom::Apply(Box::new(lhs), Box::new(rhs)),
                    ),
                    o => failed(o),
                },
                Outcome::Fail(_, _) => Outcome::Done(j, lhs),
                Outcome::Incomplete => Outcome::Incomplete,
            }
        } else {
            Outcome::Incomplete
        },
        o => failed(o),
    }
}

/// Atoms written one after the other from offset `i` up to the end of the
/// input, nested to the right. (`i < j` below always holds: see
/// `laws::law_atom1_progress`.)
pub open spec fn spec_atom_complete(s: Seq<u8>, i: int) -> Outcome<SpecAtom>
    decreases s.len() - i,
{
    match spec_atom1(s, i) {
        Outcome::Done(j, lhs) => if j >= s.len() {
            Outcome::Done(j, lhs)
        } else if i < j {
            match spec_atom_complete(s, j) {
                Outcome::Done(k, rhs) => Outcome::Done(
                    k,
                    SpecAtom::Apply(Box::new(lhs), Box::new(rhs)),
                ),
                o => failed(o),
            }
        } else {
            Outcome::Incomplete
        },
        o => failed(o),
    }
}

/// A whole derivation: exactly two atoms, such as `Derive` and a tuple, and
/// nothing after them.
pub open spec fn spec_drv_atom(s: Seq<u8>) -> Outcome<SpecAtom> {
    match spec_atom1(s, 0) {
        Outcome::Done(j, lhs) => match spec_atom1(s, j) {
            Outcome::Done(k, rhs) => if k == s.len() {
                Outcome::Done(k, SpecAtom::Apply(Box::new(lhs), Box::new(rhs)))
            } else {
                Outcome::Fail(k, ErrorKind::Eof)
            },
            o => failed(o),
        },
        o => failed(o),
    }
}

} // verus!
