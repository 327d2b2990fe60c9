//! Properties of the derivation syntax that hold for every input.
use vstd::prelude::*;

use crate::atom::SpecAtom;
use crate::error::ErrorKind;
use crate::grammar::{
    ident_end, spec_atom1, spec_atom_streaming, spec_atom_tag, spec_delimited_items,
    spec_drv_atom, spec_escape, spec_list_inner, spec_parse_ident, spec_parse_string,
    spec_string_inner, Outcome, BACKSLASH, COMMA, QUOTE,
};

verus! {

/// The first non-letter found from `i` lies at or after `i`, within the input.
proof fn lemma_ident_end_bounds(s: Seq<u8>, i: int)
    ensures
        ident_end(s, i) matches Some(k) ==> 0 <= i <= k < s.len(),
    decreases s.len() - i,
{
    if 0 <= i < s.len() {
        lemma_ident_end_bounds(s, i + 1);
    }
}

/// A string body that ends, ends at a quote at or after its start.
proof fn lemma_string_inner_bounds(s: Seq<u8>, i: int)
    ensures
        spec_string_inner(s, i) matches Outcome::Done(k, _) ==> 0 <= i <= k < s.len() && s[k]
            == QUOTE,
        spec_string_inner(s, i) matches Outcome::Fail(k, _) ==> 0 <= i <= k < s.len(),
    decreases s.len() - i,
{
    if 0 <= i < s.len() && s[i] != QUOTE {
        if s[i] == BACKSLASH {
            if spec_escape(s, i) is Done {
                lemma_string_inner_bounds(s, i + 2);
            }
        } else {
            lemma_string_inner_bounds(s, i + 1);
        }
    }
}

/// Every item of a non-empty sequence of atoms reads at least one byte, and
/// none past the end.
pub proof fn law_list_inner_progress(s: Seq<u8>, i: int, acc: Seq<SpecAtom>)
    requires
        0 <= i,
    ensures
        spec_list_inner(s, i, acc) matches Outcome::Done(j, _) ==> i < j < s.len(),
        spec_list_inner(s, i, acc) matches Outcome::Fail(p, _) ==> i <= p <= s.len(),
    decreases s.len() - i, 3int,
{
    law_atom_streaming_progress(s, i);
    if let Outcome::Done(j, a) = spec_atom_streaming(s, i) {
        if i < j && j < s.len() && s[j] == COMMA {
            law_list_inner_progress(s, j + 1, acc.push(a));
        }
    }
}

/// A bracketed sequence reads at least its two brackets, and no byte past the end.
pub proof fn law_delimited_progress(s: Seq<u8>, i: int, open: u8, close: u8)
    requires
        0 <= i,
    ensures
        spec_delimited_items(s, i, open, close) matches Outcome::Done(j, _) ==> i + 2 <= j
            <= s.len(),
        spec_delimited_items(s, i, open, close) matches Outcome::Fail(p, _) ==> i <= p <= s.len(),
    decreases s.len() - i, 0int,
{
    if i < s.len() && s[i] == open {
        law_list_inner_progress(s, i + 1, Seq::empty());
    }
}

/// An atom reads at least one byte, and no byte past the end.
pub proof fn law_atom1_progress(s: Seq<u8>, i: int)
    requires
        0 <= i,
    ensures
        spec_atom1(s, i) matches Outcome::Done(j, _) ==> i < j <= s.len(),
        spec_atom1(s, i) matches Outcome::Fail(p, _) ==> i <= p <= s.len(),
    decreases s.len() - i, 1int,
{
    if i < s.len() {
        lemma_ident_end_bounds(s, i + 1);
        lemma_string_inner_bounds(s, i + 1);
        law_delimited_progress(s, i, crate::grammar::OPEN_PAREN, crate::grammar::CLOSE_PAREN);
        law_delimited_progress(
            s,
            i,
            crate::grammar::OPEN_BRACKET,
            crate::grammar::CLOSE_BRACKET,
        );
    }
}

/// Atoms written one after the other read at least one byte, and no byte
/// past the end.
pub proof fn law_atom_streaming_progress(s: Seq<u8>, i: int)
    requires
        0 <= i,
    ensures
        spec_atom_streaming(s, i) matches Outcome::Done(j, _) ==> i < j <= s.len(),
        spec_atom_streaming(s, i) matches Outcome::Fail(p, _) ==> i <= p <= s.len(),
    decreases s.len() - i, 2int,
{
    law_atom1_progress(s, i);
    if let Outcome::Done(j, _) = spec_atom1(s, i) {
        if i < j && j < s.len() {
            law_atom_streaming_progress(s, j);
        }
    }
}

proof fn lemma_ident_end_ext(s: Seq<u8>, t: Seq<u8>, i: int)
    requires
        0 <= i,
        ident_end(s, i) is Some,
    ensures
        ident_end(s + t, i) == ident_end(s, i),
    decreases s.len() - i,
{
    if is_letter_at(s, i) {
        lemma_ident_end_ext(s, t, i + 1);
    }
}

spec fn is_letter_at(s: Seq<u8>, i: int) -> bool {
    0 <= i < s.len() && crate::grammar::is_ident_byte(s[i])
}

proof fn lemma_parse_ident_ext(s: Seq<u8>, t: Seq<u8>, i: int)
    requires
        0 <= i,
        !(spec_parse_ident(s, i) is Incomplete),
    ensures
        spec_parse_ident(s + t, i) == spec_parse_ident(s, i),
{
    if i < s.len() && crate::grammar::is_ident_byte(s[i]) {
        lemma_ident_end_ext(s, t, i);
        lemma_ident_end_bounds(s, i);
        let k = ident_end(s, i)->0;
        assert((s + t).subrange(i, k) =~= s.subrange(i, k));
    }
}

proof fn lemma_string_inner_ext(s: Seq<u8>, t: Seq<u8>, i: int)
    requires
        0 <= i,
        !(spec_string_inner(s, i) is Incomplete),
    ensures
        spec_string_inner(s + t, i) == spec_string_inner(s, i),
    decreases s.len() - i,
{
    if i < s.len() && s[i] != QUOTE {
        if s[i] == BACKSLASH {
            if spec_escape(s, i) is Done {
                lemma_string_inner_ext(s, t, i + 2);
            }
        } else {
            lemma_string_inner_ext(s, t, i + 1);
        }
    }
}

proof fn lemma_parse_string_ext(s: Seq<u8>, t: Seq<u8>, i: int)
    requires
        0 <= i,
        !(spec_parse_string(s, i) is Incomplete),
    ensures
        spec_parse_string(s + t, i) == spec_parse_string(s, i),
{
    if i < s.len() && s[i] == QUOTE {
        lemma_string_inner_ext(s, t, i + 1);
        lemma_string_inner_bounds(s, i + 1);
        if let Outcome::Done(k, _) = spec_string_inner(s, i + 1) {
            assert((s + t).subrange(i + 1, k) =~= s.subrange(i + 1, k));
        }
    }
}

/// A sequence of atoms whose outcome is decided keeps that outcome when
/// bytes are appended to the input.
pub proof fn law_list_inner_final(s: Seq<u8>, t: Seq<u8>, i: int, acc: Seq<SpecAtom>)
    requires
        0 <= i,
        !(spec_list_inner(s, i, acc) is Incomplete),
    ensures
        spec_list_inner(s + t, i, acc) == spec_list_inner(s, i, acc),
    decreases s.len() - i, 3int,
{
    law_atom_streaming_final(s, t, i);
    if let Outcome::Done(j, a) = spec_atom_streaming(s, i) {
        if i < j && j < s.len() && s[j] == COMMA {
            law_list_inner_final(s, t, j + 1, acc.push(a));
        }
    }
}

/// A bracketed sequence whose outcome is decided keeps that outcome when
/// bytes are appended to the input.
pub proof fn law_delimited_final(s: Seq<u8>, t: Seq<u8>, i: int, open: u8, close: u8)
    requires
        0 <= i,
        !(spec_delimited_items(s, i, open, close) is Incomplete),
    ensures
        spec_delimited_items(s + t, i, open, close) == spec_delimited_items(s, i, open, close),
    decreases s.len() - i, 0int,
{
    if i < s.len() && s[i] == open {
        law_list_inner_final(s, t, i + 1, Seq::empty());
        law_list_inner_progress(s, i + 1, Seq::empty());
    }
}

/// An atom whose outcome is decided keeps that outcome when bytes are
/// appended to the input.
pub proof fn law_atom1_final(s: Seq<u8>, t: Seq<u8>, i: int)
    requires
        0 <= i,
        !(spec_atom1(s, i) is Incomplete),
    ensures
        spec_atom1(s + t, i) == spec_atom1(s, i),
    decreases s.len() - i, 1int,
{
    if i < s.len() {
        let c = s[i];
        if c == QUOTE {
            lemma_parse_string_ext(s, t, i);
        } else if c == crate::grammar::OPEN_PAREN {
            law_delimited_final(
                s,
                t,
                i,
                crate::grammar::OPEN_PAREN,
                crate::grammar::CLOSE_PAREN,
            );
        } else if c == crate::grammar::OPEN_BRACKET {
            law_delimited_final(
                s,
                t,
                i,
                crate::grammar::OPEN_BRACKET,
                crate::grammar::CLOSE_BRACKET,
            );
        } else if crate::grammar::is_ident_byte(c) {
            lemma_parse_ident_ext(s, t, i);
        }
    }
}

/// Atoms written one after the other whose outcome is decided keep that
/// outcome when bytes are appended to the input: a streaming parse that did
/// not ask for more bytes gives the same answer whatever comes next.
pub proof fn law_atom_streaming_final(s: Seq<u8>, t: Seq<u8>, i: int)
    requires
        0 <= i,
        !(spec_atom_streaming(s, i) is Incomplete),
    ensures
        spec_atom_streaming(s + t, i) == spec_atom_streaming(s, i),
    decreases s.len() - i, 2int,
{
    law_atom1_final(s, t, i);
    if let Outcome::Done(j, _) = spec_atom1(s, i) {
        if i < j && j < s.len() {
            if spec_atom_tag(s, j) is Done {
                law_atom_streaming_final(s, t, j);
            }
        }
    }
}

/// A derivation parse that fails fails the same way whatever bytes are
/// appended; one that succeeds refuses any appended bytes, at the old end of
/// the input.
pub proof fn law_drv_atom_extension(s: Seq<u8>, t: Seq<u8>)
    ensures
        spec_drv_atom(s) is Fail ==> spec_drv_atom(s + t) == spec_drv_atom(s),
        spec_drv_atom(s) is Done && t.len() > 0 ==> spec_drv_atom(s + t) == Outcome::<
            SpecAtom,
        >::Fail(s.len() as int, ErrorKind::Eof),
{
    law_atom1_progress(s, 0);
    if !(spec_atom1(s, 0) is Incomplete) {
        law_atom1_final(s, t, 0);
        if let Outcome::Done(j, _) = spec_atom1(s, 0) {
            law_atom1_progress(s, j);
            if !(spec_atom1(s, j) is Incomplete) {
                law_atom1_final(s, t, j);
            }
        }
    }
}

/// A derivation parse that succeeds reads the whole input, and gives an atom
/// applied to an atom, neither of which is itself an application.
pub proof fn law_drv_atom_shape(s: Seq<u8>)
    ensures
        spec_drv_atom(s) matches Outcome::Done(k, a) ==> {
            &&& k == s.len()
            &&& a matches SpecAtom::Apply(l, r) && !(*l is Apply) && !(*r is Apply)
        },
{
}

/// An outcome with its offsets moved `d` bytes further.
pub open spec fn shifted<T>(o: Outcome<T>, d: int) -> Outcome<T> {
    match o {
        Outcome::Done(j, v) => Outcome::Done(j + d, v),
        Outcome::Fail(p, k) => Outcome::Fail(p + d, k),
        Outcome::Incomplete => Outcome::Incomplete,
    }
}

proof fn lemma_ident_end_skip(s: Seq<u8>, d: int, i: int)
    requires
        0 <= d <= i,
        d <= s.len(),
    ensures
        ident_end(s, i) == match ident_end(s.skip(d), i - d) {
            Some(k) => Some(k + d),
            None => None,
        },
    decreases s.len() - i,
{
    if i < s.len() {
        lemma_ident_end_skip(s, d, i + 1);
    }
}

proof fn lemma_string_inner_skip(s: Seq<u8>, d: int, i: int)
    requires
        0 <= d <= i,
        d <= s.len(),
    ensures
        spec_string_inner(s, i) == shifted(spec_string_inner(s.skip(d), i - d), d),
    decreases s.len() - i,
{
    if i < s.len() && s[i] != QUOTE {
        if s[i] == BACKSLASH {
            if spec_escape(s, i) is Done {
                lemma_string_inner_skip(s, d, i + 2);
            }
        } else {
            lemma_string_inner_skip(s, d, i + 1);
        }
    }
}

proof fn lemma_parse_ident_skip(s: Seq<u8>, d: int, i: int)
    requires
        0 <= d <= i,
        d <= s.len(),
    ensures
        spec_parse_ident(s, i) == shifted(spec_parse_ident(s.skip(d), i - d), d),
{
    if i < s.len() && crate::grammar::is_ident_byte(s[i]) {
        lemma_ident_end_skip(s, d, i);
        lemma_ident_end_bounds(s, i);
        if let Some(k) = ident_end(s, i) {
            assert(s.skip(d).subrange(i - d, k - d) =~= s.subrange(i, k));
        }
    }
}

proof fn lemma_parse_string_skip(s: Seq<u8>, d: int, i: int)
    requires
        0 <= d <= i,
        d <= s.len(),
    ensures
        spec_parse_string(s, i) == shifted(spec_parse_string(s.skip(d), i - d), d),
{
    if i < s.len() && s[i] == QUOTE {
        lemma_string_inner_skip(s, d, i + 1);
        lemma_string_inner_bounds(s, i + 1);
        if let Outcome::Done(k, _) = spec_string_inner(s, i + 1) {
            assert(s.skip(d).subrange(i + 1 - d, k - d) =~= s.subrange(i + 1, k));
        }
    }
}

/// A sequence of atoms reads only the bytes from where it starts: parsing
/// the input with its first `d` bytes cut off gives the same outcome, with
/// offsets `d` smaller.
pub proof fn law_list_inner_local(s: Seq<u8>, d: int, i: int, acc: Seq<SpecAtom>)
    requires
        0 <= d <= i,
        d <= s.len(),
    ensures
        spec_list_inner(s, i, acc) == shifted(spec_list_inner(s.skip(d), i - d, acc), d),
    decreases s.len() - i, 3int,
{
    law_atom_streaming_local(s, d, i);
    if let Outcome::Done(j, a) = spec_atom_streaming(s, i) {
        if i < j && j < s.len() && s[j] == COMMA {
            law_list_inner_local(s, d, j + 1, acc.push(a));
        }
    }
}

/// A bracketed sequence reads only the bytes from where it starts.
pub proof fn law_delimited_local(s: Seq<u8>, d: int, i: int, open: u8, close: u8)
    requires
        0 <= d <= i,
        d <= s.len(),
    ensures
        spec_delimited_items(s, i, open, close) == shifted(
            spec_delimited_items(s.skip(d), i - d, open, close),
            d,
        ),
    decreases s.len() - i, 0int,
{
    if i < s.len() && s[i] == open {
        law_list_inner_local(s, d, i + 1, Seq::empty());
        law_list_inner_progress(s, i + 1, Seq::empty());
    }
}

/// An atom reads only the bytes from where it starts.
pub proof fn law_atom1_local(s: Seq<u8>, d: int, i: int)
    requires
        0 <= d <= i,
        d <= s.len(),
    ensures
        spec_atom1(s, i) == shifted(spec_atom1(s.skip(d), i - d), d),
    decreases s.len() - i, 1int,
{
    if i < s.len() {
        let c = s[i];
        if c == QUOTE {
            lemma_parse_string_skip(s, d, i);
        } else if c == crate::grammar::OPEN_PAREN {
            law_delimited_local(s, d, i, crate::grammar::OPEN_PAREN, crate::grammar::CLOSE_PAREN);
        } else if c == crate::grammar::OPEN_BRACKET {
            law_delimited_local(
                s,
                d,
                i,
                crate::grammar::OPEN_BRACKET,
                crate::grammar::CLOSE_BRACKET,
            );
        } else if crate::grammar::is_ident_byte(c) {
            lemma_parse_ident_skip(s, d, i);
        }
    }
}

/// Atoms written one after the other read only the bytes from where they
/// start: parsing at an offset is parsing the rest of the input.
pub proof fn law_atom_streaming_local(s: Seq<u8>, d: int, i: int)
    requires
        0 <= d <= i,
        d <= s.len(),
    ensures
        spec_atom_streaming(s, i) == shifted(spec_atom_streaming(s.skip(d), i - d), d),
    decreases s.len() - i, 2int,
{
    law_atom1_local(s, d, i);
    if let Outcome::Done(j, _) = spec_atom1(s, i) {
        if i < j && j < s.len() {
            if spec_atom_tag(s, j) is Done {
                law_atom_streaming_local(s, d, j);
            }
        }
    }
}

/// An ASCII letter.
pub open spec fn is_letter(c: char) -> bool {
    ('A' <= c <= 'Z') || ('a' <= c <= 'z')
}

/// Bytes that, followed by a quote, read as a string body that ends at that
/// quote: every quote among them is escaped, and every backslash escapes a quote.
pub open spec fn string_body(b: Seq<u8>) -> bool {
    spec_string_inner(b.push(QUOTE), 0) == Outcome::<()>::Done(b.len() as int, ())
}

/// The shape of the atoms that the parsers give: identifiers are non-empty
/// runs of letters, strings are string bodies, tuples and lists are not
/// empty, and the left side of an application is never an application.
pub open spec fn wf_atom(a: SpecAtom) -> bool
    decreases a,
{
    match a {
        SpecAtom::Ident(cs) => cs.len() > 0 && forall|k: int|
            0 <= k < cs.len() ==> is_letter(#[trigger] cs[k]),
        SpecAtom::String(b) => string_body(b),
        SpecAtom::Tuple(xs) => xs.len() > 0 && wf_atoms(xs),
        SpecAtom::List(xs) => xs.len() > 0 && wf_atoms(xs),
        SpecAtom::Apply(l, r) => !(*l is Apply) && wf_atom(*l) && wf_atom(*r),
    }
}

/// Every atom of the sequence has the shape of [`wf_atom`].
pub open spec fn wf_atoms(xs: Seq<SpecAtom>) -> bool
    decreases xs,
{
    if xs.len() == 0 {
        true
    } else {
        wf_atoms(xs.subrange(0, xs.len() - 1)) && wf_atom(xs[xs.len() - 1])
    }
}

/// A string body reads no byte past the quote it ends at.
proof fn lemma_string_inner_agree(s: Seq<u8>, t: Seq<u8>, i: int, k: int)
    requires
        0 <= i,
        spec_string_inner(s, i) == Outcome::<()>::Done(k, ()),
        k < t.len(),
        forall|m: int| i <= m <= k ==> #[trigger] t[m] == s[m],
    ensures
        spec_string_inner(t, i) == Outcome::<()>::Done(k, ()),
    decreases s.len() - i,
{
    lemma_string_inner_bounds(s, i);
    if s[i] != QUOTE {
        if s[i] == BACKSLASH {
            lemma_string_inner_bounds(s, i + 2);
            assert(t[i + 1] == s[i + 1]);
            lemma_string_inner_agree(s, t, i + 2, k);
        } else {
            lemma_string_inner_agree(s, t, i + 1, k);
        }
    }
}

proof fn lemma_parse_string_wf(s: Seq<u8>, i: int)
    requires
        0 <= i,
    ensures
        spec_parse_string(s, i) matches Outcome::Done(_, b) ==> string_body(b),
{
    if i < s.len() && s[i] == QUOTE {
        lemma_string_inner_bounds(s, i + 1);
        if let Outcome::Done(k, _) = spec_string_inner(s, i + 1) {
            let b = s.subrange(i + 1, k);
            let u = s.skip(i + 1);
            lemma_string_inner_skip(s, i + 1, i + 1);
            assert(spec_string_inner(u, 0) == Outcome::<()>::Done(k - i - 1, ()));
            let t = b.push(QUOTE);
            assert forall|m: int| 0 <= m <= k - i - 1 implies #[trigger] t[m] == u[m] by {
                if m < b.len() {
                    assert(t[m] == b[m]);
                } else {
                    assert(u[m] == s[k]);
                }
            }
            lemma_string_inner_agree(u, t, 0, k - i - 1);
        }
    }
}

proof fn lemma_parse_ident_wf(s: Seq<u8>, i: int)
    requires
        0 <= i,
    ensures
        spec_parse_ident(s, i) matches Outcome::Done(_, cs) ==> cs.len() > 0 && forall|k: int|
            0 <= k < cs.len() ==> is_letter(#[trigger] cs[k]),
{
    if i < s.len() && crate::grammar::is_ident_byte(s[i]) {
        lemma_ident_end_bounds(s, i + 1);
        lemma_ident_end_letters(s, i);
        if let Some(e) = ident_end(s, i) {
            let cs = crate::grammar::ascii_chars(s.subrange(i, e));
            assert forall|k: int| 0 <= k < cs.len() implies is_letter(#[trigger] cs[k]) by {
                let x = s[i + k];
                assert(crate::grammar::is_ident_byte(x));
                assert(cs[k] == x as char);
            }
        }
    }
}

/// The bytes from `i` up to the first non-letter are letters.
proof fn lemma_ident_end_letters(s: Seq<u8>, i: int)
    ensures
        ident_end(s, i) matches Some(e) ==> forall|m: int|
            i <= m < e ==> crate::grammar::is_ident_byte(#[trigger] s[m]),
    decreases s.len() - i,
{
    if 0 <= i < s.len() && crate::grammar::is_ident_byte(s[i]) {
        lemma_ident_end_letters(s, i + 1);
    }
}

proof fn lemma_wf_atoms_push(xs: Seq<SpecAtom>, a: SpecAtom)
    ensures
        wf_atoms(xs.push(a)) == (wf_atoms(xs) && wf_atom(a)),
{
    assert(xs.push(a).subrange(0, xs.len() as int) =~= xs);
}

/// The atoms of a sequence are well formed, and there is at least one.
pub proof fn law_list_inner_wf(s: Seq<u8>, i: int, acc: Seq<SpecAtom>)
    requires
        0 <= i,
        wf_atoms(acc),
    ensures
        spec_list_inner(s, i, acc) matches Outcome::Done(_, xs) ==> wf_atoms(xs) && xs.len()
            > acc.len(),
    decreases s.len() - i, 3int,
{
    law_atom_streaming_wf(s, i);
    if let Outcome::Done(j, a) = spec_atom_streaming(s, i) {
        lemma_wf_atoms_push(acc, a);
        if i < j && j < s.len() && s[j] == COMMA {
            law_list_inner_wf(s, j + 1, acc.push(a));
        }
    }
}

/// The atoms between brackets are well formed, and there is at least one.
pub proof fn law_delimited_wf(s: Seq<u8>, i: int, open: u8, close: u8)
    requires
        0 <= i,
    ensures
        spec_delimited_items(s, i, open, close) matches Outcome::Done(_, xs) ==> wf_atoms(xs)
            && xs.len() > 0,
    decreases s.len() - i, 0int,
{
    if i < s.len() && s[i] == open {
        law_list_inner_wf(s, i + 1, Seq::empty());
    }
}

/// One atom is well formed, and is not an application.
pub proof fn law_atom1_wf(s: Seq<u8>, i: int)
    requires
        0 <= i,
    ensures
        spec_atom1(s, i) matches Outcome::Done(_, a) ==> wf_atom(a) && !(a is Apply),
    decreases s.len() - i, 1int,
{
    if i < s.len() {
        lemma_parse_string_wf(s, i);
        lemma_parse_ident_wf(s, i);
        law_delimited_wf(s, i, crate::grammar::OPEN_PAREN, crate::grammar::CLOSE_PAREN);
        law_delimited_wf(s, i, crate::grammar::OPEN_BRACKET, crate::grammar::CLOSE_BRACKET);
    }
}

/// Atoms written one after the other give a well-formed atom.
pub proof fn law_atom_streaming_wf(s: Seq<u8>, i: int)
    requires
        0 <= i,
    ensures
        spec_atom_streaming(s, i) matches Outcome::Done(_, a) ==> wf_atom(a),
    decreases s.len() - i, 2int,
{
    law_atom1_wf(s, i);
    if let Outcome::Done(j, _) = spec_atom1(s, i) {
        if i < j && j < s.len() {
            law_atom_streaming_wf(s, j);
        }
    }
}

/// A parsed derivation is a well-formed atom.
pub proof fn law_drv_atom_wf(s: Seq<u8>)
    ensures
        spec_drv_atom(s) matches Outcome::Done(_, a) ==> wf_atom(a),
{
    law_atom1_wf(s, 0);
    law_atom1_progress(s, 0);
    if let Outcome::Done(j, _) = spec_atom1(s, 0) {
        law_atom1_wf(s, j);
    }
}

/// Characters written as the bytes with the same codes.
pub open spec fn char_bytes(cs: Seq<char>) -> Seq<u8> {
    cs.map_values(|c: char| c as u8)
}

/// The bytes that write an atom: an identifier as its letters, a string
/// between quotes, a tuple or a list as its comma-separated elements between
/// brackets, and an application as its two sides one after the other.
pub open spec fn written(a: SpecAtom) -> Seq<u8>
    decreases a,
{
    match a {
        SpecAtom::Ident(cs) => char_bytes(cs),
        SpecAtom::String(b) => seq![QUOTE] + b + seq![QUOTE],
        SpecAtom::Tuple(xs) => seq![crate::grammar::OPEN_PAREN] + written_items(xs) + seq![
            crate::grammar::CLOSE_PAREN,
        ],
        SpecAtom::List(xs) => seq![crate::grammar::OPEN_BRACKET] + written_items(xs) + seq![
            crate::grammar::CLOSE_BRACKET,
        ],
        SpecAtom::Apply(l, r) => written(*l) + written(*r),
    }
}

/// The bytes that write a sequence of atoms, separated by commas.
pub open spec fn written_items(xs: Seq<SpecAtom>) -> Seq<u8>
    decreases xs,
{
    if xs.len() == 0 {
        Seq::empty()
    } else if xs.len() == 1 {
        written(xs[0])
    } else {
        written(xs[0]) + seq![COMMA] + written_items(xs.subrange(1, xs.len() as int))
    }
}

proof fn lemma_parse_string_written(s: Seq<u8>, i: int)
    requires
        0 <= i,
    ensures
        spec_parse_string(s, i) matches Outcome::Done(j, b) ==> s.subrange(i, j) == written(
            SpecAtom::String(b),
        ),
{
    if i < s.len() && s[i] == QUOTE {
        lemma_string_inner_bounds(s, i + 1);
        if let Outcome::Done(k, _) = spec_string_inner(s, i + 1) {
            assert(s.subrange(i, k + 1) =~= seq![QUOTE] + s.subrange(i + 1, k) + seq![QUOTE]);
        }
    }
}

proof fn lemma_parse_ident_written(s: Seq<u8>, i: int)
    requires
        0 <= i,
    ensures
        spec_parse_ident(s, i) matches Outcome::Done(j, cs) ==> s.subrange(i, j) == written(
            SpecAtom::Ident(cs),
        ),
{
    if i < s.len() && crate::grammar::is_ident_byte(s[i]) {
        lemma_ident_end_bounds(s, i + 1);
        if let Some(e) = ident_end(s, i) {
            let b = s.subrange(i, e);
            let cs = crate::grammar::ascii_chars(b);
            assert forall|k: int| 0 <= k < b.len() implies #[trigger] char_bytes(cs)[k] == b[k] by {
                let x = b[k];
                assert(cs[k] == x as char);
                assert((x as char) as u8 == x);
            }
            assert(char_bytes(cs) =~= b);
        }
    }
}

/// The bytes that a sequence of atoms reads are the writing of the atoms it
/// adds to `acc`, of which there is at least one.
pub proof fn law_list_inner_reads_written(s: Seq<u8>, i: int, acc: Seq<SpecAtom>)
    requires
        0 <= i,
    ensures
        spec_list_inner(s, i, acc) matches Outcome::Done(j, res) ==> {
            &&& res.len() > acc.len()
            &&& res.subrange(0, acc.len() as int) == acc
            &&& s.subrange(i, j) == written_items(res.subrange(acc.len() as int, res.len() as int))
        },
    decreases s.len() - i, 3int,
{
    law_atom_streaming_reads_written(s, i);
    law_atom_streaming_progress(s, i);
    if let Outcome::Done(j, a) = spec_atom_streaming(s, i) {
        if i < j && j < s.len() && s[j] == COMMA {
            law_list_inner_reads_written(s, j + 1, acc.push(a));
            law_list_inner_progress(s, j + 1, acc.push(a));
            if let Outcome::Done(k, res) = spec_list_inner(s, j + 1, acc.push(a)) {
                let ys = res.subrange(acc.len() as int, res.len() as int);
                let rest = res.subrange(acc.len() as int + 1, res.len() as int);
                assert(res.subrange(0, acc.len() as int + 1) == acc.push(a));
                assert(res.subrange(0, acc.len() as int) =~= acc) by {
                    assert(res.subrange(0, acc.len() as int) =~= res.subrange(
                        0,
                        acc.len() as int + 1,
                    ).subrange(0, acc.len() as int));
                }
                assert(ys[0] == res[acc.len() as int]);
                assert(res[acc.len() as int] == res.subrange(0, acc.len() as int + 1)[acc.len() as int]);
                assert(ys.subrange(1, ys.len() as int) =~= rest);
                assert(ys.len() > 1);
                assert(s.subrange(i, k) =~= s.subrange(i, j) + seq![COMMA] + s.subrange(j + 1, k));
            }
        } else if i < j && j < s.len() {
            let res = acc.push(a);
            assert(res.subrange(0, acc.len() as int) =~= acc);
            assert(res.subrange(acc.len() as int, res.len() as int) =~= seq![a]);
        }
    }
}

/// The bytes that a bracketed sequence reads are the writing of its atoms
/// between its brackets.
pub proof fn law_delimited_reads_written(s: Seq<u8>, i: int, open: u8, close: u8)
    requires
        0 <= i,
    ensures
        spec_delimited_items(s, i, open, close) matches Outcome::Done(j, xs) ==> s.subrange(i, j)
            == seq![open] + written_items(xs) + seq![close],
    decreases s.len() - i, 0int,
{
    if i < s.len() && s[i] == open {
        law_list_inner_reads_written(s, i + 1, Seq::empty());
        law_list_inner_progress(s, i + 1, Seq::empty());
        if let Outcome::Done(k, xs) = spec_list_inner(s, i + 1, Seq::empty()) {
            assert(xs.subrange(0, xs.len() as int) =~= xs);
            if k < s.len() && s[k] == close {
                assert(s.subrange(i, k + 1) =~= seq![open] + s.subrange(i + 1, k) + seq![close]);
            }
        }
    }
}

/// The bytes that an atom reads are the writing of the atom it gives.
pub proof fn law_atom1_reads_written(s: Seq<u8>, i: int)
    requires
        0 <= i,
    ensures
        spec_atom1(s, i) matches Outcome::Done(j, a) ==> s.subrange(i, j) == written(a),
    decreases s.len() - i, 1int,
{
    if i < s.len() {
        lemma_parse_string_written(s, i);
        lemma_parse_ident_written(s, i);
        law_delimited_reads_written(s, i, crate::grammar::OPEN_PAREN, crate::grammar::CLOSE_PAREN);
        law_delimited_reads_written(
            s,
            i,
            crate::grammar::OPEN_BRACKET,
            crate::grammar::CLOSE_BRACKET,
        );
    }
}

/// The bytes that atoms written one after the other read are the writing of
/// the atom they give.
pub proof fn law_atom_streaming_reads_written(s: Seq<u8>, i: int)
    requires
        0 <= i,
    ensures
        spec_atom_streaming(s, i) matches Outcome::Done(j, a) ==> s.subrange(i, j) == written(a),
    decreases s.len() - i, 2int,
{
    law_atom1_reads_written(s, i);
    law_atom1_progress(s, i);
    if let Outcome::Done(j, _) = spec_atom1(s, i) {
        if i < j && j < s.len() {
            law_atom_streaming_reads_written(s, j);
            law_atom_streaming_progress(s, j);
            if let Outcome::Done(k, _) = spec_atom_streaming(s, j) {
                assert(s.subrange(i, k) =~= s.subrange(i, j) + s.subrange(j, k));
            }
        }
    }
}

/// A parsed derivation is the writing of the atom it gives: the input is
/// exactly the two atoms one after the other.
pub proof fn law_drv_atom_reads_written(s: Seq<u8>)
    ensures
        spec_drv_atom(s) matches Outcome::Done(_, a) ==> s == written(a),
{
    law_atom1_reads_written(s, 0);
    law_atom1_progress(s, 0);
    if let Outcome::Done(j, _) = spec_atom1(s, 0) {
        law_atom1_reads_written(s, j);
        law_atom1_progress(s, j);
        if let Outcome::Done(k, _) = spec_atom1(s, j) {
            if k == s.len() {
                assert(s =~= s.subrange(0, j) + s.subrange(j, k));
            }
        }
    }
}

/// Where an atom parser can refuse the input: at a byte of the input, either
/// one that cannot start an atom where an atom is expected, or one that is
/// not the expected delimiter (never a quote).
pub open spec fn refusal_at(s: Seq<u8>, p: int, k: ErrorKind) -> bool {
    &&& 0 <= p < s.len()
    &&& k == ErrorKind::TakeWhileMN ==> !crate::grammar::starts_atom(s[p])
    &&& k == ErrorKind::Tag ==> s[p] != QUOTE
    &&& k == ErrorKind::TakeWhileMN || k == ErrorKind::Tag
}

/// A sequence of atoms refuses only at a byte of the input, as [`refusal_at`] says.
pub proof fn law_list_inner_refusal(s: Seq<u8>, i: int, acc: Seq<SpecAtom>)
    requires
        0 <= i,
    ensures
        spec_list_inner(s, i, acc) matches Outcome::Fail(p, k) ==> refusal_at(s, p, k),
        spec_list_inner(s, i, acc) matches Outcome::Done(j, _) ==> !crate::grammar::starts_atom(
            s[j],
        ) && s[j] != COMMA,
    decreases s.len() - i, 3int,
{
    law_atom_streaming_refusal(s, i);
    if let Outcome::Done(j, a) = spec_atom_streaming(s, i) {
        if i < j && j < s.len() && s[j] == COMMA {
            law_list_inner_refusal(s, j + 1, acc.push(a));
        }
    }
}

/// A bracketed sequence that starts with its opening bracket refuses only at
/// a byte of the input, as [`refusal_at`] says.
pub proof fn law_delimited_refusal(s: Seq<u8>, i: int, open: u8, close: u8)
    requires
        0 <= i,
    ensures
        i < s.len() && s[i] == open ==> (spec_delimited_items(s, i, open, close) matches Outcome::Fail(
            p,
            k,
        ) ==> refusal_at(s, p, k)),
    decreases s.len() - i, 0int,
{
    if i < s.len() && s[i] == open {
        law_list_inner_refusal(s, i + 1, Seq::empty());
        law_list_inner_progress(s, i + 1, Seq::empty());
    }
}

proof fn lemma_string_inner_refusal(s: Seq<u8>, i: int)
    ensures
        spec_string_inner(s, i) matches Outcome::Fail(p, k) ==> k == ErrorKind::Tag && 0 <= p
            < s.len() && s[p] != QUOTE,
    decreases s.len() - i,
{
    if 0 <= i < s.len() && s[i] != QUOTE {
        if s[i] == BACKSLASH {
            if spec_escape(s, i) is Done {
                lemma_string_inner_refusal(s, i + 2);
            }
        } else {
            lemma_string_inner_refusal(s, i + 1);
        }
    }
}

/// An atom refuses only at a byte of the input, as [`refusal_at`] says.
pub proof fn law_atom1_refusal(s: Seq<u8>, i: int)
    requires
        0 <= i,
    ensures
        spec_atom1(s, i) matches Outcome::Fail(p, k) ==> refusal_at(s, p, k),
    decreases s.len() - i, 1int,
{
    if i < s.len() {
        lemma_string_inner_refusal(s, i + 1);
        lemma_string_inner_bounds(s, i + 1);
        law_delimited_refusal(s, i, crate::grammar::OPEN_PAREN, crate::grammar::CLOSE_PAREN);
        law_delimited_refusal(s, i, crate::grammar::OPEN_BRACKET, crate::grammar::CLOSE_BRACKET);
    }
}

/// Atoms written one after the other refuse only at a byte of the input, as
/// [`refusal_at`] says; when they succeed, the byte after them cannot start
/// an atom.
pub proof fn law_atom_streaming_refusal(s: Seq<u8>, i: int)
    requires
        0 <= i,
    ensures
        spec_atom_streaming(s, i) matches Outcome::Fail(p, k) ==> refusal_at(s, p, k),
        spec_atom_streaming(s, i) matches Outcome::Done(j, _) ==> j < s.len()
            && !crate::grammar::starts_atom(s[j]),
    decreases s.len() - i, 2int,
{
    law_atom1_refusal(s, i);
    if let Outcome::Done(j, _) = spec_atom1(s, i) {
        if i < j && j < s.len() {
            law_atom_streaming_refusal(s, j);
        }
    }
}

/// A derivation parse refuses either inside its atoms, as [`refusal_at`]
/// says, or with `Eof` at a byte that follows its two atoms.
pub proof fn law_drv_atom_refusal(s: Seq<u8>)
    ensures
        spec_drv_atom(s) matches Outcome::Fail(p, k) ==> refusal_at(s, p, k) || (k
            == ErrorKind::Eof && 0 < p < s.len()),
{
    law_atom1_refusal(s, 0);
    law_atom1_progress(s, 0);
    if let Outcome::Done(j, _) = spec_atom1(s, 0) {
        law_atom1_refusal(s, j);
        law_atom1_progress(s, j);
    }
}

} // verus!
