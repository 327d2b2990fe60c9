//! What reading a derivation out of atoms gives, stated field by field in
//! terms of the atoms' bytes: which atoms are read, and which text each field
//! of the result holds.
use vstd::prelude::*;
use vstd::utf8::{decode_utf8, valid_utf8};

use crate::atom::SpecAtom;
use crate::de::{spec_char_byte, spec_text};
use crate::derivation::{
    spec_derivation, spec_derive, spec_env, spec_env_entry, spec_input, spec_inputs,
    spec_output, spec_outputs, spec_texts,
};

verus! {

/// A string atom whose bytes are valid UTF-8.
pub open spec fn is_utf8_string(a: SpecAtom) -> bool {
    a matches SpecAtom::String(b) && valid_utf8(b)
}

/// The decoding of the bytes of a string atom.
pub open spec fn decoded(a: SpecAtom) -> Seq<char> {
    match a {
        SpecAtom::String(b) => decode_utf8(b),
        _ => Seq::empty(),
    }
}

/// The elements of a list atom (none for another atom).
pub open spec fn list_elements(a: SpecAtom) -> Seq<SpecAtom> {
    match a {
        SpecAtom::List(ys) => ys,
        _ => Seq::empty(),
    }
}

/// Every element of `xs` is a string atom of valid UTF-8.
pub open spec fn all_utf8_strings(xs: Seq<SpecAtom>) -> bool {
    forall|k: int| 0 <= k < xs.len() ==> is_utf8_string(#[trigger] xs[k])
}

/// A text is read from exactly the string atoms of valid UTF-8, and it is
/// their decoding, whatever it holds (the empty text included).
pub proof fn law_text(a: SpecAtom)
    ensures
        spec_text(a) is Some <==> is_utf8_string(a),
        is_utf8_string(a) ==> spec_text(a) == Some(decoded(a)),
{
}

/// A character is read from exactly the string atoms of a single ASCII
/// byte, and it is that byte.
pub proof fn law_char_byte(a: SpecAtom)
    ensures
        spec_char_byte(a) is Some <==> (a matches SpecAtom::String(b) && b.len() == 1 && b[0] < 128),
        spec_char_byte(a) matches Some(c) ==> a == SpecAtom::String(seq![c]),
{
    if let SpecAtom::String(b) = a {
        if b.len() == 1 {
            assert(b =~= seq![b[0]]);
        }
    }
}

/// A list of texts is read from exactly the lists of string atoms of valid
/// UTF-8; it has one text per element, in order, each the decoding of its
/// element.
pub proof fn law_texts(xs: Seq<SpecAtom>)
    ensures
        spec_texts(SpecAtom::List(xs)) is Some <==> all_utf8_strings(xs),
        spec_texts(SpecAtom::List(xs)) matches Some(v) ==> {
            &&& v.len() == xs.len()
            &&& forall|k: int| 0 <= k < xs.len() ==> #[trigger] v[k] == decoded(xs[k])
        },
{
    if all_utf8_strings(xs) {
        assert forall|k: int| 0 <= k < xs.len() implies (#[trigger] spec_text(xs[k])) is Some by {
            assert(is_utf8_string(xs[k]));
        }
    }
    if spec_texts(SpecAtom::List(xs)) is Some {
        assert forall|k: int| 0 <= k < xs.len() implies is_utf8_string(#[trigger] xs[k]) by {
            assert(spec_text(xs[k]) is Some);
        }
    }
}

/// Only lists are read as lists of texts.
pub proof fn law_texts_need_a_list(a: SpecAtom)
    ensures
        !(a is List) ==> spec_texts(a) is None,
{
}

/// An output is read from exactly the tuples of four string atoms of valid
/// UTF-8, and its name, path, hash algorithm and hash are the decodings of
/// the first, second, third and fourth of them.
pub proof fn law_output(a: SpecAtom)
    ensures
        spec_output(a) is Some <==> (a matches SpecAtom::Tuple(xs) && xs.len() == 4
            && all_utf8_strings(xs)),
        spec_output(a) matches Some(o) ==> a matches SpecAtom::Tuple(xs) && {
            &&& o.name == decoded(xs[0])
            &&& o.path == decoded(xs[1])
            &&& o.hash_algo == decoded(xs[2])
            &&& o.hash == decoded(xs[3])
        },
{
    if let SpecAtom::Tuple(xs) = a {
        if xs.len() == 4 && all_utf8_strings(xs) {
            assert(is_utf8_string(xs[0]));
            assert(is_utf8_string(xs[1]));
            assert(is_utf8_string(xs[2]));
            assert(is_utf8_string(xs[3]));
        }
        if spec_output(a) is Some {
            assert forall|k: int| 0 <= k < xs.len() implies is_utf8_string(#[trigger] xs[k]) by {
                assert(k == 0 || k == 1 || k == 2 || k == 3);
            }
        }
    }
}

/// A list of outputs is read from exactly the lists whose every element is
/// read as an output; it has one output per element, in order.
pub proof fn law_outputs(xs: Seq<SpecAtom>)
    ensures
        spec_outputs(SpecAtom::List(xs)) is Some <==> forall|k: int|
            0 <= k < xs.len() ==> (#[trigger] spec_output(xs[k])) is Some,
        spec_outputs(SpecAtom::List(xs)) matches Some(v) ==> {
            &&& v.len() == xs.len()
            &&& forall|k: int| 0 <= k < xs.len() ==> spec_output(xs[k]) == Some(#[trigger] v[k])
        },
{
}

/// An input derivation is read from exactly the tuples of a string atom of
/// valid UTF-8 and a list of such string atoms; its path is the decoding of
/// the first, and its output names the decodings of the elements of the list,
/// one per element, in order.
pub proof fn law_input(a: SpecAtom)
    ensures
        spec_input(a) is Some <==> (a matches SpecAtom::Tuple(xs) && {
            &&& xs.len() == 2
            &&& is_utf8_string(xs[0])
            &&& xs[1] is List
            &&& all_utf8_strings(list_elements(xs[1]))
        }),
        spec_input(a) matches Some(i) ==> a matches SpecAtom::Tuple(xs) && {
            &&& i.path == decoded(xs[0])
            &&& i.outputs.len() == list_elements(xs[1]).len()
            &&& forall|k: int|
                0 <= k < list_elements(xs[1]).len() ==> #[trigger] i.outputs[k] == decoded(
                    list_elements(xs[1])[k],
                )
        },
{
    if let SpecAtom::Tuple(xs) = a {
        if xs.len() == 2 {
            if let SpecAtom::List(ys) = xs[1] {
                law_texts(ys);
            }
        }
    }
}

/// A list of input derivations is read from exactly the lists whose every
/// element is read as an input derivation; it has one per element, in order.
pub proof fn law_inputs(xs: Seq<SpecAtom>)
    ensures
        spec_inputs(SpecAtom::List(xs)) is Some <==> forall|k: int|
            0 <= k < xs.len() ==> (#[trigger] spec_input(xs[k])) is Some,
        spec_inputs(SpecAtom::List(xs)) matches Some(v) ==> {
            &&& v.len() == xs.len()
            &&& forall|k: int| 0 <= k < xs.len() ==> spec_input(xs[k]) == Some(#[trigger] v[k])
        },
{
}

/// An environment entry is read from exactly the tuples of two string atoms
/// of valid UTF-8, whatever they hold (empty texts included); its name and
/// value are their decodings, in that order.
pub proof fn law_env_entry(a: SpecAtom)
    ensures
        spec_env_entry(a) is Some <==> (a matches SpecAtom::Tuple(xs) && xs.len() == 2
            && all_utf8_strings(xs)),
        spec_env_entry(a) matches Some(e) ==> a matches SpecAtom::Tuple(xs) && e.0 == decoded(xs[0])
            && e.1 == decoded(xs[1]),
{
    if let SpecAtom::Tuple(xs) = a {
        if xs.len() == 2 && all_utf8_strings(xs) {
            assert(is_utf8_string(xs[0]));
            assert(is_utf8_string(xs[1]));
        }
        if spec_env_entry(a) is Some {
            assert forall|k: int| 0 <= k < xs.len() implies is_utf8_string(#[trigger] xs[k]) by {
                assert(k == 0 || k == 1);
            }
        }
    }
}

/// A list of environment entries is read from exactly the lists whose every
/// element is read as an entry; it has one entry per element, in order.
pub proof fn law_env(xs: Seq<SpecAtom>)
    ensures
        spec_env(SpecAtom::List(xs)) is Some <==> forall|k: int|
            0 <= k < xs.len() ==> (#[trigger] spec_env_entry(xs[k])) is Some,
        spec_env(SpecAtom::List(xs)) matches Some(v) ==> {
            &&& v.len() == xs.len()
            &&& forall|k: int| 0 <= k < xs.len() ==> spec_env_entry(xs[k]) == Some(#[trigger] v[k])
        },
{
}

/// Only lists are read as lists of outputs, input derivations or entries.
pub proof fn law_lists_need_a_list(a: SpecAtom)
    ensures
        !(a is List) ==> spec_outputs(a) is None && spec_inputs(a) is None && spec_env(a) is None,
{
}

/// The fields of a derivation are read from exactly the tuples of seven
/// atoms in which each is read as its field, whatever the texts they hold:
/// outputs, input derivations, input sources, platform, builder, arguments
/// and environment come from the first to the seventh, in that order.
pub proof fn law_derive(a: SpecAtom)
    ensures
        spec_derive(a) is Some <==> (a matches SpecAtom::Tuple(xs) && {
            &&& xs.len() == 7
            &&& spec_outputs(xs[0]) is Some
            &&& spec_inputs(xs[1]) is Some
            &&& spec_texts(xs[2]) is Some
            &&& is_utf8_string(xs[3])
            &&& is_utf8_string(xs[4])
            &&& spec_texts(xs[5]) is Some
            &&& spec_env(xs[6]) is Some
        }),
        spec_derive(a) matches Some(d) ==> a matches SpecAtom::Tuple(xs) && {
            &&& d.outputs == spec_outputs(xs[0])->0
            &&& d.input_drvs == spec_inputs(xs[1])->0
            &&& d.input_srcs == spec_texts(xs[2])->0
            &&& d.platform == decoded(xs[3])
            &&& d.builder == decoded(xs[4])
            &&& d.args == spec_texts(xs[5])->0
            &&& d.env == spec_env(xs[6])->0
        },
{
    if let SpecAtom::Tuple(xs) = a {
        law_text(xs[3]);
        law_text(xs[4]);
    }
}

/// A derivation is read from exactly an application of the identifier
/// `Derive` to an atom read as the fields of a derivation, and it is those
/// fields.
pub proof fn law_derivation(a: SpecAtom)
    ensures
        spec_derivation(a) is Some <==> (a matches SpecAtom::Apply(k, v) && *k == SpecAtom::Ident(
            seq!['D', 'e', 'r', 'i', 'v', 'e'],
        ) && spec_derive(*v) is Some),
        spec_derivation(a) matches Some(d) ==> a matches SpecAtom::Apply(_, v) && spec_derive(*v)
            == Some(d),
{
}

} // verus!
