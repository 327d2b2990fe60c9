//! The derivation record, and how it is read out of an [`Atom`] tree.
//!
//! A derivation is written `Derive(outputs, inputDrvs, inputSrcs, platform,
//! builder, args, env)`: an application of the identifier `Derive` to a tuple
//! of seven fields, each read as the type of the matching field of [`Derive`].
use vstd::prelude::*;

use crate::atom::{atom_view, atoms_view, lemma_atoms_view, Atom, SpecAtom};
use crate::de::{spec_text, Deserializer};

verus! {

/// The name of an output, such as `out`.
pub type OutputName = String;

/// An output of the derivation.
#[derive(Clone, Debug)]
pub struct Output {
    pub name: OutputName,
    pub path: String,
    pub hash_algo: String,
    pub hash: String,
}

/// A derivation that this one depends on, and which of its outputs it uses.
#[derive(Clone, Debug)]
pub struct Input {
    pub path: String,
    pub outputs: Vec<OutputName>,
}

/// The fields of a derivation.
#[derive(Clone, Debug)]
pub struct Derive {
    pub outputs: Vec<Output>,
    pub input_drvs: Vec<Input>,
    pub input_srcs: Vec<String>,
    pub platform: String,
    pub builder: String,
    pub args: Vec<String>,
    pub env: Vec<(String, String)>,
}

/// A derivation, by the form it is written in.
#[derive(Clone, Debug)]
pub enum Derivation {
    Derive(Derive),
}

/// The value of an [`Output`].
pub struct OutputView {
    pub name: Seq<char>,
    pub path: Seq<char>,
    pub hash_algo: Seq<char>,
    pub hash: Seq<char>,
}

/// The value of an [`Input`].
pub struct InputView {
    pub path: Seq<char>,
    pub outputs: Seq<Seq<char>>,
}

/// The value of a [`Derive`].
pub struct DeriveView {
    pub outputs: Seq<OutputView>,
    pub input_drvs: Seq<InputView>,
    pub input_srcs: Seq<Seq<char>>,
    pub platform: Seq<char>,
    pub builder: Seq<char>,
    pub args: Seq<Seq<char>>,
    pub env: Seq<(Seq<char>, Seq<char>)>,
}

/// The texts of a sequence of strings.
pub open spec fn texts_view(v: Seq<String>) -> Seq<Seq<char>> {
    v.map_values(|s: String| s@)
}

impl View for Output {
    type V = OutputView;

    open spec fn view(&self) -> OutputView {
        OutputView { name: self.name@, path: self.path@, hash_algo: self.hash_algo@, hash: self.hash@ }
    }
}

impl View for Input {
    type V = InputView;

    open spec fn view(&self) -> InputView {
        InputView { path: self.path@, outputs: texts_view(self.outputs@) }
    }
}

impl View for Derive {
    type V = DeriveView;

    open spec fn view(&self) -> DeriveView {
        DeriveView {
            outputs: self.outputs@.map_values(|o: Output| o@),
            input_drvs: self.input_drvs@.map_values(|i: Input| i@),
            input_srcs: texts_view(self.input_srcs@),
            platform: self.platform@,
            builder: self.builder@,
            args: texts_view(self.args@),
            env: self.env@.map_values(|e: (String, String)| (e.0@, e.1@)),
        }
    }
}

impl View for Derivation {
    type V = DeriveView;

    open spec fn view(&self) -> DeriveView {
        match self {
            Derivation::Derive(d) => d@,
        }
    }
}

/// A list of texts.
pub open spec fn spec_texts(a: SpecAtom) -> Option<Seq<Seq<char>>> {
    match a {
        SpecAtom::List(xs) => if forall|k: int| 0 <= k < xs.len() ==> (#[trigger] spec_text(xs[k])) is Some {
            Some(Seq::new(xs.len(), |k: int| spec_text(xs[k])->0))
        } else {
            None
        },
        _ => None,
    }
}

/// A list of outputs.
pub open spec fn spec_outputs(a: SpecAtom) -> Option<Seq<OutputView>> {
    match a {
        SpecAtom::List(xs) => if forall|k: int| 0 <= k < xs.len() ==> (#[trigger] spec_output(xs[k])) is Some {
            Some(Seq::new(xs.len(), |k: int| spec_output(xs[k])->0))
        } else {
            None
        },
        _ => None,
    }
}

/// A list of input derivations.
pub open spec fn spec_inputs(a: SpecAtom) -> Option<Seq<InputView>> {
    match a {
        SpecAtom::List(xs) => if forall|k: int| 0 <= k < xs.len() ==> (#[trigger] spec_input(xs[k])) is Some {
            Some(Seq::new(xs.len(), |k: int| spec_input(xs[k])->0))
        } else {
            None
        },
        _ => None,
    }
}

/// A list of environment entries.
pub open spec fn spec_env(a: SpecAtom) -> Option<Seq<(Seq<char>, Seq<char>)>> {
    match a {
        SpecAtom::List(xs) => if forall|k: int| 0 <= k < xs.len() ==> (#[trigger] spec_env_entry(xs[k])) is Some {
            Some(Seq::new(xs.len(), |k: int| spec_env_entry(xs[k])->0))
        } else {
            None
        },
        _ => None,
    }
}

/// An output: a tuple of four texts, the name, the path, the hash algorithm
/// and the hash.
pub open spec fn spec_output(a: SpecAtom) -> Option<OutputView> {
    match a {
        SpecAtom::Tuple(xs) => if xs.len() == 4 && spec_text(xs[0]) is Some && spec_text(
            xs[1],
        ) is Some && spec_text(xs[2]) is Some && spec_text(xs[3]) is Some {
            Some(
                OutputView {
                    name: spec_text(xs[0])->0,
                    path: spec_text(xs[1])->0,
                    hash_algo: spec_text(xs[2])->0,
                    hash: spec_text(xs[3])->0,
                },
            )
        } else {
            None
        },
        _ => None,
    }
}

/// An input derivation: a tuple of a text, the path, and a list of texts,
/// the output names.
pub open spec fn spec_input(a: SpecAtom) -> Option<InputView> {
    match a {
        SpecAtom::Tuple(xs) => if xs.len() == 2 && spec_text(xs[0]) is Some && spec_texts(
            xs[1],
        ) is Some {
            Some(InputView { path: spec_text(xs[0])->0, outputs: spec_texts(xs[1])->0 })
        } else {
            None
        },
        _ => None,
    }
}

/// An environment entry: a tuple of two texts.
pub open spec fn spec_env_entry(a: SpecAtom) -> Option<(Seq<char>, Seq<char>)> {
    match a {
        SpecAtom::Tuple(xs) => if xs.len() == 2 && spec_text(xs[0]) is Some && spec_text(
            xs[1],
        ) is Some {
            Some((spec_text(xs[0])->0, spec_text(xs[1])->0))
        } else {
            None
        },
        _ => None,
    }
}

/// The fields of a derivation: a tuple of seven atoms, read in order as a
/// list of outputs, a list of input derivations, a list of texts, two texts,
/// a list of texts and a list of environment entries.
pub open spec fn spec_derive(a: SpecAtom) -> Option<DeriveView> {
    match a {
        SpecAtom::Tuple(xs) => {
            let outputs = spec_outputs(xs[0]);
            let input_drvs = spec_inputs(xs[1]);
            let input_srcs = spec_texts(xs[2]);
            let platform = spec_text(xs[3]);
            let builder = spec_text(xs[4]);
            let args = spec_texts(xs[5]);
            let env = spec_env(xs[6]);
            if xs.len() == 7 && outputs is Some && input_drvs is Some && input_srcs is Some
                && platform is Some && builder is Some && args is Some && env is Some {
                Some(
                    DeriveView {
                        outputs: outputs->0,
                        input_drvs: input_drvs->0,
                        input_srcs: input_srcs->0,
                        platform: platform->0,
                        builder: builder->0,
                        args: args->0,
                        env: env->0,
                    },
                )
            } else {
                None
            }
        },
        _ => None,
    }
}

/// The characters of `Derive`.
pub open spec fn derive_name() -> Seq<char> {
    seq!['D', 'e', 'r', 'i', 'v', 'e']
}

/// A derivation: the identifier `Derive` applied to its fields.
pub open spec fn spec_derivation(a: SpecAtom) -> Option<DeriveView> {
    match a {
        SpecAtom::Apply(k, v) => if *k == SpecAtom::Ident(derive_name()) {
            spec_derive(*v)
        } else {
            None
        },
        _ => None,
    }
}

/// A text, as an owned string.
pub fn text_of(a: &Atom) -> (r: Option<String>)
    ensures
        r is Some <==> spec_text(a@) is Some,
        r matches Some(s) ==> s@ == spec_text(a@)->0,
{
    match Deserializer::new(a).text() {
        Some(s) => Some(s.to_owned()),
        None => None,
    }
}

/// A list of texts.
pub fn texts_of(a: &Atom) -> (r: Option<Vec<String>>)
    ensures
        r is Some <==> spec_texts(a@) is Some,
        r matches Some(v) ==> texts_view(v@) == spec_texts(a@)->0,
{
    let xs = match Deserializer::new(a).seq_elements() {
        Some(xs) => xs,
        None => return None,
    };
    let ghost sx = atoms_view(xs@);
    proof {
        lemma_atoms_view(xs@);
    }
    let mut out: Vec<String> = Vec::new();
    let mut k: usize = 0;
    while k < xs.len()
        invariant
            k <= xs@.len(),
            sx == atoms_view(xs@),
            sx.len() == xs@.len(),
            a@ == SpecAtom::List(sx),
            forall|m: int| 0 <= m < xs@.len() ==> #[trigger] sx[m] == atom_view(xs@[m]),
            out@.len() == k,
            forall|m: int| 0 <= m < k ==> spec_text(#[trigger] sx[m]) == Some(out@[m]@),
        decreases xs@.len() - k,
    {
        match text_of(&xs[k]) {
            Some(s) => out.push(s),
            None => {
                assert(spec_text(sx[k as int]) is None);
                return None;
            },
        }
        k = k + 1;
    }
    assert(texts_view(out@) =~= spec_texts(a@)->0);
    Some(out)
}

/// An output, read as a record of four fields.
pub fn output_of(a: &Atom) -> (r: Option<Output>)
    ensures
        r is Some <==> spec_output(a@) is Some,
        r matches Some(o) ==> o@ == spec_output(a@)->0,
{
    let xs = match Deserializer::new(a).struct_elements(4) {
        Some(xs) => xs,
        None => return None,
    };
    proof {
        lemma_atoms_view(xs@);
    }
    let name = match text_of(&xs[0]) {
        Some(t) => t,
        None => return None,
    };
    let path = match text_of(&xs[1]) {
        Some(t) => t,
        None => return None,
    };
    let hash_algo = match text_of(&xs[2]) {
        Some(t) => t,
        None => return None,
    };
    let hash = match text_of(&xs[3]) {
        Some(t) => t,
        None => return None,
    };
    Some(Output { name, path, hash_algo, hash })
}

/// An input derivation, read as a record of two fields.
pub fn input_of(a: &Atom) -> (r: Option<Input>)
    ensures
        r is Some <==> spec_input(a@) is Some,
        r matches Some(i) ==> i@ == spec_input(a@)->0,
{
    let xs = match Deserializer::new(a).struct_elements(2) {
        Some(xs) => xs,
        None => return None,
    };
    proof {
        lemma_atoms_view(xs@);
    }
    let path = match text_of(&xs[0]) {
        Some(t) => t,
        None => return None,
    };
    let outputs = match texts_of(&xs[1]) {
        Some(t) => t,
        None => return None,
    };
    Some(Input { path, outputs })
}

/// An environment entry, read as a pair.
pub fn env_entry_of(a: &Atom) -> (r: Option<(String, String)>)
    ensures
        r is Some <==> spec_env_entry(a@) is Some,
        r matches Some(e) ==> (e.0@, e.1@) == spec_env_entry(a@)->0,
{
    let xs = match Deserializer::new(a).tuple_elements(2) {
        Some(xs) => xs,
        None => return None,
    };
    proof {
        lemma_atoms_view(xs@);
    }
    let name = match text_of(&xs[0]) {
        Some(t) => t,
        None => return None,
    };
    let value = match text_of(&xs[1]) {
        Some(t) => t,
        None => return None,
    };
    Some((name, value))
}

/// A list of outputs.
pub fn outputs_of(a: &Atom) -> (r: Option<Vec<Output>>)
    ensures
        r is Some <==> spec_outputs(a@) is Some,
        r matches Some(v) ==> v@.map_values(|o: Output| o@) == spec_outputs(a@)->0,
{
    let xs = match Deserializer::new(a).seq_elements() {
        Some(xs) => xs,
        None => return None,
    };
    let ghost sx = atoms_view(xs@);
    proof {
        lemma_atoms_view(xs@);
    }
    let mut out: Vec<Output> = Vec::new();
    let mut k: usize = 0;
    while k < xs.len()
        invariant
            k <= xs@.len(),
            sx == atoms_view(xs@),
            sx.len() == xs@.len(),
            a@ == SpecAtom::List(sx),
            forall|m: int| 0 <= m < xs@.len() ==> #[trigger] sx[m] == atom_view(xs@[m]),
            out@.len() == k,
            forall|m: int| 0 <= m < k ==> spec_output(#[trigger] sx[m]) == Some(out@[m]@),
        decreases xs@.len() - k,
    {
        match output_of(&xs[k]) {
            Some(o) => out.push(o),
            None => {
                assert(spec_output(sx[k as int]) is None);
                return None;
            },
        }
        k = k + 1;
    }
    assert(out@.map_values(|o: Output| o@) =~= spec_outputs(a@)->0);
    Some(out)
}

/// A list of input derivations.
pub fn inputs_of(a: &Atom) -> (r: Option<Vec<Input>>)
    ensures
        r is Some <==> spec_inputs(a@) is Some,
        r matches Some(v) ==> v@.map_values(|i: Input| i@) == spec_inputs(a@)->0,
{
    let xs = match Deserializer::new(a).seq_elements() {
        Some(xs) => xs,
        None => return None,
    };
    let ghost sx = atoms_view(xs@);
    proof {
        lemma_atoms_view(xs@);
    }
    let mut out: Vec<Input> = Vec::new();
    let mut k: usize = 0;
    while k < xs.len()
        invariant
            k <= xs@.len(),
            sx == atoms_view(xs@),
            sx.len() == xs@.len(),
            a@ == SpecAtom::List(sx),
            forall|m: int| 0 <= m < xs@.len() ==> #[trigger] sx[m] == atom_view(xs@[m]),
            out@.len() == k,
            forall|m: int| 0 <= m < k ==> spec_input(#[trigger] sx[m]) == Some(out@[m]@),
        decreases xs@.len() - k,
    {
        match input_of(&xs[k]) {
            Some(i) => out.push(i),
            None => {
                assert(spec_input(sx[k as int]) is None);
                return None;
            },
        }
        k = k + 1;
    }
    assert(out@.map_values(|i: Input| i@) =~= spec_inputs(a@)->0);
    Some(out)
}

/// A list of environment entries.
pub fn env_of(a: &Atom) -> (r: Option<Vec<(String, String)>>)
    ensures
        r is Some <==> spec_env(a@) is Some,
        r matches Some(v) ==> v@.map_values(|e: (String, String)| (e.0@, e.1@)) == spec_env(
            a@,
        )->0,
{
    let xs = match Deserializer::new(a).seq_elements() {
        Some(xs) => xs,
        None => return None,
    };
    let ghost sx = atoms_view(xs@);
    proof {
        lemma_atoms_view(xs@);
    }
    let mut out: Vec<(String, String)> = Vec::new();
    let mut k: usize = 0;
    while k < xs.len()
        invariant
            k <= xs@.len(),
            sx == atoms_view(xs@),
            sx.len() == xs@.len(),
            a@ == SpecAtom::List(sx),
            forall|m: int| 0 <= m < xs@.len() ==> #[trigger] sx[m] == atom_view(xs@[m]),
            out@.len() == k,
            forall|m: int|
                0 <= m < k ==> spec_env_entry(#[trigger] sx[m]) == Some(
                    (out@[m].0@, out@[m].1@),
                ),
        decreases xs@.len() - k,
    {
        match env_entry_of(&xs[k]) {
            Some(e) => out.push(e),
            None => {
                assert(spec_env_entry(sx[k as int]) is None);
                return None;
            },
        }
        k = k + 1;
    }
    assert(out@.map_values(|e: (String, String)| (e.0@, e.1@)) =~= spec_env(a@)->0);
    Some(out)
}

/// The fields of a derivation, read as a record of seven fields.
pub fn derive_of(a: &Atom) -> (r: Option<Derive>)
    ensures
        r is Some <==> spec_derive(a@) is Some,
        r matches Some(d) ==> d@ == spec_derive(a@)->0,
{
    let xs = match Deserializer::new(a).struct_elements(7) {
        Some(xs) => xs,
        None => return None,
    };
    proof {
        lemma_atoms_view(xs@);
    }
    let outputs = match outputs_of(&xs[0]) {
        Some(t) => t,
        None => return None,
    };
    let input_drvs = match inputs_of(&xs[1]) {
        Some(t) => t,
        None => return None,
    };
    let input_srcs = match texts_of(&xs[2]) {
        Some(t) => t,
        None => return None,
    };
    let platform = match text_of(&xs[3]) {
        Some(t) => t,
        None => return None,
    };
    let builder = match text_of(&xs[4]) {
        Some(t) => t,
        None => return None,
    };
    let args = match texts_of(&xs[5]) {
        Some(t) => t,
        None => return None,
    };
    let env = match env_of(&xs[6]) {
        Some(t) => t,
        None => return None,
    };
    Some(Derive { outputs, input_drvs, input_srcs, platform, builder, args, env })
}

/// A derivation: the identifier `Derive` applied to its fields.
pub fn derivation_of(a: &Atom) -> (r: Option<Derivation>)
    ensures
        r is Some <==> spec_derivation(a@) is Some,
        r matches Some(d) ==> d@ == spec_derivation(a@)->0,
{
    let (k, v) = match Deserializer::new(a).enum_parts() {
        Some(parts) => parts,
        None => return None,
    };
    let id = match k.identifier() {
        Some(id) => id,
        None => return None,
    };
    let expected = "Derive".to_owned();
    proof {
        reveal_strlit("Derive");
        assert("Derive"@ =~= derive_name());
    }
    if id.to_owned() != expected {
        return None;
    }
    match derive_of(v.atom()) {
        Some(d) => Some(Derivation::Derive(d)),
        None => None,
    }
}

} // verus!
