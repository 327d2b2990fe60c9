//! The generic tree that the derivation syntax is made of.
use vstd::prelude::*;

verus! {

/// An identifier: a non-empty run of ASCII letters.
pub type Ident = String;

/// One syntactic element of a derivation file.
#[derive(Debug)]
pub enum Atom {
    /// A run of ASCII letters, such as `Derive`.
    Ident(Ident),
    /// The raw bytes between the quotes of a string literal; an escaped
    /// quote keeps its backslash.
    String(Vec<u8>),
    /// A parenthesised, comma-separated sequence.
    Tuple(Vec<Atom>),
    /// A bracketed, comma-separated sequence.
    List(Vec<Atom>),
    /// Two atoms written one after the other.
    Apply(Box<Atom>, Box<Atom>),
}

/// The mathematical value of an [`Atom`].
pub enum SpecAtom {
    Ident(Seq<char>),
    String(Seq<u8>),
    Tuple(Seq<SpecAtom>),
    List(Seq<SpecAtom>),
    Apply(Box<SpecAtom>, Box<SpecAtom>),
}

/// The value of an atom.
pub open spec fn atom_view(a: Atom) -> SpecAtom
    decreases a,
{
    match a {
        Atom::Ident(s) => SpecAtom::Ident(s@),
        Atom::String(b) => SpecAtom::String(b@),
        Atom::Tuple(v) => SpecAtom::Tuple(atoms_view(v@)),
        Atom::List(v) => SpecAtom::List(atoms_view(v@)),
        Atom::Apply(l, r) => SpecAtom::Apply(Box::new(atom_view(*l)), Box::new(atom_view(*r))),
    }
}

/// The values of a sequence of atoms, element by element.
pub open spec fn atoms_view(v: Seq<Atom>) -> Seq<SpecAtom>
    decreases v,
{
    if v.len() == 0 {
        Seq::empty()
    } else {
        atoms_view(v.subrange(0, v.len() - 1)).push(atom_view(v[v.len() - 1]))
    }
}

impl View for Atom {
    type V = SpecAtom;

    open spec fn view(&self) -> SpecAtom {
        atom_view(*self)
    }
}

/// The value of a sequence of atoms has one element per atom.
pub proof fn lemma_atoms_view(v: Seq<Atom>)
    ensures
        atoms_view(v).len() == v.len(),
        forall|k: int| 0 <= k < v.len() ==> #[trigger] atoms_view(v)[k] == atom_view(v[k]),
    decreases v.len(),
{
    if v.len() > 0 {
        lemma_atoms_view(v.subrange(0, v.len() - 1));
    }
}

/// Appending an atom appends its value.
pub proof fn lemma_atoms_view_push(v: Seq<Atom>, a: Atom)
    ensures
        atoms_view(v.push(a)) == atoms_view(v).push(atom_view(a)),
{
    assert(v.push(a).subrange(0, v.len() as int) =~= v);
}

/// A copy of `a` with the same value.
fn copy_atom(a: &Atom) -> (r: Atom)
    ensures
        r@ == a@,
    decreases a,
{
    match a {
        Atom::Ident(s) => Atom::Ident(s.clone()),
        Atom::String(b) => Atom::String(b.clone()),
        Atom::Tuple(v) => Atom::Tuple(copy_atoms(v)),
        Atom::List(v) => Atom::List(copy_atoms(v)),
        Atom::Apply(l, r) => Atom::Apply(Box::new(copy_atom(l)), Box::new(copy_atom(r))),
    }
}

/// A copy of `v`, element by element.
fn copy_atoms(v: &Vec<Atom>) -> (r: Vec<Atom>)
    ensures
        atoms_view(r@) == atoms_view(v@),
    decreases v,
{
    let mut r: Vec<Atom> = Vec::new();
    let mut k: usize = 0;
    while k < v.len()
        invariant
            k <= v.len(),
            atoms_view(r@) == atoms_view(v@.subrange(0, k as int)),
        decreases v.len() - k,
    {
        proof {
            assert(decreases_to!(v => v@[k as int]));
        }
        let c = copy_atom(&v[k]);
        proof {
            lemma_atoms_view_push(r@, c);
            lemma_atoms_view_push(v@.subrange(0, k as int), v@[k as int]);
            assert(v@.subrange(0, k as int).push(v@[k as int]) =~= v@.subrange(0, k + 1));
        }
        r.push(c);
        k = k + 1;
    }
    assert(v@.subrange(0, v.len() as int) =~= v@);
    r
}

impl Clone for Atom {
    fn clone(&self) -> (r: Self)
        ensures
            r@ == self@,
    {
        copy_atom(self)
    }
}

} // verus!
