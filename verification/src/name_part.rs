//! The fragments that the name of a type is made of.

use vstd::prelude::*;

verus! {

/// One fragment of a name: a piece of literal text, or a symbol that stands
/// between pieces of text. Both are written as they are.
#[derive(Debug, PartialEq, Eq, Hash)]
pub enum NamePart {
    /// Literal text, such as the name of a type.
    Text(String),
    /// Punctuation that holds a composed name together.
    Symbol(String),
}

/// What a fragment holds.
pub enum PartShape {
    Text(Seq<char>),
    Symbol(Seq<char>),
}

impl PartShape {
    /// The characters that the fragment adds to a name.
    pub open spec fn text(self) -> Seq<char> {
        match self {
            PartShape::Text(s) => s,
            PartShape::Symbol(s) => s,
        }
    }
}

impl View for NamePart {
    type V = PartShape;

    open spec fn view(&self) -> PartShape {
        match self {
            NamePart::Text(s) => PartShape::Text(s@),
            NamePart::Symbol(s) => PartShape::Symbol(s@),
        }
    }
}

impl Clone for NamePart {
    fn clone(&self) -> (r: Self)
        ensures
            r@ == self@,
    {
        match self {
            NamePart::Text(s) => NamePart::Text(s.clone()),
            NamePart::Symbol(s) => NamePart::Symbol(s.clone()),
        }
    }
}

/// What the fragments of a list hold.
pub open spec fn part_shapes(parts: Seq<NamePart>) -> Seq<PartShape> {
    Seq::new(parts.len(), |i: int| parts[i]@)
}

/// The name that the fragments make: their characters, one fragment after the
/// other.
pub open spec fn compose_spec(parts: Seq<PartShape>) -> Seq<char>
    decreases parts.len(),
{
    if parts.len() == 0 {
        Seq::empty()
    } else {
        compose_spec(parts.drop_last()) + parts.last().text()
    }
}

/// Composing two lists of fragments and joining the results gives what
/// composing the joined list gives.
pub proof fn lemma_compose_concat(a: Seq<PartShape>, b: Seq<PartShape>)
    ensures
        compose_spec(a + b) == compose_spec(a) + compose_spec(b),
    decreases b.len(),
{
    if b.len() == 0 {
        assert(a + b =~= a);
        assert(compose_spec(a) + compose_spec(b) =~= compose_spec(a));
    } else {
        assert((a + b).drop_last() =~= a + b.drop_last());
        assert((a + b).last() == b.last());
        lemma_compose_concat(a, b.drop_last());
        assert(compose_spec(a + b) =~= compose_spec(a) + compose_spec(b));
    }
}

/// A single fragment composes to its own characters.
pub proof fn lemma_compose_one(p: PartShape)
    ensures
        compose_spec(seq![p]) == p.text(),
{
    reveal_with_fuel(compose_spec, 2);
    assert(seq![p].drop_last() =~= Seq::<PartShape>::empty());
    assert(compose_spec(seq![p]) =~= p.text());
}

impl NamePart {
    /// A fragment of literal text.
    pub fn text(s: &str) -> (r: NamePart)
        ensures
            r@ == PartShape::Text(s@),
    {
        NamePart::Text(s.to_owned())
    }

    /// A fragment of punctuation.
    pub fn symbol(s: &str) -> (r: NamePart)
        ensures
            r@ == PartShape::Symbol(s@),
    {
        NamePart::Symbol(s.to_owned())
    }

    /// The characters of the fragment.
    pub fn as_str(&self) -> (r: &str)
        ensures
            r@ == self@.text(),
    {
        match self {
            NamePart::Text(s) => s.as_str(),
            NamePart::Symbol(s) => s.as_str(),
        }
    }
}

/// Composes the fragments into one name. No fragments make the empty name.
pub fn compose(parts: &Vec<NamePart>) -> (r: String)
    ensures
        r@ == compose_spec(part_shapes(parts@)),
{
    let mut out = String::new();
    let mut i: usize = 0;
    while i < parts.len()
        invariant
            i <= parts.len(),
            out@ == compose_spec(part_shapes(parts@).take(i as int)),
        decreases parts.len() - i,
    {
        out.append(parts[i].as_str());
        proof {
            let next = part_shapes(parts@).take(i + 1);
            assert(next.drop_last() =~= part_shapes(parts@).take(i as int));
            assert(next.last() == parts@[i as int]@);
        }
        i += 1;
    }
    proof {
        assert(part_shapes(parts@).take(parts.len() as int) =~= part_shapes(parts@));
    }
    out
}

} // verus!
