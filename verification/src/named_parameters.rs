//! Parameters that carry a name: the name shows in the declaration and is no
//! part of the value.

use crate::name_part::{part_shapes, NamePart, PartShape};
use crate::teal_type::{TealType, TypeShape};
use vstd::prelude::*;

verus! {

/// A parameter with the name under which it is declared.
#[derive(Debug, PartialEq, Eq)]
pub struct NamedParameter {
    /// Name of the parameter.
    pub name: String,
    /// Type of the parameter.
    pub teal_type: TealType,
}

/// What a named parameter holds.
pub struct ParameterShape {
    pub name: Seq<char>,
    pub teal_type: TypeShape,
}

impl View for NamedParameter {
    type V = ParameterShape;

    open spec fn view(&self) -> ParameterShape {
        ParameterShape { name: self.name@, teal_type: self.teal_type@ }
    }
}

impl ParameterShape {
    /// The fragments of one parameter: its name, a colon between spaces, and
    /// the fragments of its type.
    pub open spec fn parts(self) -> Seq<PartShape> {
        seq![PartShape::Symbol(self.name), PartShape::Symbol(" : "@)] + self.teal_type.parts()
    }
}

/// What the parameters of a list hold.
pub open spec fn parameter_shapes(params: Seq<NamedParameter>) -> Seq<ParameterShape> {
    Seq::new(params.len(), |i: int| params[i]@)
}

/// The fragments of a list of named parameters: those of each parameter,
/// with a comma between spaces between each two.
pub open spec fn named_parts(params: Seq<ParameterShape>) -> Seq<PartShape>
    decreases params.len(),
{
    if params.len() == 0 {
        Seq::empty()
    } else if params.len() == 1 {
        params[0].parts()
    } else {
        named_parts(params.drop_last()) + seq![PartShape::Symbol(" , "@)] + params.last().parts()
    }
}

/// The fragments under which a list of named parameters is written.
pub fn named_parameter_parts(params: &Vec<NamedParameter>) -> (r: Vec<NamePart>)
    requires
        params.len() > 0,
    ensures
        part_shapes(r@) == named_parts(parameter_shapes(params@)),
{
    let ghost all = parameter_shapes(params@);
    let mut out: Vec<NamePart> = Vec::new();
    let mut i: usize = 0;
    while i < params.len()
        invariant
            i <= params.len(),
            all == parameter_shapes(params@),
            part_shapes(out@) == named_parts(all.take(i as int)),
        decreases params.len() - i,
    {
        let ghost before = part_shapes(out@);
        if i > 0 {
            out.push(NamePart::symbol(" , "));
        }
        out.push(NamePart::symbol(params[i].name.as_str()));
        out.push(NamePart::symbol(" : "));
        let mut inner = params[i].teal_type.name_parts();
        out.append(&mut inner);
        proof {
            let next = all.take(i + 1);
            assert(next.drop_last() =~= all.take(i as int));
            assert(next.last() == all[i as int]);
            if i == 0 {
                assert(part_shapes(out@) =~= all[0].parts());
            } else {
                assert(part_shapes(out@) =~= before + seq![PartShape::Symbol(" , "@)]
                    + all[i as int].parts());
            }
        }
        i += 1;
    }
    proof {
        assert(all.take(params.len() as int) =~= all);
    }
    out
}

} // verus!
