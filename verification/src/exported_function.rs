//! The description of one function, and the declaration that is written for
//! it.

use crate::documentation::{doc_comment, Documentation};
use crate::lex::{compare_text, lemma_utf8_injective, Rank};
use crate::name_container::NameContainer;
use crate::sorted::{
    ascending, insert_by_key, keys_by, keys_of, lemma_ascending_unique, lemma_insert_contains,
    lemma_place_step, place_all, Keyed,
};
use crate::teal_type::{
    all_well_formed, all_wf, any_mentions, duplicate_all, lemma_function_shape, lemma_type_name,
    lemma_union_shape, names, shapes, type_key, TealType, TypeShape,
};
use crate::text::{
    decoded, is_outcome, join, join_text, lemma_lines_of_error, lemma_lines_of_step, lines_of, texts,
    DecodingError,
};
use vstd::prelude::*;
use vstd::utf8::encode_utf8;

verus! {

/// The key by which names are ordered: their UTF-8 bytes.
pub open spec fn text_key() -> spec_fn(Seq<char>) -> Seq<u8> {
    |n: Seq<char>| encode_utf8(n)
}

/// Every item is a type parameter, and they stand in ascending order of
/// name, so that none occurs twice.
pub open spec fn only_generics(found: Seq<TypeShape>) -> bool {
    &&& forall|i: int| 0 <= i < found.len() ==> #[trigger] found[i] is Generic
    &&& ascending(keys_by(found, type_key()))
}

/// `generics` are the type parameters of `types`: each parameter that occurs
/// in one of `types`, at any depth, and nothing else, once each, in ascending
/// order of name.
pub open spec fn is_generics_of(generics: Seq<TypeShape>, types: Seq<TypeShape>) -> bool {
    &&& only_generics(generics)
    &&& forall|n: Seq<char>| #[trigger]
        generics.contains(TypeShape::Generic(n)) <==> any_mentions(types, n)
}

/// A type parameter is written and ordered by its own name.
pub proof fn lemma_generic_key(n: Seq<char>)
    ensures
        TypeShape::Generic(n).name() == n,
        TypeShape::Generic(n).key() == encode_utf8(n),
{
    lemma_type_name(TypeShape::Generic(n));
}

/// The type parameters of a list of types are one sequence and no other.
pub proof fn lemma_generics_unique(a: Seq<TypeShape>, b: Seq<TypeShape>, types: Seq<TypeShape>)
    requires
        is_generics_of(a, types),
        is_generics_of(b, types),
    ensures
        a == b,
{
    let ka = keys_by(a, type_key());
    let kb = keys_by(b, type_key());
    assert forall|k: Seq<u8>| ka.contains(k) <==> kb.contains(k) by {
        if ka.contains(k) {
            let i = choose|i: int| 0 <= i < ka.len() && ka[i] == k;
            let n = a[i]->Generic_0;
            assert(a[i] == TypeShape::Generic(n));
            assert(a.contains(TypeShape::Generic(n)));
            assert(b.contains(TypeShape::Generic(n)));
            let j = choose|j: int| 0 <= j < b.len() && b[j] == TypeShape::Generic(n);
            assert(kb[j] == k);
        }
        if kb.contains(k) {
            let i = choose|i: int| 0 <= i < kb.len() && kb[i] == k;
            let n = b[i]->Generic_0;
            assert(b[i] == TypeShape::Generic(n));
            assert(b.contains(TypeShape::Generic(n)));
            assert(a.contains(TypeShape::Generic(n)));
            let j = choose|j: int| 0 <= j < a.len() && a[j] == TypeShape::Generic(n);
            assert(ka[j] == k);
        }
    }
    lemma_ascending_unique(ka, kb);
    assert(a.len() == ka.len() && b.len() == kb.len());
    assert forall|i: int| 0 <= i < a.len() implies a[i] == b[i] by {
        assert(ka[i] == a[i].key() && kb[i] == b[i].key());
        let n = a[i]->Generic_0;
        let m = b[i]->Generic_0;
        assert(a[i] == TypeShape::Generic(n));
        assert(b[i] == TypeShape::Generic(m));
        lemma_generic_key(n);
        lemma_generic_key(m);
        lemma_utf8_injective(n, m);
    }
    assert(a =~= b);
}

proof fn lemma_any_mentions_push(s: Seq<TypeShape>, t: TypeShape, n: Seq<char>)
    ensures
        any_mentions(s.push(t), n) <==> (any_mentions(s, n) || t.mentions(n)),
{
    let u = s.push(t);
    if any_mentions(u, n) {
        let i = choose|i: int| 0 <= i < u.len() && (#[trigger] u[i]).mentions(n);
        if i < s.len() {
            assert(s[i].mentions(n));
        }
    }
    if any_mentions(s, n) {
        let i = choose|i: int| 0 <= i < s.len() && (#[trigger] s[i]).mentions(n);
        assert(u[i].mentions(n));
    }
    if t.mentions(n) {
        assert(u[s.len() as int].mentions(n));
    }
}

/// Adds to `found` the type parameters that occur in `t`.
fn collect_generics(t: &TealType, found: &mut Vec<TealType>)
    requires
        only_generics(shapes(old(found)@)),
    ensures
        only_generics(shapes(final(found)@)),
        forall|n: Seq<char>| #[trigger]
            shapes(final(found)@).contains(TypeShape::Generic(n)) <==> (shapes(
                old(found)@,
            ).contains(TypeShape::Generic(n)) || t@.mentions(n)),
    decreases t,
{
    match t {
        TealType::Generic(name) => {
            let item = TealType::Generic(name.clone());
            let ghost before = shapes(found@);
            let ghost items = found@;
            let ghost g = TypeShape::Generic(name@);
            proof {
                lemma_generic_key(name@);
                assert(keys_by(before, type_key()) =~= keys_of(found@));
            }
            let at = insert_by_key(found, item);
            proof {
                let after = shapes(found@);
                assert(keys_by(after, type_key()) =~= keys_of(found@));
                match at {
                    Some(p) => {
                        assert(after =~= before.insert(p as int, g));
                        lemma_insert_contains(before, p as int, g);
                        assert forall|i: int| 0 <= i < after.len() implies #[trigger] after[i]
                            is Generic by {
                            if i < p {
                                assert(after[i] == before[i]);
                            } else if i > p {
                                assert(after[i] == before[i - 1]);
                            }
                        }
                    },
                    None => {
                        let q = choose|q: int|
                            0 <= q < items.len() && keys_of(items)[q] == g.key();
                        let m = before[q]->Generic_0;
                        assert(before[q] == TypeShape::Generic(m));
                        lemma_generic_key(m);
                        lemma_utf8_injective(m, name@);
                        assert(before.contains(g));
                    },
                }
                assert forall|n: Seq<char>| #[trigger]
                    after.contains(TypeShape::Generic(n)) <==> (before.contains(
                        TypeShape::Generic(n),
                    ) || t@.mentions(n)) by {
                    if n == name@ {
                        assert(TypeShape::Generic(n) == g);
                    }
                }
            }
        },
        TealType::Named(_) => {},
        TealType::Array(e) => {
            collect_generics(e, found);
        },
        TealType::Mapping(k, v) => {
            collect_generics(k, found);
            collect_generics(v, found);
        },
        TealType::Union(m) => {
            proof {
                lemma_union_shape(*m);
            }
            collect_generics_of_all(m, found);
        },
        TealType::Function(p, r) => {
            proof {
                lemma_function_shape(*p, *r);
            }
            collect_generics_of_all(p, found);
            collect_generics_of_all(r, found);
        },
    }
}

/// Adds to `found` the type parameters that occur in one of `items`.
fn collect_generics_of_all(items: &Vec<TealType>, found: &mut Vec<TealType>)
    requires
        only_generics(shapes(old(found)@)),
    ensures
        only_generics(shapes(final(found)@)),
        forall|n: Seq<char>| #[trigger]
            shapes(final(found)@).contains(TypeShape::Generic(n)) <==> (shapes(
                old(found)@,
            ).contains(TypeShape::Generic(n)) || any_mentions(shapes(items@), n)),
    decreases items,
{
    let ghost start = shapes(found@);
    let ghost all = shapes(items@);
    let mut i: usize = 0;
    while i < items.len()
        invariant
            i <= items.len(),
            all == shapes(items@),
            only_generics(shapes(found@)),
            forall|n: Seq<char>| #[trigger]
                shapes(found@).contains(TypeShape::Generic(n)) <==> (start.contains(
                    TypeShape::Generic(n),
                ) || any_mentions(all.take(i as int), n)),
        decreases items.len() - i,
    {
        let ghost before = shapes(found@);
        collect_generics(&items[i], found);
        proof {
            assert(all.take(i + 1) =~= all.take(i as int).push(all[i as int]));
            assert forall|n: Seq<char>| #[trigger]
                shapes(found@).contains(TypeShape::Generic(n)) <==> (start.contains(
                    TypeShape::Generic(n),
                ) || any_mentions(all.take(i + 1), n)) by {
                lemma_any_mentions_push(all.take(i as int), all[i as int], n);
                assert(before.contains(TypeShape::Generic(n)) <==> (start.contains(
                    TypeShape::Generic(n),
                ) || any_mentions(all.take(i as int), n)));
            }
        }
        i += 1;
    }
    proof {
        assert(all.take(items.len() as int) =~= all);
    }
}

/// The type parameters of `children`: each parameter that occurs in one of
/// them, at any depth, once, in ascending order of name. A description owns
/// its parts, so no description holds itself and the walk ends on every
/// input.
pub fn get_all_generics(children: &Vec<TealType>) -> (generics: Vec<TealType>)
    ensures
        is_generics_of(shapes(generics@), shapes(children@)),
{
    let mut found: Vec<TealType> = Vec::new();
    proof {
        assert(keys_by(shapes(found@), type_key()) =~= Seq::<Seq<u8>>::empty());
    }
    collect_generics_of_all(children, &mut found);
    proof {
        let g = shapes(found@);
        assert forall|n: Seq<char>| #[trigger]
            g.contains(TypeShape::Generic(n)) <==> any_mentions(shapes(children@), n) by {
            assert(!Seq::<TypeShape>::empty().contains(TypeShape::Generic(n)));
        }
    }
    found
}

/// Contains the data needed to write down the type of a function.
#[derive(Debug, PartialEq, Eq)]
pub struct ExportedFunction {
    /// Name of the function.
    pub name: NameContainer,
    /// The type parameters that this function has, in ascending order of
    /// name, each once.
    pub generics: Vec<TealType>,
    /// The parameters of this function.
    pub params: Vec<TealType>,
    /// What this function returns.
    pub returns: Vec<TealType>,
    /// If this function is a meta method.
    pub is_meta_method: bool,
}

/// What the description of a function holds.
pub struct FunctionShape {
    pub name: Seq<u8>,
    pub generics: Seq<TypeShape>,
    pub params: Seq<TypeShape>,
    pub returns: Seq<TypeShape>,
    pub is_meta_method: bool,
}

impl FunctionShape {
    /// The types are well formed and the type parameters are those that
    /// occur in the parameters and results.
    pub open spec fn wf(self) -> bool {
        &&& all_wf(self.params)
        &&& all_wf(self.returns)
        &&& is_generics_of(self.generics, self.params + self.returns)
    }

    /// The list of type parameters as it stands behind `function`: nothing
    /// where there are none, else their names between angle brackets, in
    /// ascending order, each once.
    #[verifier::opaque]
    pub open spec fn generics_header(self) -> Seq<char> {
        let sorted = place_all(Seq::empty(), names(self.generics), text_key());
        if sorted.len() == 0 {
            Seq::empty()
        } else {
            "<"@ + join_text(sorted, ", "@) + ">"@
        }
    }

    /// The names of the parameters, after that of the receiver where there
    /// is one.
    pub open spec fn parameter_names(self, self_type: Option<TypeShape>) -> Seq<Seq<char>> {
        match self_type {
            Some(t) => seq![t.name()] + names(self.params),
            None => names(self.params),
        }
    }

    /// The declaration of the function under the text `name`.
    pub open spec fn declaration(self, name: Seq<char>, self_type: Option<TypeShape>) -> Seq<
        char,
    > {
        let marker = if self.is_meta_method {
            "metamethod "@
        } else {
            Seq::empty()
        };
        marker + name + ": function"@ + self.generics_header() + "("@ + join_text(
            self.parameter_names(self_type),
            ", "@,
        ) + "): ("@ + join_text(names(self.returns), ", "@) + ")"@
    }

    /// The text written for the function: its documentation as comment
    /// lines, then its declaration. The raw name is the error where it does
    /// not read as text.
    pub open spec fn render(
        self,
        self_type: Option<TypeShape>,
        docs: Map<Seq<u8>, Seq<char>>,
    ) -> Result<Seq<char>, Seq<u8>> {
        match decoded(self.name) {
            Ok(name) => Ok(doc_comment(docs, self.name) + self.declaration(name, self_type)),
            Err(e) => Err(e),
        }
    }
}

impl View for ExportedFunction {
    type V = FunctionShape;

    open spec fn view(&self) -> FunctionShape {
        FunctionShape {
            name: self.name@,
            generics: shapes(self.generics@),
            params: shapes(self.params@),
            returns: shapes(self.returns@),
            is_meta_method: self.is_meta_method,
        }
    }
}

impl Keyed for ExportedFunction {
    open spec fn key(&self) -> Seq<u8> {
        self.name@
    }

    fn key_bytes(&self) -> (k: Vec<u8>) {
        self.name.key_bytes()
    }
}

/// The key by which functions are ordered and told apart: their raw name.
pub open spec fn function_key() -> spec_fn(FunctionShape) -> Seq<u8> {
    |f: FunctionShape| f.name
}

/// What an optional receiver holds.
pub open spec fn receiver_shape(self_type: Option<&TealType>) -> Option<TypeShape> {
    match self_type {
        Some(t) => Some(t@),
        None => None,
    }
}

/// What the descriptions of a list of functions hold.
pub open spec fn function_shapes(functions: Seq<ExportedFunction>) -> Seq<FunctionShape> {
    Seq::new(functions.len(), |i: int| functions[i]@)
}

/// The text written for each of the functions, in order.
pub open spec fn function_lines(
    functions: Seq<FunctionShape>,
    self_type: Option<TypeShape>,
    docs: Map<Seq<u8>, Seq<char>>,
) -> Seq<Result<Seq<char>, Seq<u8>>> {
    Seq::new(functions.len(), |i: int| functions[i].render(self_type, docs))
}

/// Writes the declarations of the functions, a line feed after each. Fails
/// with the first name that does not read as text.
pub fn generate_all(
    functions: &Vec<ExportedFunction>,
    self_type: Option<&TealType>,
    documentation: &Documentation,
) -> (r: Result<String, DecodingError>)
    ensures
        is_outcome(
            r,
            lines_of(
                function_lines(
                    function_shapes(functions@),
                    receiver_shape(self_type),
                    documentation@,
                ),
            ),
        ),
{
    let ghost lines = function_lines(
        function_shapes(functions@),
        receiver_shape(self_type),
        documentation@,
    );
    let mut out = String::new();
    let mut i: usize = 0;
    while i < functions.len()
        invariant
            i <= functions.len(),
            lines == function_lines(
                function_shapes(functions@),
                receiver_shape(self_type),
                documentation@,
            ),
            lines_of(lines.take(i as int)) == Ok::<Seq<char>, Seq<u8>>(out@),
        decreases functions.len() - i,
    {
        match functions[i].generate(self_type, documentation) {
            Ok(line) => {
                let ghost before = out@;
                out.append(line.as_str());
                out.append("\n");
                proof {
                    lemma_lines_of_step(lines, i as int, before, line@);
                }
            },
            Err(e) => {
                proof {
                    lemma_lines_of_error(lines, i as int);
                }
                return Err(e);
            },
        }
        i += 1;
    }
    proof {
        assert(lines.take(functions.len() as int) =~= lines);
    }
    Ok(out)
}

/// The names of `types`, in order.
pub fn type_names(types: &Vec<TealType>) -> (r: Vec<String>)
    ensures
        texts(r@) == names(shapes(types@)),
{
    let mut out: Vec<String> = Vec::new();
    let mut i: usize = 0;
    while i < types.len()
        invariant
            i <= types.len(),
            texts(out@) == names(shapes(types@)).take(i as int),
        decreases types.len() - i,
    {
        let ghost before = texts(out@);
        out.push(types[i].name());
        proof {
            assert(texts(out@) =~= before.push(types@[i as int]@.name()));
            assert(names(shapes(types@)).take(i + 1) =~= before.push(types@[i as int]@.name()));
        }
        i += 1;
    }
    proof {
        assert(names(shapes(types@)).take(types.len() as int) =~= names(shapes(types@)));
    }
    out
}

impl ExportedFunction {
    /// Creates an `ExportedFunction` with the given name, parameters and
    /// results. Its type parameters are those that occur in them.
    pub fn new(
        name: Vec<u8>,
        is_meta_method: bool,
        params: Vec<TealType>,
        results: Vec<TealType>,
    ) -> (r: ExportedFunction)
        ensures
            r@.name == name@,
            r@.is_meta_method == is_meta_method,
            r@.params == shapes(params@),
            r@.returns == shapes(results@),
            is_generics_of(r@.generics, r@.params + r@.returns),
            all_wf(shapes(params@)) && all_wf(shapes(results@)) ==> r@.wf(),
    {
        let mut all = duplicate_all(&params);
        let mut rest = duplicate_all(&results);
        let ghost head = shapes(all@);
        all.append(&mut rest);
        proof {
            assert(shapes(all@) =~= shapes(params@) + shapes(results@));
        }
        let generics = get_all_generics(&all);
        ExportedFunction {
            name: NameContainer::new(name),
            generics,
            params,
            returns: results,
            is_meta_method,
        }
    }

    /// Tells whether the types are well formed and the type parameters are
    /// those that occur in the parameters and results.
    pub fn is_valid(&self) -> (r: bool)
        ensures
            r == self@.wf(),
    {
        if !all_well_formed(&self.params) || !all_well_formed(&self.returns) {
            return false;
        }
        let mut all = duplicate_all(&self.params);
        let mut rest = duplicate_all(&self.returns);
        all.append(&mut rest);
        proof {
            assert(shapes(all@) =~= self@.params + self@.returns);
        }
        let expected = get_all_generics(&all);
        let same = same_generics(&self.generics, &expected);
        proof {
            if self@.wf() {
                lemma_generics_unique(self@.generics, shapes(expected@), shapes(all@));
            }
        }
        same
    }

    /// The list of type parameters as it stands behind `function`.
    pub fn generics_header(&self) -> (r: String)
        ensures
            r@ == self@.generics_header(),
    {
        let ghost all = names(self@.generics);
        let mut sorted: Vec<String> = Vec::new();
        let mut i: usize = 0;
        proof {
            assert(all.take(0) =~= Seq::<Seq<char>>::empty());
            assert(keys_of(sorted@) =~= Seq::<Seq<u8>>::empty());
        }
        while i < self.generics.len()
            invariant
                i <= self.generics.len(),
                all == names(self@.generics),
                ascending(keys_of(sorted@)),
                texts(sorted@) == place_all(Seq::empty(), all.take(i as int), text_key()),
            decreases self.generics.len() - i,
        {
            let name = self.generics[i].name();
            let ghost before = sorted@;
            let ghost item = name@;
            proof {
                assert(keys_by(texts(before), text_key()) =~= keys_of(before));
                assert(all.take(i + 1).drop_last() =~= all.take(i as int));
                assert(all.take(i + 1).last() == item);
            }
            let at = insert_by_key(&mut sorted, name);
            proof {
                let spot = match at {
                    Some(p) => Some(p as int),
                    None => None,
                };
                if at is Some {
                    assert(texts(sorted@) =~= texts(before).insert(at->0 as int, item));
                }
                assert(keys_by(texts(sorted@), text_key()) =~= keys_of(sorted@));
                lemma_place_step(texts(before), texts(sorted@), item, text_key(), spot);
            }
            i += 1;
        }
        proof {
            reveal(FunctionShape::generics_header);
            assert(all.take(all.len() as int) =~= all);
        }
        if sorted.len() == 0 {
            String::new()
        } else {
            let mut out = "<".to_owned();
            let list = join(&sorted, ", ");
            out.append(list.as_str());
            out.append(">");
            out
        }
    }

    /// Writes the declaration of the function under the text `name`.
    pub fn declaration(&self, name: &str, self_type: Option<&TealType>) -> (r: String)
        ensures
            r@ == self@.declaration(name@, receiver_shape(self_type)),
    {
        let mut inputs: Vec<String> = Vec::new();
        match self_type {
            Some(t) => {
                inputs.push(t.name());
            },
            None => {},
        }
        let mut own = type_names(&self.params);
        inputs.append(&mut own);
        proof {
            assert(texts(inputs@) =~= self@.parameter_names(receiver_shape(self_type)));
        }
        let inputs_text = join(&inputs, ", ");
        let outputs = type_names(&self.returns);
        let outputs_text = join(&outputs, ", ");
        let header = self.generics_header();
        let mut out = String::new();
        if self.is_meta_method {
            out.append("metamethod ");
        }
        out.append(name);
        out.append(": function");
        out.append(header.as_str());
        out.append("(");
        out.append(inputs_text.as_str());
        out.append("): (");
        out.append(outputs_text.as_str());
        out.append(")");
        proof {
            let marker = if self.is_meta_method {
                "metamethod "@
            } else {
                Seq::<char>::empty()
            };
            assert(out@ =~= marker + name@ + ": function"@ + header@ + "("@ + inputs_text@
                + "): ("@ + outputs_text@ + ")"@);
        }
        out
    }

    /// Writes the declaration of the function, below its documentation where
    /// `documentation` has text for its name. With a receiver, the
    /// receiver's name is written as the first parameter. Fails where the
    /// name of the function does not read as text.
    pub fn generate(
        &self,
        self_type: Option<&TealType>,
        documentation: &Documentation,
    ) -> (r: Result<String, DecodingError>)
        ensures
            is_outcome(r, self@.render(receiver_shape(self_type), documentation@)),
    {
        let name = match self.name.decode() {
            Ok(name) => name,
            Err(e) => {
                return Err(e);
            },
        };
        let mut out = documentation.comment_for(&self.name);
        let declaration = self.declaration(name.as_str(), self_type);
        out.append(declaration.as_str());
        Ok(out)
    }
}

/// Tells whether the two lists hold the same type parameters in the same
/// order.
fn same_generics(a: &Vec<TealType>, b: &Vec<TealType>) -> (r: bool)
    requires
        only_generics(shapes(b@)),
    ensures
        r == (shapes(a@) == shapes(b@)),
{
    if a.len() != b.len() {
        return false;
    }
    let mut i: usize = 0;
    while i < a.len()
        invariant
            i <= a.len(),
            a.len() == b.len(),
            only_generics(shapes(b@)),
            forall|j: int| 0 <= j < i ==> a@[j]@ == b@[j]@,
        decreases a.len() - i,
    {
        let ghost want = shapes(b@)[i as int];
        let equal = match (&a[i], &b[i]) {
            (TealType::Generic(x), TealType::Generic(y)) => compare_text(x.as_str(), y.as_str()) == Rank::Same,
            _ => false,
        };
        if !equal {
            assert(want is Generic);
            assert(shapes(a@)[i as int] != shapes(b@)[i as int]);
            return false;
        }
        i += 1;
    }
    proof {
        assert(shapes(a@) =~= shapes(b@));
    }
    true
}

} // verus!
