//! The description of one type: what it is made of, and the name under which
//! it is written and told apart from other types.

use crate::lex::{bytes_less, compare_text, lemma_bytes_less_transitive, Rank};
use crate::name_part::{
    compose, compose_spec, lemma_compose_concat, lemma_compose_one, part_shapes, NamePart,
    PartShape,
};
use crate::sorted::{
    ascending, descending, insert_by_key, keys_by, keys_of, lemma_place_all,
    lemma_place_all_any_order, lemma_place_step, one_per_key, place_all, same_items, Keyed,
};
use crate::text::{encode_text, join_text};
use vstd::prelude::*;
use vstd::utf8::encode_utf8;

verus! {

/// The description of a type.
#[derive(Debug, PartialEq, Eq, Hash)]
pub enum TealType {
    /// A type parameter, known by its name.
    Generic(String),
    /// A scalar, or a type declared elsewhere, known by its name.
    Named(String),
    /// An array of one type of element.
    Array(Box<TealType>),
    /// A map from one type of key to one type of value.
    Mapping(Box<TealType>, Box<TealType>),
    /// One of several types. The order of the members says nothing.
    Union(Vec<TealType>),
    /// A function from parameters to results.
    Function(Vec<TealType>, Vec<TealType>),
}

/// What a description holds.
#[verifier::ext_equal]
pub enum TypeShape {
    Generic(Seq<char>),
    Named(Seq<char>),
    Array(Box<TypeShape>),
    Mapping(Box<TypeShape>, Box<TypeShape>),
    Union(Seq<TypeShape>),
    Function(Seq<TypeShape>, Seq<TypeShape>),
}

/// The fragments of the names of `items`, with `sep` between each two items.
pub open spec fn joined_parts(items: Seq<TypeShape>, sep: PartShape) -> Seq<PartShape>
    decreases items,
{
    if items.len() == 0 {
        Seq::empty()
    } else if items.len() == 1 {
        items.last().parts()
    } else {
        joined_parts(items.drop_last(), sep) + seq![sep] + items.last().parts()
    }
}

/// Every item is well formed.
pub open spec fn all_wf(items: Seq<TypeShape>) -> bool
    decreases items,
{
    forall|i: int| 0 <= i < items.len() ==> (#[trigger] items[i]).wf()
}

/// The type parameter `generic` occurs in one of the items.
pub open spec fn any_mentions(items: Seq<TypeShape>, generic: Seq<char>) -> bool
    decreases items,
{
    exists|i: int| 0 <= i < items.len() && (#[trigger] items[i]).mentions(generic)
}

/// The key by which types are ordered and told apart.
pub open spec fn type_key() -> spec_fn(TypeShape) -> Seq<u8> {
    |t: TypeShape| t.key()
}

/// The members of a union made from `items`: one member for each name, in
/// descending order of name. Of several items with one name the first stays.
pub open spec fn union_members(items: Seq<TypeShape>) -> Seq<TypeShape> {
    place_all(Seq::empty(), items, type_key()).reverse()
}

/// The names of the types, in order.
pub open spec fn names(types: Seq<TypeShape>) -> Seq<Seq<char>> {
    Seq::new(types.len(), |i: int| types[i].name())
}

/// The fragments of a list of types compose to the names of the types with
/// the separator between each two.
pub proof fn lemma_joined_names(items: Seq<TypeShape>, sep: Seq<char>)
    ensures
        compose_spec(joined_parts(items, PartShape::Symbol(sep))) == join_text(names(items), sep),
    decreases items.len(),
{
    let mark = PartShape::Symbol(sep);
    if items.len() == 1 {
        assert(names(items)[0] == items.last().name());
    } else if items.len() > 1 {
        let head = joined_parts(items.drop_last(), mark);
        lemma_joined_names(items.drop_last(), sep);
        lemma_compose_concat(head, seq![mark]);
        lemma_compose_concat(head + seq![mark], items.last().parts());
        lemma_compose_one(mark);
        assert(names(items).drop_last() =~= names(items.drop_last()));
        assert(names(items).last() == items.last().name());
    }
}

/// How each kind of type is written: a type parameter and a named type by
/// their name, an array as its element between braces, a map as its key, a
/// colon and its value between braces, a union as its members with bars
/// between them, and a function as `function`, its parameters between
/// round brackets, a colon, and its results between round brackets.
pub proof fn lemma_type_name(t: TypeShape)
    ensures
        t matches TypeShape::Generic(n) ==> t.name() == n,
        t matches TypeShape::Named(n) ==> t.name() == n,
        t matches TypeShape::Array(e) ==> t.name() == "{"@ + e.name() + "}"@,
        t matches TypeShape::Mapping(k, v) ==> t.name() == "{"@ + k.name() + " : "@ + v.name()
            + "}"@,
        t matches TypeShape::Union(m) ==> t.name() == join_text(names(m), " | "@),
        t matches TypeShape::Function(p, r) ==> t.name() == "function("@ + join_text(
            names(p),
            ", "@,
        ) + "): ("@ + join_text(names(r), ", "@) + ")"@,
{
    match t {
        TypeShape::Generic(n) => {
            lemma_compose_one(PartShape::Text(n));
        },
        TypeShape::Named(n) => {
            lemma_compose_one(PartShape::Text(n));
        },
        TypeShape::Array(e) => {
            let open = seq![PartShape::Symbol("{"@)];
            let close = seq![PartShape::Symbol("}"@)];
            lemma_compose_concat(open, e.parts());
            lemma_compose_concat(open + e.parts(), close);
            lemma_compose_one(PartShape::Symbol("{"@));
            lemma_compose_one(PartShape::Symbol("}"@));
        },
        TypeShape::Mapping(k, v) => {
            let open = seq![PartShape::Symbol("{"@)];
            let colon = seq![PartShape::Symbol(" : "@)];
            let close = seq![PartShape::Symbol("}"@)];
            lemma_compose_concat(open, k.parts());
            lemma_compose_concat(open + k.parts(), colon);
            lemma_compose_concat(open + k.parts() + colon, v.parts());
            lemma_compose_concat(open + k.parts() + colon + v.parts(), close);
            lemma_compose_one(PartShape::Symbol("{"@));
            lemma_compose_one(PartShape::Symbol(" : "@));
            lemma_compose_one(PartShape::Symbol("}"@));
        },
        TypeShape::Union(m) => {
            lemma_joined_names(m, " | "@);
        },
        TypeShape::Function(p, r) => {
            let open = seq![PartShape::Symbol("function("@)];
            let middle = seq![PartShape::Symbol("): ("@)];
            let close = seq![PartShape::Symbol(")"@)];
            let ins = joined_parts(p, PartShape::Symbol(", "@));
            let outs = joined_parts(r, PartShape::Symbol(", "@));
            lemma_joined_names(p, ", "@);
            lemma_joined_names(r, ", "@);
            lemma_compose_concat(open, ins);
            lemma_compose_concat(open + ins, middle);
            lemma_compose_concat(open + ins + middle, outs);
            lemma_compose_concat(open + ins + middle + outs, close);
            lemma_compose_one(PartShape::Symbol("function("@));
            lemma_compose_one(PartShape::Symbol("): ("@));
            lemma_compose_one(PartShape::Symbol(")"@));
        },
    }
}

/// A union made from well-formed items is well formed.
pub proof fn lemma_union_members_wf(items: Seq<TypeShape>)
    requires
        all_wf(items),
    ensures
        TypeShape::Union(union_members(items)).wf(),
{
    let up = place_all(Seq::<TypeShape>::empty(), items, type_key());
    let m = union_members(items);
    lemma_place_all(items, type_key());
    assert forall|i: int| 0 <= i < m.len() implies (#[trigger] m[i]).wf() by {
        assert(up.contains(up[up.len() - 1 - i]));
        let j = choose|j: int| 0 <= j < items.len() && items[j] == m[i];
        assert(items[j].wf());
    }
    let keys = keys_by(m, type_key());
    assert forall|i: int, j: int| 0 <= i < j < keys.len() implies bytes_less(
        #[trigger] keys[j],
        #[trigger] keys[i],
    ) by {
        assert(keys[j] == keys_by(up, type_key())[up.len() - 1 - j]);
        assert(keys[i] == keys_by(up, type_key())[up.len() - 1 - i]);
    }
    assert(all_wf(m));
    assert(descending(keys));
}

/// The members of a union do not depend on the order in which the items
/// come, where items of one name are one item.
pub proof fn lemma_union_any_order(a: Seq<TypeShape>, b: Seq<TypeShape>)
    requires
        same_items(a, b),
        one_per_key(a, type_key()),
    ensures
        union_members(a) == union_members(b),
{
    lemma_place_all_any_order(a, b, type_key());
}

impl TypeShape {
    /// The fragments of the type's name.
    pub open spec fn parts(self) -> Seq<PartShape>
        decreases self,
    {
        match self {
            TypeShape::Generic(n) => seq![PartShape::Text(n)],
            TypeShape::Named(n) => seq![PartShape::Text(n)],
            TypeShape::Array(e) => seq![PartShape::Symbol("{"@)] + e.parts() + seq![
                PartShape::Symbol("}"@),
            ],
            TypeShape::Mapping(k, v) => seq![PartShape::Symbol("{"@)] + k.parts() + seq![
                PartShape::Symbol(" : "@),
            ] + v.parts() + seq![PartShape::Symbol("}"@)],
            TypeShape::Union(m) => joined_parts(m, PartShape::Symbol(" | "@)),
            TypeShape::Function(p, r) => seq![PartShape::Symbol("function("@)] + joined_parts(
                p,
                PartShape::Symbol(", "@),
            ) + seq![PartShape::Symbol("): ("@)] + joined_parts(r, PartShape::Symbol(", "@))
                + seq![PartShape::Symbol(")"@)],
        }
    }

    /// The name under which the type is written. Two types with one name are
    /// one type wherever types are told apart.
    pub open spec fn name(self) -> Seq<char> {
        compose_spec(self.parts())
    }

    /// The UTF-8 bytes of the name.
    pub open spec fn key(self) -> Seq<u8> {
        encode_utf8(self.name())
    }

    /// Every union in the type holds its members in descending order of
    /// name, so that no name occurs twice in it.
    pub open spec fn wf(self) -> bool
        decreases self,
    {
        match self {
            TypeShape::Generic(_) => true,
            TypeShape::Named(_) => true,
            TypeShape::Array(e) => e.wf(),
            TypeShape::Mapping(k, v) => k.wf() && v.wf(),
            TypeShape::Union(m) => all_wf(m) && descending(keys_by(m, type_key())),
            TypeShape::Function(p, r) => all_wf(p) && all_wf(r),
        }
    }

    /// The type parameter `generic` occurs in the type, at any depth.
    pub open spec fn mentions(self, generic: Seq<char>) -> bool
        decreases self,
    {
        match self {
            TypeShape::Generic(n) => n == generic,
            TypeShape::Named(_) => false,
            TypeShape::Array(e) => e.mentions(generic),
            TypeShape::Mapping(k, v) => k.mentions(generic) || v.mentions(generic),
            TypeShape::Union(m) => any_mentions(m, generic),
            TypeShape::Function(p, r) => any_mentions(p, generic) || any_mentions(r, generic),
        }
    }
}

impl View for TealType {
    type V = TypeShape;

    open spec fn view(&self) -> TypeShape {
        self.shape()
    }
}

/// What the descriptions of a list hold.
pub open spec fn shapes(types: Seq<TealType>) -> Seq<TypeShape> {
    Seq::new(types.len(), |i: int| types[i]@)
}

/// A union holds what its members hold.
pub proof fn lemma_union_shape(m: Vec<TealType>)
    ensures
        TealType::Union(m)@ == TypeShape::Union(shapes(m@)),
{
    let a = TealType::Union(m)@;
    assert(a == TealType::Union(m).shape());
    assert forall|i: int| 0 <= i < m@.len() implies a->Union_0[i] == shapes(m@)[i] by {
        assert(a->Union_0[i] == m@[i].shape());
    }
    assert(a->Union_0 =~= shapes(m@));
}

/// A function holds what its parameters and results hold.
pub proof fn lemma_function_shape(p: Vec<TealType>, r: Vec<TealType>)
    ensures
        TealType::Function(p, r)@ == TypeShape::Function(shapes(p@), shapes(r@)),
{
    let a = TealType::Function(p, r)@;
    assert(a == TealType::Function(p, r).shape());
    assert forall|i: int| 0 <= i < p@.len() implies a->Function_0[i] == shapes(p@)[i] by {
        assert(a->Function_0[i] == p@[i].shape());
    }
    assert forall|i: int| 0 <= i < r@.len() implies a->Function_1[i] == shapes(r@)[i] by {
        assert(a->Function_1[i] == r@[i].shape());
    }
    assert(a->Function_0 =~= shapes(p@));
    assert(a->Function_1 =~= shapes(r@));
}

impl TealType {
    /// What the description holds.
    pub open spec fn shape(&self) -> TypeShape
        decreases self,
    {
        match self {
            TealType::Generic(n) => TypeShape::Generic(n@),
            TealType::Named(n) => TypeShape::Named(n@),
            TealType::Array(e) => TypeShape::Array(Box::new(e.shape())),
            TealType::Mapping(k, v) => TypeShape::Mapping(Box::new(k.shape()), Box::new(v.shape())),
            TealType::Union(m) => TypeShape::Union(
                Seq::new(
                    m@.len(),
                    |i: int|
                        if 0 <= i < m@.len() {
                            m@[i].shape()
                        } else {
                            arbitrary()
                        },
                ),
            ),
            TealType::Function(p, r) => TypeShape::Function(
                Seq::new(
                    p@.len(),
                    |i: int|
                        if 0 <= i < p@.len() {
                            p@[i].shape()
                        } else {
                            arbitrary()
                        },
                ),
                Seq::new(
                    r@.len(),
                    |i: int|
                        if 0 <= i < r@.len() {
                            r@[i].shape()
                        } else {
                            arbitrary()
                        },
                ),
            ),
        }
    }

    /// A type parameter of the given name.
    pub fn generic(name: &str) -> (r: TealType)
        ensures
            r@ == TypeShape::Generic(name@),
    {
        TealType::Generic(name.to_owned())
    }

    /// The type of the given name.
    pub fn named(name: &str) -> (r: TealType)
        ensures
            r@ == TypeShape::Named(name@),
    {
        TealType::Named(name.to_owned())
    }

    /// The array of `element`.
    pub fn array_of(element: TealType) -> (r: TealType)
        ensures
            r@ == TypeShape::Array(Box::new(element@)),
    {
        TealType::Array(Box::new(element))
    }

    /// The map from `key` to `value`.
    pub fn mapping(key: TealType, value: TealType) -> (r: TealType)
        ensures
            r@ == TypeShape::Mapping(Box::new(key@), Box::new(value@)),
    {
        TealType::Mapping(Box::new(key), Box::new(value))
    }

    /// The function from `params` to `results`.
    pub fn function(params: Vec<TealType>, results: Vec<TealType>) -> (r: TealType)
        ensures
            r@ == TypeShape::Function(shapes(params@), shapes(results@)),
    {
        proof {
            lemma_function_shape(params, results);
        }
        TealType::Function(params, results)
    }

    /// The union of `members`, with one member for each name, in descending
    /// order of name whatever the order of `members`. Of several members with
    /// one name the first stays.
    pub fn union_of(members: Vec<TealType>) -> (r: TealType)
        ensures
            r@ == TypeShape::Union(union_members(shapes(members@))),
            all_wf(shapes(members@)) ==> r@.wf(),
    {
        proof {
            if all_wf(shapes(members@)) {
                lemma_union_members_wf(shapes(members@));
            }
        }
        let ghost all = shapes(members@);
        let mut sorted: Vec<TealType> = Vec::new();
        proof {
            assert(all.take(0) =~= Seq::<TypeShape>::empty());
        }
        for m in it: members
            invariant
                shapes(it.seq()) == all,
                ascending(keys_of(sorted@)),
                shapes(sorted@) == place_all(Seq::empty(), all.take(it.index()), type_key()),
        {
            let ghost before = sorted@;
            let ghost item = m@;
            proof {
                assert(item == all[it.index()]);
                assert(keys_by(shapes(before), type_key()) =~= keys_of(before));
                assert(all.take(it.index() + 1).drop_last() =~= all.take(it.index()));
            }
            let at = insert_by_key(&mut sorted, m);
            proof {
                let spot = match at {
                    Some(p) => Some(p as int),
                    None => None,
                };
                if at is Some {
                    assert(shapes(sorted@) =~= shapes(before).insert(at->0 as int, item));
                }
                assert(keys_by(shapes(sorted@), type_key()) =~= keys_of(sorted@));
                lemma_place_step(shapes(before), shapes(sorted@), item, type_key(), spot);
            }
        }
        proof {
            assert(all.take(all.len() as int) =~= all);
        }
        let ghost up = sorted@;
        let mut out: Vec<TealType> = Vec::new();
        while sorted.len() > 0
            invariant
                sorted@.len() + out@.len() == up.len(),
                sorted@ == up.take(sorted@.len() as int),
                forall|j: int| 0 <= j < out@.len() ==> out@[j] == up[up.len() - 1 - j],
            decreases sorted.len(),
        {
            let last = sorted.pop();
            out.push(last.unwrap());
        }
        proof {
            assert(shapes(out@) =~= shapes(up).reverse());
            lemma_union_shape(out);
        }
        TealType::Union(out)
    }

    /// Tells whether the description is well formed.
    pub fn is_well_formed(&self) -> (r: bool)
        ensures
            r == self@.wf(),
        decreases self,
    {
        match self {
            TealType::Generic(_) => true,
            TealType::Named(_) => true,
            TealType::Array(e) => e.is_well_formed(),
            TealType::Mapping(k, v) => k.is_well_formed() && v.is_well_formed(),
            TealType::Union(m) => {
                proof {
                    lemma_union_shape(*m);
                }
                all_well_formed(m) && is_descending(m)
            },
            TealType::Function(p, r) => {
                proof {
                    lemma_function_shape(*p, *r);
                }
                all_well_formed(p) && all_well_formed(r)
            },
        }
    }

    /// The fragments of the type's name.
    pub fn name_parts(&self) -> (r: Vec<NamePart>)
        ensures
            part_shapes(r@) == self@.parts(),
        decreases self,
    {
        let mut out: Vec<NamePart> = Vec::new();
        match self {
            TealType::Generic(n) => {
                out.push(NamePart::text(n.as_str()));
            },
            TealType::Named(n) => {
                out.push(NamePart::text(n.as_str()));
            },
            TealType::Array(e) => {
                out.push(NamePart::symbol("{"));
                let mut inner = e.name_parts();
                out.append(&mut inner);
                out.push(NamePart::symbol("}"));
            },
            TealType::Mapping(k, v) => {
                out.push(NamePart::symbol("{"));
                let mut key = k.name_parts();
                out.append(&mut key);
                out.push(NamePart::symbol(" : "));
                let mut value = v.name_parts();
                out.append(&mut value);
                out.push(NamePart::symbol("}"));
            },
            TealType::Union(m) => {
                let mut members = join_name_parts(m, " | ");
                out.append(&mut members);
                proof {
                    lemma_union_shape(*m);
                }
            },
            TealType::Function(p, r) => {
                out.push(NamePart::symbol("function("));
                let mut params = join_name_parts(p, ", ");
                out.append(&mut params);
                out.push(NamePart::symbol("): ("));
                let mut results = join_name_parts(r, ", ");
                out.append(&mut results);
                out.push(NamePart::symbol(")"));
                proof {
                    lemma_function_shape(*p, *r);
                }
            },
        }
        proof {
            assert(part_shapes(out@) =~= self@.parts());
        }
        out
    }

    /// A copy of the description.
    pub fn duplicate(&self) -> (r: TealType)
        ensures
            r@ == self@,
        decreases self,
    {
        match self {
            TealType::Generic(n) => TealType::Generic(n.clone()),
            TealType::Named(n) => TealType::Named(n.clone()),
            TealType::Array(e) => TealType::Array(Box::new(e.duplicate())),
            TealType::Mapping(k, v) => TealType::Mapping(
                Box::new(k.duplicate()),
                Box::new(v.duplicate()),
            ),
            TealType::Union(m) => {
                let copies = duplicate_all(m);
                proof {
                    lemma_union_shape(*m);
                    lemma_union_shape(copies);
                }
                TealType::Union(copies)
            },
            TealType::Function(p, q) => {
                let params = duplicate_all(p);
                let results = duplicate_all(q);
                proof {
                    lemma_function_shape(*p, *q);
                    lemma_function_shape(params, results);
                }
                TealType::Function(params, results)
            },
        }
    }

    /// The name under which the type is written.
    pub fn name(&self) -> (r: String)
        ensures
            r@ == self@.name(),
    {
        compose(&self.name_parts())
    }
}

/// The fragments of the names of `items`, with `sep` between each two items.
pub fn join_name_parts(items: &Vec<TealType>, sep: &str) -> (r: Vec<NamePart>)
    ensures
        part_shapes(r@) == joined_parts(shapes(items@), PartShape::Symbol(sep@)),
    decreases items,
{
    let mut out: Vec<NamePart> = Vec::new();
    let mut i: usize = 0;
    while i < items.len()
        invariant
            i <= items.len(),
            part_shapes(out@) == joined_parts(
                shapes(items@).take(i as int),
                PartShape::Symbol(sep@),
            ),
        decreases items.len() - i,
    {
        let ghost before = part_shapes(out@);
        if i > 0 {
            out.push(NamePart::symbol(sep));
        }
        let mut inner = items[i].name_parts();
        out.append(&mut inner);
        proof {
            let next = shapes(items@).take(i + 1);
            assert(next.drop_last() =~= shapes(items@).take(i as int));
            assert(next.last() == items@[i as int]@);
            if i == 0 {
                assert(part_shapes(out@) =~= items@[0]@.parts());
            } else {
                assert(part_shapes(out@) =~= before + seq![PartShape::Symbol(sep@)]
                    + items@[i as int]@.parts());
            }
        }
        i += 1;
    }
    proof {
        assert(shapes(items@).take(items.len() as int) =~= shapes(items@));
    }
    out
}

/// Tells whether every one of `items` is well formed.
pub fn all_well_formed(items: &Vec<TealType>) -> (r: bool)
    ensures
        r == all_wf(shapes(items@)),
    decreases items,
{
    let mut i: usize = 0;
    while i < items.len()
        invariant
            i <= items.len(),
            forall|j: int| 0 <= j < i ==> (#[trigger] shapes(items@)[j]).wf(),
        decreases items.len() - i,
    {
        if !items[i].is_well_formed() {
            assert(!shapes(items@)[i as int].wf());
            return false;
        }
        i += 1;
    }
    true
}

/// Tells whether `items` stand in descending order of name.
pub fn is_descending(items: &Vec<TealType>) -> (r: bool)
    ensures
        r == descending(keys_by(shapes(items@), type_key())),
{
    let ghost keys = keys_by(shapes(items@), type_key());
    let mut i: usize = 1;
    while i < items.len()
        invariant
            1 <= i,
            keys == keys_by(shapes(items@), type_key()),
            forall|a: int, b: int|
                0 <= a < b < i && b < keys.len() ==> bytes_less(
                    #[trigger] keys[b],
                    #[trigger] keys[a],
                ),
        decreases items.len() - i,
    {
        let here = items[i].name();
        let above = items[i - 1].name();
        if compare_text(here.as_str(), above.as_str()) != Rank::Before {
            assert(!bytes_less(keys[i as int], keys[i - 1]));
            return false;
        }
        proof {
            assert forall|a: int, b: int| 0 <= a < b < i + 1 && b < keys.len() implies bytes_less(
                #[trigger] keys[b],
                #[trigger] keys[a],
            ) by {
                if b == i && a < i - 1 {
                    lemma_bytes_less_transitive(keys[i as int], keys[i - 1], keys[a]);
                }
            }
        }
        i += 1;
    }
    true
}

/// Copies of the descriptions of `items`, in order.
pub fn duplicate_all(items: &Vec<TealType>) -> (r: Vec<TealType>)
    ensures
        shapes(r@) == shapes(items@),
    decreases items,
{
    let mut out: Vec<TealType> = Vec::new();
    let mut i: usize = 0;
    while i < items.len()
        invariant
            i <= items.len(),
            shapes(out@) == shapes(items@).take(i as int),
        decreases items.len() - i,
    {
        let ghost before = shapes(out@);
        out.push(items[i].duplicate());
        proof {
            assert(shapes(out@) =~= before.push(items@[i as int]@));
            assert(shapes(items@).take(i + 1) =~= before.push(items@[i as int]@));
        }
        i += 1;
    }
    proof {
        assert(shapes(items@).take(items.len() as int) =~= shapes(items@));
    }
    out
}

impl Clone for TealType {
    fn clone(&self) -> (r: Self)
        ensures
            r@ == self@,
    {
        self.duplicate()
    }
}

impl Keyed for TealType {
    open spec fn key(&self) -> Seq<u8> {
        self@.key()
    }

    fn key_bytes(&self) -> (k: Vec<u8>) {
        let name = self.name();
        encode_text(name.as_str())
    }
}

} // verus!

