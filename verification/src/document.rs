//! The structured document: a tree of lists and named members that holds
//! what the descriptions hold, and from which they are read back.

use crate::exported_function::{function_shapes, ExportedFunction, FunctionShape};
use crate::lex::{compare_text, Rank};
use crate::name_container::NameContainer;
use crate::record::{
    field_shapes, record_shapes, Field, FieldShape, RecordDescriptor, RecordShape,
};
use crate::teal_type::{lemma_function_shape, lemma_union_shape, shapes, TealType, TypeShape};
use vstd::prelude::*;

verus! {

/// A node of a structured document.
#[derive(Debug, PartialEq, Eq)]
pub enum Document {
    /// A truth value.
    Bool(bool),
    /// A number.
    Number(u64),
    /// A piece of text.
    Text(String),
    /// Nodes in order.
    List(Vec<Document>),
    /// Named nodes in order.
    Object(Vec<(String, Document)>),
}

/// What a node holds.
#[verifier::ext_equal]
pub enum DocShape {
    Bool(bool),
    Number(u64),
    Text(Seq<char>),
    List(Seq<DocShape>),
    Object(Seq<(Seq<char>, DocShape)>),
}

impl View for Document {
    type V = DocShape;

    open spec fn view(&self) -> DocShape {
        self.shape()
    }
}

/// What the nodes of a list hold.
pub open spec fn doc_shapes(nodes: Seq<Document>) -> Seq<DocShape> {
    Seq::new(nodes.len(), |i: int| nodes[i]@)
}

/// What the named nodes of a list hold.
pub open spec fn member_shapes(members: Seq<(String, Document)>) -> Seq<(Seq<char>, DocShape)> {
    Seq::new(members.len(), |i: int| (members[i].0@, members[i].1@))
}

impl Document {
    /// What the node holds.
    pub open spec fn shape(&self) -> DocShape
        decreases self,
    {
        match self {
            Document::Bool(b) => DocShape::Bool(*b),
            Document::Number(n) => DocShape::Number(*n),
            Document::Text(t) => DocShape::Text(t@),
            Document::List(l) => DocShape::List(
                Seq::new(
                    l@.len(),
                    |i: int|
                        if 0 <= i < l@.len() {
                            l@[i].shape()
                        } else {
                            arbitrary()
                        },
                ),
            ),
            Document::Object(m) => DocShape::Object(
                Seq::new(
                    m@.len(),
                    |i: int|
                        if 0 <= i < m@.len() {
                            (m@[i].0@, m@[i].1.shape())
                        } else {
                            arbitrary()
                        },
                ),
            ),
        }
    }

    /// The node with the single member `tag`.
    pub fn tagged(tag: &str, body: Document) -> (r: Document)
        ensures
            r@ == tagged(tag@, body@),
    {
        let mut members: Vec<(String, Document)> = Vec::new();
        members.push((tag.to_owned(), body));
        proof {
            lemma_object_shape(members);
            assert(member_shapes(members@) =~= seq![(tag@, body@)]);
        }
        Document::Object(members)
    }

    /// The list of the given nodes.
    pub fn list(nodes: Vec<Document>) -> (r: Document)
        ensures
            r@ == DocShape::List(doc_shapes(nodes@)),
    {
        proof {
            lemma_list_shape(nodes);
        }
        Document::List(nodes)
    }

    /// The node of the given members.
    pub fn object(members: Vec<(String, Document)>) -> (r: Document)
        ensures
            r@ == DocShape::Object(member_shapes(members@)),
    {
        proof {
            lemma_object_shape(members);
        }
        Document::Object(members)
    }
}

/// A list holds what its nodes hold.
pub proof fn lemma_list_shape(l: Vec<Document>)
    ensures
        Document::List(l)@ == DocShape::List(doc_shapes(l@)),
{
    let a = Document::List(l)@;
    assert(a == Document::List(l).shape());
    assert forall|i: int| 0 <= i < l@.len() implies a->List_0[i] == doc_shapes(l@)[i] by {
        assert(a->List_0[i] == l@[i].shape());
    }
    assert(a->List_0 =~= doc_shapes(l@));
}

/// A node of named members holds what they hold.
pub proof fn lemma_object_shape(m: Vec<(String, Document)>)
    ensures
        Document::Object(m)@ == DocShape::Object(member_shapes(m@)),
{
    let a = Document::Object(m)@;
    assert(a == Document::Object(m).shape());
    assert forall|i: int| 0 <= i < m@.len() implies a->Object_0[i] == member_shapes(m@)[i] by {
        assert(a->Object_0[i] == (m@[i].0@, m@[i].1.shape()));
    }
    assert(a->Object_0 =~= member_shapes(m@));
}

/// The node with the single member `tag`.
pub open spec fn tagged(tag: Seq<char>, body: DocShape) -> DocShape {
    DocShape::Object(seq![(tag, body)])
}

/// The nodes of the types, in order.
pub open spec fn type_documents(items: Seq<TypeShape>) -> Seq<DocShape>
    decreases items,
{
    Seq::new(
        items.len(),
        |i: int|
            if 0 <= i < items.len() {
                items[i].document()
            } else {
                arbitrary()
            },
    )
}

/// The types that the nodes hold, where each of them holds one.
pub open spec fn parse_types(nodes: Seq<DocShape>) -> Option<Seq<TypeShape>>
    decreases nodes,
{
    if forall|i: int| 0 <= i < nodes.len() ==> parse_type(#[trigger] nodes[i]) is Some {
        Some(
            Seq::new(
                nodes.len(),
                |i: int|
                    if 0 <= i < nodes.len() {
                        parse_type(nodes[i])->0
                    } else {
                        arbitrary()
                    },
            ),
        )
    } else {
        None
    }
}

/// The type that the node holds, where it holds one.
pub open spec fn parse_type(d: DocShape) -> Option<TypeShape>
    decreases d,
{
    match d {
        DocShape::Object(members) => {
            if members.len() != 1 {
                None
            } else {
                let tag = members[0].0;
                let body = members[0].1;
                if tag == "generic"@ {
                    match body {
                        DocShape::Text(n) => Some(TypeShape::Generic(n)),
                        _ => None,
                    }
                } else if tag == "named"@ {
                    match body {
                        DocShape::Text(n) => Some(TypeShape::Named(n)),
                        _ => None,
                    }
                } else if tag == "array"@ {
                    match parse_type(body) {
                        Some(e) => Some(TypeShape::Array(Box::new(e))),
                        None => None,
                    }
                } else if tag == "map"@ {
                    match body {
                        DocShape::List(l) => {
                            if l.len() == 2 && parse_type(l[0]) is Some && parse_type(l[1]) is Some {
                                Some(
                                    TypeShape::Mapping(
                                        Box::new(parse_type(l[0])->0),
                                        Box::new(parse_type(l[1])->0),
                                    ),
                                )
                            } else {
                                None
                            }
                        },
                        _ => None,
                    }
                } else if tag == "union"@ {
                    match body {
                        DocShape::List(l) => match parse_types(l) {
                            Some(m) => Some(TypeShape::Union(m)),
                            None => None,
                        },
                        _ => None,
                    }
                } else if tag == "function"@ {
                    match body {
                        DocShape::List(l) => {
                            if l.len() == 2 {
                                match (l[0], l[1]) {
                                    (DocShape::List(p), DocShape::List(r)) => {
                                        if parse_types(p) is Some && parse_types(r) is Some {
                                            Some(
                                                TypeShape::Function(
                                                    parse_types(p)->0,
                                                    parse_types(r)->0,
                                                ),
                                            )
                                        } else {
                                            None
                                        }
                                    },
                                    _ => None,
                                }
                            } else {
                                None
                            }
                        },
                        _ => None,
                    }
                } else {
                    None
                }
            }
        },
        _ => None,
    }
}

impl TypeShape {
    /// The node that holds the type: a single member, named after the kind
    /// of type, with what the type is made of.
    pub open spec fn document(self) -> DocShape
        decreases self,
    {
        match self {
            TypeShape::Generic(n) => tagged("generic"@, DocShape::Text(n)),
            TypeShape::Named(n) => tagged("named"@, DocShape::Text(n)),
            TypeShape::Array(e) => tagged("array"@, e.document()),
            TypeShape::Mapping(k, v) => tagged(
                "map"@,
                DocShape::List(seq![k.document(), v.document()]),
            ),
            TypeShape::Union(m) => tagged("union"@, DocShape::List(type_documents(m))),
            TypeShape::Function(p, r) => tagged(
                "function"@,
                DocShape::List(
                    seq![DocShape::List(type_documents(p)), DocShape::List(type_documents(r))],
                ),
            ),
        }
    }
}

/// The names of the kinds of type are six different names.
pub proof fn lemma_kinds_differ()
    ensures
        "generic"@ != "named"@,
        "generic"@ != "array"@,
        "generic"@ != "map"@,
        "generic"@ != "union"@,
        "generic"@ != "function"@,
        "named"@ != "array"@,
        "named"@ != "map"@,
        "named"@ != "union"@,
        "named"@ != "function"@,
        "array"@ != "map"@,
        "array"@ != "union"@,
        "array"@ != "function"@,
        "map"@ != "union"@,
        "map"@ != "function"@,
        "union"@ != "function"@,
{
    reveal_strlit("generic");
    reveal_strlit("named");
    reveal_strlit("array");
    reveal_strlit("map");
    reveal_strlit("union");
    reveal_strlit("function");
    assert("generic"@.len() == 7);
    assert("named"@.len() == 5);
    assert("array"@.len() == 5);
    assert("map"@.len() == 3);
    assert("union"@.len() == 5);
    assert("function"@.len() == 8);
    assert("named"@[0] != "array"@[0]);
    assert("named"@[0] != "union"@[0]);
    assert("array"@[0] != "union"@[0]);
}

/// Reading the node of a type gives the type back.
pub proof fn lemma_type_round_trip(t: TypeShape)
    ensures
        parse_type(t.document()) == Some(t),
    decreases t,
{
    lemma_kinds_differ();
    match t {
        TypeShape::Generic(n) => {},
        TypeShape::Named(n) => {},
        TypeShape::Array(e) => {
            lemma_type_round_trip(*e);
        },
        TypeShape::Mapping(k, v) => {
            lemma_type_round_trip(*k);
            lemma_type_round_trip(*v);
        },
        TypeShape::Union(m) => {
            lemma_types_round_trip(m);
        },
        TypeShape::Function(p, r) => {
            lemma_types_round_trip(p);
            lemma_types_round_trip(r);
        },
    }
}

/// Reading the nodes of a list of types gives the types back.
pub proof fn lemma_types_round_trip(items: Seq<TypeShape>)
    ensures
        parse_types(type_documents(items)) == Some(items),
    decreases items,
{
    let nodes = type_documents(items);
    assert forall|i: int| 0 <= i < nodes.len() implies parse_type(#[trigger] nodes[i]) == Some(
        items[i],
    ) by {
        lemma_type_round_trip(items[i]);
    }
    assert(parse_types(nodes)->0 =~= items);
}

/// `r` is what was read: the same type, or nothing where nothing was to be
/// read.
pub open spec fn is_type_read(r: Option<TealType>, want: Option<TypeShape>) -> bool {
    match r {
        Some(t) => want == Some(t@),
        None => want is None,
    }
}

/// `r` is what was read: the same types, or nothing where nothing was to be
/// read.
pub open spec fn are_types_read(r: Option<Vec<TealType>>, want: Option<Seq<TypeShape>>) -> bool {
    match r {
        Some(v) => want == Some(shapes(v@)),
        None => want is None,
    }
}

impl TealType {
    /// The node that holds the type.
    pub fn to_document(&self) -> (r: Document)
        ensures
            r@ == self@.document(),
        decreases self,
    {
        match self {
            TealType::Generic(n) => Document::tagged("generic", Document::Text(n.clone())),
            TealType::Named(n) => Document::tagged("named", Document::Text(n.clone())),
            TealType::Array(e) => Document::tagged("array", e.to_document()),
            TealType::Mapping(k, v) => {
                let mut pair: Vec<Document> = Vec::new();
                pair.push(k.to_document());
                pair.push(v.to_document());
                proof {
                    assert(doc_shapes(pair@) =~= seq![k@.document(), v@.document()]);
                }
                Document::tagged("map", Document::list(pair))
            },
            TealType::Union(m) => {
                proof {
                    lemma_union_shape(*m);
                }
                Document::tagged("union", Document::list(types_to_documents(m)))
            },
            TealType::Function(p, q) => {
                proof {
                    lemma_function_shape(*p, *q);
                }
                let mut pair: Vec<Document> = Vec::new();
                pair.push(Document::list(types_to_documents(p)));
                pair.push(Document::list(types_to_documents(q)));
                proof {
                    assert(doc_shapes(pair@) =~= seq![
                        DocShape::List(type_documents(shapes(p@))),
                        DocShape::List(type_documents(shapes(q@))),
                    ]);
                }
                Document::tagged("function", Document::list(pair))
            },
        }
    }

    /// The type that the node holds. Nothing where the node is not the node
    /// of a type. What is read is not held to be well formed.
    pub fn from_document(d: &Document) -> (r: Option<TealType>)
        ensures
            is_type_read(r, parse_type(d@)),
        decreases d,
    {
        match d {
            Document::Object(members) => {
                proof {
                    lemma_object_shape(*members);
                }
                if members.len() != 1 {
                    return None;
                }
                let tag = members[0].0.as_str();
                let body = &members[0].1;
                if compare_text(tag, "generic") == Rank::Same {
                    match body {
                        Document::Text(n) => Some(TealType::Generic(n.clone())),
                        _ => None,
                    }
                } else if compare_text(tag, "named") == Rank::Same {
                    match body {
                        Document::Text(n) => Some(TealType::Named(n.clone())),
                        _ => None,
                    }
                } else if compare_text(tag, "array") == Rank::Same {
                    match TealType::from_document(body) {
                        Some(e) => Some(TealType::Array(Box::new(e))),
                        None => None,
                    }
                } else if compare_text(tag, "map") == Rank::Same {
                    match body {
                        Document::List(l) => {
                            proof {
                                lemma_list_shape(*l);
                            }
                            if l.len() != 2 {
                                return None;
                            }
                            let key = match TealType::from_document(&l[0]) {
                                Some(k) => k,
                                None => {
                                    return None;
                                },
                            };
                            match TealType::from_document(&l[1]) {
                                Some(v) => Some(TealType::Mapping(Box::new(key), Box::new(v))),
                                None => None,
                            }
                        },
                        _ => None,
                    }
                } else if compare_text(tag, "union") == Rank::Same {
                    match body {
                        Document::List(l) => {
                            proof {
                                lemma_list_shape(*l);
                            }
                            match types_from_documents(l) {
                                Some(m) => {
                                    proof {
                                        lemma_union_shape(m);
                                    }
                                    Some(TealType::Union(m))
                                },
                                None => None,
                            }
                        },
                        _ => None,
                    }
                } else if compare_text(tag, "function") == Rank::Same {
                    match body {
                        Document::List(l) => {
                            proof {
                                lemma_list_shape(*l);
                            }
                            if l.len() != 2 {
                                return None;
                            }
                            match (&l[0], &l[1]) {
                                (Document::List(p), Document::List(q)) => {
                                    proof {
                                        lemma_list_shape(*p);
                                        lemma_list_shape(*q);
                                    }
                                    let params = match types_from_documents(p) {
                                        Some(v) => v,
                                        None => {
                                            return None;
                                        },
                                    };
                                    match types_from_documents(q) {
                                        Some(results) => {
                                            proof {
                                                lemma_function_shape(params, results);
                                            }
                                            Some(TealType::Function(params, results))
                                        },
                                        None => None,
                                    }
                                },
                                _ => None,
                            }
                        },
                        _ => None,
                    }
                } else {
                    None
                }
            },
            _ => None,
        }
    }
}

/// The nodes that hold the types, in order.
pub fn types_to_documents(items: &Vec<TealType>) -> (r: Vec<Document>)
    ensures
        doc_shapes(r@) == type_documents(shapes(items@)),
    decreases items,
{
    let mut out: Vec<Document> = Vec::new();
    let mut i: usize = 0;
    while i < items.len()
        invariant
            i <= items.len(),
            doc_shapes(out@) == type_documents(shapes(items@)).take(i as int),
        decreases items.len() - i,
    {
        let ghost before = doc_shapes(out@);
        out.push(items[i].to_document());
        proof {
            assert(doc_shapes(out@) =~= before.push(items@[i as int]@.document()));
            assert(type_documents(shapes(items@)).take(i + 1) =~= before.push(
                items@[i as int]@.document(),
            ));
        }
        i += 1;
    }
    proof {
        assert(type_documents(shapes(items@)).take(items.len() as int) =~= type_documents(
            shapes(items@),
        ));
    }
    out
}

/// The types that the nodes hold, where each of them holds one.
pub fn types_from_documents(nodes: &Vec<Document>) -> (r: Option<Vec<TealType>>)
    ensures
        are_types_read(r, parse_types(doc_shapes(nodes@))),
    decreases nodes,
{
    let ghost all = doc_shapes(nodes@);
    let mut out: Vec<TealType> = Vec::new();
    let mut i: usize = 0;
    while i < nodes.len()
        invariant
            i <= nodes.len(),
            all == doc_shapes(nodes@),
            out@.len() == i,
            forall|j: int| 0 <= j < i ==> parse_type(#[trigger] all[j]) == Some(out@[j]@),
        decreases nodes.len() - i,
    {
        match TealType::from_document(&nodes[i]) {
            Some(t) => {
                out.push(t);
            },
            None => {
                assert(parse_type(all[i as int]) is None);
                return None;
            },
        }
        i += 1;
    }
    proof {
        assert(parse_types(all)->0 =~= shapes(out@));
    }
    Some(out)
}

/// The node is a number that is a byte.
pub open spec fn is_byte(d: DocShape) -> bool {
    d matches DocShape::Number(n) && n < 256
}

/// The node that holds a raw name: the list of its bytes as numbers.
pub open spec fn name_document(name: Seq<u8>) -> DocShape {
    DocShape::List(Seq::new(name.len(), |i: int| DocShape::Number(name[i] as u64)))
}

/// The raw name that the node holds, where it holds one.
pub open spec fn parse_name(d: DocShape) -> Option<Seq<u8>> {
    match d {
        DocShape::List(l) => {
            if forall|i: int| 0 <= i < l.len() ==> is_byte(#[trigger] l[i]) {
                Some(Seq::new(l.len(), |i: int| l[i]->Number_0 as u8))
            } else {
                None
            }
        },
        _ => None,
    }
}

/// Reading the node of a raw name gives the name back.
pub proof fn lemma_name_round_trip(name: Seq<u8>)
    ensures
        parse_name(name_document(name)) == Some(name),
{
    let l = name_document(name)->List_0;
    assert forall|i: int| 0 <= i < l.len() implies is_byte(#[trigger] l[i]) by {}
    assert(parse_name(name_document(name))->0 =~= name);
}

impl FunctionShape {
    /// The node that holds the function.
    pub open spec fn document(self) -> DocShape {
        DocShape::Object(
            seq![
                ("name"@, name_document(self.name)),
                ("generics"@, DocShape::List(type_documents(self.generics))),
                ("params"@, DocShape::List(type_documents(self.params))),
                ("returns"@, DocShape::List(type_documents(self.returns))),
                ("is_meta_method"@, DocShape::Bool(self.is_meta_method)),
            ],
        )
    }
}

/// The function that the node holds, where it holds one.
pub open spec fn parse_function(d: DocShape) -> Option<FunctionShape> {
    match d {
        DocShape::Object(m) => {
            if m.len() == 5 && m[0].0 == "name"@ && m[1].0 == "generics"@ && m[2].0 == "params"@
                && m[3].0 == "returns"@ && m[4].0 == "is_meta_method"@ {
                match (parse_name(m[0].1), m[1].1, m[2].1, m[3].1, m[4].1) {
                    (
                        Some(name),
                        DocShape::List(g),
                        DocShape::List(p),
                        DocShape::List(r),
                        DocShape::Bool(meta),
                    ) => {
                        if parse_types(g) is Some && parse_types(p) is Some && parse_types(r)
                            is Some {
                            Some(
                                FunctionShape {
                                    name,
                                    generics: parse_types(g)->0,
                                    params: parse_types(p)->0,
                                    returns: parse_types(r)->0,
                                    is_meta_method: meta,
                                },
                            )
                        } else {
                            None
                        }
                    },
                    _ => None,
                }
            } else {
                None
            }
        },
        _ => None,
    }
}

/// The nodes of the functions, in order.
pub open spec fn function_documents(items: Seq<FunctionShape>) -> Seq<DocShape> {
    Seq::new(items.len(), |i: int| items[i].document())
}

/// The functions that the nodes hold, where each of them holds one.
pub open spec fn parse_functions(nodes: Seq<DocShape>) -> Option<Seq<FunctionShape>> {
    if forall|i: int| 0 <= i < nodes.len() ==> parse_function(#[trigger] nodes[i]) is Some {
        Some(Seq::new(nodes.len(), |i: int| parse_function(nodes[i])->0))
    } else {
        None
    }
}

/// Reading the node of a function gives the function back.
pub proof fn lemma_function_round_trip(f: FunctionShape)
    ensures
        parse_function(f.document()) == Some(f),
{
    lemma_name_round_trip(f.name);
    lemma_types_round_trip(f.generics);
    lemma_types_round_trip(f.params);
    lemma_types_round_trip(f.returns);
}

/// Reading the nodes of a list of functions gives the functions back.
pub proof fn lemma_functions_round_trip(items: Seq<FunctionShape>)
    ensures
        parse_functions(function_documents(items)) == Some(items),
{
    let nodes = function_documents(items);
    assert forall|i: int| 0 <= i < nodes.len() implies parse_function(#[trigger] nodes[i])
        == Some(items[i]) by {
        lemma_function_round_trip(items[i]);
    }
    assert(parse_functions(nodes)->0 =~= items);
}

impl FieldShape {
    /// The node that holds the field.
    pub open spec fn document(self) -> DocShape {
        DocShape::Object(
            seq![("name"@, name_document(self.name)), ("type"@, self.teal_type.document())],
        )
    }
}

/// The field that the node holds, where it holds one.
pub open spec fn parse_field(d: DocShape) -> Option<FieldShape> {
    match d {
        DocShape::Object(m) => {
            if m.len() == 2 && m[0].0 == "name"@ && m[1].0 == "type"@ {
                match (parse_name(m[0].1), parse_type(m[1].1)) {
                    (Some(name), Some(t)) => Some(FieldShape { name, teal_type: t }),
                    _ => None,
                }
            } else {
                None
            }
        },
        _ => None,
    }
}

/// The nodes of the fields, in order.
pub open spec fn field_documents(items: Seq<FieldShape>) -> Seq<DocShape> {
    Seq::new(items.len(), |i: int| items[i].document())
}

/// The fields that the nodes hold, where each of them holds one.
pub open spec fn parse_fields(nodes: Seq<DocShape>) -> Option<Seq<FieldShape>> {
    if forall|i: int| 0 <= i < nodes.len() ==> parse_field(#[trigger] nodes[i]) is Some {
        Some(Seq::new(nodes.len(), |i: int| parse_field(nodes[i])->0))
    } else {
        None
    }
}

/// Reading the node of a field gives the field back.
pub proof fn lemma_field_round_trip(f: FieldShape)
    ensures
        parse_field(f.document()) == Some(f),
{
    lemma_name_round_trip(f.name);
    lemma_type_round_trip(f.teal_type);
}

/// Reading the nodes of a list of fields gives the fields back.
pub proof fn lemma_fields_round_trip(items: Seq<FieldShape>)
    ensures
        parse_fields(field_documents(items)) == Some(items),
{
    let nodes = field_documents(items);
    assert forall|i: int| 0 <= i < nodes.len() implies parse_field(#[trigger] nodes[i]) == Some(
        items[i],
    ) by {
        lemma_field_round_trip(items[i]);
    }
    assert(parse_fields(nodes)->0 =~= items);
}

impl RecordShape {
    /// The node that holds the record.
    pub open spec fn document(self) -> DocShape {
        DocShape::Object(
            seq![
                ("type"@, self.self_type.document()),
                ("fields"@, DocShape::List(field_documents(self.fields))),
                ("methods"@, DocShape::List(function_documents(self.methods))),
                ("functions"@, DocShape::List(function_documents(self.functions))),
            ],
        )
    }
}

/// The record that the node holds, where it holds one that is well formed.
pub open spec fn parse_record(d: DocShape) -> Option<RecordShape> {
    match d {
        DocShape::Object(m) => {
            if m.len() == 4 && m[0].0 == "type"@ && m[1].0 == "fields"@ && m[2].0 == "methods"@
                && m[3].0 == "functions"@ {
                match (parse_type(m[0].1), m[1].1, m[2].1, m[3].1) {
                    (Some(t), DocShape::List(f), DocShape::List(p), DocShape::List(q)) => {
                        if parse_fields(f) is Some && parse_functions(p) is Some
                            && parse_functions(q) is Some {
                            let r = RecordShape {
                                self_type: t,
                                fields: parse_fields(f)->0,
                                methods: parse_functions(p)->0,
                                functions: parse_functions(q)->0,
                            };
                            if r.wf() {
                                Some(r)
                            } else {
                                None
                            }
                        } else {
                            None
                        }
                    },
                    _ => None,
                }
            } else {
                None
            }
        },
        _ => None,
    }
}

/// The nodes of the records, in order.
pub open spec fn record_documents(items: Seq<RecordShape>) -> Seq<DocShape> {
    Seq::new(items.len(), |i: int| items[i].document())
}

/// The records that the nodes hold, where each of them holds one.
pub open spec fn parse_records(nodes: Seq<DocShape>) -> Option<Seq<RecordShape>> {
    if forall|i: int| 0 <= i < nodes.len() ==> parse_record(#[trigger] nodes[i]) is Some {
        Some(Seq::new(nodes.len(), |i: int| parse_record(nodes[i])->0))
    } else {
        None
    }
}

/// Reading the node of a record gives the record back.
pub proof fn lemma_record_round_trip(r: RecordShape)
    requires
        r.wf(),
    ensures
        parse_record(r.document()) == Some(r),
{
    lemma_type_round_trip(r.self_type);
    lemma_fields_round_trip(r.fields);
    lemma_functions_round_trip(r.methods);
    lemma_functions_round_trip(r.functions);
}

/// Every record is well formed.
pub open spec fn all_records_wf(items: Seq<RecordShape>) -> bool {
    forall|i: int| 0 <= i < items.len() ==> (#[trigger] items[i]).wf()
}

/// Reading the nodes of a list of records gives the records back.
pub proof fn lemma_records_round_trip(items: Seq<RecordShape>)
    requires
        all_records_wf(items),
    ensures
        parse_records(record_documents(items)) == Some(items),
{
    let nodes = record_documents(items);
    assert forall|i: int| 0 <= i < nodes.len() implies parse_record(#[trigger] nodes[i]) == Some(
        items[i],
    ) by {
        lemma_record_round_trip(items[i]);
    }
    assert(parse_records(nodes)->0 =~= items);
}

/// Tells whether the member at position `i` has the name `key`.
fn key_is(members: &Vec<(String, Document)>, i: usize, key: &str) -> (r: bool)
    requires
        i < members.len(),
    ensures
        r == (members@[i as int].0@ == key@),
{
    compare_text(members[i].0.as_str(), key) == Rank::Same
}

/// The node that holds a raw name.
pub fn name_to_document(name: &NameContainer) -> (r: Document)
    ensures
        r@ == name_document(name@),
{
    let mut out: Vec<Document> = Vec::new();
    let mut i: usize = 0;
    while i < name.0.len()
        invariant
            i <= name.0.len(),
            out@.len() == i,
            forall|j: int| 0 <= j < i ==> (#[trigger] out@[j])@ == DocShape::Number(name@[j] as u64),
        decreases name.0.len() - i,
    {
        out.push(Document::Number(name.0[i] as u64));
        i += 1;
    }
    proof {
        assert(doc_shapes(out@) =~= name_document(name@)->List_0);
    }
    Document::list(out)
}

/// The raw name that the node holds. Nothing where the node is not a list
/// of bytes.
pub fn name_from_document(d: &Document) -> (r: Option<NameContainer>)
    ensures
        match r {
            Some(name) => parse_name(d@) == Some(name@),
            None => parse_name(d@) is None,
        },
{
    match d {
        Document::List(l) => {
            proof {
                lemma_list_shape(*l);
            }
            let ghost all = doc_shapes(l@);
            let mut out: Vec<u8> = Vec::new();
            let mut i: usize = 0;
            while i < l.len()
                invariant
                    i <= l.len(),
                    all == doc_shapes(l@),
                    d@ == DocShape::List(all),
                    out@.len() == i,
                    forall|j: int|
                        0 <= j < i ==> is_byte(#[trigger] all[j]) && out@[j] == all[j]->Number_0
                            as u8,
                decreases l.len() - i,
            {
                match &l[i] {
                    Document::Number(n) => {
                        if *n >= 256 {
                            assert(!is_byte(all[i as int]));
                            return None;
                        }
                        out.push(*n as u8);
                    },
                    _ => {
                        assert(!is_byte(all[i as int]));
                        return None;
                    },
                }
                i += 1;
            }
            proof {
                assert(parse_name(d@)->0 =~= out@);
            }
            Some(NameContainer::new(out))
        },
        _ => None,
    }
}

impl ExportedFunction {
    /// The node that holds the function.
    pub fn to_document(&self) -> (r: Document)
        ensures
            r@ == self@.document(),
    {
        let mut members: Vec<(String, Document)> = Vec::new();
        members.push(("name".to_owned(), name_to_document(&self.name)));
        members.push(("generics".to_owned(), Document::list(types_to_documents(&self.generics))));
        members.push(("params".to_owned(), Document::list(types_to_documents(&self.params))));
        members.push(("returns".to_owned(), Document::list(types_to_documents(&self.returns))));
        members.push(("is_meta_method".to_owned(), Document::Bool(self.is_meta_method)));
        proof {
            assert(member_shapes(members@) =~= self@.document()->Object_0);
        }
        Document::object(members)
    }

    /// The function that the node holds. Nothing where the node is not the
    /// node of a function. What is read is not held to be valid.
    pub fn from_document(d: &Document) -> (r: Option<ExportedFunction>)
        ensures
            match r {
                Some(f) => parse_function(d@) == Some(f@),
                None => parse_function(d@) is None,
            },
    {
        match d {
            Document::Object(m) => {
                proof {
                    lemma_object_shape(*m);
                }
                if m.len() != 5 {
                    return None;
                }
                if !key_is(m, 0, "name") || !key_is(m, 1, "generics") || !key_is(m, 2, "params")
                    || !key_is(m, 3, "returns") || !key_is(m, 4, "is_meta_method") {
                    return None;
                }
                match (name_from_document(&m[0].1), &m[1].1, &m[2].1, &m[3].1, &m[4].1) {
                    (
                        Some(name),
                        Document::List(g),
                        Document::List(p),
                        Document::List(q),
                        Document::Bool(meta),
                    ) => {
                        proof {
                            lemma_list_shape(*g);
                            lemma_list_shape(*p);
                            lemma_list_shape(*q);
                        }
                        let generics = match types_from_documents(g) {
                            Some(v) => v,
                            None => {
                                return None;
                            },
                        };
                        let params = match types_from_documents(p) {
                            Some(v) => v,
                            None => {
                                return None;
                            },
                        };
                        let results = match types_from_documents(q) {
                            Some(v) => v,
                            None => {
                                return None;
                            },
                        };
                        Some(
                            ExportedFunction {
                                name,
                                generics,
                                params,
                                returns: results,
                                is_meta_method: *meta,
                            },
                        )
                    },
                    _ => None,
                }
            },
            _ => None,
        }
    }
}

impl Field {
    /// The node that holds the field.
    pub fn to_document(&self) -> (r: Document)
        ensures
            r@ == self@.document(),
    {
        let mut members: Vec<(String, Document)> = Vec::new();
        members.push(("name".to_owned(), name_to_document(&self.name)));
        members.push(("type".to_owned(), self.teal_type.to_document()));
        proof {
            assert(member_shapes(members@) =~= self@.document()->Object_0);
        }
        Document::object(members)
    }

    /// The field that the node holds. Nothing where the node is not the node
    /// of a field.
    pub fn from_document(d: &Document) -> (r: Option<Field>)
        ensures
            match r {
                Some(f) => parse_field(d@) == Some(f@),
                None => parse_field(d@) is None,
            },
    {
        match d {
            Document::Object(m) => {
                proof {
                    lemma_object_shape(*m);
                }
                if m.len() != 2 {
                    return None;
                }
                if !key_is(m, 0, "name") || !key_is(m, 1, "type") {
                    return None;
                }
                match (name_from_document(&m[0].1), TealType::from_document(&m[1].1)) {
                    (Some(name), Some(t)) => Some(Field { name, teal_type: t }),
                    _ => None,
                }
            },
            _ => None,
        }
    }
}

/// The nodes that hold the functions, in order.
pub fn functions_to_documents(items: &Vec<ExportedFunction>) -> (r: Vec<Document>)
    ensures
        doc_shapes(r@) == function_documents(function_shapes(items@)),
{
    let mut out: Vec<Document> = Vec::new();
    let mut i: usize = 0;
    while i < items.len()
        invariant
            i <= items.len(),
            doc_shapes(out@) == function_documents(function_shapes(items@)).take(i as int),
        decreases items.len() - i,
    {
        let ghost before = doc_shapes(out@);
        out.push(items[i].to_document());
        proof {
            assert(doc_shapes(out@) =~= before.push(items@[i as int]@.document()));
            assert(function_documents(function_shapes(items@)).take(i + 1) =~= before.push(
                items@[i as int]@.document(),
            ));
        }
        i += 1;
    }
    proof {
        assert(function_documents(function_shapes(items@)).take(items.len() as int)
            =~= function_documents(function_shapes(items@)));
    }
    out
}

/// The functions that the nodes hold, where each of them holds one.
pub fn functions_from_documents(nodes: &Vec<Document>) -> (r: Option<Vec<ExportedFunction>>)
    ensures
        match r {
            Some(v) => parse_functions(doc_shapes(nodes@)) == Some(function_shapes(v@)),
            None => parse_functions(doc_shapes(nodes@)) is None,
        },
{
    let ghost all = doc_shapes(nodes@);
    let mut out: Vec<ExportedFunction> = Vec::new();
    let mut i: usize = 0;
    while i < nodes.len()
        invariant
            i <= nodes.len(),
            all == doc_shapes(nodes@),
            out@.len() == i,
            forall|j: int| 0 <= j < i ==> parse_function(#[trigger] all[j]) == Some(out@[j]@),
        decreases nodes.len() - i,
    {
        match ExportedFunction::from_document(&nodes[i]) {
            Some(t) => {
                out.push(t);
            },
            None => {
                assert(parse_function(all[i as int]) is None);
                return None;
            },
        }
        i += 1;
    }
    proof {
        assert(parse_functions(all)->0 =~= function_shapes(out@));
    }
    Some(out)
}

/// The nodes that hold the fields, in order.
pub fn fields_to_documents(items: &Vec<Field>) -> (r: Vec<Document>)
    ensures
        doc_shapes(r@) == field_documents(field_shapes(items@)),
{
    let mut out: Vec<Document> = Vec::new();
    let mut i: usize = 0;
    while i < items.len()
        invariant
            i <= items.len(),
            doc_shapes(out@) == field_documents(field_shapes(items@)).take(i as int),
        decreases items.len() - i,
    {
        let ghost before = doc_shapes(out@);
        out.push(items[i].to_document());
        proof {
            assert(doc_shapes(out@) =~= before.push(items@[i as int]@.document()));
            assert(field_documents(field_shapes(items@)).take(i + 1) =~= before.push(
                items@[i as int]@.document(),
            ));
        }
        i += 1;
    }
    proof {
        assert(field_documents(field_shapes(items@)).take(items.len() as int)
            =~= field_documents(field_shapes(items@)));
    }
    out
}

/// The fields that the nodes hold, where each of them holds one.
pub fn fields_from_documents(nodes: &Vec<Document>) -> (r: Option<Vec<Field>>)
    ensures
        match r {
            Some(v) => parse_fields(doc_shapes(nodes@)) == Some(field_shapes(v@)),
            None => parse_fields(doc_shapes(nodes@)) is None,
        },
{
    let ghost all = doc_shapes(nodes@);
    let mut out: Vec<Field> = Vec::new();
    let mut i: usize = 0;
    while i < nodes.len()
        invariant
            i <= nodes.len(),
            all == doc_shapes(nodes@),
            out@.len() == i,
            forall|j: int| 0 <= j < i ==> parse_field(#[trigger] all[j]) == Some(out@[j]@),
        decreases nodes.len() - i,
    {
        match Field::from_document(&nodes[i]) {
            Some(t) => {
                out.push(t);
            },
            None => {
                assert(parse_field(all[i as int]) is None);
                return None;
            },
        }
        i += 1;
    }
    proof {
        assert(parse_fields(all)->0 =~= field_shapes(out@));
    }
    Some(out)
}

impl RecordDescriptor {
    /// The node that holds the record.
    pub fn to_document(&self) -> (r: Document)
        ensures
            r@ == self@.document(),
    {
        let mut members: Vec<(String, Document)> = Vec::new();
        members.push(("type".to_owned(), self.self_type().to_document()));
        members.push(("fields".to_owned(), Document::list(fields_to_documents(self.fields()))));
        members.push(("methods".to_owned(), Document::list(functions_to_documents(self.methods()))));
        members.push(
            ("functions".to_owned(), Document::list(functions_to_documents(self.functions()))),
        );
        proof {
            assert(member_shapes(members@) =~= self@.document()->Object_0);
        }
        Document::object(members)
    }

    /// The record that the node holds. Nothing where the node is not the
    /// node of a record, or where two members have one name or the fields
    /// do not stand in ascending order of name.
    pub fn from_document(d: &Document) -> (r: Option<RecordDescriptor>)
        ensures
            match r {
                Some(x) => parse_record(d@) == Some(x@),
                None => parse_record(d@) is None,
            },
    {
        match d {
            Document::Object(m) => {
                proof {
                    lemma_object_shape(*m);
                }
                if m.len() != 4 {
                    return None;
                }
                if !key_is(m, 0, "type") || !key_is(m, 1, "fields") || !key_is(m, 2, "methods")
                    || !key_is(m, 3, "functions") {
                    return None;
                }
                match (TealType::from_document(&m[0].1), &m[1].1, &m[2].1, &m[3].1) {
                    (Some(t), Document::List(f), Document::List(p), Document::List(q)) => {
                        proof {
                            lemma_list_shape(*f);
                            lemma_list_shape(*p);
                            lemma_list_shape(*q);
                        }
                        let fields = match fields_from_documents(f) {
                            Some(v) => v,
                            None => {
                                return None;
                            },
                        };
                        let methods = match functions_from_documents(p) {
                            Some(v) => v,
                            None => {
                                return None;
                            },
                        };
                        let functions = match functions_from_documents(q) {
                            Some(v) => v,
                            None => {
                                return None;
                            },
                        };
                        RecordDescriptor::from_parts(t, fields, methods, functions)
                    },
                    _ => None,
                }
            },
            _ => None,
        }
    }
}

/// The nodes that hold the records, in order.
pub fn records_to_documents(items: &Vec<RecordDescriptor>) -> (r: Vec<Document>)
    ensures
        doc_shapes(r@) == record_documents(record_shapes(items@)),
{
    let mut out: Vec<Document> = Vec::new();
    let mut i: usize = 0;
    while i < items.len()
        invariant
            i <= items.len(),
            doc_shapes(out@) == record_documents(record_shapes(items@)).take(i as int),
        decreases items.len() - i,
    {
        let ghost before = doc_shapes(out@);
        out.push(items[i].to_document());
        proof {
            assert(doc_shapes(out@) =~= before.push(items@[i as int]@.document()));
            assert(record_documents(record_shapes(items@)).take(i + 1) =~= before.push(
                items@[i as int]@.document(),
            ));
        }
        i += 1;
    }
    proof {
        assert(record_documents(record_shapes(items@)).take(items.len() as int)
            =~= record_documents(record_shapes(items@)));
    }
    out
}

/// The records that the nodes hold, where each of them holds one.
pub fn records_from_documents(nodes: &Vec<Document>) -> (r: Option<Vec<RecordDescriptor>>)
    ensures
        match r {
            Some(v) => parse_records(doc_shapes(nodes@)) == Some(record_shapes(v@)),
            None => parse_records(doc_shapes(nodes@)) is None,
        },
{
    let ghost all = doc_shapes(nodes@);
    let mut out: Vec<RecordDescriptor> = Vec::new();
    let mut i: usize = 0;
    while i < nodes.len()
        invariant
            i <= nodes.len(),
            all == doc_shapes(nodes@),
            out@.len() == i,
            forall|j: int| 0 <= j < i ==> parse_record(#[trigger] all[j]) == Some(out@[j]@),
        decreases nodes.len() - i,
    {
        match RecordDescriptor::from_document(&nodes[i]) {
            Some(t) => {
                out.push(t);
            },
            None => {
                assert(parse_record(all[i as int]) is None);
                return None;
            },
        }
        i += 1;
    }
    proof {
        assert(parse_records(all)->0 =~= record_shapes(out@));
    }
    Some(out)
}

} // verus!
