//! The registry that gathers the descriptions of records and functions and
//! writes the declarations for all of them.

use crate::document::{
    all_records_wf, function_documents, functions_from_documents, functions_to_documents,
    lemma_functions_round_trip, lemma_list_shape, lemma_object_shape, lemma_records_round_trip,
    member_shapes, parse_functions, parse_records, record_documents, records_from_documents,
    records_to_documents, DocShape, Document,
};
use crate::documentation::Documentation;
use crate::lex::{compare_text, Rank};
use crate::exported_function::{
    function_key, function_lines, function_shapes, generate_all, ExportedFunction, FunctionShape,
};
use crate::record::{
    generate_records, record_key, record_lines, record_shapes, RecordDescriptor, RecordShape,
};
use crate::sorted::{
    ascending, insert_by_key, is_ascending, keys_by, keys_of, lemma_place_all_any_order,
    lemma_place_cases, lemma_place_step, place, place_all, same_items,
};
use crate::text::{chain, is_outcome, lines_of, DecodingError};
use vstd::prelude::*;

verus! {

/// What can be registered: the description of a record or of a function.
#[derive(Debug, PartialEq, Eq)]
pub enum Descriptor {
    Record(RecordDescriptor),
    Function(ExportedFunction),
}

/// What a registered description holds.
pub enum DescriptorShape {
    Record(RecordShape),
    Function(FunctionShape),
}

impl View for Descriptor {
    type V = DescriptorShape;

    open spec fn view(&self) -> DescriptorShape {
        match self {
            Descriptor::Record(r) => DescriptorShape::Record(r@),
            Descriptor::Function(f) => DescriptorShape::Function(f@),
        }
    }
}

/// The registry has written its declarations and takes no more
/// descriptions.
#[derive(Debug, PartialEq, Eq)]
pub struct AlreadyRendered;

/// What a registry holds.
pub struct WalkerShape {
    /// The records, in ascending order of the name of their type.
    pub records: Seq<RecordShape>,
    /// The functions, in ascending order of name.
    pub functions: Seq<FunctionShape>,
    /// Whether the declarations have been written.
    pub rendered: bool,
}

/// The records among the descriptions, in order.
pub open spec fn records_of(ds: Seq<DescriptorShape>) -> Seq<RecordShape>
    decreases ds.len(),
{
    if ds.len() == 0 {
        Seq::empty()
    } else {
        match ds.last() {
            DescriptorShape::Record(r) => records_of(ds.drop_last()).push(r),
            DescriptorShape::Function(_) => records_of(ds.drop_last()),
        }
    }
}

/// The functions among the descriptions, in order.
pub open spec fn functions_of(ds: Seq<DescriptorShape>) -> Seq<FunctionShape>
    decreases ds.len(),
{
    if ds.len() == 0 {
        Seq::empty()
    } else {
        match ds.last() {
            DescriptorShape::Record(_) => functions_of(ds.drop_last()),
            DescriptorShape::Function(f) => functions_of(ds.drop_last()).push(f),
        }
    }
}

/// The two descriptions are told apart by nothing: two records of one type
/// name, or two functions of one name.
pub open spec fn same_identity(a: DescriptorShape, b: DescriptorShape) -> bool {
    match (a, b) {
        (DescriptorShape::Record(x), DescriptorShape::Record(y)) => x.key() == y.key(),
        (DescriptorShape::Function(x), DescriptorShape::Function(y)) => x.name == y.name,
        _ => false,
    }
}

/// Descriptions that are told apart by nothing are one description.
pub open spec fn one_per_identity(ds: Seq<DescriptorShape>) -> bool {
    forall|i: int, j: int|
        0 <= i < ds.len() && 0 <= j < ds.len() && same_identity(#[trigger] ds[i], #[trigger] ds[j])
            ==> ds[i] == ds[j]
}

impl WalkerShape {
    /// The registry that holds nothing.
    pub open spec fn empty() -> WalkerShape {
        WalkerShape { records: Seq::empty(), functions: Seq::empty(), rendered: false }
    }

    /// The records and the functions stand in ascending order of their
    /// keys, so that none is held twice, and every record is well formed.
    pub open spec fn wf(self) -> bool {
        &&& ascending(keys_by(self.records, record_key()))
        &&& ascending(keys_by(self.functions, function_key()))
        &&& all_records_wf(self.records)
    }

    /// The registry after `d` was registered: `d` stands where its key
    /// belongs, unless a description of that key is held already or the
    /// declarations have been written; then nothing changes.
    pub open spec fn register(self, d: DescriptorShape) -> WalkerShape {
        if self.rendered {
            self
        } else {
            match d {
                DescriptorShape::Record(r) => WalkerShape {
                    records: place(self.records, r, record_key()),
                    ..self
                },
                DescriptorShape::Function(f) => WalkerShape {
                    functions: place(self.functions, f, function_key()),
                    ..self
                },
            }
        }
    }

    /// The registry after each of `ds` was registered, the first one first.
    pub open spec fn register_all(self, ds: Seq<DescriptorShape>) -> WalkerShape
        decreases ds.len(),
    {
        if ds.len() == 0 {
            self
        } else {
            self.register_all(ds.drop_last()).register(ds.last())
        }
    }

    /// The registry after its declarations were written.
    pub open spec fn sealed(self) -> WalkerShape {
        WalkerShape { rendered: true, ..self }
    }

    /// The node that holds the records and the functions.
    pub open spec fn document(self) -> DocShape {
        DocShape::Object(
            seq![
                ("records"@, DocShape::List(record_documents(self.records))),
                ("functions"@, DocShape::List(function_documents(self.functions))),
            ],
        )
    }

    /// The declarations of all that is held: the blocks of the records,
    /// then the declarations of the functions, a line feed after each. Where
    /// a name does not read as text, the first such name is the error.
    pub open spec fn render_all(self, docs: Map<Seq<u8>, Seq<char>>) -> Result<
        Seq<char>,
        Seq<u8>,
    > {
        chain(
            lines_of(record_lines(self.records, docs)),
            lines_of(function_lines(self.functions, None, docs)),
        )
    }
}

/// The registry that the node holds, where it holds one: the records and
/// the functions in ascending order of their keys, and no declarations
/// written yet.
pub open spec fn parse_walker(d: DocShape) -> Option<WalkerShape> {
    match d {
        DocShape::Object(m) => {
            if m.len() == 2 && m[0].0 == "records"@ && m[1].0 == "functions"@ {
                match (m[0].1, m[1].1) {
                    (DocShape::List(r), DocShape::List(f)) => {
                        if parse_records(r) is Some && parse_functions(f) is Some {
                            let w = WalkerShape {
                                records: parse_records(r)->0,
                                functions: parse_functions(f)->0,
                                rendered: false,
                            };
                            if w.wf() {
                                Some(w)
                            } else {
                                None
                            }
                        } else {
                            None
                        }
                    },
                    _ => None,
                }
            } else {
                None
            }
        },
        _ => None,
    }
}

/// Reading the node of a registry gives back the records and the functions
/// that it holds, as a registry whose declarations are not written yet.
pub proof fn lemma_walker_round_trip(w: WalkerShape)
    requires
        w.wf(),
    ensures
        parse_walker(w.document()) == Some(
            WalkerShape { records: w.records, functions: w.functions, rendered: false },
        ),
{
    lemma_records_round_trip(w.records);
    lemma_functions_round_trip(w.functions);
    assert(parse_records(record_documents(w.records))->0 == w.records);
}

/// The record `r` is among `records_of(ds)` where it is among `ds`, and only
/// there.
pub proof fn lemma_records_of(ds: Seq<DescriptorShape>, r: RecordShape)
    ensures
        records_of(ds).contains(r) <==> ds.contains(DescriptorShape::Record(r)),
    decreases ds.len(),
{
    if ds.len() > 0 {
        let d = ds.drop_last();
        lemma_records_of(d, r);
        let want = DescriptorShape::Record(r);
        if ds.contains(want) {
            let i = choose|i: int| 0 <= i < ds.len() && ds[i] == want;
            if i < d.len() {
                assert(d[i] == want);
                assert(d.contains(want));
                let j = choose|j: int| 0 <= j < records_of(d).len() && records_of(d)[j] == r;
                assert(records_of(ds)[j] == r);
            } else {
                assert(records_of(ds).last() == r);
            }
        }
        if records_of(ds).contains(r) {
            let j = choose|j: int| 0 <= j < records_of(ds).len() && records_of(ds)[j] == r;
            if j < records_of(d).len() {
                assert(records_of(d)[j] == r);
                assert(records_of(d).contains(r));
                let i = choose|i: int| 0 <= i < d.len() && d[i] == want;
                assert(ds[i] == want);
            } else {
                assert(ds[ds.len() - 1] == want);
            }
        }
    }
}

/// The function `f` is among `functions_of(ds)` where it is among `ds`, and
/// only there.
pub proof fn lemma_functions_of(ds: Seq<DescriptorShape>, f: FunctionShape)
    ensures
        functions_of(ds).contains(f) <==> ds.contains(DescriptorShape::Function(f)),
    decreases ds.len(),
{
    if ds.len() > 0 {
        let d = ds.drop_last();
        lemma_functions_of(d, f);
        let want = DescriptorShape::Function(f);
        if ds.contains(want) {
            let i = choose|i: int| 0 <= i < ds.len() && ds[i] == want;
            if i < d.len() {
                assert(d[i] == want);
                assert(d.contains(want));
                let j = choose|j: int|
                    0 <= j < functions_of(d).len() && functions_of(d)[j] == f;
                assert(functions_of(ds)[j] == f);
            } else {
                assert(functions_of(ds).last() == f);
            }
        }
        if functions_of(ds).contains(f) {
            let j = choose|j: int| 0 <= j < functions_of(ds).len() && functions_of(ds)[j] == f;
            if j < functions_of(d).len() {
                assert(functions_of(d)[j] == f);
                assert(functions_of(d).contains(f));
                let i = choose|i: int| 0 <= i < d.len() && d[i] == want;
                assert(ds[i] == want);
            } else {
                assert(ds[ds.len() - 1] == want);
            }
        }
    }
}

/// What the empty registry holds after `ds` were registered: the records
/// among them, placed by type name, and the functions among them, placed by
/// name.
pub proof fn lemma_register_all(ds: Seq<DescriptorShape>)
    ensures
        WalkerShape::empty().register_all(ds) == (WalkerShape {
            records: place_all(Seq::empty(), records_of(ds), record_key()),
            functions: place_all(Seq::empty(), functions_of(ds), function_key()),
            rendered: false,
        }),
    decreases ds.len(),
{
    if ds.len() > 0 {
        lemma_register_all(ds.drop_last());
        match ds.last() {
            DescriptorShape::Record(r) => {
                assert(records_of(ds).drop_last() =~= records_of(ds.drop_last()));
            },
            DescriptorShape::Function(f) => {
                assert(functions_of(ds).drop_last() =~= functions_of(ds.drop_last()));
            },
        }
    }
}

/// Registering a description a second time changes nothing.
pub proof fn lemma_register_again(w: WalkerShape, d: DescriptorShape)
    requires
        w.wf(),
    ensures
        w.register(d).register(d) == w.register(d),
{
    if !w.rendered {
        match d {
            DescriptorShape::Record(r) => {
                let s = place(w.records, r, record_key());
                lemma_place_cases(w.records, r, record_key());
                if !keys_by(w.records, record_key()).contains(r.key()) {
                    let p = choose|p: int|
                        0 <= p <= w.records.len() && s == #[trigger] w.records.insert(p, r);
                    assert(keys_by(s, record_key())[p] == r.key());
                }
                lemma_place_cases(s, r, record_key());
            },
            DescriptorShape::Function(f) => {
                let s = place(w.functions, f, function_key());
                lemma_place_cases(w.functions, f, function_key());
                if !keys_by(w.functions, function_key()).contains(f.name) {
                    let p = choose|p: int|
                        0 <= p <= w.functions.len() && s == #[trigger] w.functions.insert(p, f);
                    assert(keys_by(s, function_key())[p] == f.name);
                }
                lemma_place_cases(s, f, function_key());
            },
        }
    }
}

/// The order of registration does not show: registries that were handed the
/// same descriptions, in whatever order and however often, hold the same and
/// write the same declarations. It is asked that descriptions which are told
/// apart by nothing are one description.
pub proof fn lemma_registration_order(
    a: Seq<DescriptorShape>,
    b: Seq<DescriptorShape>,
    docs: Map<Seq<u8>, Seq<char>>,
)
    requires
        same_items(a, b),
        one_per_identity(a),
    ensures
        WalkerShape::empty().register_all(a) == WalkerShape::empty().register_all(b),
        WalkerShape::empty().register_all(a).render_all(docs) == WalkerShape::empty().register_all(
            b,
        ).render_all(docs),
{
    lemma_register_all(a);
    lemma_register_all(b);
    let ra = records_of(a);
    let rb = records_of(b);
    assert forall|r: RecordShape| ra.contains(r) <==> rb.contains(r) by {
        lemma_records_of(a, r);
        lemma_records_of(b, r);
    }
    assert forall|i: int, j: int|
        0 <= i < ra.len() && 0 <= j < ra.len() && record_key()(#[trigger] ra[i]) == record_key()(
            #[trigger] ra[j],
        ) implies ra[i] == ra[j] by {
        lemma_records_of(a, ra[i]);
        lemma_records_of(a, ra[j]);
        assert(ra.contains(ra[i]) && ra.contains(ra[j]));
        let m = choose|m: int| 0 <= m < a.len() && a[m] == DescriptorShape::Record(ra[i]);
        let n = choose|n: int| 0 <= n < a.len() && a[n] == DescriptorShape::Record(ra[j]);
        assert(same_identity(a[m], a[n]));
    }
    lemma_place_all_any_order(ra, rb, record_key());
    let fa = functions_of(a);
    let fb = functions_of(b);
    assert forall|f: FunctionShape| fa.contains(f) <==> fb.contains(f) by {
        lemma_functions_of(a, f);
        lemma_functions_of(b, f);
    }
    assert forall|i: int, j: int|
        0 <= i < fa.len() && 0 <= j < fa.len() && function_key()(#[trigger] fa[i])
            == function_key()(#[trigger] fa[j]) implies fa[i] == fa[j] by {
        lemma_functions_of(a, fa[i]);
        lemma_functions_of(a, fa[j]);
        assert(fa.contains(fa[i]) && fa.contains(fa[j]));
        let m = choose|m: int| 0 <= m < a.len() && a[m] == DescriptorShape::Function(fa[i]);
        let n = choose|n: int| 0 <= n < a.len() && a[n] == DescriptorShape::Function(fa[j]);
        assert(same_identity(a[m], a[n]));
    }
    lemma_place_all_any_order(fa, fb, function_key());
}

/// The registry of the descriptions of records and functions. It takes
/// descriptions until its declarations are written, and none after.
#[derive(Debug, PartialEq, Eq)]
pub struct TypeWalker {
    records: Vec<RecordDescriptor>,
    functions: Vec<ExportedFunction>,
    rendered: bool,
}

impl View for TypeWalker {
    type V = WalkerShape;

    closed spec fn view(&self) -> WalkerShape {
        WalkerShape {
            records: record_shapes(self.records@),
            functions: function_shapes(self.functions@),
            rendered: self.rendered,
        }
    }
}

impl TypeWalker {
    /// The records and the functions stand in ascending order of their
    /// keys, and every record is well formed.
    #[verifier::type_invariant]
    spec fn in_order(self) -> bool {
        &&& ascending(keys_of(self.records@))
        &&& ascending(keys_of(self.functions@))
        &&& all_records_wf(record_shapes(self.records@))
    }

    /// A registry that holds nothing.
    pub fn new() -> (r: TypeWalker)
        ensures
            r@ == WalkerShape::empty(),
            r@.wf(),
    {
        let r = TypeWalker { records: Vec::new(), functions: Vec::new(), rendered: false };
        proof {
            assert(r@.records =~= Seq::<RecordShape>::empty());
            assert(r@.functions =~= Seq::<FunctionShape>::empty());
        }
        r
    }

    /// Tells whether the declarations have been written.
    pub fn is_rendered(&self) -> (r: bool)
        ensures
            r == self@.rendered,
    {
        self.rendered
    }

    /// Registers a description. One that is told apart by nothing from a
    /// description held already changes nothing. Fails, and changes nothing,
    /// once the declarations have been written.
    pub fn register(&mut self, descriptor: Descriptor) -> (r: Result<(), AlreadyRendered>)
        ensures
            final(self)@.wf(),
            final(self)@ == old(self)@.register(descriptor@),
            r is Err <==> old(self)@.rendered,
    {
        proof {
            use_type_invariant(&*self);
            assert(keys_by(record_shapes(self.records@), record_key()) =~= keys_of(self.records@));
            assert(keys_by(function_shapes(self.functions@), function_key()) =~= keys_of(
                self.functions@,
            ));
        }
        if self.rendered {
            return Err(AlreadyRendered);
        }
        match descriptor {
            Descriptor::Record(record) => {
                let ghost before = self.records@;
                let ghost item = record@;
                proof {
                    assert(keys_by(record_shapes(before), record_key()) =~= keys_of(before));
                }
                proof {
                    use_type_invariant(&record);
                }
                let mut records: Vec<RecordDescriptor> = Vec::new();
                proof {
                    assert(record_shapes(records@) =~= Seq::<RecordShape>::empty());
                }
                std::mem::swap(&mut self.records, &mut records);
                let at = insert_by_key(&mut records, record);
                proof {
                    let after = record_shapes(records@);
                    assert forall|i: int| 0 <= i < after.len() implies (#[trigger] after[i]).wf() by {
                        match at {
                            Some(p) => {
                                if i < p {
                                    assert(after[i] == record_shapes(before)[i]);
                                } else if i > p {
                                    assert(after[i] == record_shapes(before)[i - 1]);
                                }
                            },
                            None => {},
                        }
                    }
                }
                self.records = records;
                proof {
                    let spot = match at {
                        Some(p) => Some(p as int),
                        None => None,
                    };
                    if at is Some {
                        assert(record_shapes(self.records@) =~= record_shapes(before).insert(
                            at->0 as int,
                            item,
                        ));
                    }
                    assert(keys_by(record_shapes(self.records@), record_key()) =~= keys_of(
                        self.records@,
                    ));
                    lemma_place_step(
                        record_shapes(before),
                        record_shapes(self.records@),
                        item,
                        record_key(),
                        spot,
                    );
                }
            },
            Descriptor::Function(function) => {
                let ghost before = self.functions@;
                let ghost item = function@;
                proof {
                    assert(keys_by(function_shapes(before), function_key()) =~= keys_of(before));
                }
                let mut functions: Vec<ExportedFunction> = Vec::new();
                proof {
                    assert(keys_of(functions@) =~= Seq::<Seq<u8>>::empty());
                }
                std::mem::swap(&mut self.functions, &mut functions);
                let at = insert_by_key(&mut functions, function);
                self.functions = functions;
                proof {
                    let spot = match at {
                        Some(p) => Some(p as int),
                        None => None,
                    };
                    if at is Some {
                        assert(function_shapes(self.functions@) =~= function_shapes(before).insert(
                            at->0 as int,
                            item,
                        ));
                    }
                    assert(keys_by(function_shapes(self.functions@), function_key()) =~= keys_of(
                        self.functions@,
                    ));
                    lemma_place_step(
                        function_shapes(before),
                        function_shapes(self.functions@),
                        item,
                        function_key(),
                        spot,
                    );
                }
            },
        }
        Ok(())
    }

    /// Writes the declarations of all that is held: the blocks of the
    /// records in ascending order of type name, then the declarations of the
    /// functions in ascending order of name, a line feed after each. From
    /// then on the registry takes no more descriptions. Fails with the first
    /// name that does not read as text.
    pub fn render_all(&mut self, documentation: &Documentation) -> (r: Result<
        String,
        DecodingError,
    >)
        ensures
            final(self)@ == old(self)@.sealed(),
            is_outcome(r, old(self)@.render_all(documentation@)),
    {
        proof {
            use_type_invariant(&*self);
        }
        self.rendered = true;
        let mut out = match generate_records(&self.records, documentation) {
            Ok(text) => text,
            Err(e) => {
                return Err(e);
            },
        };
        let functions = match generate_all(&self.functions, None, documentation) {
            Ok(text) => text,
            Err(e) => {
                return Err(e);
            },
        };
        out.append(functions.as_str());
        Ok(out)
    }

    /// The structured document that holds the records and the functions.
    pub fn to_document(&self) -> (r: Document)
        ensures
            r@ == self@.document(),
            self@.wf(),
    {
        proof {
            use_type_invariant(self);
            assert(keys_by(record_shapes(self.records@), record_key()) =~= keys_of(self.records@));
            assert(keys_by(function_shapes(self.functions@), function_key()) =~= keys_of(
                self.functions@,
            ));
        }
        let mut members: Vec<(String, Document)> = Vec::new();
        members.push(("records".to_owned(), Document::list(records_to_documents(&self.records))));
        members.push(
            ("functions".to_owned(), Document::list(functions_to_documents(&self.functions))),
        );
        proof {
            assert(member_shapes(members@) =~= self@.document()->Object_0);
        }
        Document::object(members)
    }

    /// The registry that the document holds, with no declarations written
    /// yet. Nothing where the document is not that of a registry, or where
    /// its records or functions do not stand in ascending order of their
    /// keys.
    pub fn from_document(d: &Document) -> (r: Option<TypeWalker>)
        ensures
            match r {
                Some(w) => parse_walker(d@) == Some(w@) && w@.wf(),
                None => parse_walker(d@) is None,
            },
    {
        match d {
            Document::Object(m) => {
                proof {
                    lemma_object_shape(*m);
                }
                if m.len() != 2 {
                    return None;
                }
                if compare_text(m[0].0.as_str(), "records") != Rank::Same || compare_text(
                    m[1].0.as_str(),
                    "functions",
                ) != Rank::Same {
                    return None;
                }
                match (&m[0].1, &m[1].1) {
                    (Document::List(r), Document::List(f)) => {
                        proof {
                            lemma_list_shape(*r);
                            lemma_list_shape(*f);
                        }
                        let records = match records_from_documents(r) {
                            Some(v) => v,
                            None => {
                                return None;
                            },
                        };
                        let functions = match functions_from_documents(f) {
                            Some(v) => v,
                            None => {
                                return None;
                            },
                        };
                        proof {
                            assert(keys_by(record_shapes(records@), record_key()) =~= keys_of(
                                records@,
                            ));
                            assert(keys_by(function_shapes(functions@), function_key())
                                =~= keys_of(functions@));
                        }
                        if !is_ascending(&records) || !is_ascending(&functions) {
                            return None;
                        }
                        Some(TypeWalker { records, functions, rendered: false })
                    },
                    _ => None,
                }
            },
            _ => None,
        }
    }
}

} // verus!
