//! The description of one record type: its fields, its methods and its
//! functions, and the block that is written for it.

use crate::documentation::{doc_comment, Documentation};
use crate::exported_function::{
    function_lines, function_shapes, generate_all, ExportedFunction, FunctionShape,
};
use crate::name_container::NameContainer;
use crate::sorted::{
    ascending, insert_by_key, is_ascending, keys_by, keys_of, lemma_insert_contains,
    lemma_place_step, place_all, Keyed,
};
use crate::teal_type::{TealType, TypeShape};
use crate::text::{
    chain, decoded, encode_text, is_outcome, lemma_lines_of_error, lemma_lines_of_step, lines_of, DecodingError,
};
use vstd::prelude::*;

verus! {

/// One field of a record.
#[derive(Debug, PartialEq, Eq)]
pub struct Field {
    /// Name of the field.
    pub name: NameContainer,
    /// Type of the field.
    pub teal_type: TealType,
}

/// What a field holds.
pub struct FieldShape {
    pub name: Seq<u8>,
    pub teal_type: TypeShape,
}

impl FieldShape {
    /// The line written for the field, below its documentation: its name, a
    /// colon and the name of its type.
    pub open spec fn render(self, docs: Map<Seq<u8>, Seq<char>>) -> Result<Seq<char>, Seq<u8>> {
        match decoded(self.name) {
            Ok(name) => Ok(doc_comment(docs, self.name) + name + ": "@ + self.teal_type.name()),
            Err(e) => Err(e),
        }
    }
}

impl View for Field {
    type V = FieldShape;

    open spec fn view(&self) -> FieldShape {
        FieldShape { name: self.name@, teal_type: self.teal_type@ }
    }
}

impl Keyed for Field {
    open spec fn key(&self) -> Seq<u8> {
        self.name@
    }

    fn key_bytes(&self) -> (k: Vec<u8>) {
        self.name.key_bytes()
    }
}

/// The key by which fields are ordered: their raw name.
pub open spec fn field_key() -> spec_fn(FieldShape) -> Seq<u8> {
    |f: FieldShape| f.name
}

/// What the fields of a list hold.
pub open spec fn field_shapes(fields: Seq<Field>) -> Seq<FieldShape> {
    Seq::new(fields.len(), |i: int| fields[i]@)
}

/// The line written for each of the fields, in order.
pub open spec fn field_lines(fields: Seq<FieldShape>, docs: Map<Seq<u8>, Seq<char>>) -> Seq<
    Result<Seq<char>, Seq<u8>>,
> {
    Seq::new(fields.len(), |i: int| fields[i].render(docs))
}

/// The names of the members of a record: of its fields, then of its methods,
/// then of its functions.
pub open spec fn member_names(
    fields: Seq<FieldShape>,
    methods: Seq<FunctionShape>,
    functions: Seq<FunctionShape>,
) -> Seq<Seq<u8>> {
    Seq::new(fields.len(), |i: int| fields[i].name) + Seq::new(
        methods.len(),
        |i: int| methods[i].name,
    ) + Seq::new(functions.len(), |i: int| functions[i].name)
}

/// One of the functions is a meta method.
pub open spec fn any_meta(functions: Seq<FunctionShape>) -> bool {
    exists|i: int| 0 <= i < functions.len() && (#[trigger] functions[i]).is_meta_method
}

/// The name at position `j` also stands at an earlier position.
pub open spec fn repeats_at(names: Seq<Seq<u8>>, j: int) -> bool {
    exists|i: int| 0 <= i < j && #[trigger] names[i] == names[j]
}

/// Position `j` is the first at which a name stands that stood before.
pub open spec fn first_repeat(names: Seq<Seq<u8>>, j: int) -> bool {
    &&& 0 <= j < names.len()
    &&& repeats_at(names, j)
    &&& forall|k: int| 0 <= k < j ==> !repeats_at(names, k)
}

/// `name` is the first of `names` that stood before.
pub open spec fn first_repeated(names: Seq<Seq<u8>>, name: Seq<u8>) -> bool {
    exists|j: int| #[trigger] first_repeat(names, j) && names[j] == name
}

/// Two members of a record have one name.
#[derive(Debug, PartialEq, Eq)]
pub struct DuplicateMemberError {
    /// The name that occurs twice.
    pub name: Vec<u8>,
}

/// The description of a record type. No two of its members have one name.
#[derive(Debug, PartialEq, Eq)]
pub struct RecordDescriptor {
    /// The type that the record declares.
    self_type: TealType,
    /// The fields, in ascending order of name.
    fields: Vec<Field>,
    /// The methods, which take the record as their first parameter.
    methods: Vec<ExportedFunction>,
    /// The functions, which take no receiver.
    functions: Vec<ExportedFunction>,
}

/// What the description of a record holds.
pub struct RecordShape {
    pub self_type: TypeShape,
    pub fields: Seq<FieldShape>,
    pub methods: Seq<FunctionShape>,
    pub functions: Seq<FunctionShape>,
}

impl RecordShape {
    /// No two members have one name, and the fields stand in ascending order
    /// of name.
    pub open spec fn wf(self) -> bool {
        &&& member_names(self.fields, self.methods, self.functions).no_duplicates()
        &&& ascending(keys_by(self.fields, field_key()))
    }

    /// The raw name under which the record is documented and ordered: the
    /// UTF-8 bytes of the name of its type.
    pub open spec fn key(self) -> Seq<u8> {
        self.self_type.key()
    }

    /// The first line of the block, below the documentation of the record.
    pub open spec fn heading(self, docs: Map<Seq<u8>, Seq<char>>) -> Seq<char> {
        doc_comment(docs, self.key()) + "record "@ + self.self_type.name() + "\n"@
    }

    /// The block written for the record: the heading, a line for each field,
    /// a declaration for each method with the record as receiver and for
    /// each function without, and `end`. Where a name does not read as text,
    /// the first such name is the error.
    #[verifier::opaque]
    pub open spec fn render(self, docs: Map<Seq<u8>, Seq<char>>) -> Result<Seq<char>, Seq<u8>> {
        chain(
            chain(Ok(self.heading(docs)), lines_of(field_lines(self.fields, docs))),
            chain(
                lines_of(function_lines(self.methods, Some(self.self_type), docs)),
                chain(lines_of(function_lines(self.functions, None, docs)), Ok("end"@)),
            ),
        )
    }

    /// One of the methods or functions is a meta method.
    pub open spec fn has_meta_methods(self) -> bool {
        any_meta(self.methods) || any_meta(self.functions)
    }
}

impl View for RecordDescriptor {
    type V = RecordShape;

    closed spec fn view(&self) -> RecordShape {
        RecordShape {
            self_type: self.self_type@,
            fields: field_shapes(self.fields@),
            methods: function_shapes(self.methods@),
            functions: function_shapes(self.functions@),
        }
    }
}

/// What a record of the given type and members holds.
pub open spec fn given_shape(
    self_type: TypeShape,
    fields: Seq<Field>,
    methods: Seq<ExportedFunction>,
    functions: Seq<ExportedFunction>,
) -> RecordShape {
    RecordShape {
        self_type,
        fields: field_shapes(fields),
        methods: function_shapes(methods),
        functions: function_shapes(functions),
    }
}

impl Keyed for RecordDescriptor {
    open spec fn key(&self) -> Seq<u8> {
        self@.key()
    }

    fn key_bytes(&self) -> (k: Vec<u8>) {
        let shown = self.self_type.name();
        encode_text(shown.as_str())
    }
}

/// The key by which records are ordered and told apart: the UTF-8 bytes of
/// the name of their type.
pub open spec fn record_key() -> spec_fn(RecordShape) -> Seq<u8> {
    |r: RecordShape| r.key()
}

/// What the descriptions of a list of records hold.
pub open spec fn record_shapes(records: Seq<RecordDescriptor>) -> Seq<RecordShape> {
    Seq::new(records.len(), |i: int| records[i]@)
}

/// The block written for each of the records, in order.
pub open spec fn record_lines(records: Seq<RecordShape>, docs: Map<Seq<u8>, Seq<char>>) -> Seq<
    Result<Seq<char>, Seq<u8>>,
> {
    Seq::new(records.len(), |i: int| records[i].render(docs))
}

/// Writes the blocks of the records, a line feed after each. Fails with the
/// first name that does not read as text.
pub fn generate_records(records: &Vec<RecordDescriptor>, documentation: &Documentation) -> (r:
    Result<String, DecodingError>)
    ensures
        is_outcome(r, lines_of(record_lines(record_shapes(records@), documentation@))),
{
    let ghost lines = record_lines(record_shapes(records@), documentation@);
    let mut out = String::new();
    let mut i: usize = 0;
    while i < records.len()
        invariant
            i <= records.len(),
            lines == record_lines(record_shapes(records@), documentation@),
            lines_of(lines.take(i as int)) == Ok::<Seq<char>, Seq<u8>>(out@),
        decreases records.len() - i,
    {
        match records[i].generate(documentation) {
            Ok(block) => {
                let ghost before = out@;
                out.append(block.as_str());
                out.append("\n");
                proof {
                    lemma_lines_of_step(lines, i as int, before, block@);
                }
            },
            Err(e) => {
                proof {
                    lemma_lines_of_error(lines, i as int);
                }
                return Err(e);
            },
        }
        i += 1;
    }
    proof {
        assert(lines.take(records.len() as int) =~= lines);
    }
    Ok(out)
}

/// The names of the members: of the fields, then of the methods, then of
/// the functions.
pub fn member_name_list(
    fields: &Vec<Field>,
    methods: &Vec<ExportedFunction>,
    functions: &Vec<ExportedFunction>,
) -> (r: Vec<NameContainer>)
    ensures
        keys_of(r@) == member_names(
            field_shapes(fields@),
            function_shapes(methods@),
            function_shapes(functions@),
        ),
{
    let mut all: Vec<NameContainer> = Vec::new();
    let mut i: usize = 0;
    while i < fields.len()
        invariant
            i <= fields.len(),
            keys_of(all@) == Seq::new(i as nat, |j: int| field_shapes(fields@)[j].name),
        decreases fields.len() - i,
    {
        let ghost known = keys_of(all@);
        all.push(fields[i].name.clone());
        proof {
            assert(keys_of(all@) =~= known.push(fields@[i as int].name@));
            assert(keys_of(all@) =~= Seq::new(
                (i + 1) as nat,
                |j: int| field_shapes(fields@)[j].name,
            ));
        }
        i += 1;
    }
    let ghost head = keys_of(all@);
    i = 0;
    while i < methods.len()
        invariant
            i <= methods.len(),
            keys_of(all@) == head + Seq::new(
                i as nat,
                |j: int| function_shapes(methods@)[j].name,
            ),
        decreases methods.len() - i,
    {
        let ghost known = keys_of(all@);
        all.push(methods[i].name.clone());
        proof {
            assert(keys_of(all@) =~= known.push(methods@[i as int].name@));
            assert(keys_of(all@) =~= head + Seq::new(
                (i + 1) as nat,
                |j: int| function_shapes(methods@)[j].name,
            ));
        }
        i += 1;
    }
    let ghost middle = keys_of(all@);
    i = 0;
    while i < functions.len()
        invariant
            i <= functions.len(),
            keys_of(all@) == middle + Seq::new(
                i as nat,
                |j: int| function_shapes(functions@)[j].name,
            ),
        decreases functions.len() - i,
    {
        let ghost known = keys_of(all@);
        all.push(functions[i].name.clone());
        proof {
            assert(keys_of(all@) =~= known.push(functions@[i as int].name@));
            assert(keys_of(all@) =~= middle + Seq::new(
                (i + 1) as nat,
                |j: int| function_shapes(functions@)[j].name,
            ));
        }
        i += 1;
    }
    proof {
        assert(keys_of(all@) =~= member_names(
            field_shapes(fields@),
            function_shapes(methods@),
            function_shapes(functions@),
        ));
    }
    all
}

/// The position of the first name that stood before, if there is one.
pub fn first_duplicate(names: &Vec<NameContainer>) -> (r: Option<usize>)
    ensures
        match r {
            Some(j) => first_repeat(keys_of(names@), j as int),
            None => keys_of(names@).no_duplicates(),
        },
{
    let ghost all = keys_of(names@);
    let mut seen: Vec<NameContainer> = Vec::new();
    let mut k: usize = 0;
    proof {
        assert(keys_of(seen@) =~= Seq::<Seq<u8>>::empty());
    }
    while k < names.len()
        invariant
            k <= names.len(),
            all == keys_of(names@),
            ascending(keys_of(seen@)),
            forall|key: Seq<u8>| #[trigger]
                keys_of(seen@).contains(key) <==> all.take(k as int).contains(key),
            forall|j: int| 0 <= j < k ==> !repeats_at(all, j),
        decreases names.len() - k,
    {
        let ghost before = keys_of(seen@);
        let at = insert_by_key(&mut seen, names[k].clone());
        proof {
            let here = all[k as int];
            if before.contains(here) {
                let i = choose|i: int| 0 <= i < k && all.take(k as int)[i] == here;
                assert(all[i] == all[k as int]);
            } else {
                assert forall|i: int| 0 <= i < k implies all[i] != here by {
                    assert(all.take(k as int)[i] == all[i]);
                    assert(all.take(k as int).contains(all[i]));
                }
            }
        }
        match at {
            None => {
                return Some(k);
            },
            Some(p) => {
                proof {
                    let here = all[k as int];
                    assert(keys_of(seen@) =~= before.insert(p as int, here));
                    lemma_insert_contains(before, p as int, here);
                    assert(all.take(k + 1) =~= all.take(k as int).insert(k as int, here));
                    lemma_insert_contains(all.take(k as int), k as int, here);
                }
            },
        }
        k += 1;
    }
    proof {
        assert forall|i: int, j: int| 0 <= i < all.len() && 0 <= j < all.len() && i != j implies all[i]
            != all[j] by {
            if i < j {
                assert(!repeats_at(all, j));
            } else {
                assert(!repeats_at(all, i));
            }
        }
    }
    None
}

/// Writes the lines of the fields, a line feed after each.
pub fn generate_fields(fields: &Vec<Field>, documentation: &Documentation) -> (r: Result<
    String,
    DecodingError,
>)
    ensures
        is_outcome(r, lines_of(field_lines(field_shapes(fields@), documentation@))),
{
    let ghost lines = field_lines(field_shapes(fields@), documentation@);
    let mut out = String::new();
    let mut i: usize = 0;
    while i < fields.len()
        invariant
            i <= fields.len(),
            lines == field_lines(field_shapes(fields@), documentation@),
            lines_of(lines.take(i as int)) == Ok::<Seq<char>, Seq<u8>>(out@),
        decreases fields.len() - i,
    {
        match fields[i].generate(documentation) {
            Ok(line) => {
                let ghost before = out@;
                out.append(line.as_str());
                out.append("\n");
                proof {
                    lemma_lines_of_step(lines, i as int, before, line@);
                }
            },
            Err(e) => {
                proof {
                    lemma_lines_of_error(lines, i as int);
                }
                return Err(e);
            },
        }
        i += 1;
    }
    proof {
        assert(lines.take(fields.len() as int) =~= lines);
    }
    Ok(out)
}

impl Field {
    /// The field of the given name and type.
    pub fn new(name: Vec<u8>, teal_type: TealType) -> (r: Field)
        ensures
            r@ == (FieldShape { name: name@, teal_type: teal_type@ }),
    {
        Field { name: NameContainer::new(name), teal_type }
    }

    /// Writes the line of the field, below its documentation. Fails where
    /// the name of the field does not read as text.
    pub fn generate(&self, documentation: &Documentation) -> (r: Result<String, DecodingError>)
        ensures
            is_outcome(r, self@.render(documentation@)),
    {
        let name = match self.name.decode() {
            Ok(name) => name,
            Err(e) => {
                return Err(e);
            },
        };
        let mut out = documentation.comment_for(&self.name);
        let ghost comment = out@;
        out.append(name.as_str());
        out.append(": ");
        let shown = self.teal_type.name();
        out.append(shown.as_str());
        proof {
            assert(out@ =~= comment + name@ + ": "@ + self@.teal_type.name());
        }
        Ok(out)
    }
}

impl RecordDescriptor {
    /// Every record is well formed.
    #[verifier::type_invariant]
    pub open spec fn well_formed(self) -> bool {
        self@.wf()
    }

    /// The record of the given type and members. The fields are put in
    /// ascending order of name. Fails where two members have one name, with
    /// the first name that stood before among the names of the fields, then
    /// of the methods, then of the functions.
    pub fn new(
        self_type: TealType,
        fields: Vec<Field>,
        methods: Vec<ExportedFunction>,
        functions: Vec<ExportedFunction>,
    ) -> (r: Result<RecordDescriptor, DuplicateMemberError>)
        ensures
            r is Ok <==> member_names(
                field_shapes(fields@),
                function_shapes(methods@),
                function_shapes(functions@),
            ).no_duplicates(),
            match r {
                Ok(d) => {
                    &&& d@.wf()
                    &&& d@.self_type == self_type@
                    &&& d@.fields == place_all(
                        Seq::empty(),
                        field_shapes(fields@),
                        field_key(),
                    )
                    &&& d@.methods == function_shapes(methods@)
                    &&& d@.functions == function_shapes(functions@)
                },
                Err(e) => first_repeated(
                    member_names(
                        field_shapes(fields@),
                        function_shapes(methods@),
                        function_shapes(functions@),
                    ),
                    e.name@,
                ),
            },
    {
        let ghost names = member_names(
            field_shapes(fields@),
            function_shapes(methods@),
            function_shapes(functions@),
        );
        let all = member_name_list(&fields, &methods, &functions);
        match first_duplicate(&all) {
            Some(j) => {
                proof {
                    assert(repeats_at(names, j as int));
                    let i = choose|i: int| 0 <= i < j && #[trigger] names[i] == names[j as int];
                    assert(names[i] == names[j as int] && i != j);
                }
                return Err(DuplicateMemberError { name: all[j].0.clone() });
            },
            None => {},
        }
        let ghost given = field_shapes(fields@);
        let mut sorted: Vec<Field> = Vec::new();
        proof {
            assert(given.take(0) =~= Seq::<FieldShape>::empty());
            assert(keys_of(sorted@) =~= Seq::<Seq<u8>>::empty());
        }
        for f in it: fields
            invariant
                field_shapes(it.seq()) == given,
                ascending(keys_of(sorted@)),
                field_shapes(sorted@) == place_all(
                    Seq::empty(),
                    given.take(it.index()),
                    field_key(),
                ),
        {
            let ghost before = sorted@;
            let ghost item = f@;
            proof {
                assert(item == given[it.index()]);
                assert(keys_by(field_shapes(before), field_key()) =~= keys_of(before));
                assert(given.take(it.index() + 1).drop_last() =~= given.take(it.index()));
            }
            let at = insert_by_key(&mut sorted, f);
            proof {
                let spot = match at {
                    Some(p) => Some(p as int),
                    None => None,
                };
                if at is Some {
                    assert(field_shapes(sorted@) =~= field_shapes(before).insert(
                        at->0 as int,
                        item,
                    ));
                }
                assert(keys_by(field_shapes(sorted@), field_key()) =~= keys_of(sorted@));
                lemma_place_step(
                    field_shapes(before),
                    field_shapes(sorted@),
                    item,
                    field_key(),
                    spot,
                );
            }
        }
        proof {
            assert(given.take(given.len() as int) =~= given);
            assert(keys_by(field_shapes(sorted@), field_key()) =~= keys_of(sorted@));
            lemma_placed_names(given, methods@, functions@);
        }
        Ok(RecordDescriptor { self_type, fields: sorted, methods, functions })
    }

    /// The record of the given type and members, as they stand. Nothing
    /// where two members have one name or the fields do not stand in
    /// ascending order of name.
    pub fn from_parts(
        self_type: TealType,
        fields: Vec<Field>,
        methods: Vec<ExportedFunction>,
        functions: Vec<ExportedFunction>,
    ) -> (r: Option<RecordDescriptor>)
        ensures
            match r {
                Some(d) => d@ == given_shape(self_type@, fields@, methods@, functions@) && d@.wf(),
                None => !given_shape(self_type@, fields@, methods@, functions@).wf(),
            },
    {
        let names = member_name_list(&fields, &methods, &functions);
        proof {
            assert(keys_by(field_shapes(fields@), field_key()) =~= keys_of(fields@));
        }
        match first_duplicate(&names) {
            Some(j) => {
                proof {
                    let all = keys_of(names@);
                    let i = choose|i: int| 0 <= i < j && #[trigger] all[i] == all[j as int];
                    assert(all[i] == all[j as int] && i != j);
                }
                None
            },
            None => {
                if is_ascending(&fields) {
                    Some(RecordDescriptor { self_type, fields, methods, functions })
                } else {
                    None
                }
            },
        }
    }

    /// The type that the record declares.
    pub fn self_type(&self) -> (r: &TealType)
        ensures
            r@ == self@.self_type,
    {
        &self.self_type
    }

    /// The fields, in ascending order of name.
    pub fn fields(&self) -> (r: &Vec<Field>)
        ensures
            field_shapes(r@) == self@.fields,
    {
        &self.fields
    }

    /// The methods, which take the record as their first parameter.
    pub fn methods(&self) -> (r: &Vec<ExportedFunction>)
        ensures
            function_shapes(r@) == self@.methods,
    {
        &self.methods
    }

    /// The functions, which take no receiver.
    pub fn functions(&self) -> (r: &Vec<ExportedFunction>)
        ensures
            function_shapes(r@) == self@.functions,
    {
        &self.functions
    }

    /// Tells whether one of the methods or functions is a meta method.
    pub fn has_meta_methods(&self) -> (r: bool)
        ensures
            r == self@.has_meta_methods(),
    {
        any_meta_method(&self.methods) || any_meta_method(&self.functions)
    }

    /// Writes the block of the record. Fails with the first name that does
    /// not read as text.
    pub fn generate(&self, documentation: &Documentation) -> (r: Result<String, DecodingError>)
        ensures
            is_outcome(r, self@.render(documentation@)),
    {
        proof {
            reveal(RecordShape::render);
        }
        let shown = self.self_type.name();
        let key = NameContainer::from_text(shown.as_str());
        let mut out = documentation.comment_for(&key);
        let ghost comment = out@;
        out.append("record ");
        out.append(shown.as_str());
        out.append("\n");
        proof {
            assert(out@ =~= self@.heading(documentation@));
        }
        let ghost heading = out@;
        let fields = match generate_fields(&self.fields, documentation) {
            Ok(text) => text,
            Err(e) => {
                return Err(e);
            },
        };
        let methods = match generate_all(&self.methods, Some(&self.self_type), documentation) {
            Ok(text) => text,
            Err(e) => {
                return Err(e);
            },
        };
        let functions = match generate_all(&self.functions, None, documentation) {
            Ok(text) => text,
            Err(e) => {
                return Err(e);
            },
        };
        out.append(fields.as_str());
        out.append(methods.as_str());
        out.append(functions.as_str());
        out.append("end");
        proof {
            assert(out@ =~= (heading + fields@) + (methods@ + (functions@ + "end"@)));
        }
        Ok(out)
    }
}

/// Tells whether one of the functions is a meta method.
fn any_meta_method(functions: &Vec<ExportedFunction>) -> (r: bool)
    ensures
        r == any_meta(function_shapes(functions@)),
{
    let mut i: usize = 0;
    while i < functions.len()
        invariant
            i <= functions.len(),
            forall|j: int| 0 <= j < i ==> !(#[trigger] function_shapes(functions@)[j]).is_meta_method,
        decreases functions.len() - i,
    {
        if functions[i].is_meta_method {
            assert(function_shapes(functions@)[i as int].is_meta_method);
            return true;
        }
        i += 1;
    }
    false
}

/// Putting the fields in order changes no set of member names: where the
/// names of the members as given do not repeat, those of the members as kept
/// do not either.
proof fn lemma_placed_names(
    given: Seq<FieldShape>,
    methods: Seq<ExportedFunction>,
    functions: Seq<ExportedFunction>,
)
    requires
        member_names(given, function_shapes(methods), function_shapes(functions)).no_duplicates(),
    ensures
        member_names(
            place_all(Seq::empty(), given, field_key()),
            function_shapes(methods),
            function_shapes(functions),
        ).no_duplicates(),
{
    let kept = place_all(Seq::<FieldShape>::empty(), given, field_key());
    let before = member_names(given, function_shapes(methods), function_shapes(functions));
    let after = member_names(kept, function_shapes(methods), function_shapes(functions));
    crate::sorted::lemma_place_all(given, field_key());
    let n = kept.len() as int;
    let g = given.len() as int;
    assert forall|i: int, j: int| 0 <= i < after.len() && 0 <= j < after.len() && i != j implies after[i]
        != after[j] by {
        if i < n && j < n {
            let lo = if i < j { i } else { j };
            let hi = if i < j { j } else { i };
            assert(keys_by(kept, field_key())[lo] == after[lo]);
            assert(keys_by(kept, field_key())[hi] == after[hi]);
            crate::lex::lemma_bytes_less_asymmetric(after[lo], after[hi]);
        } else if i >= n && j >= n {
            assert(after[i] == before[i - n + g]);
            assert(after[j] == before[j - n + g]);
        } else {
            let f = if i < n { i } else { j };
            let o = if i < n { j } else { i };
            assert(kept.contains(kept[f]));
            let m = choose|m: int| 0 <= m < given.len() && given[m] == kept[f];
            assert(after[f] == before[m]);
            assert(after[o] == before[o - n + g]);
        }
    }
}

} // verus!
