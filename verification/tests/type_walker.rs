use tealr::{
    AlreadyRendered, Descriptor, Document, Documentation, ExportedFunction, Field, NameContainer,
    RecordDescriptor, TealType, TypeWalker,
};

fn n(name: &str) -> TealType {
    TealType::named(name)
}

fn function(name: &str, params: Vec<TealType>, results: Vec<TealType>) -> ExportedFunction {
    ExportedFunction::new(name.as_bytes().to_vec(), false, params, results)
}

fn record(name: &str, fields: Vec<(&str, TealType)>) -> RecordDescriptor {
    let fields = fields
        .into_iter()
        .map(|(name, teal_type)| Field::new(name.as_bytes().to_vec(), teal_type))
        .collect();
    RecordDescriptor::new(n(name), fields, vec![], vec![]).unwrap()
}

fn x() -> TealType {
    TealType::union_of(vec![n("string"), n("number"), n("boolean")])
}

fn example() -> RecordDescriptor {
    RecordDescriptor::new(
        n("Example"),
        vec![],
        vec![
            function(
                "limited_callback",
                vec![TealType::function(vec![x()], vec![x()])],
                vec![x()],
            ),
            function("limited_array", vec![TealType::array_of(x())], vec![TealType::array_of(x())]),
            function("limited_simple", vec![x()], vec![x()]),
        ],
        vec![],
    )
    .unwrap()
}

fn walker_of(descriptors: Vec<Descriptor>) -> TypeWalker {
    let mut walker = TypeWalker::new();
    for d in descriptors {
        assert_eq!(walker.register(d), Ok(()));
    }
    walker
}

fn name_node(bytes: &[u8]) -> Document {
    Document::List(bytes.iter().map(|b| Document::Number(*b as u64)).collect())
}

fn text(s: &str) -> Document {
    Document::Text(s.to_string())
}

fn member(key: &str, value: Document) -> (String, Document) {
    (key.to_string(), value)
}

fn tagged(tag: &str, body: Document) -> Document {
    Document::Object(vec![member(tag, body)])
}

fn x_document() -> Document {
    tagged(
        "union",
        Document::List(vec![
            tagged("named", text("string")),
            tagged("named", text("number")),
            tagged("named", text("boolean")),
        ]),
    )
}

fn function_document(name: &str, params: Vec<Document>, results: Vec<Document>) -> Document {
    Document::Object(vec![
        member("name", name_node(name.as_bytes())),
        member("generics", Document::List(vec![])),
        member("params", Document::List(params)),
        member("returns", Document::List(results)),
        member("is_meta_method", Document::Bool(false)),
    ])
}

#[test]
fn test_limited() {
    let mut walker = TypeWalker::new();
    walker.register(Descriptor::Record(example())).unwrap();
    let new_value = walker.to_document();
    let old_value = Document::Object(vec![
        member(
            "records",
            Document::List(vec![Document::Object(vec![
                member("type", tagged("named", text("Example"))),
                member("fields", Document::List(vec![])),
                member(
                    "methods",
                    Document::List(vec![
                        function_document(
                            "limited_callback",
                            vec![tagged(
                                "function",
                                Document::List(vec![
                                    Document::List(vec![x_document()]),
                                    Document::List(vec![x_document()]),
                                ]),
                            )],
                            vec![x_document()],
                        ),
                        function_document(
                            "limited_array",
                            vec![tagged("array", x_document())],
                            vec![tagged("array", x_document())],
                        ),
                        function_document("limited_simple", vec![x_document()], vec![x_document()]),
                    ]),
                ),
                member("functions", Document::List(vec![])),
            ])]),
        ),
        member("functions", Document::List(vec![])),
    ]);
    assert_eq!(new_value, old_value);
    assert_eq!(TypeWalker::from_document(&old_value), Some(walker));
    let res = example().generate(&Documentation::new()).unwrap();
    assert!(res.contains(
        "\nlimited_simple: function(Example, string | number | boolean): (string | number | boolean)\n"
    ));
}

#[test]
fn records_come_first_and_each_kind_is_sorted_by_name() {
    let mut walker = walker_of(vec![
        Descriptor::Function(function("zeta", vec![], vec![n("Beta")])),
        Descriptor::Record(record("Beta", vec![("size", n("number"))])),
        Descriptor::Function(function("alpha", vec![n("Alpha")], vec![])),
        Descriptor::Record(record("Alpha", vec![])),
    ]);
    assert!(!walker.is_rendered());
    let text = walker.render_all(&Documentation::new()).unwrap();
    assert_eq!(
        text,
        "record Alpha\nend\n\
         record Beta\nsize: number\nend\n\
         alpha: function(Alpha): ()\n\
         zeta: function(): (Beta)\n"
    );
    assert!(walker.is_rendered());
}

#[test]
fn a_walker_that_holds_nothing_writes_nothing() {
    let mut walker = TypeWalker::new();
    assert_eq!(walker.render_all(&Documentation::new()).unwrap(), "");
    assert_eq!(
        TypeWalker::new().to_document(),
        Document::Object(vec![
            member("records", Document::List(vec![])),
            member("functions", Document::List(vec![])),
        ])
    );
}

#[test]
fn a_single_function_is_written_as_one_line() {
    let mut walker =
        walker_of(vec![Descriptor::Function(function("concat", vec![n("string"), n("string")], vec![n("string")]))]);
    assert_eq!(
        walker.render_all(&Documentation::new()).unwrap(),
        "concat: function(string, string): (string)\n"
    );
}

#[test]
fn the_order_of_registration_does_not_show() {
    let make = || {
        vec![
            Descriptor::Record(record("B", vec![("y", n("number")), ("x", n("string"))])),
            Descriptor::Function(function("g", vec![TealType::generic("T")], vec![])),
            Descriptor::Record(example()),
            Descriptor::Function(function("f", vec![], vec![n("B")])),
            Descriptor::Record(record("A", vec![])),
        ]
    };
    let mut docs = Documentation::new();
    docs.insert(NameContainer::from_text("B"), "The record B.".to_string());
    docs.insert(NameContainer::from_text("f"), "Makes a B.".to_string());
    let mut first = walker_of(make());
    let mut backwards = make();
    backwards.reverse();
    let mut second = walker_of(backwards);
    let mut rotated = make();
    rotated.rotate_left(2);
    rotated.extend(make());
    let mut third = walker_of(rotated);
    assert_eq!(first, second);
    assert_eq!(first, third);
    assert_eq!(first.to_document(), second.to_document());
    let text = first.render_all(&docs).unwrap();
    assert_eq!(second.render_all(&docs).unwrap(), text);
    assert_eq!(third.render_all(&docs).unwrap(), text);
    assert!(text.starts_with("record A\nend\n--The record B.\nrecord B\nx: string\ny: number\nend\nrecord Example\n"));
    assert!(text.ends_with("end\n--Makes a B.\nf: function(): (B)\ng: function<T>(T): ()\n"));
}

#[test]
fn registering_again_changes_nothing() {
    let mut walker = walker_of(vec![
        Descriptor::Record(record("A", vec![("x", n("string"))])),
        Descriptor::Function(function("f", vec![], vec![])),
    ]);
    let before = walker.to_document();
    assert_eq!(walker.register(Descriptor::Record(record("A", vec![("x", n("string"))]))), Ok(()));
    assert_eq!(walker.register(Descriptor::Function(function("f", vec![], vec![]))), Ok(()));
    assert_eq!(walker.to_document(), before);
    assert_eq!(walker.register(Descriptor::Record(record("A", vec![]))), Ok(()));
    assert_eq!(walker.to_document(), before);
    assert_eq!(
        walker.render_all(&Documentation::new()).unwrap(),
        "record A\nx: string\nend\nf: function(): ()\n"
    );
}

#[test]
fn nothing_is_registered_once_the_declarations_are_written() {
    let mut walker = walker_of(vec![Descriptor::Function(function("f", vec![], vec![]))]);
    let text = walker.render_all(&Documentation::new()).unwrap();
    assert_eq!(
        walker.register(Descriptor::Function(function("g", vec![], vec![]))),
        Err(AlreadyRendered)
    );
    assert_eq!(walker.register(Descriptor::Record(record("A", vec![]))), Err(AlreadyRendered));
    assert!(walker.is_rendered());
    assert_eq!(walker.render_all(&Documentation::new()).unwrap(), text);
    assert_eq!(text, "f: function(): ()\n");
}

#[test]
fn a_name_that_is_not_text_fails_the_whole() {
    let mut walker = walker_of(vec![
        Descriptor::Function(function("ok", vec![], vec![])),
        Descriptor::Function(ExportedFunction::new(vec![0xff, 0x01], false, vec![], vec![])),
        Descriptor::Function(ExportedFunction::new(vec![0xfe], false, vec![], vec![])),
    ]);
    let err = walker.render_all(&Documentation::new()).unwrap_err();
    assert_eq!(err.name, vec![0xfe]);
    assert!(walker.is_rendered());
    let mut with_record = walker_of(vec![
        Descriptor::Function(ExportedFunction::new(vec![0xfe], false, vec![], vec![])),
        Descriptor::Record(
            RecordDescriptor::new(n("R"), vec![Field::new(vec![0x80], n("x"))], vec![], vec![])
                .unwrap(),
        ),
    ]);
    assert_eq!(with_record.render_all(&Documentation::new()).unwrap_err().name, vec![0x80]);
}

#[test]
fn the_document_is_read_back_as_the_same_registry() {
    let walker = walker_of(vec![
        Descriptor::Record(example()),
        Descriptor::Record(record(
            "Other",
            vec![("m", TealType::mapping(n("string"), TealType::generic("V")))],
        )),
        Descriptor::Function(ExportedFunction::new(
            vec![0xff, 0x00],
            true,
            vec![TealType::generic("K"), TealType::array_of(TealType::generic("V"))],
            vec![TealType::function(vec![TealType::generic("K")], vec![])],
        )),
        Descriptor::Function(function("plain", vec![], vec![])),
    ]);
    let document = walker.to_document();
    let read = TypeWalker::from_document(&document).unwrap();
    assert_eq!(read, walker);
    assert_eq!(read.to_document(), document);
}

#[test]
fn a_written_registry_is_read_back_as_one_that_takes_descriptions() {
    let mut walker = walker_of(vec![Descriptor::Function(function("f", vec![], vec![]))]);
    walker.render_all(&Documentation::new()).unwrap();
    let mut read = TypeWalker::from_document(&walker.to_document()).unwrap();
    assert!(!read.is_rendered());
    assert_eq!(read.register(Descriptor::Function(function("g", vec![], vec![]))), Ok(()));
    assert_eq!(
        read.render_all(&Documentation::new()).unwrap(),
        "f: function(): ()\ng: function(): ()\n"
    );
}

#[test]
fn documents_that_hold_no_registry_are_refused() {
    assert_eq!(TypeWalker::from_document(&Document::Bool(true)), None);
    assert_eq!(TypeWalker::from_document(&Document::Object(vec![])), None);
    assert_eq!(
        TypeWalker::from_document(&Document::Object(vec![
            member("functions", Document::List(vec![])),
            member("records", Document::List(vec![])),
        ])),
        None
    );
    assert_eq!(
        TypeWalker::from_document(&Document::Object(vec![
            member("records", Document::List(vec![text("no record")])),
            member("functions", Document::List(vec![])),
        ])),
        None
    );
    let f = |name: &str| function_document(name, vec![], vec![]);
    let unsorted = Document::Object(vec![
        member("records", Document::List(vec![])),
        member("functions", Document::List(vec![f("b"), f("a")])),
    ]);
    assert_eq!(TypeWalker::from_document(&unsorted), None);
    let twice = Document::Object(vec![
        member("records", Document::List(vec![])),
        member("functions", Document::List(vec![f("a"), f("a")])),
    ]);
    assert_eq!(TypeWalker::from_document(&twice), None);
    let sorted = Document::Object(vec![
        member("records", Document::List(vec![])),
        member("functions", Document::List(vec![f("a"), f("b")])),
    ]);
    assert!(TypeWalker::from_document(&sorted).is_some());
}
