use tealr::document::{
    fields_from_documents, functions_from_documents, functions_to_documents, name_from_document,
    name_to_document, records_from_documents, types_from_documents, types_to_documents,
};
use tealr::{Document, ExportedFunction, Field, NameContainer, RecordDescriptor, TealType};

fn n(name: &str) -> TealType {
    TealType::named(name)
}

fn name_node(bytes: &[u8]) -> Document {
    Document::List(bytes.iter().map(|b| Document::Number(*b as u64)).collect())
}

fn text(s: &str) -> Document {
    Document::Text(s.to_string())
}

fn member(key: &str, value: Document) -> (String, Document) {
    (key.to_string(), value)
}

fn tagged(tag: &str, body: Document) -> Document {
    Document::Object(vec![member(tag, body)])
}

#[test]
fn nodes_of_each_kind_of_type() {
    assert_eq!(TealType::generic("T").to_document(), tagged("generic", text("T")));
    assert_eq!(n("string").to_document(), tagged("named", text("string")));
    assert_eq!(
        TealType::array_of(n("a")).to_document(),
        tagged("array", tagged("named", text("a")))
    );
    assert_eq!(
        TealType::mapping(n("k"), n("v")).to_document(),
        tagged(
            "map",
            Document::List(vec![tagged("named", text("k")), tagged("named", text("v"))])
        )
    );
    assert_eq!(
        TealType::union_of(vec![n("a"), n("b")]).to_document(),
        tagged(
            "union",
            Document::List(vec![tagged("named", text("b")), tagged("named", text("a"))])
        )
    );
    assert_eq!(
        TealType::function(vec![n("p")], vec![]).to_document(),
        tagged(
            "function",
            Document::List(vec![
                Document::List(vec![tagged("named", text("p"))]),
                Document::List(vec![]),
            ])
        )
    );
    assert_eq!(Document::tagged("t", Document::Bool(true)), tagged("t", Document::Bool(true)));
    assert_eq!(Document::list(vec![]), Document::List(vec![]));
    assert_eq!(Document::object(vec![]), Document::Object(vec![]));
}

#[test]
fn types_are_read_back() {
    let samples = vec![
        TealType::generic("T"),
        n(""),
        TealType::array_of(TealType::array_of(n("x"))),
        TealType::mapping(TealType::generic("K"), TealType::union_of(vec![n("a"), n("b")])),
        TealType::Union(vec![n("a"), n("b"), n("a")]),
        TealType::function(
            vec![TealType::function(vec![], vec![n("r")]), n("generic")],
            vec![TealType::Union(vec![])],
        ),
    ];
    for t in &samples {
        assert_eq!(TealType::from_document(&t.to_document()).as_ref(), Some(t));
    }
    assert_eq!(types_from_documents(&types_to_documents(&samples)), Some(samples));
}

#[test]
fn nodes_that_hold_no_type_are_refused() {
    let refused = vec![
        Document::Bool(false),
        text("string"),
        Document::Number(1),
        Document::List(vec![]),
        Document::Object(vec![]),
        tagged("other", text("x")),
        tagged("generic", Document::Bool(true)),
        tagged("named", Document::List(vec![])),
        tagged("array", text("x")),
        tagged("map", Document::List(vec![tagged("named", text("k"))])),
        tagged("map", Document::List(vec![tagged("named", text("k")), text("v")])),
        tagged("map", Document::List(vec![text("k"), tagged("named", text("v"))])),
        tagged("map", text("x")),
        tagged("union", text("x")),
        tagged("union", Document::List(vec![tagged("named", text("a")), text("b")])),
        tagged("function", Document::List(vec![Document::List(vec![])])),
        tagged("function", Document::List(vec![Document::List(vec![]), text("x")])),
        tagged("function", Document::List(vec![text("x"), Document::List(vec![])])),
        tagged(
            "function",
            Document::List(vec![Document::List(vec![text("x")]), Document::List(vec![])]),
        ),
        tagged(
            "function",
            Document::List(vec![Document::List(vec![]), Document::List(vec![text("x")])]),
        ),
        tagged("function", Document::Bool(true)),
        Document::Object(vec![member("named", text("a")), member("named", text("a"))]),
    ];
    for d in &refused {
        assert_eq!(TealType::from_document(d), None, "for {:?}", d);
    }
    assert_eq!(types_from_documents(&vec![tagged("named", text("a")), text("b")]), None);
}

#[test]
fn functions_are_written_and_read_back() {
    let f = ExportedFunction::new(
        b"f".to_vec(),
        true,
        vec![TealType::generic("T")],
        vec![n("r"), TealType::generic("T")],
    );
    let d = f.to_document();
    assert_eq!(
        d,
        Document::Object(vec![
            member("name", name_node(b"f")),
            member("generics", Document::List(vec![tagged("generic", text("T"))])),
            member("params", Document::List(vec![tagged("generic", text("T"))])),
            member(
                "returns",
                Document::List(vec![tagged("named", text("r")), tagged("generic", text("T"))])
            ),
            member("is_meta_method", Document::Bool(true)),
        ])
    );
    assert_eq!(ExportedFunction::from_document(&d), Some(f));
    let g = ExportedFunction::new(vec![0xff], false, vec![], vec![]);
    let both = vec![ExportedFunction::from_document(&d).unwrap(), g];
    assert_eq!(functions_from_documents(&functions_to_documents(&both)), Some(both));
}

#[test]
fn nodes_that_hold_no_function_are_refused() {
    let f = ExportedFunction::new(b"f".to_vec(), false, vec![], vec![]);
    let members = match f.to_document() {
        Document::Object(m) => m,
        _ => unreachable!(),
    };
    for at in 0..members.len() {
        let mut short: Vec<(String, Document)> = Vec::new();
        let mut renamed: Vec<(String, Document)> = Vec::new();
        let mut retyped: Vec<(String, Document)> = Vec::new();
        for (i, (key, _)) in members.iter().enumerate() {
            let again = match f.to_document() {
                Document::Object(mut m) => m.remove(i).1,
                _ => unreachable!(),
            };
            let second = match f.to_document() {
                Document::Object(mut m) => m.remove(i).1,
                _ => unreachable!(),
            };
            if i != at {
                short.push((key.clone(), again));
            }
            if i == at {
                let third = match f.to_document() {
                    Document::Object(mut m) => m.remove(i).1,
                    _ => unreachable!(),
                };
                renamed.push((format!("{}x", key), third));
                retyped.push((key.clone(), text("not this")));
            } else {
                renamed.push((key.clone(), second));
                let fourth = match f.to_document() {
                    Document::Object(mut m) => m.remove(i).1,
                    _ => unreachable!(),
                };
                retyped.push((key.clone(), fourth));
            }
        }
        assert_eq!(ExportedFunction::from_document(&Document::Object(short)), None);
        assert_eq!(ExportedFunction::from_document(&Document::Object(renamed)), None);
        assert_eq!(ExportedFunction::from_document(&Document::Object(retyped)), None);
    }
    assert_eq!(ExportedFunction::from_document(&Document::List(vec![])), None);
    let bad_type = Document::Object(vec![
        member("name", name_node(b"")),
        member("generics", Document::List(vec![])),
        member("params", Document::List(vec![text("x")])),
        member("returns", Document::List(vec![])),
        member("is_meta_method", Document::Bool(false)),
    ]);
    assert_eq!(ExportedFunction::from_document(&bad_type), None);
    assert_eq!(functions_from_documents(&vec![f.to_document(), text("x")]), None);
}

#[test]
fn fields_and_records_are_written_and_read_back() {
    let field = Field::new(b"size".to_vec(), TealType::array_of(n("number")));
    let d = field.to_document();
    assert_eq!(
        d,
        Document::Object(vec![
            member("name", name_node(b"size")),
            member("type", tagged("array", tagged("named", text("number")))),
        ])
    );
    assert_eq!(Field::from_document(&d), Some(field));
    assert_eq!(Field::from_document(&text("x")), None);
    assert_eq!(Field::from_document(&Document::Object(vec![member("name", name_node(b""))])), None);
    assert_eq!(
        Field::from_document(&Document::Object(vec![
            member("name", text("size")),
            member("type", tagged("named", text("number"))),
        ])),
        None
    );
    assert_eq!(
        Field::from_document(&Document::Object(vec![
            member("name", name_node(b"")),
            member("type", text("number")),
        ])),
        None
    );
    assert_eq!(
        Field::from_document(&Document::Object(vec![
            member("type", tagged("named", text("number"))),
            member("name", name_node(b"")),
        ])),
        None
    );
    assert_eq!(fields_from_documents(&vec![d, text("x")]), None);

    let record = RecordDescriptor::new(
        n("R"),
        vec![Field::new(b"b".to_vec(), n("x")), Field::new(b"a".to_vec(), n("y"))],
        vec![ExportedFunction::new(b"m".to_vec(), false, vec![], vec![])],
        vec![ExportedFunction::new(b"f".to_vec(), true, vec![], vec![])],
    )
    .unwrap();
    let d = record.to_document();
    match &d {
        Document::Object(m) => {
            let keys: Vec<&str> = m.iter().map(|(k, _)| k.as_str()).collect();
            assert_eq!(keys, vec!["type", "fields", "methods", "functions"]);
            assert_eq!(m[0].1, tagged("named", text("R")));
        }
        other => panic!("no object: {:?}", other),
    }
    assert_eq!(RecordDescriptor::from_document(&d), Some(record));
    assert_eq!(RecordDescriptor::from_document(&Document::Object(vec![])), None);
    assert_eq!(RecordDescriptor::from_document(&Document::Bool(true)), None);
    let no_fields = Document::Object(vec![
        member("type", tagged("named", text("R"))),
        member("fields", Document::List(vec![text("x")])),
        member("methods", Document::List(vec![])),
        member("functions", Document::List(vec![])),
    ]);
    assert_eq!(RecordDescriptor::from_document(&no_fields), None);
    let no_type = Document::Object(vec![
        member("type", text("R")),
        member("fields", Document::List(vec![])),
        member("methods", Document::List(vec![])),
        member("functions", Document::List(vec![])),
    ]);
    assert_eq!(RecordDescriptor::from_document(&no_type), None);
    let member_twice = Document::Object(vec![
        member("type", tagged("named", text("R"))),
        member(
            "fields",
            Document::List(vec![Field::new(b"a".to_vec(), n("x")).to_document()]),
        ),
        member(
            "methods",
            Document::List(vec![ExportedFunction::new(b"a".to_vec(), false, vec![], vec![])
                .to_document()]),
        ),
        member("functions", Document::List(vec![])),
    ]);
    assert_eq!(RecordDescriptor::from_document(&member_twice), None);
    let fields_unsorted = Document::Object(vec![
        member("type", tagged("named", text("R"))),
        member(
            "fields",
            Document::List(vec![
                Field::new(b"b".to_vec(), n("x")).to_document(),
                Field::new(b"a".to_vec(), n("x")).to_document(),
            ]),
        ),
        member("methods", Document::List(vec![])),
        member("functions", Document::List(vec![])),
    ]);
    assert_eq!(RecordDescriptor::from_document(&fields_unsorted), None);
    assert_eq!(records_from_documents(&vec![text("x")]), None);
    assert_eq!(records_from_documents(&vec![]), Some(vec![]));
}

#[test]
fn raw_names_are_written_as_lists_of_bytes() {
    let name = NameContainer::new(vec![0x00, 0x61, 0xff]);
    let d = name_to_document(&name);
    assert_eq!(
        d,
        Document::List(vec![Document::Number(0), Document::Number(0x61), Document::Number(255)])
    );
    assert_eq!(name_from_document(&d), Some(name));
    assert_eq!(name_to_document(&NameContainer::new(vec![])), Document::List(vec![]));
    assert_eq!(name_from_document(&Document::List(vec![])), Some(NameContainer::new(vec![])));
    assert_eq!(name_from_document(&Document::List(vec![Document::Number(256)])), None);
    assert_eq!(
        name_from_document(&Document::List(vec![Document::Number(1), Document::Number(u64::MAX)])),
        None
    );
    assert_eq!(name_from_document(&Document::List(vec![text("a")])), None);
    assert_eq!(name_from_document(&text("name")), None);
    assert_eq!(name_from_document(&Document::Number(7)), None);
}
