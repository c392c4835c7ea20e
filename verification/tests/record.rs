use tealr::record::{first_duplicate, generate_fields, member_name_list};
use tealr::{
    Documentation, DuplicateMemberError, ExportedFunction, Field, NameContainer, RecordDescriptor,
    TealType,
};

fn n(name: &str) -> TealType {
    TealType::named(name)
}

fn field(name: &str, teal_type: TealType) -> Field {
    Field::new(name.as_bytes().to_vec(), teal_type)
}

fn function(name: &str, params: Vec<TealType>, results: Vec<TealType>) -> ExportedFunction {
    ExportedFunction::new(name.as_bytes().to_vec(), false, params, results)
}

fn x() -> TealType {
    TealType::union_of(vec![n("string"), n("number"), n("boolean")])
}

fn example() -> RecordDescriptor {
    RecordDescriptor::new(
        n("Example"),
        vec![field("b", n("number")), field("a", n("string")), field("ab", TealType::array_of(n("string")))],
        vec![function("limited_simple", vec![x()], vec![x()])],
        vec![function("new", vec![], vec![n("Example")])],
    )
    .unwrap()
}

#[test]
fn record_with_unique_names_is_made_and_its_fields_are_sorted() {
    let r = example();
    assert_eq!(r.self_type(), &n("Example"));
    let names: Vec<&[u8]> = r.fields().iter().map(|f| f.name.as_bytes()).collect();
    assert_eq!(names, vec![&b"a"[..], &b"ab"[..], &b"b"[..]]);
    assert_eq!(r.methods().len(), 1);
    assert_eq!(r.methods()[0].name.as_bytes(), b"limited_simple");
    assert_eq!(r.functions().len(), 1);
    assert_eq!(r.functions()[0].name.as_bytes(), b"new");
}

#[test]
fn record_with_two_fields_of_one_name_is_refused() {
    let r = RecordDescriptor::new(
        n("R"),
        vec![field("a", n("string")), field("b", n("string")), field("a", n("number"))],
        vec![],
        vec![],
    );
    assert_eq!(r, Err(DuplicateMemberError { name: b"a".to_vec() }));
}

#[test]
fn record_with_a_field_and_a_method_of_one_name_is_refused() {
    let r = RecordDescriptor::new(
        n("R"),
        vec![field("size", n("number"))],
        vec![function("get", vec![], vec![]), function("size", vec![], vec![n("number")])],
        vec![],
    );
    assert_eq!(r, Err(DuplicateMemberError { name: b"size".to_vec() }));
}

#[test]
fn record_with_a_method_and_a_function_of_one_name_is_refused() {
    let r = RecordDescriptor::new(
        n("R"),
        vec![],
        vec![function("make", vec![], vec![])],
        vec![function("other", vec![], vec![]), function("make", vec![], vec![])],
    );
    assert_eq!(r, Err(DuplicateMemberError { name: b"make".to_vec() }));
}

#[test]
fn the_first_name_that_stood_before_is_reported() {
    let r = RecordDescriptor::new(
        n("R"),
        vec![field("p", n("a")), field("q", n("a"))],
        vec![function("q", vec![], vec![]), function("p", vec![], vec![])],
        vec![],
    );
    assert_eq!(r, Err(DuplicateMemberError { name: b"q".to_vec() }));
    let names: Vec<NameContainer> =
        ["a", "b", "c", "b", "a"].iter().map(|s| NameContainer::from_text(s)).collect();
    assert_eq!(first_duplicate(&names), Some(3));
    assert_eq!(first_duplicate(&names[..3].to_vec()), None);
    assert_eq!(first_duplicate(&vec![]), None);
}

#[test]
fn record_without_members_is_made() {
    let r = RecordDescriptor::new(n("Empty"), vec![], vec![], vec![]).unwrap();
    assert_eq!(r.generate(&Documentation::new()).unwrap(), "record Empty\nend");
    assert!(!r.has_meta_methods());
}

#[test]
fn record_block_is_written() {
    let text = example().generate(&Documentation::new()).unwrap();
    assert_eq!(
        text,
        "record Example\n\
         a: string\n\
         ab: {string}\n\
         b: number\n\
         limited_simple: function(Example, string | number | boolean): (string | number | boolean)\n\
         new: function(): (Example)\n\
         end"
    );
}

#[test]
fn record_block_is_written_with_documentation() {
    let mut docs = Documentation::new();
    docs.insert(NameContainer::from_text("Example"), "An example.\nOf a record.".to_string());
    docs.insert(NameContainer::from_text("a"), "first".to_string());
    docs.insert(NameContainer::from_text("new"), "Makes one.\n".to_string());
    docs.insert(NameContainer::from_text("unused"), "nothing".to_string());
    let text = example().generate(&docs).unwrap();
    assert_eq!(
        text,
        "--An example.\n\
         --Of a record.\n\
         record Example\n\
         --first\n\
         a: string\n\
         ab: {string}\n\
         b: number\n\
         limited_simple: function(Example, string | number | boolean): (string | number | boolean)\n\
         --Makes one.\n\
         new: function(): (Example)\n\
         end"
    );
}

#[test]
fn field_line_is_written() {
    let f = field("count", TealType::mapping(n("string"), n("integer")));
    assert_eq!(f.generate(&Documentation::new()).unwrap(), "count: {string : integer}");
    let bad = Field::new(vec![0x80], n("x"));
    assert_eq!(bad.generate(&Documentation::new()).unwrap_err().name, vec![0x80]);
    assert_eq!(generate_fields(&vec![], &Documentation::new()).unwrap(), "");
}

#[test]
fn the_first_name_that_is_not_text_is_reported() {
    let r = RecordDescriptor::new(
        n("R"),
        vec![Field::new(vec![0xff], n("a")), field("ok", n("a")), Field::new(vec![0xfe], n("a"))],
        vec![ExportedFunction::new(vec![0xc0], false, vec![], vec![])],
        vec![],
    )
    .unwrap();
    assert_eq!(r.generate(&Documentation::new()).unwrap_err().name, vec![0xfe]);
    let m = RecordDescriptor::new(
        n("R"),
        vec![field("ok", n("a"))],
        vec![ExportedFunction::new(vec![0xc0], false, vec![], vec![])],
        vec![ExportedFunction::new(vec![0xc1], false, vec![], vec![])],
    )
    .unwrap();
    assert_eq!(m.generate(&Documentation::new()).unwrap_err().name, vec![0xc0]);
}

#[test]
fn meta_methods_are_told() {
    let plain = example();
    assert!(!plain.has_meta_methods());
    let with_method = RecordDescriptor::new(
        n("R"),
        vec![],
        vec![ExportedFunction::new(b"__len".to_vec(), true, vec![], vec![n("integer")])],
        vec![],
    )
    .unwrap();
    assert!(with_method.has_meta_methods());
    let with_function = RecordDescriptor::new(
        n("R"),
        vec![],
        vec![function("plain", vec![], vec![])],
        vec![ExportedFunction::new(b"__call".to_vec(), true, vec![], vec![])],
    )
    .unwrap();
    assert!(with_function.has_meta_methods());
}

#[test]
fn record_from_parts_as_they_stand() {
    let made = RecordDescriptor::from_parts(
        n("R"),
        vec![field("a", n("x")), field("c", n("x"))],
        vec![function("z", vec![], vec![]), function("b", vec![], vec![])],
        vec![function("y", vec![], vec![])],
    )
    .unwrap();
    assert_eq!(made.fields().len(), 2);
    assert_eq!(made.methods()[0].name.as_bytes(), b"z");
    let same = RecordDescriptor::new(
        n("R"),
        vec![field("c", n("x")), field("a", n("x"))],
        vec![function("z", vec![], vec![]), function("b", vec![], vec![])],
        vec![function("y", vec![], vec![])],
    )
    .unwrap();
    assert_eq!(made, same);
    assert!(RecordDescriptor::from_parts(n("E"), vec![], vec![], vec![]).is_some());
    let unsorted = RecordDescriptor::from_parts(
        n("R"),
        vec![field("b", n("x")), field("a", n("x"))],
        vec![],
        vec![],
    );
    assert_eq!(unsorted, None);
    let twice = RecordDescriptor::from_parts(
        n("R"),
        vec![field("a", n("x"))],
        vec![function("a", vec![], vec![])],
        vec![],
    );
    assert_eq!(twice, None);
    let methods_twice = RecordDescriptor::from_parts(
        n("R"),
        vec![],
        vec![function("m", vec![], vec![]), function("m", vec![n("x")], vec![])],
        vec![],
    );
    assert_eq!(methods_twice, None);
}

#[test]
fn member_names_are_listed_fields_first() {
    let names = member_name_list(
        &vec![field("f", n("x")), field("e", n("x"))],
        &vec![function("m", vec![], vec![])],
        &vec![function("g", vec![], vec![]), function("h", vec![], vec![])],
    );
    let texts: Vec<String> = names.iter().map(|n| n.decode().unwrap()).collect();
    assert_eq!(texts, vec!["f", "e", "m", "g", "h"]);
    assert!(member_name_list(&vec![], &vec![], &vec![]).is_empty());
}
