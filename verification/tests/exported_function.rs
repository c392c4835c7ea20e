use tealr::documentation::Documentation;
use tealr::exported_function::{get_all_generics, ExportedFunction};
use tealr::name_container::NameContainer;
use tealr::teal_type::TealType;

fn string() -> TealType {
    TealType::named("string")
}

#[test]
fn concat_renders_as_a_single_line() {
    let f = ExportedFunction::new(b"concat".to_vec(), false, vec![string(), string()], vec![string()]);
    assert!(f.generics.is_empty());
    let text = f.generate(None, &Documentation::new()).unwrap();
    assert_eq!(text, "concat: function(string, string): (string)");
    assert!(!text.contains('\n'));
}

#[test]
fn method_with_union_parameter() {
    let x = TealType::union_of(vec![
        TealType::named("string"),
        TealType::named("number"),
        TealType::named("boolean"),
    ]);
    let example = TealType::named("Example");
    let f = ExportedFunction::new(b"limited_simple".to_vec(), false, vec![x.clone()], vec![x]);
    let text = f.generate(Some(&example), &Documentation::new()).unwrap();
    assert_eq!(
        text,
        "limited_simple: function(Example, string | number | boolean): (string | number | boolean)"
    );
}

#[test]
fn union_does_not_depend_on_insertion_order() {
    let a = TealType::union_of(vec![
        TealType::named("boolean"),
        TealType::named("string"),
        TealType::named("number"),
    ]);
    let b = TealType::union_of(vec![
        TealType::named("number"),
        TealType::named("boolean"),
        TealType::named("string"),
        TealType::named("number"),
    ]);
    assert_eq!(a, b);
    assert_eq!(a.name(), "string | number | boolean");
    assert_eq!(b.name(), "string | number | boolean");
}

#[test]
fn generic_in_parameter_and_result_is_listed_once() {
    let f = ExportedFunction::new(
        b"f".to_vec(),
        false,
        vec![TealType::generic("T")],
        vec![TealType::generic("T")],
    );
    assert_eq!(f.generics, vec![TealType::generic("T")]);
    let text = f.generate(None, &Documentation::new()).unwrap();
    assert_eq!(text, "f: function<T>(T): (T)");
}

#[test]
fn generics_are_found_at_any_depth_once_and_sorted() {
    let types = vec![
        TealType::array_of(TealType::generic("V")),
        TealType::mapping(TealType::generic("K"), TealType::generic("V")),
        TealType::function(
            vec![TealType::union_of(vec![TealType::generic("A"), string()])],
            vec![TealType::generic("K")],
        ),
        string(),
    ];
    let found = get_all_generics(&types);
    assert_eq!(
        found,
        vec![TealType::generic("A"), TealType::generic("K"), TealType::generic("V")]
    );
    assert!(get_all_generics(&vec![string()]).is_empty());
    assert!(get_all_generics(&Vec::new()).is_empty());
}

#[test]
fn documentation_and_meta_method_marker() {
    let mut docs = Documentation::new();
    docs.insert(NameContainer::from_text("__add"), "Adds two.\r\nSecond line\n".to_string());
    let f = ExportedFunction::new(
        b"__add".to_vec(),
        true,
        vec![TealType::generic("B"), TealType::generic("A")],
        vec![TealType::array_of(TealType::generic("A"))],
    );
    let text = f.generate(None, &docs).unwrap();
    assert_eq!(
        text,
        "--Adds two.\n--Second line\nmetamethod __add: function<A, B>(B, A): ({A})"
    );
}

#[test]
fn malformed_name_is_reported() {
    let f = ExportedFunction::new(vec![0x66, 0xff, 0x6f], false, vec![], vec![]);
    let err = f.generate(None, &Documentation::new()).unwrap_err();
    assert_eq!(err.name, vec![0x66, 0xff, 0x6f]);
}

#[test]
fn declaration_under_a_given_name() {
    let f = ExportedFunction::new(
        b"raw".to_vec(),
        true,
        vec![TealType::generic("T")],
        vec![TealType::mapping(string(), TealType::generic("T"))],
    );
    assert_eq!(
        f.declaration("shown", None),
        "metamethod shown: function<T>(T): ({string : T})"
    );
    let me = TealType::named("Me");
    assert_eq!(
        f.declaration("", Some(&me)),
        "metamethod : function<T>(Me, T): ({string : T})"
    );
    let plain = ExportedFunction::new(b"p".to_vec(), false, vec![], vec![]);
    assert_eq!(plain.declaration("p", None), "p: function(): ()");
    assert_eq!(plain.generics_header(), "");
}

#[test]
fn same_generic_under_two_kinds_of_type_is_one_parameter() {
    let f = ExportedFunction::new(
        b"f".to_vec(),
        false,
        vec![
            TealType::array_of(TealType::generic("T")),
            TealType::function(vec![TealType::generic("T")], vec![TealType::generic("U")]),
            TealType::named("T"),
        ],
        vec![TealType::union_of(vec![TealType::generic("U"), TealType::generic("A")])],
    );
    assert_eq!(
        f.generics,
        vec![TealType::generic("A"), TealType::generic("T"), TealType::generic("U")]
    );
    assert_eq!(
        f.generate(None, &Documentation::new()).unwrap(),
        "f: function<A, T, U>({T}, function(T): (U), T): (U | A)"
    );
}
