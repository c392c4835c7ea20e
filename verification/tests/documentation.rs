use tealr::exported_function::{generate_all, type_names};
use tealr::{Documentation, ExportedFunction, NameContainer, TealType};

#[test]
fn documentation_is_looked_up_by_raw_name() {
    let mut docs = Documentation::new();
    assert_eq!(docs.get(&NameContainer::from_text("a")), None);
    docs.insert(NameContainer::from_text("a"), "one".to_string());
    docs.insert(NameContainer::new(vec![0xff]), "raw".to_string());
    assert_eq!(docs.get(&NameContainer::from_text("a")), Some(&"one".to_string()));
    assert_eq!(docs.get(&NameContainer::new(vec![0xff])), Some(&"raw".to_string()));
    assert_eq!(docs.get(&NameContainer::from_text("b")), None);
    assert_eq!(docs.get(&NameContainer::from_text("")), None);
}

#[test]
fn later_text_replaces_earlier_text() {
    let mut docs = Documentation::new();
    docs.insert(NameContainer::from_text("a"), "one".to_string());
    docs.insert(NameContainer::from_text("b"), "other".to_string());
    docs.insert(NameContainer::from_text("a"), "two".to_string());
    assert_eq!(docs.get(&NameContainer::from_text("a")), Some(&"two".to_string()));
    assert_eq!(docs.get(&NameContainer::from_text("b")), Some(&"other".to_string()));
}

#[test]
fn comment_for_a_name() {
    let mut docs = Documentation::new();
    docs.insert(NameContainer::from_text("a"), "one\ntwo".to_string());
    docs.insert(NameContainer::from_text("empty"), "".to_string());
    assert_eq!(docs.comment_for(&NameContainer::from_text("a")), "--one\n--two\n");
    assert_eq!(docs.comment_for(&NameContainer::from_text("empty")), "");
    assert_eq!(docs.comment_for(&NameContainer::from_text("none")), "");
}

#[test]
fn names_are_bytes_and_read_as_text_where_they_can() {
    let name = NameContainer::from_text("grüße");
    assert_eq!(name.as_bytes(), "grüße".as_bytes());
    assert_eq!(name.decode().unwrap(), "grüße");
    assert_eq!(name.clone(), name);
    let raw = NameContainer::new(vec![0x66, 0x80]);
    assert_eq!(raw.decode().unwrap_err().name, vec![0x66, 0x80]);
}

#[test]
fn declarations_of_a_list_of_functions() {
    let fs = vec![
        ExportedFunction::new(b"b".to_vec(), false, vec![], vec![]),
        ExportedFunction::new(b"a".to_vec(), false, vec![TealType::named("x")], vec![]),
    ];
    let docs = Documentation::new();
    assert_eq!(generate_all(&fs, None, &docs).unwrap(), "b: function(): ()\na: function(x): ()\n");
    let me = TealType::named("Me");
    assert_eq!(
        generate_all(&fs, Some(&me), &docs).unwrap(),
        "b: function(Me): ()\na: function(Me, x): ()\n"
    );
    assert_eq!(generate_all(&vec![], None, &docs).unwrap(), "");
    let bad = vec![
        ExportedFunction::new(b"ok".to_vec(), false, vec![], vec![]),
        ExportedFunction::new(vec![0xf5], false, vec![], vec![]),
        ExportedFunction::new(vec![0xf6], false, vec![], vec![]),
    ];
    assert_eq!(generate_all(&bad, None, &docs).unwrap_err().name, vec![0xf5]);
    assert_eq!(
        type_names(&vec![TealType::named("a"), TealType::array_of(TealType::named("b"))]),
        vec!["a", "{b}"]
    );
}

#[test]
fn validity_of_a_function_is_told() {
    let t = || TealType::generic("T");
    let u = || TealType::generic("U");
    let good = ExportedFunction::new(b"f".to_vec(), false, vec![u(), t()], vec![t()]);
    assert_eq!(good.generics, vec![t(), u()]);
    assert!(good.is_valid());
    let missing = ExportedFunction {
        name: NameContainer::from_text("f"),
        generics: vec![t()],
        params: vec![u(), t()],
        returns: vec![],
        is_meta_method: false,
    };
    assert!(!missing.is_valid());
    let unsorted = ExportedFunction {
        name: NameContainer::from_text("f"),
        generics: vec![u(), t()],
        params: vec![u(), t()],
        returns: vec![],
        is_meta_method: false,
    };
    assert!(!unsorted.is_valid());
    assert_eq!(unsorted.generics_header(), "<T, U>");
    assert_eq!(
        unsorted.generate(None, &Documentation::new()).unwrap(),
        "f: function<T, U>(U, T): ()"
    );
    let extra = ExportedFunction {
        name: NameContainer::from_text("f"),
        generics: vec![t()],
        params: vec![],
        returns: vec![],
        is_meta_method: false,
    };
    assert!(!extra.is_valid());
    let not_generic = ExportedFunction {
        name: NameContainer::from_text("f"),
        generics: vec![TealType::named("T")],
        params: vec![t()],
        returns: vec![],
        is_meta_method: false,
    };
    assert!(!not_generic.is_valid());
    let ill_formed = ExportedFunction::new(
        b"f".to_vec(),
        false,
        vec![TealType::Union(vec![TealType::named("a"), TealType::named("b")])],
        vec![],
    );
    assert!(!ill_formed.is_valid());
}
