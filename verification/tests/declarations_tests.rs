use rusty_danda::expression_parser::ValueType;
use rusty_danda::intermediate::declarations::{load_enum, load_node, load_struct, Declaration};
use rusty_danda::intermediate::dictionary::{Dictionary, ShallowType};
use rusty_danda::intermediate::AnalyzationError::ErrType;

fn variants(vs: &[(&str, Option<usize>)]) -> Vec<(String, Option<usize>)> {
    vs.iter().map(|(n, d)| (String::from(*n), *d)).collect()
}

#[test]
fn enum_variants_number_on_from_the_last_given() {
    let mut d = Dictionary::new();
    let mut errors = vec![];
    let values = variants(&[
        ("Continue", Some(100)),
        ("SwitchingProtocols", None),
        ("Ok", Some(200)),
        ("Created", None),
    ]);
    load_enum(String::from("ErrCode"), &values, &mut d, &mut errors);
    assert!(errors.is_empty());
    assert_eq!(d.enums.len(), 1);
    assert_eq!(d.enums[0].identifier, "ErrCode");
    let keys: Vec<(String, usize)> = d.enums[0].keys.clone();
    assert_eq!(
        keys,
        vec![
            (String::from("Continue"), 100),
            (String::from("SwitchingProtocols"), 101),
            (String::from("Ok"), 200),
            (String::from("Created"), 201),
        ]
    );
    assert_eq!(d.identifiers.len(), 1);
    assert_eq!(d.identifiers[0].0, "ErrCode");
}

#[test]
fn enum_clashes_are_reported() {
    let mut d = Dictionary::new();
    let mut errors = vec![];
    let values = variants(&[("A", Some(1)), ("B", Some(1)), ("A", None)]);
    load_enum(String::from("E"), &values, &mut d, &mut errors);
    assert_eq!(errors.len(), 2);
    assert!(matches!(errors[0], ErrType::EnumVariantAssignedNumber(1, _)));
    match &errors[1] {
        ErrType::EnumVariantAssignedIdent(name, _) => assert_eq!(name, "A"),
        other => panic!("unexpected {:?}", other),
    }
    assert_eq!(d.enums[0].keys[2].1, 2);
}

#[test]
fn taken_names_conflict() {
    let mut d = Dictionary::new();
    let mut errors = vec![];
    load_enum(String::from("E"), &variants(&[("A", Some(0))]), &mut d, &mut errors);
    load_struct(String::from("E"), vec![], vec![], true, &mut d, &mut errors);
    load_enum(String::from("E"), &variants(&[("B", Some(0))]), &mut d, &mut errors);
    assert_eq!(d.enums.len(), 1);
    assert_eq!(d.structs.len(), 0);
    assert_eq!(errors.len(), 2);
    for e in &errors {
        match e {
            ErrType::ConflictingNames(name) => assert_eq!(name, "E"),
            other => panic!("unexpected {:?}", other),
        }
    }
}

#[test]
fn struct_fields_with_one_name_are_reported() {
    let mut d = Dictionary::new();
    let mut errors = vec![];
    let fields = vec![
        (String::from("x"), ShallowType::empty()),
        (String::from("y"), ShallowType::empty()),
        (String::from("x"), ShallowType::empty()),
    ];
    load_struct(String::from("Point"), fields, vec![], false, &mut d, &mut errors);
    assert_eq!(errors.len(), 1);
    match &errors[0] {
        ErrType::StructVariantAssignedIdent(name, _) => assert_eq!(name, "x"),
        other => panic!("unexpected {:?}", other),
    }
    assert_eq!(d.structs.len(), 1);
    assert_eq!(d.structs[0].identifier, "Point");
    assert_eq!(d.structs[0].fields.len(), 3);
    assert!(!d.structs[0].public);
}

fn function(name: &str) -> rusty_danda::intermediate::dictionary::Function {
    rusty_danda::intermediate::dictionary::Function {
        identifier: Some(String::from(name)),
        args: vec![],
        stack_size: None,
        location: None,
        return_type: None,
        can_yeet: false,
        generics: vec![],
        src_loc: 0,
        public: true,
        code: vec![],
    }
}

#[test]
fn every_declaration_kind_is_loaded() {
    let mut d = Dictionary::new();
    let mut errors = vec![];
    load_node(
        Declaration::Type { identifier: String::from("T"), kind: ShallowType::empty(), generics: vec![], public: true },
        &mut d,
        &mut errors,
    );
    load_node(Declaration::Let { identifier: String::from("x"), kind: None }, &mut d, &mut errors);
    load_node(
        Declaration::Const {
            identifier: String::from("x"),
            kind: ShallowType::empty(),
            public: false,
            value: ValueType::Blank,
        },
        &mut d,
        &mut errors,
    );
    load_node(Declaration::Function(function("main")), &mut d, &mut errors);
    load_node(
        Declaration::Impl { target: vec![String::from("T")], traits: vec![], functions: vec![], overloads: vec![] },
        &mut d,
        &mut errors,
    );
    load_node(
        Declaration::Trait {
            identifier: String::from("Show"),
            public: true,
            traits: vec![],
            functions: vec![function("show")],
            overloads: vec![],
        },
        &mut d,
        &mut errors,
    );
    load_node(Declaration::Error { identifier: String::from("Oops"), args: vec![], fields: vec![] }, &mut d, &mut errors);
    load_node(Declaration::Import, &mut d, &mut errors);
    load_node(Declaration::Expression, &mut d, &mut errors);
    load_node(
        Declaration::Enum { identifier: String::from("Dir"), values: variants(&[("Up", Some(0)), ("Down", None)]) },
        &mut d,
        &mut errors,
    );
    let names: Vec<&str> = d.identifiers.iter().map(|(n, _)| n.as_str()).collect();
    assert_eq!(names, vec!["T", "x", "main", "Show", "Oops", "Dir"]);
    assert_eq!(d.types.len(), 1);
    assert_eq!(d.variables.len(), 1);
    assert_eq!(d.constants.len(), 0);
    assert_eq!(d.functions.len(), 1);
    assert_eq!(d.implementations.len(), 1);
    assert_eq!(d.traits.len(), 1);
    assert_eq!(d.traits[0].methods.len(), 1);
    assert_eq!(d.errors.len(), 1);
    assert_eq!(d.enums[0].keys[1].1, 1);
    assert_eq!(errors.len(), 1);
    match &errors[0] {
        ErrType::ConflictingNames(name) => assert_eq!(name, "x"),
        other => panic!("unexpected {:?}", other),
    }
}
