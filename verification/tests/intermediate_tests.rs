use rusty_danda::dll_loader;
use rusty_danda::expression_parser::{
    list_into_tree, order_of_operations, ExprNode, TreeTransformError, ValueType,
};
use rusty_danda::intermediate::dictionary::{
    Dictionary, IdentifierKinds, ShallowType, TypeComparison,
};
use rusty_danda::intermediate::AnalyzationError::ErrType;
use rusty_danda::lexer::lexemes::Operators;
use rusty_danda::libloader::{self, Registers};

#[test]
fn register_then_lookup() {
    let mut d = Dictionary::new();
    assert!(d.register_id(String::from("main"), IdentifierKinds::Function));
    assert!(d.register_id(String::from("Point"), IdentifierKinds::Struct));
    assert!(d.contains(&String::from("main")));
    assert!(!d.contains(&String::from("other")));
    assert_eq!(d.index_of(String::from("Point")), Some(1));
    assert_eq!(d.index_of(String::from("other")), None);
    assert_eq!(d.type_of("main"), Some(&IdentifierKinds::Function));
    assert_eq!(d.type_of("Point"), Some(&IdentifierKinds::Struct));
    assert_eq!(d.type_of("nope"), None);
}

#[test]
fn register_refuses_duplicates() {
    let mut d = Dictionary::new();
    assert!(d.register_id(String::from("x"), IdentifierKinds::Variable));
    assert!(!d.register_id(String::from("x"), IdentifierKinds::Function));
    assert_eq!(d.identifiers.len(), 1);
    assert_eq!(d.type_of("x"), Some(&IdentifierKinds::Variable));
}

#[test]
fn force_id_adds_duplicates() {
    let mut d = Dictionary::new();
    d.force_id(String::from("x"), IdentifierKinds::Variable);
    d.force_id(String::from("x"), IdentifierKinds::Trait);
    assert_eq!(d.identifiers.len(), 2);
    // lookups find the first entry
    assert_eq!(d.type_of("x"), Some(&IdentifierKinds::Variable));
    assert_eq!(d.index_of(String::from("x")), Some(0));
}

#[test]
fn shallow_types() {
    let t = ShallowType::empty();
    assert!(t.is_fun.is_none());
    assert!(t.arr_len.is_none());
    assert_eq!(t.refs, 0);
    assert!(t.main.is_empty());
    assert!(t.generics.is_empty());
    let d = Dictionary::new();
    assert!(matches!(t.cmp(&ShallowType::empty(), &d), TypeComparison::Equal));
}

fn named(path: &[&str], refs: usize, arr_len: Option<usize>, generics: Vec<ShallowType>) -> ShallowType {
    ShallowType {
        is_fun: None,
        arr_len,
        refs,
        main: path.iter().map(|s| String::from(*s)).collect(),
        generics,
    }
}

#[test]
fn comparing_types() {
    let d = Dictionary::new();
    let int = named(&["int"], 0, None, vec![]);
    assert!(matches!(int.cmp(&named(&["int"], 0, None, vec![]), &d), TypeComparison::Equal));
    assert!(matches!(named(&["int"], 2, None, vec![]).cmp(&int, &d), TypeComparison::ReferenceDiff(2)));
    assert!(matches!(int.cmp(&named(&["int"], 3, None, vec![]), &d), TypeComparison::ReferenceDiff(-3)));
    // counts beyond i32 are cut to i32 and the difference wraps
    assert!(matches!(named(&["int"], usize::MAX, None, vec![]).cmp(&int, &d), TypeComparison::ReferenceDiff(-1)));
    assert!(matches!(
        named(&["int"], 0, Some(2), vec![]).cmp(&named(&["int"], 0, Some(3), vec![]), &d),
        TypeComparison::ArrayDiff(2, 3)
    ));
    assert!(matches!(named(&["int"], 0, Some(2), vec![]).cmp(&int, &d), TypeComparison::NotEqual));
    assert!(matches!(int.cmp(&named(&["char"], 0, None, vec![]), &d), TypeComparison::NotEqual));
    assert!(matches!(int.cmp(&named(&["std", "int"], 0, None, vec![]), &d), TypeComparison::NotEqual));
    let list_of = |g: &str| named(&["List"], 0, None, vec![named(&[g], 0, None, vec![])]);
    assert!(matches!(list_of("int").cmp(&list_of("int"), &d), TypeComparison::Equal));
    assert!(matches!(list_of("int").cmp(&list_of("char"), &d), TypeComparison::NotEqual));
    assert!(matches!(
        named(&["int"], 1, Some(4), vec![]).cmp(&named(&["int"], 1, Some(4), vec![]), &d),
        TypeComparison::Equal
    ));
}

#[test]
fn registers_by_name() {
    let mut errors: Vec<ErrType> = Vec::new();
    let names = ["g1", "g2", "g3", "g4", "g5", "g6", "ptr", "ret", "cptr"];
    let regs = [
        Registers::G1,
        Registers::G2,
        Registers::G3,
        Registers::G4,
        Registers::G5,
        Registers::G6,
        Registers::Ptr,
        Registers::Ret,
        Registers::CodePtr,
    ];
    for (n, r) in names.iter().zip(regs.iter()) {
        assert_eq!(Registers::from_str(n, &mut errors), Some(*r));
    }
    assert!(errors.is_empty());
}

#[test]
fn unknown_register_is_reported() {
    let mut errors: Vec<ErrType> = Vec::new();
    assert_eq!(Registers::from_str("g7", &mut errors), None);
    assert_eq!(errors.len(), 1);
    assert!(matches!(&errors[0], ErrType::InvalidRegister(name) if name == "g7"));
}

#[test]
fn loader_dictionaries_start_empty() {
    let d = libloader::Dictionary::new();
    assert!(d.functions.is_empty() && d.structs.is_empty() && d.enums.is_empty());
    assert!(d.types.is_empty() && d.consts.is_empty() && d.traits.is_empty());
    let d = dll_loader::Dictionary::new();
    assert!(d.functions.is_empty() && d.structs.is_empty() && d.enums.is_empty());
    assert!(d.types.is_empty() && d.consts.is_empty() && d.traits.is_empty());
}

fn op(o: Operators) -> ValueType {
    ValueType::Operator(o)
}

#[test]
fn tree_of_single_value() {
    let mut list = vec![ValueType::Blank];
    let r = list_into_tree(&mut list).unwrap();
    assert!(matches!(r, ValueType::Blank));
    assert!(list.is_empty());
}

#[test]
fn tree_of_empty_list() {
    let mut list: Vec<ValueType> = vec![];
    assert!(matches!(list_into_tree(&mut list), Ok(ValueType::Blank)));
}

#[test]
fn tree_splits_at_loosest_operator() {
    // a * b + c reads (a * b) + c
    let mut list = vec![ValueType::Blank, op(Operators::Star), ValueType::Blank, op(Operators::Plus), ValueType::Blank];
    let r = list_into_tree(&mut list).unwrap();
    let expected = ExprNode::new(
        Some(ValueType::Expression(Box::new(ExprNode::new(
            Some(ValueType::Blank),
            Some(ValueType::Blank),
            Some(Operators::Star),
        )))),
        Some(ValueType::Blank),
        Some(Operators::Plus),
    );
    assert_eq!(format!("{:?}", r), format!("{:?}", ValueType::Expression(Box::new(expected))));
}

#[test]
fn tighter_operator_goes_below() {
    // a + b * c reads a + (b * c)
    let mut list = vec![ValueType::Blank, op(Operators::Plus), ValueType::Blank, op(Operators::Star), ValueType::Blank];
    let r = list_into_tree(&mut list).unwrap();
    let expected = ExprNode::new(
        Some(ValueType::Blank),
        Some(ValueType::Expression(Box::new(ExprNode::new(
            Some(ValueType::Blank),
            Some(ValueType::Blank),
            Some(Operators::Star),
        )))),
        Some(Operators::Plus),
    );
    assert_eq!(format!("{:?}", r), format!("{:?}", ValueType::Expression(Box::new(expected))));
    // || binds loosest of all
    let mut list = vec![ValueType::Blank, op(Operators::Or), ValueType::Blank, op(Operators::Mod), ValueType::Blank];
    let r = list_into_tree(&mut list).unwrap();
    assert!(format!("{:?}", r).ends_with("operator: Some(Or) })"));
}

#[test]
fn tree_errors() {
    let mut list = vec![op(Operators::Plus)];
    assert!(matches!(list_into_tree(&mut list), Err(TreeTransformError::ExcessOperator)));
    let mut list = vec![op(Operators::Plus), ValueType::Blank];
    assert!(matches!(list_into_tree(&mut list), Err(TreeTransformError::NoValue)));
    let mut list = vec![ValueType::Blank, op(Operators::Plus)];
    assert!(matches!(list_into_tree(&mut list), Err(TreeTransformError::ExcessOperator)));
    let mut list = vec![ValueType::Blank, ValueType::Blank];
    assert!(matches!(list_into_tree(&mut list), Err(TreeTransformError::NotImplementedCuzLazy)));
    let mut list = vec![ValueType::Blank, op(Operators::Not), ValueType::Blank];
    assert!(matches!(list_into_tree(&mut list), Err(TreeTransformError::NotImplementedCuzLazy)));
}

#[test]
fn order_of_operations_starts_with_mod() {
    let order = order_of_operations();
    assert_eq!(order[0], Operators::Mod);
    assert_eq!(order[12], Operators::Or);
    assert_eq!(order.len(), 13);
}

#[test]
fn blank_expr_node() {
    let b = ExprNode::blank();
    assert_eq!(format!("{:?}", b), format!("{:?}", ExprNode::new(None, None, None)));
}
