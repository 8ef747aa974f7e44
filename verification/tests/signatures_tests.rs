use rusty_danda::intermediate::dictionary::Function;
use rusty_danda::intermediate::signatures::{
    get_fun_siginifier, get_overload_siginifier, ArgNode, FunctionHead, OverloadHead,
};
use rusty_danda::intermediate::types::{count_refs, get_generics_expr, get_type, TypeNode};
use rusty_danda::intermediate::AnalyzationError::ErrType;
use rusty_danda::lexer::lexemes::{Operators, Tokens};

fn path(p: &[&str]) -> Vec<String> {
    p.iter().map(|s| String::from(*s)).collect()
}

fn named(p: &[&str]) -> TypeNode {
    TypeNode::Named { refs: vec![], path: path(p), generics: vec![] }
}

fn amp() -> Tokens {
    Tokens::Operator(Operators::Ampersant)
}

fn head(args: Vec<ArgNode>, errorable: Tokens, public: Option<Tokens>) -> FunctionHead {
    FunctionHead {
        identifier: Some(String::from("f")),
        generics: vec![],
        return_type: Some(named(&["int"])),
        arguments: args,
        errorable,
        public,
        code: vec![],
    }
}

#[test]
fn references_are_counted() {
    assert_eq!(count_refs(&vec![amp(), Tokens::Operator(Operators::And), Tokens::Text(String::from("x"))]), 3);
    assert_eq!(count_refs(&vec![]), 0);
}

#[test]
fn named_array_and_function_types() {
    let t = get_type(TypeNode::Named {
        refs: vec![amp()],
        path: path(&["std", "Vec"]),
        generics: vec![named(&["int"])],
    });
    assert_eq!(t.refs, 1);
    assert_eq!(t.main, path(&["std", "Vec"]));
    assert!(t.arr_len.is_none());
    assert!(t.is_fun.is_none());
    assert_eq!(t.generics.len(), 1);
    assert_eq!(t.generics[0].main, path(&["int"]));

    let a = get_type(TypeNode::Array { refs: vec![], path: path(&["char"]), generics: vec![] });
    assert_eq!(a.arr_len, Some(0));
    assert_eq!(a.main, path(&["char"]));

    let f = get_fun_siginifier(head(vec![], Tokens::Colon, None), &mut vec![]);
    let ft = get_type(TypeNode::Function { refs: vec![Tokens::Operator(Operators::And)], head: f });
    assert!(ft.is_fun.is_some());
    assert_eq!(ft.refs, 2);
    assert!(ft.main.is_empty());

    let gs = get_generics_expr(vec![named(&["a"]), named(&["b"])]);
    assert_eq!(gs.len(), 2);
    assert_eq!(gs[1].main, path(&["b"]));
}

#[test]
fn signature_arguments_and_marks() {
    let mut errors = vec![];
    let f: Function = get_fun_siginifier(
        head(
            vec![
                ArgNode::SelfArg { refs: vec![amp()] },
                ArgNode::Arg { name: String::from("x"), kind: named(&["int"]) },
                ArgNode::Arg { name: String::from("x"), kind: named(&["char"]) },
                ArgNode::Arg { name: String::from("self"), kind: named(&["int"]) },
            ],
            Tokens::Operator(Operators::Not),
            Some(Tokens::Text(String::from("priv"))),
        ),
        &mut errors,
    );
    assert_eq!(f.args.len(), 4);
    assert_eq!(f.args[0].0, "self");
    assert_eq!(f.args[0].1.main, path(&["Self"]));
    assert_eq!(f.args[0].1.refs, 1);
    assert_eq!(f.args[2].1.main, path(&["char"]));
    assert!(f.can_yeet);
    assert!(!f.public);
    assert_eq!(f.identifier, Some(String::from("f")));
    assert!(f.return_type.is_some());
    let names: Vec<String> = errors
        .iter()
        .map(|e| match e {
            ErrType::ConflictingArgsName(n) => n.clone(),
            other => panic!("unexpected {:?}", other),
        })
        .collect();
    assert_eq!(names, vec![String::from("x"), String::from("self")]);

    let g = get_fun_siginifier(head(vec![], Tokens::Colon, Some(Tokens::Text(String::from("pub")))), &mut errors);
    assert!(g.public);
    assert!(!g.can_yeet);
    let h = get_fun_siginifier(head(vec![], Tokens::Colon, None), &mut errors);
    assert!(h.public);
}

#[test]
fn overload_signature() {
    let o = get_overload_siginifier(OverloadHead {
        operator: Tokens::Operator(Operators::Add),
        generics: vec![],
        return_type: None,
        arg_name: String::from("other"),
        arg_type: TypeNode::Named { refs: vec![amp()], path: path(&["Point"]), generics: vec![] },
        public: Tokens::Text(String::from("pub")),
        code: vec![],
    });
    assert_eq!(o.operator, Tokens::Operator(Operators::Add));
    assert_eq!(o.arg.0, "other");
    assert_eq!(o.arg.1.refs, 1);
    assert!(o.return_type.is_none());
    assert!(o.public);
}
