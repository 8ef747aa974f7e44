//! Reading function signatures.
//!
//! A signature's arguments are read in order: `self` takes the type
//! `Self` behind its references, any other argument the type written for
//! it. An argument whose name an earlier argument has is reported (once
//! per such earlier argument) and kept. A signature is errorable when it is
//! marked with `!`, and public unless it says otherwise.
use vstd::prelude::*;

use super::declarations::{
    clashes_reported, lemma_push_report, name_clashes, Clash, ClashKind,
};
use super::dictionary::{idents_view, Function, GenericDecl, Overload, ShallowType};
use super::types::{count_refs, describes, get_type, refs_count, refs_fit, TypeNode};
use super::AnalyzationError::ErrType;
use crate::codeblock_parser::Nodes;
use crate::lexer::lexemes::{Lexeme, Operators, Tokens};
use crate::text::{chars_of, same_chars};

verus! {

/// An argument of a function, as written.
pub enum ArgNode {
    /// `self`, behind the reference tokens before it
    SelfArg { refs: Vec<Tokens> },
    /// a named argument and its type
    Arg { name: String, kind: TypeNode },
}

/// A function signature as read from its syntax tree.
pub struct FunctionHead {
    pub identifier: Option<String>,
    pub generics: Vec<GenericDecl>,
    pub return_type: Option<TypeNode>,
    pub arguments: Vec<ArgNode>,
    /// the token that marks the function errorable (`!`) or not
    pub errorable: Tokens,
    /// the visibility word, when one is written
    pub public: Option<Tokens>,
    pub code: Vec<Nodes>,
}

/// The name of an argument.
pub open spec fn arg_name(a: ArgNode) -> Seq<char> {
    match a {
        ArgNode::SelfArg { .. } => "self"@,
        ArgNode::Arg { name, .. } => name@,
    }
}

/// The names of the arguments.
pub open spec fn arg_names(args: Seq<ArgNode>) -> Seq<Seq<char>> {
    args.map_values(|a: ArgNode| arg_name(a))
}

/// The clashes among the first `i` arguments: each named argument whose
/// name an earlier argument has, once per such earlier argument (`self` is
/// not checked).
pub open spec fn args_clashes(args: Seq<ArgNode>, i: int) -> Seq<Clash>
    decreases i,
{
    if i <= 0 {
        seq![]
    } else {
        args_clashes(args, i - 1) + if args[i - 1] is Arg {
            name_clashes(arg_names(args).take(i - 1), arg_name(args[i - 1]))
        } else {
            seq![]
        }
    }
}

/// Every reference count in the argument fits in a `usize`.
pub open spec fn arg_fits(a: ArgNode) -> bool {
    match a {
        ArgNode::SelfArg { refs } => refs_count(refs@) <= usize::MAX,
        ArgNode::Arg { kind, .. } => refs_fit(kind),
    }
}

/// `r` is what the argument `a` reads as: its name and its type.
pub open spec fn reads_arg(r: (String, ShallowType), a: ArgNode) -> bool {
    &&& r.0@ == arg_name(a)
    &&& match a {
        ArgNode::SelfArg { refs } => {
            &&& r.1.is_fun is None
            &&& r.1.arr_len is None
            &&& r.1.refs == refs_count(refs@)
            &&& idents_view(r.1.main@) == seq!["Self"@]
            &&& r.1.generics@.len() == 0
        },
        ArgNode::Arg { kind, .. } => describes(r.1, kind),
    }
}

/// Whether a signature is public: it is unless a visibility word other
/// than `pub` is written.
pub open spec fn is_public(p: Option<Tokens>) -> bool {
    match p {
        None => true,
        Some(t) => t@ == Lexeme::Text("pub"@),
    }
}

fn self_type(refs: &Vec<Tokens>) -> (t: ShallowType)
    requires
        refs_count(refs@) <= usize::MAX,
    ensures
        t.is_fun is None,
        t.arr_len is None,
        t.refs == refs_count(refs@),
        idents_view(t.main@) == seq!["Self"@],
        t.generics@.len() == 0,
{
    let n = count_refs(refs);
    let main = vec![String::from_str("Self")];
    assert(idents_view(main@) =~= seq!["Self"@]);
    ShallowType { is_fun: None, arr_len: None, refs: n, main, generics: Vec::new() }
}

fn public_word(p: &Option<Tokens>) -> (b: bool)
    ensures
        b == is_public(*p),
{
    match p {
        None => true,
        Some(Tokens::Text(s)) => {
            proof {
                reveal_strlit("pub");
            }
            let b = same_chars(&chars_of(s.as_str()), &chars_of("pub"));
            b
        },
        Some(_) => false,
    }
}

fn marks_errorable(t: &Tokens) -> (b: bool)
    ensures
        b == (t@ == Lexeme::Operator(Operators::Not)),
{
    match t {
        Tokens::Operator(Operators::Not) => true,
        _ => false,
    }
}

/// Reads a function signature: its arguments and their types (reporting
/// arguments that share a name), its return type, whether it is errorable
/// and whether it is public.
pub fn get_fun_siginifier(node: FunctionHead, errors: &mut Vec<ErrType>) -> (f: Function)
    requires
        forall|i: int| 0 <= i < node.arguments@.len() ==> arg_fits(#[trigger] node.arguments@[i]),
        node.return_type matches Some(t) ==> refs_fit(t),
    ensures
        f.identifier == node.identifier,
        f.generics == node.generics,
        f.code == node.code,
        f.stack_size is None,
        f.location is None,
        f.src_loc == 0,
        (f.return_type is None) == (node.return_type is None),
        node.return_type matches Some(t) ==> describes(f.return_type.unwrap(), t),
        f.can_yeet == (node.errorable@ == Lexeme::Operator(Operators::Not)),
        f.public == is_public(node.public),
        f.args@.len() == node.arguments@.len(),
        forall|i: int|
            0 <= i < node.arguments@.len() ==> reads_arg(f.args@[i], #[trigger] node.arguments@[i]),
        clashes_reported(
            old(errors)@,
            final(errors)@,
            args_clashes(node.arguments@, node.arguments@.len() as int),
            ClashKind::Args,
        ),
{
    let ghost a0 = node.arguments@;
    let ghost names = arg_names(a0);
    let ghost e0 = errors@;
    let FunctionHead { identifier, generics, return_type, arguments, errorable, public, code } = node;
    let kind = match return_type {
        Some(t) => Some(get_type(t)),
        None => None,
    };
    proof {
        assert(e0.take(e0.len() as int) =~= e0);
    }
    let total = arguments.len();
    let mut rest = arguments;
    let mut args: Vec<(String, ShallowType)> = Vec::new();
    let mut i: usize = 0;
    while rest.len() > 0
        invariant
            total == a0.len(),
            i + rest@.len() == a0.len(),
            rest@ == a0.skip(i as int),
            args@.len() == i,
            names == arg_names(a0),
            e0 == old(errors)@,
            forall|k: int| 0 <= k < a0.len() ==> arg_fits(#[trigger] a0[k]),
            forall|k: int| 0 <= k < i ==> reads_arg(args@[k], #[trigger] a0[k]),
            clashes_reported(e0, errors@, args_clashes(a0, i as int), ClashKind::Args),
        decreases rest@.len(),
    {
        let a = rest.remove(0);
        assert(a == a0[i as int]);
        assert(rest@ =~= a0.skip(i + 1));
        let (name, t, named) = match a {
            ArgNode::SelfArg { refs } => {
                proof {
                    reveal_strlit("self");
                }
                (String::from_str("self"), self_type(&refs), false)
            },
            ArgNode::Arg { name, kind } => (name, get_type(kind), true),
        };
        assert(name@ == names[i as int]);
        assert(named == (a0[i as int] is Arg));
        let ghost prev = names.take(i as int);
        let mut j: usize = 0;
        let stop = if named {
            i
        } else {
            0
        };
        while j < stop
            invariant
                stop == if a0[i as int] is Arg {
                    i
                } else {
                    0
                },
                j <= stop,
                j <= i < a0.len(),
                args@.len() == i,
                names == arg_names(a0),
                prev == names.take(i as int),
                name@ == names[i as int],
                forall|k: int| 0 <= k < i ==> reads_arg(args@[k], #[trigger] a0[k]),
                clashes_reported(
                    e0,
                    errors@,
                    args_clashes(a0, i as int) + name_clashes(prev.take(j as int), names[i as int]),
                    ClashKind::Args,
                ),
            decreases stop - j,
        {
            let ghost found0 = args_clashes(a0, i as int) + name_clashes(prev.take(j as int), names[i as int]);
            proof {
                assert(prev.take(j + 1).drop_last() =~= prev.take(j as int));
                assert(reads_arg(args@[j as int], a0[j as int]));
            }
            if same_chars(&chars_of(args[j].0.as_str()), &chars_of(name.as_str())) {
                let e = ErrType::ConflictingArgsName(name.clone());
                proof {
                    lemma_push_report(e0, errors@, found0, e, Clash::Name(names[i as int]), ClashKind::Args);
                    assert(found0.push(Clash::Name(names[i as int])) =~= args_clashes(a0, i as int)
                        + name_clashes(prev.take(j + 1), names[i as int]));
                }
                errors.push(e);
            } else {
                assert(found0 =~= args_clashes(a0, i as int) + name_clashes(prev.take(j + 1), names[i as int]));
            }
            j += 1;
        }
        proof {
            assert(prev.take(i as int) =~= prev);
            assert(args_clashes(a0, i + 1) =~= args_clashes(a0, i as int) + if a0[i as int] is Arg {
                name_clashes(prev, names[i as int])
            } else {
                seq![]
            });
            if !named {
                assert(prev.take(0) =~= Seq::<Seq<char>>::empty());
                assert(args_clashes(a0, i as int) + name_clashes(prev.take(j as int), names[i as int])
                    =~= args_clashes(a0, i + 1));
            } else {
                assert(j == i);
                assert(args_clashes(a0, i as int) + name_clashes(prev.take(j as int), names[i as int])
                    =~= args_clashes(a0, i + 1));
            }
        }
        args.push((name, t));
        i += 1;
    }
    let can_yeet = marks_errorable(&errorable);
    let public = public_word(&public);
    Function {
        can_yeet,
        identifier,
        args,
        stack_size: None,
        location: None,
        return_type: kind,
        generics,
        src_loc: 0,
        public,
        code,
    }
}

/// An operator overload as read from its syntax tree.
pub struct OverloadHead {
    pub operator: Tokens,
    pub generics: Vec<GenericDecl>,
    pub return_type: Option<TypeNode>,
    pub arg_name: String,
    pub arg_type: TypeNode,
    /// the visibility word
    pub public: Tokens,
    pub code: Vec<Nodes>,
}

/// Reads an operator overload: its operator, its one argument and its
/// type, its return type, and whether it is public (`pub`).
pub fn get_overload_siginifier(node: OverloadHead) -> (o: Overload)
    requires
        refs_fit(node.arg_type),
        node.return_type matches Some(t) ==> refs_fit(t),
    ensures
        o.operator == node.operator,
        o.arg.0 == node.arg_name,
        describes(o.arg.1, node.arg_type),
        (o.return_type is None) == (node.return_type is None),
        node.return_type matches Some(t) ==> describes(o.return_type.unwrap(), t),
        o.generics == node.generics,
        o.code == node.code,
        o.stack_size is None,
        o.location is None,
        o.src_loc == 0,
        o.public == (node.public@ == Lexeme::Text("pub"@)),
{
    let OverloadHead { operator, generics, return_type, arg_name, arg_type, public, code } = node;
    let kind = match return_type {
        Some(t) => Some(get_type(t)),
        None => None,
    };
    let arg = (arg_name, get_type(arg_type));
    let public = public_word(&Some(public));
    Overload {
        operator,
        arg,
        stack_size: None,
        location: None,
        return_type: kind,
        generics,
        src_loc: 0,
        public,
        code,
    }
}

} // verus!
