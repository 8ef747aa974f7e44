//! Reading the types a program writes.
//!
//! A type is a function type, a named type, or an array of a named type,
//! each behind any number of references: `&` adds one, `&&` two.
use vstd::prelude::*;

use super::dictionary::{Function, ShallowType};
use crate::lexer::lexemes::{Lexeme, Operators, Tokens};

verus! {

/// A type as written, read from its syntax tree.
pub enum TypeNode {
    /// a function type: the reference tokens before it, and its signature
    Function { refs: Vec<Tokens>, head: Function },
    /// a named type: the reference tokens, its path, its generic arguments
    Named { refs: Vec<Tokens>, path: Vec<String>, generics: Vec<TypeNode> },
    /// an array: the reference tokens, the path of its element type, the
    /// generic arguments
    Array { refs: Vec<Tokens>, path: Vec<String>, generics: Vec<TypeNode> },
}

/// The references that the tokens `ts` add: one for each `&`, two for each
/// `&&`.
pub open spec fn refs_count(ts: Seq<Tokens>) -> nat
    decreases ts.len(),
{
    if ts.len() == 0 {
        0
    } else {
        refs_count(ts.drop_last()) + match ts.last()@ {
            Lexeme::Operator(Operators::Ampersant) => 1nat,
            Lexeme::Operator(Operators::And) => 2nat,
            _ => 0nat,
        }
    }
}

proof fn lemma_refs_count_prefix(ts: Seq<Tokens>, k: int)
    requires
        0 <= k <= ts.len(),
    ensures
        refs_count(ts.take(k)) <= refs_count(ts),
    decreases ts.len(),
{
    if k < ts.len() {
        assert(ts.drop_last().take(k) =~= ts.take(k));
        lemma_refs_count_prefix(ts.drop_last(), k);
    } else {
        assert(ts.take(k) =~= ts);
    }
}

/// References add up: the references of two runs of tokens one after the
/// other are those of the first and those of the second; `&` adds one,
/// `&&` two, and a token that is no operator none.
pub proof fn law_refs_add_up(a: Seq<Tokens>, b: Seq<Tokens>, t: Tokens)
    ensures
        refs_count(a + b) == refs_count(a) + refs_count(b),
        refs_count(seq![Tokens::Operator(Operators::Ampersant)]) == 1,
        refs_count(seq![Tokens::Operator(Operators::And)]) == 2,
        !(t is Operator) ==> refs_count(seq![t]) == 0,
    decreases b.len(),
{
    if b.len() > 0 {
        assert((a + b).drop_last() =~= a + b.drop_last());
        law_refs_add_up(a, b.drop_last(), t);
    } else {
        assert(a + b =~= a);
    }
    assert(refs_count(Seq::<Tokens>::empty()) == 0);
    assert(seq![Tokens::Operator(Operators::Ampersant)].drop_last() =~= Seq::<Tokens>::empty());
    assert(seq![Tokens::Operator(Operators::And)].drop_last() =~= Seq::<Tokens>::empty());
    assert(seq![t].drop_last() =~= Seq::<Tokens>::empty());
}

/// Counts the references that the tokens add.
pub fn count_refs(refs: &Vec<Tokens>) -> (n: usize)
    requires
        refs_count(refs@) <= usize::MAX,
    ensures
        n == refs_count(refs@),
{
    let mut n: usize = 0;
    let mut i: usize = 0;
    while i < refs.len()
        invariant
            i <= refs@.len(),
            refs_count(refs@) <= usize::MAX,
            n == refs_count(refs@.take(i as int)),
        decreases refs@.len() - i,
    {
        proof {
            assert(refs@.take(i + 1).drop_last() =~= refs@.take(i as int));
            lemma_refs_count_prefix(refs@, i + 1);
        }
        let add: usize = match &refs[i] {
            Tokens::Operator(Operators::Ampersant) => 1,
            Tokens::Operator(Operators::And) => 2,
            _ => 0,
        };
        n = n + add;
        i += 1;
    }
    assert(refs@.take(i as int) =~= refs@);
    n
}

/// Every reference count in the type fits in a `usize`.
pub open spec fn refs_fit(n: TypeNode) -> bool
    decreases n,
{
    match n {
        TypeNode::Function { refs, .. } => refs_count(refs@) <= usize::MAX,
        TypeNode::Named { refs, generics, .. } => refs_count(refs@) <= usize::MAX && forall|i: int|
            0 <= i < generics@.len() ==> refs_fit(#[trigger] generics@[i]),
        TypeNode::Array { refs, generics, .. } => refs_count(refs@) <= usize::MAX && forall|i: int|
            0 <= i < generics@.len() ==> refs_fit(#[trigger] generics@[i]),
    }
}

/// `t` is the type that `n` writes: a function type holds its signature
/// and nothing else; a named type its path and generic arguments; an array
/// the path of its element type, the generic arguments, and a length still
/// to be worked out (0); each with the references its tokens add.
pub open spec fn describes(t: ShallowType, n: TypeNode) -> bool
    decreases n,
{
    match n {
        TypeNode::Function { refs, head } => {
            &&& t.is_fun == Some(Box::new(head))
            &&& t.arr_len is None
            &&& t.refs == refs_count(refs@)
            &&& t.main@.len() == 0
            &&& t.generics@.len() == 0
        },
        TypeNode::Named { refs, path, generics } => {
            &&& t.is_fun is None
            &&& t.arr_len is None
            &&& t.refs == refs_count(refs@)
            &&& t.main == path
            &&& t.generics@.len() == generics@.len()
            &&& forall|i: int|
                0 <= i < generics@.len() ==> describes(t.generics@[i], #[trigger] generics@[i])
        },
        TypeNode::Array { refs, path, generics } => {
            &&& t.is_fun is None
            &&& t.arr_len == Some(0usize)
            &&& t.refs == refs_count(refs@)
            &&& t.main == path
            &&& t.generics@.len() == generics@.len()
            &&& forall|i: int|
                0 <= i < generics@.len() ==> describes(t.generics@[i], #[trigger] generics@[i])
        },
    }
}

/// Reads the generic arguments of a type.
pub fn get_generics_expr(generics: Vec<TypeNode>) -> (ts: Vec<ShallowType>)
    requires
        forall|i: int| 0 <= i < generics@.len() ==> refs_fit(#[trigger] generics@[i]),
    ensures
        ts@.len() == generics@.len(),
        forall|i: int| 0 <= i < generics@.len() ==> describes(ts@[i], #[trigger] generics@[i]),
{
    let ghost g0 = generics@;
    let total = generics.len();
    let mut rest = generics;
    let mut out: Vec<ShallowType> = Vec::new();
    let mut k: usize = 0;
    while rest.len() > 0
        invariant
            total == g0.len(),
            k + rest@.len() == g0.len(),
            rest@ == g0.skip(k as int),
            out@.len() == k,
            forall|i: int| 0 <= i < g0.len() ==> refs_fit(#[trigger] g0[i]),
            forall|i: int| 0 <= i < k ==> describes(out@[i], #[trigger] g0[i]),
        decreases rest@.len(),
    {
        let g = rest.remove(0);
        assert(g == g0[k as int]);
        let t = get_type(g);
        out.push(t);
        assert(rest@ =~= g0.skip(k + 1));
        k += 1;
    }
    out
}

/// Reads a type.
pub fn get_type(node: TypeNode) -> (t: ShallowType)
    requires
        refs_fit(node),
    ensures
        describes(t, node),
    decreases node,
{
    let ghost node0 = node;
    let (refs, path, generics, array) = match node {
        TypeNode::Function { refs, head } => {
            let n = count_refs(&refs);
            return ShallowType {
                is_fun: Some(Box::new(head)),
                arr_len: None,
                refs: n,
                main: Vec::new(),
                generics: Vec::new(),
            };
        },
        TypeNode::Named { refs, path, generics } => (refs, path, generics, false),
        TypeNode::Array { refs, path, generics } => (refs, path, generics, true),
    };
    let n = count_refs(&refs);
    let ghost g0 = generics@;
    proof {
        assert(decreases_to!(node0 => generics));
        assert(decreases_to!(generics => generics@));
    }
    let total = generics.len();
    let mut rest = generics;
    let mut out: Vec<ShallowType> = Vec::new();
    let mut k: usize = 0;
    while rest.len() > 0
        invariant
            k + rest@.len() == g0.len(),
            rest@ == g0.skip(k as int),
            out@.len() == k,
            forall|i: int| 0 <= i < g0.len() ==> refs_fit(#[trigger] g0[i]),
            forall|i: int| 0 <= i < k ==> describes(out@[i], #[trigger] g0[i]),
            decreases_to!(node0 => g0),
            total == g0.len(),
            node == node0,
        decreases rest@.len(),
    {
        let g = rest.remove(0);
        assert(g == g0[k as int]);
        proof {
            assert(decreases_to!(g0 => g0[k as int]));
            assert(decreases_to!(node0 => g));
        }
        let t = get_type(g);
        out.push(t);
        assert(rest@ =~= g0.skip(k + 1));
        k += 1;
    }
    ShallowType {
        is_fun: None,
        arr_len: if array {
            Some(0)
        } else {
            None
        },
        refs: n,
        main: path,
        generics: out,
    }
}

} // verus!
