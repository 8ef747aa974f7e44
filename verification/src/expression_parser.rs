//! Expressions: values, operators and the trees built from them.
use vstd::prelude::*;

use crate::intermediate::dictionary::{Function, ShallowType};
use crate::lexer::lexemes::{Operators, Tokens};

verus! {

/// Operators from the tightest binding to the loosest: %/*-+<>==!=<=>=&&||
/// (a list is split at the loosest one it holds).
pub open spec fn spec_order_of_operations() -> Seq<Operators> {
    seq![Operators::Mod, Operators::Slash, Operators::Star, Operators::Plus, Operators::Minus, Operators::AngleBracket(false), Operators::AngleBracket(true), Operators::Equal, Operators::NotEqual, Operators::LessEq, Operators::MoreEq, Operators::And, Operators::Or]
}

/// Operators from the tightest binding to the loosest.
pub fn order_of_operations() -> (ops: [Operators; 13])
    ensures
        ops@ == spec_order_of_operations(),
{
    let ops = [Operators::Mod, Operators::Slash, Operators::Star, Operators::Plus, Operators::Minus, Operators::AngleBracket(false), Operators::AngleBracket(true), Operators::Equal, Operators::NotEqual, Operators::LessEq, Operators::MoreEq, Operators::And, Operators::Or];
    assert(ops@ =~= spec_order_of_operations());
    ops
}

#[derive(Debug)]
pub enum TreeTransformError {
    NoValue,
    ExcessOperator,
    ExcessValue,
    NotImplementedCuzLazy,
}

#[derive(Debug)]
pub struct ExprNode {
    left: Option<ValueType>,
    right: Option<ValueType>,
    operator: Option<Operators>,
}

impl ExprNode {
    pub closed spec fn spec_new(
        left: Option<ValueType>,
        right: Option<ValueType>,
        operator: Option<Operators>,
    ) -> ExprNode {
        ExprNode { left, right, operator }
    }

    /// The left operand.
    pub closed spec fn spec_left(&self) -> Option<ValueType> {
        self.left
    }

    /// The right operand.
    pub closed spec fn spec_right(&self) -> Option<ValueType> {
        self.right
    }

    /// The operator.
    pub closed spec fn spec_operator(&self) -> Option<Operators> {
        self.operator
    }

    /// A node is made of its two operands and its operator.
    pub proof fn lemma_spec_new(
        left: Option<ValueType>,
        right: Option<ValueType>,
        operator: Option<Operators>,
    )
        ensures
            ExprNode::spec_new(left, right, operator).spec_left() == left,
            ExprNode::spec_new(left, right, operator).spec_right() == right,
            ExprNode::spec_new(left, right, operator).spec_operator() == operator,
    {
    }

    pub fn new(left: Option<ValueType>, right: Option<ValueType>, operator: Option<Operators>) -> (n: ExprNode)
        ensures
            n == ExprNode::spec_new(left, right, operator),
    {
        ExprNode { left, right, operator }
    }

    pub fn blank() -> (n: ExprNode)
        ensures
            n == ExprNode::spec_new(None, None, None),
    {
        ExprNode { left: None, right: None, operator: None }
    }
}

#[derive(Debug)]
pub enum ValueType {
    Literal(Literal),
    AnonymousFunction(Function),
    /// parenthesis
    Parenthesis(Box<ValueType>, Vec<TailNodes>),
    Expression(Box<ExprNode>),
    /// only for inner functionality
    Operator(Operators),
    Value(Variable),
    Blank,
}

impl ValueType {
    pub fn fun(fun: Function) -> (v: ValueType)
        ensures
            v == ValueType::AnonymousFunction(fun),
    {
        ValueType::AnonymousFunction(fun)
    }

    pub fn value(val: Literal) -> (v: ValueType)
        ensures
            v == ValueType::Literal(val),
    {
        ValueType::Literal(val)
    }
}

#[derive(Debug)]
pub struct Literal {
    unary: Option<Operators>,
    refs: usize,
    /// atm only keyword new, so bool would be sufficient, but who knows what will be in the future updates
    modificatior: Option<String>,
    value: Literals,
}

#[derive(Debug)]
pub enum Literals {
    Number(Tokens),
    Array(ArrayRule),
    String(String),
}

#[derive(Debug)]
pub enum ArrayRule {
    Fill(Box<ExprNode>, usize),
    Explicit(Vec<ExprNode>),
}

#[derive(Debug)]
pub struct Variable {
    unary: Option<Operators>,
    refs: usize,
    /// atm only keyword new, so bool would be sufficient, but who knows what will be in the future updates
    modificatior: Option<String>,
    /// for longer variables
    /// example: danda[5].touch_grass(9)
    ///          ~~~~~ <- this is considered a root
    root: String,
    /// for longer variables
    /// example: danda[5].touch_grass(9)
    /// danda is root .. rest is tail
    tail: Vec<TailNodes>,
}

#[derive(Debug)]
pub struct FunctionCall {
    generic: Vec<ShallowType>,
    args: Vec<ValueType>,
}

#[derive(Debug)]
pub enum TailNodes {
    Nested(String),
    Index(ValueType),
    Call(FunctionCall),
    Cast(Vec<String>),
}

/// Position of the first occurrence, from `i` on, of the operator `op` in
/// `list`.
pub open spec fn first_op_from(list: Seq<ValueType>, op: Operators, i: int) -> Option<int>
    decreases list.len() - i,
{
    if i >= list.len() || i < 0 {
        None
    } else if list[i] == ValueType::Operator(op) {
        Some(i)
    } else {
        first_op_from(list, op, i + 1)
    }
}

/// The operator a list is split at, and where: the loosest-binding
/// operator of `order_of_operations`, among its first `k + 1`, that occurs
/// in the list, at its first occurrence.
pub open spec fn split_from(list: Seq<ValueType>, k: int) -> Option<(Operators, int)>
    decreases k + 1,
{
    if k >= 13 || k < 0 {
        None
    } else {
        match first_op_from(list, spec_order_of_operations()[k], 0) {
            Some(i) => Some((spec_order_of_operations()[k], i)),
            None => split_from(list, k - 1),
        }
    }
}

/// What `list_into_tree` gives for `list`, and what it leaves in `list`.
pub open spec fn tree_of(list: Seq<ValueType>) -> (Result<ValueType, TreeTransformError>, Seq<ValueType>)
    decreases list.len(),
{
    if list.len() == 0 {
        (Ok(ValueType::Blank), list)
    } else if list.len() == 1 {
        if list[0] is Operator {
            (Err(TreeTransformError::ExcessOperator), list)
        } else {
            (Ok(list[0]), seq![])
        }
    } else {
        match split_from(list, 12) {
            None => (Err(TreeTransformError::NotImplementedCuzLazy), list),
            Some((op, i)) => if i <= 0 {
                (Err(TreeTransformError::NoValue), list)
            } else if i >= list.len() - 1 {
                (Err(TreeTransformError::ExcessOperator), list)
            } else {
                let left = list.take(i);
                let right = list.skip(i + 1);
                let (lres, lafter) = tree_of(left);
                match lres {
                    Err(e) => (Err(e), lafter),
                    Ok(l) => {
                        let (rres, _rafter) = tree_of(right);
                        match rres {
                            Err(e) => (Err(e), lafter),
                            Ok(r) => (
                                Ok(
                                    ValueType::Expression(
                                        Box::new(ExprNode::spec_new(Some(l), Some(r), Some(op))),
                                    ),
                                ),
                                lafter,
                            ),
                        }
                    },
                }
            },
        }
    }
}

/// The values and operators of an expression tree, read left to right.
pub open spec fn flatten(v: ValueType) -> Seq<ValueType>
    decreases v,
{
    match v {
        ValueType::Expression(node) => match node.spec_left() {
            Some(l) => match node.spec_right() {
                Some(r) => match node.spec_operator() {
                    Some(op) => flatten(l) + seq![ValueType::Operator(op)] + flatten(r),
                    None => seq![v],
                },
                None => seq![v],
            },
            None => seq![v],
        },
        _ => seq![v],
    }
}

proof fn lemma_first_op_from(list: Seq<ValueType>, op: Operators, i: int)
    requires
        0 <= i,
    ensures
        match first_op_from(list, op, i) {
            Some(k) => i <= k < list.len() && list[k] == ValueType::Operator(op) && forall|j: int|
                i <= j < k ==> list[j] != ValueType::Operator(op),
            None => forall|j: int| i <= j < list.len() ==> list[j] != ValueType::Operator(op),
        },
    decreases list.len() - i,
{
    if i < list.len() && list[i] != ValueType::Operator(op) {
        lemma_first_op_from(list, op, i + 1);
    }
}

proof fn lemma_split_from(list: Seq<ValueType>, k: int)
    ensures
        match split_from(list, k) {
            Some((op, i)) => 0 <= i < list.len() && list[i] == ValueType::Operator(op),
            None => true,
        },
    decreases k + 1,
{
    if 0 <= k < 13 {
        lemma_first_op_from(list, spec_order_of_operations()[k], 0);
        if first_op_from(list, spec_order_of_operations()[k], 0) is None {
            lemma_split_from(list, k - 1);
        }
    }
}

/// recursive function that transforms list of values into tree
pub fn list_into_tree(list: &mut Vec<ValueType>) -> (r: Result<ValueType, TreeTransformError>)
    ensures
        (r, final(list)@) == tree_of(old(list)@),
    decreases old(list)@.len(),
{
    let ghost orig = list@;
    let mut result = ExprNode { left: None, right: None, operator: None };
    if list.len() == 0 {
        return Ok(ValueType::Blank);
    }
    if list.len() == 1 {
        if let ValueType::Operator(_) = &list[0] {
            return Err(TreeTransformError::ExcessOperator);
        }
        let v = list.pop().unwrap();
        assert(list@ =~= Seq::<ValueType>::empty());
        return Ok(v);
    }
    let order = order_of_operations();
    let mut k: usize = 13;
    while k > 0
        invariant
            k <= 13,
            order@ == spec_order_of_operations(),
            list@ == orig,
            orig == old(list)@,
            orig.len() >= 2,
            split_from(orig, 12) == split_from(orig, k - 1),
            result == ExprNode::spec_new(None, None, None),
        decreases k,
    {
        let op = order[k - 1];
        let mut i: usize = 0;
        // if the list consists of only 1 value and it is not an operator, return it
        while i < list.len()
            invariant
                0 < k <= 13,
                order@ == spec_order_of_operations(),
                i <= list@.len(),
                list@ == orig,
                orig == old(list)@,
                orig.len() >= 2,
                op == spec_order_of_operations()[k - 1],
                split_from(orig, 12) == split_from(orig, k - 1),
                first_op_from(orig, op, 0) == first_op_from(orig, op, i as int),
                result == ExprNode::spec_new(None, None, None),
            decreases list@.len() - i,
        {
            let is_op = if let ValueType::Operator(op2) = &list[i] {
                op == *op2
            } else {
                false
            };
            if is_op {
                assert(list@[i as int] == ValueType::Operator(op));
                assert(split_from(orig, 12) == Some((op, i as int)));
                if i == 0 {
                    return Err(TreeTransformError::NoValue);
                }
                if i == list.len() - 1 {
                    return Err(TreeTransformError::ExcessOperator);
                }
                result.operator = Some(op);
                // split list into 2 lists using index
                list.remove(i);
                let mut right = list.split_off(i);
                assert(list@ =~= orig.take(i as int));
                assert(right@ =~= orig.skip(i + 1));
                // call this function recursively for each side
                // left side
                if list.len() == 0 {
                    return Err(TreeTransformError::NoValue);
                }
                let res = list_into_tree(list);
                if let Ok(left) = res {
                    result.left = Some(left);
                } else {
                    return res;
                }
                // right side
                if right.len() == 0 {
                    return Err(TreeTransformError::NoValue);
                }
                let res = list_into_tree(&mut right);
                if let Ok(right) = res {
                    result.right = Some(right);
                } else {
                    return res;
                }
                // return result
                return Ok(ValueType::Expression(Box::new(result)));
            }
            i += 1;
        }
        k -= 1;
    }
    return Err(TreeTransformError::NotImplementedCuzLazy);
}

/// Whether the operator `op` occurs in `list`.
pub open spec fn holds_operator(list: Seq<ValueType>, op: Operators) -> bool {
    exists|j: int| 0 <= j < list.len() && list[j] == ValueType::Operator(op)
}

proof fn lemma_split_from_loosest(list: Seq<ValueType>, m: int)
    requires
        -1 <= m < 13,
    ensures
        match split_from(list, m) {
            Some((op, i)) => 0 <= i < list.len() && list[i] == ValueType::Operator(op) && (forall|j: int|
                0 <= j < i ==> list[j] != ValueType::Operator(op)) && exists|k: int|
                0 <= k <= m && spec_order_of_operations()[k] == op && forall|k2: int|
                    k < k2 <= m ==> !holds_operator(list, #[trigger] spec_order_of_operations()[k2]),
            None => forall|k2: int|
                0 <= k2 <= m ==> !holds_operator(list, #[trigger] spec_order_of_operations()[k2]),
        },
    decreases m + 1,
{
    if m >= 0 {
        let op = spec_order_of_operations()[m];
        lemma_first_op_from(list, op, 0);
        lemma_split_from_loosest(list, m - 1);
        match first_op_from(list, op, 0) {
            Some(i) => {
                assert(split_from(list, m) == Some((op, i)));
            },
            None => {
                assert(!holds_operator(list, op));
                match split_from(list, m - 1) {
                    Some((op1, i1)) => {
                        let k = choose|k: int|
                            0 <= k <= m - 1 && spec_order_of_operations()[k] == op1 && forall|k2: int|
                                k < k2 <= m - 1 ==> !holds_operator(
                                    list,
                                    #[trigger] spec_order_of_operations()[k2],
                                );
                        assert forall|k2: int| k < k2 <= m implies !holds_operator(
                            list,
                            #[trigger] spec_order_of_operations()[k2],
                        ) by {
                            if k2 == m {
                            }
                        }
                    },
                    None => {
                        assert forall|k2: int| 0 <= k2 <= m implies !holds_operator(
                            list,
                            #[trigger] spec_order_of_operations()[k2],
                        ) by {
                            if k2 == m {
                            }
                        }
                    },
                }
            },
        }
    }
}

/// A list is split at the loosest-binding operator that it holds, at the
/// first place that operator occurs; a list that holds an operator of the
/// order of operations is always split.
pub proof fn law_split_at_loosest_operator(list: Seq<ValueType>)
    ensures
        split_from(list, 12) is Some <==> exists|k: int|
            0 <= k < 13 && holds_operator(list, #[trigger] spec_order_of_operations()[k]),
        split_from(list, 12) matches Some((op, i)) ==> 0 <= i < list.len() && list[i]
            == ValueType::Operator(op) && (forall|j: int| 0 <= j < i ==> list[j] != ValueType::Operator(op))
            && exists|k: int|
            0 <= k < 13 && spec_order_of_operations()[k] == op && forall|k2: int|
                k < k2 < 13 ==> !holds_operator(list, #[trigger] spec_order_of_operations()[k2]),
{
    lemma_split_from_loosest(list, 12);
    match split_from(list, 12) {
        Some((op, i)) => {
            let k = choose|k: int|
                0 <= k <= 12 && spec_order_of_operations()[k] == op && forall|k2: int|
                    k < k2 <= 12 ==> !holds_operator(list, #[trigger] spec_order_of_operations()[k2]);
            assert(holds_operator(list, spec_order_of_operations()[k]));
        },
        None => {},
    }
}

/// Every operator of the order of operations splits a list: two values
/// with one such operator between them become one expression of the two
/// values and that operator.
pub proof fn law_every_operator_splits(v: ValueType, w: ValueType, op: Operators)
    requires
        !(v is Operator),
        !(w is Operator),
        op == Operators::Mod || op == Operators::Slash || op == Operators::Star || op
            == Operators::Plus || op == Operators::Minus || op == Operators::AngleBracket(false)
            || op == Operators::AngleBracket(true) || op == Operators::Equal || op
            == Operators::NotEqual || op == Operators::LessEq || op == Operators::MoreEq || op
            == Operators::And || op == Operators::Or,
    ensures
        tree_of(seq![v, ValueType::Operator(op), w]).0 == Ok::<ValueType, TreeTransformError>(
            ValueType::Expression(Box::new(ExprNode::spec_new(Some(v), Some(w), Some(op)))),
        ),
{
    let list = seq![v, ValueType::Operator(op), w];
    reveal_with_fuel(split_from, 14);
    reveal_with_fuel(first_op_from, 4);
    assert(split_from(list, 12) == Some((op, 1int)));
    assert(list.take(1) =~= seq![v]);
    assert(list.skip(2) =~= seq![w]);
    assert(tree_of(seq![v]).0 == Ok::<ValueType, TreeTransformError>(v));
    assert(tree_of(seq![w]).0 == Ok::<ValueType, TreeTransformError>(w));
}

/// Building a tree keeps the values and operators of the list, in their
/// order: reading the tree left to right gives back the list (for lists
/// that hold no already-built expression).
pub proof fn law_tree_keeps_order(list: Seq<ValueType>)
    requires
        list.len() >= 1,
        forall|j: int| 0 <= j < list.len() ==> !(#[trigger] list[j] is Expression),
        tree_of(list).0 is Ok,
    ensures
        flatten(tree_of(list).0->Ok_0) == list,
    decreases list.len(),
{
    if list.len() == 1 {
        assert(seq![list[0]] =~= list);
    } else {
        lemma_split_from(list, 12);
        let (op, i) = split_from(list, 12).unwrap();
        let left = list.take(i);
        let right = list.skip(i + 1);
        law_tree_keeps_order(left);
        law_tree_keeps_order(right);
        assert(left + seq![ValueType::Operator(op)] + right =~= list);
    }
}

} // verus!
