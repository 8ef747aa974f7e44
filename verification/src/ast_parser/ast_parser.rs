//! Reading the rules of a grammar file from its tokens.
//!
//! A grammar file lists heads: a name, its parameters (`[array]` or
//! `value`), a tab, then indented nodes. A node line is its tabs, a kind
//! token, an optional marker (`?` for an optional node, `!` for a command)
//! and `name = "value"` arguments; `=` after the first token makes an
//! argument condition. Nodes indented one tab deeper belong to the node
//! above them.
use vstd::prelude::*;

use crate::lexer::lexemes::{Operators, Tokens};

verus! {

struct Output {}

#[derive(Debug)]
pub struct Head {
    pub name: String,
    pub parameters: Vec<HeadParam>,
    pub nodes: Vec<NodeType>,
}

#[derive(Debug)]
pub enum HeadParam {
    Array(String),
    Value(String),
}

#[derive(Debug)]
pub struct Node {
    pub kind: Tokens,
    pub arguments: Vec<NodeParam>,
    pub nodes: Vec<NodeType>,
}

#[derive(Debug)]
pub enum NodeType {
    Maybe(Node),
    Expect(Node),
    Command(Node),
    ArgsCondition(ArgsCon),
}

#[derive(Debug)]
pub struct NodeParam {
    pub name: String,
    pub value: String,
}

#[derive(Debug)]
pub struct ArgsCon {
    pub params: Vec<NodeParam>,
    pub nodes: Vec<NodeType>,
}

/// What a node of a grammar rule holds.
pub enum NodeTypeModel {
    Maybe(Tokens, Seq<(Seq<char>, Seq<char>)>, Seq<NodeTypeModel>),
    Expect(Tokens, Seq<(Seq<char>, Seq<char>)>, Seq<NodeTypeModel>),
    Command(Tokens, Seq<(Seq<char>, Seq<char>)>, Seq<NodeTypeModel>),
    ArgsCondition(Seq<(Seq<char>, Seq<char>)>, Seq<NodeTypeModel>),
}

/// What a parameter of a head holds.
pub enum HeadParamModel {
    Array(Seq<char>),
    Value(Seq<char>),
}

/// What a head of a grammar file holds.
pub struct HeadModel {
    pub name: Seq<char>,
    pub parameters: Seq<HeadParamModel>,
    pub nodes: Seq<NodeTypeModel>,
}

pub open spec fn param_view(p: NodeParam) -> (Seq<char>, Seq<char>) {
    (p.name@, p.value@)
}

pub open spec fn params_view(ps: Seq<NodeParam>) -> Seq<(Seq<char>, Seq<char>)> {
    ps.map_values(|p: NodeParam| param_view(p))
}

pub open spec fn node_type_view(n: NodeType) -> NodeTypeModel
    decreases n, 0nat,
{
    match n {
        NodeType::Maybe(node) => NodeTypeModel::Maybe(
            node.kind,
            params_view(node.arguments@),
            nodes_view(node.nodes@),
        ),
        NodeType::Expect(node) => NodeTypeModel::Expect(
            node.kind,
            params_view(node.arguments@),
            nodes_view(node.nodes@),
        ),
        NodeType::Command(node) => NodeTypeModel::Command(
            node.kind,
            params_view(node.arguments@),
            nodes_view(node.nodes@),
        ),
        NodeType::ArgsCondition(con) => NodeTypeModel::ArgsCondition(
            params_view(con.params@),
            nodes_view(con.nodes@),
        ),
    }
}

pub open spec fn nodes_view(ns: Seq<NodeType>) -> Seq<NodeTypeModel>
    decreases ns, 1nat,
{
    if ns.len() == 0 {
        seq![]
    } else {
        nodes_view(ns.drop_last()).push(node_type_view(ns.last()))
    }
}

pub open spec fn head_param_view(p: HeadParam) -> HeadParamModel {
    match p {
        HeadParam::Array(s) => HeadParamModel::Array(s@),
        HeadParam::Value(s) => HeadParamModel::Value(s@),
    }
}

pub open spec fn head_view(h: Head) -> HeadModel {
    HeadModel {
        name: h.name@,
        parameters: h.parameters@.map_values(|p: HeadParam| head_param_view(p)),
        nodes: nodes_view(h.nodes@),
    }
}

/// Number of tabs from `idx` on; `None` when the tokens end first.
pub open spec fn tabs_from(t: Seq<Tokens>, idx: int) -> Option<int>
    decreases t.len() - idx,
{
    if idx < 0 || idx >= t.len() {
        None
    } else if t[idx] is Tab {
        match tabs_from(t, idx + 1) {
            Some(c) => Some(c + 1),
            None => None,
        }
    } else {
        Some(0)
    }
}

/// The `name = "value"` arguments from `idx` on and where they end;
/// `None` when the tokens end first.
pub open spec fn args_from(t: Seq<Tokens>, idx: int) -> Option<(Seq<(Seq<char>, Seq<char>)>, int)>
    decreases t.len() - idx,
{
    if idx < 0 || idx >= t.len() {
        None
    } else {
        match t[idx] {
            Tokens::Text(name) => if idx + 2 >= t.len() {
                None
            } else {
                let here: Seq<(Seq<char>, Seq<char>)> = match t[idx + 2] {
                    Tokens::String(value) => seq![(name@, value@)],
                    _ => seq![],
                };
                match args_from(t, idx + 3) {
                    Some((rest, end)) => Some((here + rest, end)),
                    None => None,
                }
            },
            _ => Some((seq![], idx)),
        }
    }
}

/// The nodes indented by `tabs` from `idx` on, with the tokens left and
/// the position reached; `None` when reading them runs past the tokens.
pub open spec fn nodes_from(t: Seq<Tokens>, idx: int, tabs: int) -> Option<(Seq<NodeTypeModel>, Seq<Tokens>, int)>
    decreases t.len() - idx, 0int,
{
    if tabs < 1 || idx < 0 {
        None
    } else {
        match tabs_from(t, idx) {
            None => None,
            Some(c) => if c != tabs {
                Some((seq![], t, idx))
            } else if idx + tabs + 1 >= t.len() {
                None
            } else {
                match node_at(t, idx + tabs, tabs) {
                    None => None,
                    Some((here, t2, i2)) => if 0 <= t2.len() - i2 < t.len() - idx {
                        match nodes_from(t2, i2, tabs) {
                            Some((rest, t3, i3)) => Some((here + rest, t3, i3)),
                            None => None,
                        }
                    } else {
                        None
                    },
                }
            },
        }
    }
}

/// The node (if any) whose kind token is at `i`, with the tokens left and
/// the position reached.
pub open spec fn node_at(t: Seq<Tokens>, i: int, tabs: int) -> Option<(Seq<NodeTypeModel>, Seq<Tokens>, int)>
    decreases t.len() - i, 1int,
{
    if i < 0 || i + 1 >= t.len() || tabs < 1 {
        None
    } else {
        match t[i + 1] {
            Tokens::Optional => {
                let t1 = t.remove(i + 1).remove(i);
                proof {
                    assert(t.remove(i + 1).len() == t.len() - 1);
                    assert(t1.len() == t.len() - 2);
                }
                match args_from(t1, i) {
                    None => None,
                    Some((args, j)) => if j < i || j > t1.len() {
                        None
                    } else {
                        match nodes_from(t1, j, tabs + 1) {
                            None => None,
                            Some((sub, t2, k)) => Some((seq![NodeTypeModel::Maybe(t[i], args, sub)], t2, k)),
                        }
                    },
                }
            },
            Tokens::Operator(Operators::Not) => {
                let t1 = t.remove(i + 1).remove(i);
                proof {
                    assert(t.remove(i + 1).len() == t.len() - 1);
                    assert(t1.len() == t.len() - 2);
                }
                match args_from(t1, i) {
                    None => None,
                    Some((args, j)) => if j < i || j > t1.len() {
                        None
                    } else {
                        match nodes_from(t1, j, tabs + 1) {
                            None => None,
                            Some((sub, t2, k)) => Some((seq![NodeTypeModel::Command(t[i], args, sub)], t2, k)),
                        }
                    },
                }
            },
            Tokens::Operator(Operators::Equal) => {
                match args_from(t, i) {
                    None => None,
                    Some((params, j)) => if j < i || j > t.len() {
                        None
                    } else {
                        match nodes_from(t, j, tabs + 1) {
                            None => None,
                            Some((sub, t2, k)) => Some((seq![NodeTypeModel::ArgsCondition(params, sub)], t2, k)),
                        }
                    },
                }
            },
            Tokens::Operator(_) => Some((seq![], t, i)),
            _ => {
                let t1 = t.remove(i);
                proof {
                    assert(t1.len() == t.len() - 1);
                }
                match args_from(t1, i) {
                    None => None,
                    Some((args, j)) => if j < i || j > t1.len() {
                        None
                    } else {
                        match nodes_from(t1, j, tabs + 1) {
                            None => None,
                            Some((sub, t2, k)) => Some((seq![NodeTypeModel::Expect(t[i], args, sub)], t2, k)),
                        }
                    },
                }
            },
        }
    }
}

/// The parameters of a head from `i` on, up to its tab: `Some(None)` when
/// the head is malformed (a `]` or a `[` not followed by a name), and the
/// position reached; `None` when reading them runs past the tokens or
/// never ends (a token that is neither a name, a `[`, nor a tab).
pub open spec fn params_from(t: Seq<Tokens>, i: int) -> Option<(Option<Seq<HeadParamModel>>, int)>
    decreases t.len() - i,
{
    if i < 0 || i >= t.len() {
        None
    } else {
        match t[i] {
            Tokens::Tab => Some((Some(seq![]), i)),
            Tokens::SquareBracket(closed) => if closed {
                Some((None, i))
            } else if i + 1 >= t.len() {
                None
            } else {
                match t[i + 1] {
                    Tokens::Text(txt) => match params_from(t, i + 2) {
                        None => None,
                        Some((None, e)) => Some((None, e)),
                        Some((Some(rest), e)) => Some((Some(seq![HeadParamModel::Array(txt@)] + rest), e)),
                    },
                    _ => Some((None, i)),
                }
            },
            Tokens::Text(txt) => match params_from(t, i + 1) {
                None => None,
                Some((None, e)) => Some((None, e)),
                Some((Some(rest), e)) => Some((Some(seq![HeadParamModel::Value(txt@)] + rest), e)),
            },
            _ => None,
        }
    }
}

/// The head at `idx` (`Some(None)` when there is none), with the tokens
/// left and the position reached; `None` when reading it runs past the
/// tokens or never ends.
pub open spec fn head_from(t: Seq<Tokens>, idx: int) -> Option<(Option<HeadModel>, Seq<Tokens>, int)> {
    if idx == t.len() {
        Some((None, t, idx))
    } else if idx < 0 || idx > t.len() {
        None
    } else {
        match t[idx] {
            Tokens::Text(name) => match params_from(t, idx + 1) {
                None => None,
                Some((None, e)) => Some((None, t, e)),
                Some((Some(params), e)) => match nodes_from(t, e, 1) {
                    None => None,
                    Some((nodes, t2, k)) => Some(
                        (Some(HeadModel { name: name@, parameters: params, nodes }), t2, k),
                    ),
                },
            },
            _ => Some((None, t, idx)),
        }
    }
}

/// The heads read one after the other from `idx` on, and the tokens left;
/// `None` when reading them runs past the tokens or never ends.
pub open spec fn heads_from(t: Seq<Tokens>, idx: int) -> Option<(Seq<HeadModel>, Seq<Tokens>)>
    decreases t.len() - idx,
{
    match head_from(t, idx) {
        None => None,
        Some((None, t2, _)) => Some((seq![], t2)),
        Some((Some(h), t2, k)) => if 0 <= t2.len() - (k + 1) < t.len() - idx {
            match heads_from(t2, k + 1) {
                None => None,
                Some((rest, t3)) => Some((seq![h] + rest, t3)),
            }
        } else {
            None
        },
    }
}



proof fn lemma_tabs_from(t: Seq<Tokens>, idx: int)
    ensures
        tabs_from(t, idx) matches Some(c) ==> 0 <= idx && c >= 0 && idx + c < t.len()
            && !(t[idx + c] is Tab),
    decreases t.len() - idx,
{
    if 0 <= idx < t.len() && t[idx] is Tab {
        lemma_tabs_from(t, idx + 1);
    }
}

proof fn lemma_args_from(t: Seq<Tokens>, idx: int)
    ensures
        args_from(t, idx) matches Some((a, j)) ==> 0 <= idx <= j < t.len(),
    decreases t.len() - idx,
{
    if 0 <= idx < t.len() && t[idx] is Text && idx + 2 < t.len() {
        lemma_args_from(t, idx + 3);
    }
}


/// Reading nodes never moves backwards: what is left to read after the
/// nodes is no longer than before, and reading stops on a token.
pub proof fn lemma_nodes_from_progress(t: Seq<Tokens>, idx: int, tabs: int)
    ensures
        nodes_from(t, idx, tabs) matches Some((ns, t2, k)) ==> 0 <= k < t2.len() && t2.len() - k
            <= t.len() - idx,
    decreases t.len() - idx, 0int,
{
    if tabs >= 1 && idx >= 0 {
        lemma_tabs_from(t, idx);
        if let Some(c) = tabs_from(t, idx) {
            if c == tabs && idx + tabs + 1 < t.len() {
                lemma_node_at_progress(t, idx + tabs, tabs);
                if let Some((here, t2, i2)) = node_at(t, idx + tabs, tabs) {
                    if 0 <= t2.len() - i2 < t.len() - idx {
                        lemma_nodes_from_progress(t2, i2, tabs);
                    }
                }
            }
        }
    }
}

/// Reading one node never moves backwards.
pub proof fn lemma_node_at_progress(t: Seq<Tokens>, i: int, tabs: int)
    ensures
        node_at(t, i, tabs) matches Some((ns, t2, k)) ==> 0 <= k < t2.len() && t2.len() - k <= t.len()
            - i,
    decreases t.len() - i, 1int,
{
    if 0 <= i && i + 1 < t.len() && tabs >= 1 {
        match t[i + 1] {
            Tokens::Optional => {
                let t1 = t.remove(i + 1).remove(i);
                assert(t.remove(i + 1).len() == t.len() - 1);
                lemma_args_from(t1, i);
                if let Some((args, j)) = args_from(t1, i) {
                    if !(j < i || j > t1.len()) {
                        lemma_nodes_from_progress(t1, j, tabs + 1);
                    }
                }
            },
            Tokens::Operator(Operators::Not) => {
                let t1 = t.remove(i + 1).remove(i);
                assert(t.remove(i + 1).len() == t.len() - 1);
                lemma_args_from(t1, i);
                if let Some((args, j)) = args_from(t1, i) {
                    if !(j < i || j > t1.len()) {
                        lemma_nodes_from_progress(t1, j, tabs + 1);
                    }
                }
            },
            Tokens::Operator(Operators::Equal) => {
                lemma_args_from(t, i);
                if let Some((params, j)) = args_from(t, i) {
                    if !(j < i || j > t.len()) {
                        lemma_nodes_from_progress(t, j, tabs + 1);
                    }
                }
            },
            Tokens::Operator(_) => {},
            _ => {
                let t1 = t.remove(i);
                lemma_args_from(t1, i);
                if let Some((args, j)) = args_from(t1, i) {
                    if !(j < i || j > t1.len()) {
                        lemma_nodes_from_progress(t1, j, tabs + 1);
                    }
                }
            },
        }
    }
}

/// The nodes that a node holds below it.
pub open spec fn children(n: NodeTypeModel) -> Seq<NodeTypeModel> {
    match n {
        NodeTypeModel::Maybe(_, _, sub) => sub,
        NodeTypeModel::Expect(_, _, sub) => sub,
        NodeTypeModel::Command(_, _, sub) => sub,
        NodeTypeModel::ArgsCondition(_, sub) => sub,
    }
}

proof fn lemma_tab_run(t: Seq<Tokens>, a: int, b: int)
    requires
        0 <= a <= b < t.len(),
        forall|q: int| a <= q < b ==> (#[trigger] t[q]) is Tab,
        !(t[b] is Tab),
    ensures
        tabs_from(t, a) == Some(b - a),
    decreases b - a,
{
    if a < b {
        lemma_tab_run(t, a + 1, b);
    }
}

proof fn lemma_deeper_line_read(t1: Seq<Tokens>, j: int, d: int)
    requires
        d >= 1,
        0 <= j,
        j + d + 1 < t1.len(),
        forall|q: int| j <= q < j + d ==> (#[trigger] t1[q]) is Tab,
        !(t1[j + d] is Tab),
        node_at(t1, j + d, d) matches Some((here, _, _)) && here.len() > 0,
    ensures
        t1[j] is Tab,
        nodes_from(t1, j, d) matches Some((sub, _, _)) ==> sub.len() > 0 && sub[0] == node_at(
            t1,
            j + d,
            d,
        ).unwrap().0[0],
{
    lemma_tab_run(t1, j, j + d);
    assert(t1[j] is Tab);
    lemma_node_at_progress(t1, j + d, d);
    let (here, t2, i2) = node_at(t1, j + d, d).unwrap();
    assert(0 <= t2.len() - i2 < t1.len() - j);
    match nodes_from(t2, i2, d) {
        Some((rest, t3, i3)) => {
            assert(nodes_from(t1, j, d) == Some((here + rest, t3, i3)));
        },
        None => {},
    }
}

/// Nodes indented one tab deeper than a node belong to it: when the line
/// after a node (of any kind) is indented by one tab more, the node read
/// on that line is the first of the nodes below the node.
///
/// The node line at `i` is its kind token and then, for an optional node a
/// `?`, for a command a `!`, for a condition `= "value"`; `t1` and `j` are
/// the tokens and the position once that line has been read, where the
/// tabs of the next line begin.
#[verifier::rlimit(40)]
pub proof fn law_deeper_line_is_first_child(t: Seq<Tokens>, i: int, tabs: int, t1: Seq<Tokens>, j: int)
    requires
        tabs >= 1,
        0 <= i,
        i + 3 < t.len(),
        (t[i + 1] is Tab && t1 == t.remove(i) && j == i) || (t[i + 1] is Optional && t1 == t.remove(
            i + 1,
        ).remove(i) && j == i) || (t[i + 1] == Tokens::Operator(Operators::Not) && t1 == t.remove(
            i + 1,
        ).remove(i) && j == i) || (t[i + 1] == Tokens::Operator(Operators::Equal) && t[i] is Text
            && t1 == t && j == i + 3),
        j + tabs + 2 < t1.len(),
        forall|q: int| j <= q < j + tabs + 1 ==> (#[trigger] t1[q]) is Tab,
        !(t1[j + tabs + 1] is Tab),
        node_at(t1, j + tabs + 1, tabs + 1) matches Some((here, _, _)) && here.len() > 0,
        node_at(t, i, tabs) is Some,
    ensures
        node_at(t, i, tabs) matches Some((ns, _, _)) && ns.len() == 1 && children(ns[0]).len() > 0
            && children(ns[0])[0] == node_at(t1, j + tabs + 1, tabs + 1).unwrap().0[0],
        node_at(t, i, tabs) matches Some((ns, _, _)) && (t[i + 1] is Tab ==> ns[0]
            == NodeTypeModel::Expect(t[i], seq![], children(ns[0]))) && (t[i + 1] is Optional
            ==> ns[0] == NodeTypeModel::Maybe(t[i], seq![], children(ns[0]))) && (t[i + 1]
            == Tokens::Operator(Operators::Not) ==> ns[0] == NodeTypeModel::Command(
            t[i],
            seq![],
            children(ns[0]),
        )) && (t[i + 1] == Tokens::Operator(Operators::Equal) ==> ns[0] is ArgsCondition),
{
    assert(t.remove(i + 1).len() == t.len() - 1);
    lemma_deeper_line_read(t1, j, tabs + 1);
    let no_args = Seq::<(Seq<char>, Seq<char>)>::empty();
    if t[i + 1] is Tab {
        assert(t1[j] == t[i + 1]);
        assert(args_from(t1, j) == Some((no_args, j)));
        let (sub, t2, k) = nodes_from(t1, j, tabs + 1).unwrap();
        assert(node_at(t, i, tabs) == Some((seq![NodeTypeModel::Expect(t[i], no_args, sub)], t2, k)));
    } else if t[i + 1] is Optional {
        assert(args_from(t1, j) == Some((no_args, j)));
        let (sub, t2, k) = nodes_from(t1, j, tabs + 1).unwrap();
        assert(node_at(t, i, tabs) == Some((seq![NodeTypeModel::Maybe(t[i], no_args, sub)], t2, k)));
    } else if t[i + 1] == Tokens::Operator(Operators::Not) {
        assert(args_from(t1, j) == Some((no_args, j)));
        let (sub, t2, k) = nodes_from(t1, j, tabs + 1).unwrap();
        assert(node_at(t, i, tabs) == Some((seq![NodeTypeModel::Command(t[i], no_args, sub)], t2, k)));
    } else {
        assert(args_from(t, i + 3) == Some((no_args, i + 3)));
        let (params, e) = args_from(t, i).unwrap();
        assert(e == i + 3);
        let (sub, t2, k) = nodes_from(t, e, tabs + 1).unwrap();
        assert(node_at(t, i, tabs) == Some((seq![NodeTypeModel::ArgsCondition(params, sub)], t2, k)));
    }
}

/// The nodes of a head are those indented by one tab under its line: when
/// a head's name is followed by its tab and the next line is indented by
/// one tab, the node read there is the first node of the head.
pub proof fn law_head_nodes_one_tab_deep(t: Seq<Tokens>, idx: int)
    requires
        0 <= idx,
        idx + 3 < t.len(),
        t[idx] is Text,
        t[idx + 1] is Tab,
        !(t[idx + 2] is Tab),
        node_at(t, idx + 2, 1) matches Some((here, _, _)) && here.len() > 0,
        head_from(t, idx) matches Some((Some(_), _, _)),
    ensures
        head_from(t, idx) matches Some((Some(h), _, _)) && h.name == t[idx]->Text_0@
            && h.parameters.len() == 0 && h.nodes.len() > 0 && h.nodes[0] == node_at(
            t,
            idx + 2,
            1,
        ).unwrap().0[0],
{
    assert(params_from(t, idx + 1) == Some((Some(Seq::<HeadParamModel>::empty()), idx + 1)));
    lemma_deeper_line_read(t, idx + 1, 1);
}

proof fn lemma_params_from(t: Seq<Tokens>, i: int)
    ensures
        params_from(t, i) matches Some((p, e)) ==> 0 <= i <= e < t.len(),
    decreases t.len() - i,
{
    if 0 <= i < t.len() {
        match t[i] {
            Tokens::SquareBracket(closed) => if !closed && i + 1 < t.len() {
                lemma_params_from(t, i + 2);
            },
            Tokens::Text(_) => lemma_params_from(t, i + 1),
            _ => {},
        }
    }
}

/// What the heads of a grammar file hold.
pub open spec fn heads_view(hs: Seq<Head>) -> Seq<HeadModel> {
    hs.map_values(|h: Head| head_view(h))
}

/// Checks read heads against the rest of the input (not written yet: does
/// nothing).
pub fn analize_input(nodes: &Vec<Head>, lines: Vec<(usize, usize)>, ast: Vec<Head>) {
}

/// Reads every head of a grammar file from its tokens; the tokens that
/// mark and name nodes are taken out of `tokens` on the way.
pub fn analize_tree(tokens: &mut Vec<Tokens>) -> (tree: Vec<Head>)
    requires
        heads_from(old(tokens)@, 0) is Some,
    ensures
        heads_from(old(tokens)@, 0) == Some((heads_view(tree@), final(tokens)@)),
{
    let mut tree: Vec<Head> = vec![];
    let mut idx: usize = 0;
    let ghost t0 = tokens@;
    loop
        invariant
            t0 == old(tokens)@,
            heads_from(tokens@, idx as int) is Some,
            heads_from(t0, 0) == match heads_from(tokens@, idx as int) {
                Some((rest, t3)) => Some((heads_view(tree@) + rest, t3)),
                None => None,
            },
        decreases tokens@.len() - idx,
    {
        let ghost prev_t = tokens@;
        let ghost prev_idx = idx as int;
        let ghost prev_tree = tree@;
        let ghost n0 = tokens@.len();
        if let Some(head) = read_head(tokens, &mut idx) {
            let n = tokens.len();
            let ghost hv = head_view(head);
            tree.push(head);
            proof {
                assert(heads_view(tree@) =~= heads_view(prev_tree).push(hv));
                let (rest, t3) = heads_from(tokens@, idx + 1).unwrap();
                assert(heads_view(prev_tree) + (seq![hv] + rest) =~= heads_view(tree@) + rest);
            }
            idx += 1;
        } else {
            proof {
                assert(heads_view(tree@) + Seq::<HeadModel>::empty() =~= heads_view(tree@));
            }
            return tree;
        }
    }
}

/// Reads the head at `idx`: its name, its parameters up to a tab, then
/// its nodes; `None` (leaving `idx` where reading stopped) when there is no
/// name at `idx` or the parameters are malformed.
fn read_head(tokens: &mut Vec<Tokens>, idx: &mut usize) -> (r: Option<Head>)
    requires
        head_from(old(tokens)@, *old(idx) as int) is Some,
    ensures
        ({
            let (h, t2, k) = head_from(old(tokens)@, *old(idx) as int).unwrap();
            &&& final(tokens)@ == t2
            &&& *final(idx) == k
            &&& match r {
                Some(hr) => h == Some(head_view(hr)),
                None => h is None,
            }
        }),
{
    if tokens.len() == *idx {
        return None;
    }
    let name = if let Tokens::Text(txt) = &tokens[*idx] {
        *idx += 1;
        txt.clone()
    } else {
        return None;
    };
    let ghost start = *idx as int;
    let n = tokens.len();
    let mut parameters: Vec<HeadParam> = vec![];
    loop
        invariant
            n == tokens@.len(),
            start == *old(idx) + 1,
            old(tokens)@[*old(idx) as int] matches Tokens::Text(nm) && nm == name,
            head_from(old(tokens)@, *old(idx) as int) is Some,
            tokens@ == old(tokens)@,
            start <= *idx <= tokens@.len(),
            params_from(tokens@, *idx as int) is Some,
            params_from(tokens@, start) == match params_from(tokens@, *idx as int) {
                Some((Some(rest), e)) => Some((Some(parameters@.map_values(|p: HeadParam| head_param_view(p)) + rest), e)),
                Some((None, e)) => Some((None::<Seq<HeadParamModel>>, e)),
                None => None,
            },
        ensures
            tokens@ == old(tokens)@,
            start == *old(idx) + 1,
            old(tokens)@[*old(idx) as int] matches Tokens::Text(nm) && nm == name,
            head_from(old(tokens)@, *old(idx) as int) is Some,
            params_from(tokens@, start) == Some((Some(parameters@.map_values(|p: HeadParam| head_param_view(p))), *idx as int)),
        decreases tokens@.len() - *idx,
    {
        let ghost prev = parameters@;
        match &tokens[*idx] {
            Tokens::Tab => {
                proof {
                    assert(parameters@.map_values(|p: HeadParam| head_param_view(p)) + Seq::<HeadParamModel>::empty() =~= parameters@.map_values(|p: HeadParam| head_param_view(p)));
                }
                break ;
            },
            Tokens::SquareBracket(closed) => {
                if !*closed {
                    if let Tokens::Text(txt) = &tokens[*idx + 1] {
                        parameters.push(HeadParam::Array(txt.clone()));
                        proof {
                            let (rest, e) = params_from(tokens@, *idx + 2).unwrap();
                            if let Some(rest) = rest {
                                assert(parameters@.map_values(|p: HeadParam| head_param_view(p)) + rest =~= prev.map_values(|p: HeadParam| head_param_view(p)) + (seq![HeadParamModel::Array(txt@)] + rest));
                            }
                        }
                        *idx += 2;
                    } else {
                        return None;
                    }
                } else {
                    return None;
                }
            },
            Tokens::Text(txt) => {
                parameters.push(HeadParam::Value(txt.clone()));
                proof {
                    let (rest, e) = params_from(tokens@, *idx + 1).unwrap();
                    if let Some(rest) = rest {
                        assert(parameters@.map_values(|p: HeadParam| head_param_view(p)) + rest =~= prev.map_values(|p: HeadParam| head_param_view(p)) + (seq![HeadParamModel::Value(txt@)] + rest));
                    }
                }
                *idx += 1;
            },
            _ => {
                assert(false);
            },
        }
    }
    proof {
        assert(parameters@.map_values(|p: HeadParam| head_param_view(p)) + Seq::<HeadParamModel>::empty() =~= parameters@.map_values(|p: HeadParam| head_param_view(p)));
    }
    let nodes = get_nodes(tokens, idx, 1);
    let head = Head { name, parameters, nodes };
    proof {
        assert(head_view(head).parameters =~= parameters@.map_values(|p: HeadParam| head_param_view(p)));
    }
    Some(head)
}

/// Reads the nodes indented by `tabs` tabs at `idx`, each with the nodes
/// indented deeper below it; the marker and kind tokens of the nodes read
/// are taken out of `tokens`.
fn get_nodes(tokens: &mut Vec<Tokens>, idx: &mut usize, tabs: usize) -> (r: Vec<NodeType>)
    requires
        nodes_from(old(tokens)@, *old(idx) as int, tabs as int) is Some,
    ensures
        ({
            let (ns, t2, k) = nodes_from(old(tokens)@, *old(idx) as int, tabs as int).unwrap();
            &&& nodes_view(r@) == ns
            &&& final(tokens)@ == t2
            &&& *final(idx) == k
        }),
    decreases old(tokens)@.len() - *old(idx),
{
    let ghost t0 = tokens@;
    let ghost idx0 = *idx as int;
    let mut nodes: Vec<NodeType> = vec![];
    loop
        invariant
            t0 == old(tokens)@,
            idx0 == *old(idx),
            tabs >= 1,
            0 <= tokens@.len() - *idx <= t0.len() - idx0,
            nodes_from(tokens@, *idx as int, tabs as int) is Some,
            nodes_from(t0, idx0, tabs as int) == match nodes_from(tokens@, *idx as int, tabs as int) {
                Some((rest, t3, k)) => Some((nodes_view(nodes@) + rest, t3, k)),
                None => None,
            },
        decreases tokens@.len() - *idx,
    {
        let ghost cur_t = tokens@;
        let ghost cur_idx = *idx as int;
        let ghost prev = nodes@;
        let n = tokens.len();
        let c = count_tabs(tokens, *idx);
        proof {
            lemma_tabs_from(tokens@, *idx as int);
        }
        if c != tabs {
            proof {
                assert(nodes_view(nodes@) + Seq::<NodeTypeModel>::empty() =~= nodes_view(nodes@));
            }
            return nodes;
        }
        *idx += tabs;
        let i = *idx;
        let ghost here_and_after = node_at(cur_t, i as int, tabs as int).unwrap();
        match &tokens[i + 1] {
            Tokens::Optional => {
                tokens.remove(i + 1);
                let kind = tokens.remove(i);
                proof {
                    assert(tokens@ =~= cur_t.remove(i + 1).remove(i as int));
                }
                let arguments = get_node_args(&tokens, idx);
                proof {
                    lemma_args_from(tokens@, i as int);
                }
                let sub = get_nodes(tokens, idx, tabs + 1);
                let node = NodeType::Maybe(Node { kind, arguments, nodes: sub });
                let ghost nv = node_type_view(node);
                nodes.push(node);
                proof {
                    assert(nodes@.drop_last() =~= prev);
                    assert(nodes_view(nodes@) == nodes_view(prev).push(nv));
                    assert(here_and_after == (seq![nv], tokens@, *idx as int));
                }
            },
            Tokens::Operator(Operators::Not) => {
                tokens.remove(i + 1);
                let kind = tokens.remove(i);
                proof {
                    assert(tokens@ =~= cur_t.remove(i + 1).remove(i as int));
                }
                let arguments = get_node_args(&tokens, idx);
                proof {
                    lemma_args_from(tokens@, i as int);
                }
                let sub = get_nodes(tokens, idx, tabs + 1);
                let node = NodeType::Command(Node { kind, arguments, nodes: sub });
                let ghost nv = node_type_view(node);
                nodes.push(node);
                proof {
                    assert(nodes@.drop_last() =~= prev);
                    assert(nodes_view(nodes@) == nodes_view(prev).push(nv));
                    assert(here_and_after == (seq![nv], tokens@, *idx as int));
                }
            },
            Tokens::Operator(Operators::Equal) => {
                let params = get_node_args(&tokens, idx);
                proof {
                    lemma_args_from(tokens@, i as int);
                }
                let sub = get_nodes(tokens, idx, tabs + 1);
                let node = NodeType::ArgsCondition(ArgsCon { params, nodes: sub });
                let ghost nv = node_type_view(node);
                nodes.push(node);
                proof {
                    assert(nodes@.drop_last() =~= prev);
                    assert(nodes_view(nodes@) == nodes_view(prev).push(nv));
                    assert(here_and_after == (seq![nv], tokens@, *idx as int));
                }
            },
            Tokens::Operator(_) => {
                proof {
                    assert(nodes_view(nodes@) + Seq::<NodeTypeModel>::empty() =~= nodes_view(nodes@));
                }
            },
            _ => {
                let kind = tokens.remove(i);
                let arguments = get_node_args(&tokens, idx);
                proof {
                    lemma_args_from(tokens@, i as int);
                }
                let sub = get_nodes(tokens, idx, tabs + 1);
                let node = NodeType::Expect(Node { kind, arguments, nodes: sub });
                let ghost nv = node_type_view(node);
                nodes.push(node);
                proof {
                    assert(nodes@.drop_last() =~= prev);
                    assert(nodes_view(nodes@) == nodes_view(prev).push(nv));
                    assert(here_and_after == (seq![nv], tokens@, *idx as int));
                }
            },
        }
        proof {
            let (here, t2, i2) = here_and_after;
            assert(tokens@ == t2 && *idx == i2);
            let (rest, t3, k) = nodes_from(t2, i2, tabs as int).unwrap();
            assert(nodes_view(nodes@) =~= nodes_view(prev) + here);
            assert(nodes_view(prev) + (here + rest) =~= nodes_view(nodes@) + rest);
        }
    }
}

/// Reads the `name = "value"` arguments at `idx`.
fn get_node_args(tokens: &Vec<Tokens>, idx: &mut usize) -> (args: Vec<NodeParam>)
    requires
        args_from(tokens@, *old(idx) as int) is Some,
    ensures
        args_from(tokens@, *old(idx) as int) == Some((params_view(args@), *final(idx) as int)),
{
    let mut args: Vec<NodeParam> = vec![];
    let ghost start = *idx as int;
    let n = tokens.len();
    loop
        invariant
            n == tokens@.len(),
            start == *old(idx),
            args_from(tokens@, *idx as int) is Some,
            args_from(tokens@, start) == match args_from(tokens@, *idx as int) {
                Some((rest, end)) => Some((params_view(args@) + rest, end)),
                None => None,
            },
        decreases tokens@.len() - *idx,
    {
        let ghost prev = args@;
        if let Tokens::Text(name) = &tokens[*idx] {
            let ghost at = *idx as int;
            *idx += 2;
            if let Tokens::String(value) = &tokens[*idx] {
                args.push(NodeParam { name: name.clone(), value: value.clone() });
                proof {
                    assert(params_view(args@) =~= params_view(prev).push((name@, value@)));
                }
            } else {
                assert(args@ == prev);
            }
            *idx += 1;
            proof {
                let (rest, end) = args_from(tokens@, *idx as int).unwrap();
                let here: Seq<(Seq<char>, Seq<char>)> = match tokens@[at + 2] {
                    Tokens::String(value) => seq![(name@, value@)],
                    _ => seq![],
                };
                assert(params_view(prev) + (here + rest) =~= params_view(args@) + rest);
            }
        } else {
            proof {
                assert(params_view(args@) + Seq::<(Seq<char>, Seq<char>)>::empty() =~= params_view(args@));
            }
            return args;
        }
    }
}

/// Number of tabs at `idx`.
fn count_tabs(tokens: &Vec<Tokens>, idx: usize) -> (count: usize)
    requires
        tabs_from(tokens@, idx as int) is Some,
    ensures
        tabs_from(tokens@, idx as int) == Some(count as int),
{
    let mut count: usize = 0;
    let n = tokens.len();
    loop
        invariant
            n == tokens@.len(),
            tabs_from(tokens@, idx + count) is Some,
            tabs_from(tokens@, idx as int) == Some(tabs_from(tokens@, idx + count).unwrap() + count),
        decreases tokens@.len() - (idx + count),
    {
        if let Tokens::Tab = &tokens[idx + count] {
            count += 1;
        } else {
            return count;
        }
    }
}

} // verus!
