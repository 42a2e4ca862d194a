//! The syntax tree and its mathematical view.
use vstd::prelude::*;

use crate::token::{Token, TokenV};

verus! {

/// The declared type of a variable, and the type of a value.
#[derive(Clone, Copy, Debug, PartialEq, Eq, Structural)]
pub enum Type {
    Int,
    Float,
    Bool,
    String,
}

/// A node of the syntax tree.
#[derive(Debug)]
pub enum ASTNode {
    Program(Vec<Box<ASTNode>>),
    LetDeclaration { identifier: String, var_type: Type, expression: Box<ASTNode> },
    BinaryExpression { left: Box<ASTNode>, operator: Token, right: Box<ASTNode> },
    FunctionDeclaration { name: String, parameters: Vec<String>, body: Vec<Box<ASTNode>> },
    FunctionCall { name: String, arguments: Vec<Box<ASTNode>> },
    Return { expression: Box<ASTNode> },
    IfElse {
        condition: Box<ASTNode>,
        if_branch: Vec<Box<ASTNode>>,
        else_branch: Option<Vec<Box<ASTNode>>>,
    },
    Identifier(String),
    Number(i32),
    FloatLiteral(u64),
    BooleanLiteral(bool),
    StringLiteral(String),
}

/// The mathematical value of a syntax tree.
pub enum AstV {
    Program(Seq<AstV>),
    LetDeclaration { identifier: Seq<char>, var_type: Type, expression: Box<AstV> },
    BinaryExpression { left: Box<AstV>, operator: TokenV, right: Box<AstV> },
    FunctionDeclaration { name: Seq<char>, parameters: Seq<Seq<char>>, body: Seq<AstV> },
    FunctionCall { name: Seq<char>, arguments: Seq<AstV> },
    Return { expression: Box<AstV> },
    IfElse { condition: Box<AstV>, if_branch: Seq<AstV>, else_branch: Option<Seq<AstV>> },
    Identifier(Seq<char>),
    Number(i32),
    FloatLiteral(u64),
    BooleanLiteral(bool),
    StringLiteral(Seq<char>),
}

/// The texts of a list of names.
pub open spec fn names_view(names: Seq<String>) -> Seq<Seq<char>> {
    names.map_values(|s: String| s@)
}

/// The view of a node.
pub open spec fn node_view(n: ASTNode) -> AstV
    decreases n,
{
    match n {
        ASTNode::Program(v) => AstV::Program(nodes_view(v@)),
        ASTNode::LetDeclaration { identifier, var_type, expression } => AstV::LetDeclaration {
            identifier: identifier@,
            var_type,
            expression: Box::new(node_view(*expression)),
        },
        ASTNode::BinaryExpression { left, operator, right } => AstV::BinaryExpression {
            left: Box::new(node_view(*left)),
            operator: operator@,
            right: Box::new(node_view(*right)),
        },
        ASTNode::FunctionDeclaration { name, parameters, body } => AstV::FunctionDeclaration {
            name: name@,
            parameters: names_view(parameters@),
            body: nodes_view(body@),
        },
        ASTNode::FunctionCall { name, arguments } => AstV::FunctionCall {
            name: name@,
            arguments: nodes_view(arguments@),
        },
        ASTNode::Return { expression } => AstV::Return {
            expression: Box::new(node_view(*expression)),
        },
        ASTNode::IfElse { condition, if_branch, else_branch } => AstV::IfElse {
            condition: Box::new(node_view(*condition)),
            if_branch: nodes_view(if_branch@),
            else_branch: match else_branch {
                Some(v) => Some(nodes_view(v@)),
                None => None,
            },
        },
        ASTNode::Identifier(s) => AstV::Identifier(s@),
        ASTNode::Number(n) => AstV::Number(n),
        ASTNode::FloatLiteral(b) => AstV::FloatLiteral(b),
        ASTNode::BooleanLiteral(b) => AstV::BooleanLiteral(b),
        ASTNode::StringLiteral(s) => AstV::StringLiteral(s@),
    }
}

/// The views of a list of nodes.
pub open spec fn nodes_view(s: Seq<Box<ASTNode>>) -> Seq<AstV>
    decreases s,
{
    if s.len() == 0 {
        Seq::empty()
    } else {
        seq![node_view(*s[0])] + nodes_view(s.drop_first())
    }
}

impl View for ASTNode {
    type V = AstV;

    open spec fn view(&self) -> AstV {
        node_view(*self)
    }
}

/// The number of nodes in a tree.
pub open spec fn ast_size(a: AstV) -> nat
    decreases a,
{
    match a {
        AstV::Program(s) => 1 + seq_size(s),
        AstV::LetDeclaration { expression, .. } => 1 + ast_size(*expression),
        AstV::BinaryExpression { left, right, .. } => 1 + ast_size(*left) + ast_size(*right),
        AstV::FunctionDeclaration { body, .. } => 1 + seq_size(body),
        AstV::FunctionCall { arguments, .. } => 1 + seq_size(arguments),
        AstV::Return { expression } => 1 + ast_size(*expression),
        AstV::IfElse { condition, if_branch, else_branch } => 1 + ast_size(*condition) + seq_size(
            if_branch,
        ) + match else_branch {
            Some(s) => seq_size(s),
            None => 0,
        },
        _ => 1,
    }
}

/// The number of nodes in a list of trees.
pub open spec fn seq_size(s: Seq<AstV>) -> nat
    decreases s,
{
    if s.len() == 0 {
        0
    } else {
        ast_size(s[0]) + seq_size(s.drop_first())
    }
}


/// The view of a list of nodes, element by element.
pub proof fn lemma_nodes_view_index(s: Seq<Box<ASTNode>>)
    ensures
        nodes_view(s).len() == s.len(),
        forall|i: int| 0 <= i < s.len() ==> nodes_view(s)[i] == node_view(*#[trigger] s[i]),
    decreases s.len(),
{
    if s.len() > 0 {
        lemma_nodes_view_index(s.drop_first());
        assert forall|i: int| 0 <= i < s.len() implies nodes_view(s)[i] == node_view(
            *#[trigger] s[i],
        ) by {
            if i > 0 {
                assert(s.drop_first()[i - 1] == s[i]);
            }
        }
    }
}

/// Two lists of nodes with the same views element by element have the same view.
pub proof fn lemma_nodes_view_ext(s: Seq<Box<ASTNode>>, t: Seq<Box<ASTNode>>)
    requires
        s.len() == t.len(),
        forall|i: int| 0 <= i < s.len() ==> node_view(*#[trigger] s[i]) == node_view(*t[i]),
    ensures
        nodes_view(s) == nodes_view(t),
{
    lemma_nodes_view_index(s);
    lemma_nodes_view_index(t);
    assert forall|i: int| 0 <= i < s.len() implies nodes_view(s)[i] == nodes_view(t)[i] by {
        assert(nodes_view(s)[i] == node_view(*s[i]));
        assert(nodes_view(t)[i] == node_view(*t[i]));
    }
    assert(nodes_view(s) =~= nodes_view(t));
}

/// Appending a tree to a list appends its view.
pub proof fn lemma_nodes_view_push(s: Seq<Box<ASTNode>>, n: Box<ASTNode>)
    ensures
        nodes_view(s.push(n)) == nodes_view(s).push(node_view(*n)),
{
    lemma_nodes_view_index(s);
    lemma_nodes_view_index(s.push(n));
    assert forall|i: int| 0 <= i < s.len() + 1 implies nodes_view(s.push(n))[i] == nodes_view(
        s,
    ).push(node_view(*n))[i] by {
        assert(nodes_view(s.push(n))[i] == node_view(*s.push(n)[i]));
        if i < s.len() {
            assert(nodes_view(s)[i] == node_view(*s[i]));
        }
    }
    assert(nodes_view(s.push(n)) =~= nodes_view(s).push(node_view(*n)));
}

/// Every tree has at least one node.
pub proof fn lemma_ast_size_positive(a: AstV)
    ensures
        ast_size(a) >= 1,
{
}

/// A tree of a list is no larger than the list.
pub proof fn lemma_seq_size_element(s: Seq<AstV>, i: int)
    requires
        0 <= i < s.len(),
    ensures
        ast_size(s[i]) <= seq_size(s),
    decreases s.len(),
{
    if i > 0 {
        lemma_seq_size_element(s.drop_first(), i - 1);
        assert(s.drop_first()[i - 1] == s[i]);
    }
}

/// Copies a list of names.
pub fn duplicate_names(names: &Vec<String>) -> (r: Vec<String>)
    ensures
        names_view(r@) == names_view(names@),
{
    let mut r: Vec<String> = Vec::new();
    let mut i: usize = 0;
    while i < names.len()
        invariant
            i <= names.len(),
            r@.len() == i,
            forall|j: int| 0 <= j < i ==> (#[trigger] r@[j])@ == names@[j]@,
        decreases names.len() - i,
    {
        r.push(names[i].clone());
        i = i + 1;
    }
    assert(names_view(r@) =~= names_view(names@));
    r
}

/// Copies a list of trees.
pub fn duplicate_nodes(nodes: &Vec<Box<ASTNode>>) -> (r: Vec<Box<ASTNode>>)
    ensures
        nodes_view(r@) == nodes_view(nodes@),
    decreases seq_size(nodes_view(nodes@)), 1nat,
{
    proof {
        lemma_nodes_view_index(nodes@);
    }
    let mut r: Vec<Box<ASTNode>> = Vec::new();
    let mut i: usize = 0;
    while i < nodes.len()
        invariant
            i <= nodes.len(),
            r.len() == i,
            nodes_view(nodes@).len() == nodes.len(),
            forall|j: int| 0 <= j < nodes.len() ==> nodes_view(nodes@)[j] == node_view(*#[trigger] nodes@[j]),
            forall|j: int| 0 <= j < i ==> node_view(*#[trigger] r@[j]) == node_view(*nodes@[j]),
        decreases nodes.len() - i,
    {
        proof {
            lemma_seq_size_element(nodes_view(nodes@), i as int);
        }
        let copy = nodes[i].duplicate();
        r.push(Box::new(copy));
        i = i + 1;
    }
    proof {
        lemma_nodes_view_ext(r@, nodes@);
    }
    r
}

impl ASTNode {
    /// A copy of this tree.
    pub fn duplicate(&self) -> (r: ASTNode)
        ensures
            r@ == self@,
        decreases ast_size(self@), 0nat,
    {
        match self {
            ASTNode::Program(v) => ASTNode::Program(duplicate_nodes(v)),
            ASTNode::LetDeclaration { identifier, var_type, expression } => {
                ASTNode::LetDeclaration {
                    identifier: identifier.clone(),
                    var_type: *var_type,
                    expression: Box::new(expression.duplicate()),
                }
            },
            ASTNode::BinaryExpression { left, operator, right } => {
                ASTNode::BinaryExpression {
                    left: Box::new(left.duplicate()),
                    operator: operator.duplicate(),
                    right: Box::new(right.duplicate()),
                }
            },
            ASTNode::FunctionDeclaration { name, parameters, body } => {
                ASTNode::FunctionDeclaration {
                    name: name.clone(),
                    parameters: duplicate_names(parameters),
                    body: duplicate_nodes(body),
                }
            },
            ASTNode::FunctionCall { name, arguments } => ASTNode::FunctionCall {
                name: name.clone(),
                arguments: duplicate_nodes(arguments),
            },
            ASTNode::Return { expression } => ASTNode::Return {
                expression: Box::new(expression.duplicate()),
            },
            ASTNode::IfElse { condition, if_branch, else_branch } => {
                let else_copy = match else_branch {
                    Some(v) => Some(duplicate_nodes(v)),
                    None => None,
                };
                ASTNode::IfElse {
                    condition: Box::new(condition.duplicate()),
                    if_branch: duplicate_nodes(if_branch),
                    else_branch: else_copy,
                }
            },
            ASTNode::Identifier(s) => ASTNode::Identifier(s.clone()),
            ASTNode::Number(n) => ASTNode::Number(*n),
            ASTNode::FloatLiteral(b) => ASTNode::FloatLiteral(*b),
            ASTNode::BooleanLiteral(b) => ASTNode::BooleanLiteral(*b),
            ASTNode::StringLiteral(s) => ASTNode::StringLiteral(s.clone()),
        }
    }
}

} // verus!
