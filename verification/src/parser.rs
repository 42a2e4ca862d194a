//! The parser: recursive descent from tokens to a syntax tree.
//!
//! Every parsing function is specified by a function on the sequence of
//! token views and a position. It gives the number of tokens taken and the
//! result; the executable parser moves its position by exactly that number,
//! also when it fails.
use vstd::prelude::*;

use crate::ast::{
    ASTNode, AstV, Type, lemma_nodes_view_push, names_view, nodes_view,
};
use crate::token::{Token, TokenV, token_views};

verus! {

/// Why the tokens do not form a program.
#[derive(Debug)]
pub enum ParseError {
    /// A token other than the one the grammar needs at this point.
    UnexpectedToken { expected: Token, found: Token },
    /// `let` not followed by an identifier.
    MissingLetIdentifier,
    /// `:` in a declaration not followed by a type.
    MissingType,
    /// A token that cannot start an operand.
    UnexpectedFactor,
    /// `function` not followed by an identifier.
    MissingFunctionName,
    /// A parameter list holding something other than identifiers and commas.
    MalformedParameters,
}

/// The mathematical value of a parse error.
pub enum ParseErrorV {
    UnexpectedToken { expected: TokenV, found: TokenV },
    MissingLetIdentifier,
    MissingType,
    UnexpectedFactor,
    MissingFunctionName,
    MalformedParameters,
}

impl View for ParseError {
    type V = ParseErrorV;

    open spec fn view(&self) -> ParseErrorV {
        match self {
            ParseError::UnexpectedToken { expected, found } => ParseErrorV::UnexpectedToken {
                expected: expected@,
                found: found@,
            },
            ParseError::MissingLetIdentifier => ParseErrorV::MissingLetIdentifier,
            ParseError::MissingType => ParseErrorV::MissingType,
            ParseError::UnexpectedFactor => ParseErrorV::UnexpectedFactor,
            ParseError::MissingFunctionName => ParseErrorV::MissingFunctionName,
            ParseError::MalformedParameters => ParseErrorV::MalformedParameters,
        }
    }
}

/// Where a list of statements ends.
pub enum StatementsEnd {
    /// At the end of the tokens (a program).
    AtEof,
    /// At `}` or at the end of the tokens (the branches of an `if`).
    AtBraceOrEof,
    /// At `}` (a function body).
    AtBrace,
}

// ---------------------------------------------------------------------------
// Specification
// ---------------------------------------------------------------------------

/// The token at `pos`; past the end, `Eof`.
pub open spec fn cur(t: Seq<TokenV>, pos: int) -> TokenV {
    if 0 <= pos < t.len() {
        t[pos]
    } else {
        TokenV::Eof
    }
}

/// The number of tokens from `pos` to the end.
pub open spec fn remaining(len: int, pos: int) -> nat {
    if pos < len {
        (len - pos) as nat
    } else {
        0
    }
}

/// The error for a token other than `expected` at `pos`.
pub open spec fn unexpected(t: Seq<TokenV>, pos: int, expected: TokenV) -> ParseErrorV {
    ParseErrorV::UnexpectedToken { expected, found: cur(t, pos) }
}

/// Taking the token `expected` at `pos`.
pub open spec fn eat_spec(t: Seq<TokenV>, pos: int, expected: TokenV) -> (nat, Result<(), ParseErrorV>) {
    if cur(t, pos) == expected {
        (1, Ok(()))
    } else {
        (0, Err(unexpected(t, pos, expected)))
    }
}

/// A parse that failed after taking `n` tokens.
pub open spec fn failed<T>(n: nat, e: ParseErrorV) -> (nat, Result<T, ParseErrorV>) {
    (n, Err(e))
}

/// A parse that gave `x` after taking `n` tokens.
pub open spec fn parsed<T>(n: nat, x: T) -> (nat, Result<T, ParseErrorV>) {
    (n, Ok(x))
}

/// Whether a statement list ends at `tok`.
pub open spec fn ends_at(tok: TokenV, end: StatementsEnd) -> bool {
    match end {
        StatementsEnd::AtEof => tok is Eof,
        StatementsEnd::AtBraceOrEof => tok is RBrace || tok is Eof,
        StatementsEnd::AtBrace => tok is RBrace,
    }
}

/// Statements from `pos` up to the end that `end` names.
pub open spec fn p_statements(t: Seq<TokenV>, pos: int, end: StatementsEnd) -> (
    nat,
    Result<Seq<AstV>, ParseErrorV>,
)
    decreases remaining(t.len() as int, pos), 12nat,
{
    if ends_at(cur(t, pos), end) {
        parsed(0, seq![])
    } else {
        let (c, r) = p_statement(t, pos);
        match r {
            Err(e) => failed(c, e),
            Ok(s) => if c == 0 || pos >= t.len() {
                // never taken: a statement that parses takes the token at
                // `pos` (lemma_statement_takes_a_token); the test keeps the
                // definition well-founded
                parsed(0, seq![s])
            } else {
                let (c2, r2) = p_statements(t, pos + c, end);
                match r2 {
                    Err(e) => failed(c + c2, e),
                    Ok(rest) => parsed(c + c2, seq![s] + rest),
                }
            },
        }
    }
}

/// Arguments of a call, from `pos` up to `)`: expressions, each optionally
/// followed by a comma.
pub open spec fn p_arguments(t: Seq<TokenV>, pos: int) -> (nat, Result<Seq<AstV>, ParseErrorV>)
    decreases remaining(t.len() as int, pos), 12nat,
{
    if cur(t, pos) is RParen {
        parsed(0, seq![])
    } else {
        let (c, r) = p_expression(t, pos);
        match r {
            Err(e) => failed(c, e),
            Ok(a) => {
                let step: nat = if cur(t, pos + c) is Comma {
                    c + 1
                } else {
                    c
                };
                if step == 0 || pos >= t.len() {
                    // never taken: an expression that parses takes the token
                    // at `pos`
                    parsed(0, seq![a])
                } else {
                    let (c2, r2) = p_arguments(t, pos + step);
                    match r2 {
                        Err(e) => failed(step + c2, e),
                        Ok(rest) => parsed(step + c2, seq![a] + rest),
                    }
                }
            },
        }
    }
}

/// Parameters of a declaration, from `pos` up to `)`: identifiers and commas.
pub open spec fn p_parameters(t: Seq<TokenV>, pos: int) -> (
    nat,
    Result<Seq<Seq<char>>, ParseErrorV>,
)
    decreases remaining(t.len() as int, pos), 3nat,
{
    match cur(t, pos) {
        TokenV::RParen => parsed(0, seq![]),
        TokenV::Ident(name) => {
            let step: nat = if cur(t, pos + 1) is Comma {
                2
            } else {
                1
            };
            let (c, r) = p_parameters(t, pos + step);
            match r {
                Err(e) => failed(step + c, e),
                Ok(rest) => parsed(step + c, seq![name] + rest),
            }
        },
        TokenV::Comma => {
            let (c, r) = p_parameters(t, pos + 1);
            (c + 1, r)
        },
        _ => failed(0, ParseErrorV::MalformedParameters),
    }
}

/// A statement.
pub open spec fn p_statement(t: Seq<TokenV>, pos: int) -> (nat, Result<AstV, ParseErrorV>)
    decreases remaining(t.len() as int, pos), 11nat,
{
    match cur(t, pos) {
        TokenV::Let => p_let(t, pos),
        TokenV::Function => p_function(t, pos),
        TokenV::Return => p_return(t, pos),
        TokenV::If => p_if(t, pos),
        _ => p_expression(t, pos),
    }
}

/// The type that a type keyword names.
pub open spec fn type_of_keyword(tok: TokenV) -> Option<Type> {
    match tok {
        TokenV::IntType => Some(Type::Int),
        TokenV::FloatType => Some(Type::Float),
        TokenV::BoolType => Some(Type::Bool),
        TokenV::StringType => Some(Type::String),
        _ => None,
    }
}

/// `let name : type = expression ;`. The keyword `string` is checked against
/// `bool` when it is taken, so a `string` declaration never parses.
pub open spec fn p_let(t: Seq<TokenV>, pos: int) -> (nat, Result<AstV, ParseErrorV>)
    decreases remaining(t.len() as int, pos), 10nat,
{
    if !(cur(t, pos) is Let) {
        failed(0, unexpected(t, pos, TokenV::Let))
    } else {
        match cur(t, pos + 1) {
            TokenV::Ident(name) => if !(cur(t, pos + 2) is Colon) {
                failed(2, unexpected(t, pos + 2, TokenV::Colon))
            } else {
                match type_of_keyword(cur(t, pos + 3)) {
                    None => failed(3, ParseErrorV::MissingType),
                    Some(ty) => if ty == Type::String {
                        failed(3, unexpected(t, pos + 3, TokenV::BoolType))
                    } else if !(cur(t, pos + 4) is Assign) {
                        failed(4, unexpected(t, pos + 4, TokenV::Assign))
                    } else {
                        let (c, r) = p_expression(t, pos + 5);
                        match r {
                            Err(e) => failed(5 + c, e),
                            Ok(ex) => if !(cur(t, pos + 5 + c) is Semicolon) {
                                failed(5 + c, unexpected(t, pos + 5 + c, TokenV::Semicolon))
                            } else {
                                parsed(
                                    6 + c,
                                    AstV::LetDeclaration {
                                        identifier: name,
                                        var_type: ty,
                                        expression: Box::new(ex),
                                    },
                                )
                            },
                        }
                    },
                }
            },
            _ => failed(1, ParseErrorV::MissingLetIdentifier),
        }
    }
}

/// `function name ( parameters ) { statements }`.
pub open spec fn p_function(t: Seq<TokenV>, pos: int) -> (nat, Result<AstV, ParseErrorV>)
    decreases remaining(t.len() as int, pos), 10nat,
{
    if !(cur(t, pos) is Function) {
        failed(0, unexpected(t, pos, TokenV::Function))
    } else {
        match cur(t, pos + 1) {
            TokenV::Ident(name) => if !(cur(t, pos + 2) is LParen) {
                failed(2, unexpected(t, pos + 2, TokenV::LParen))
            } else {
                let (c, r) = p_parameters(t, pos + 3);
                match r {
                    Err(e) => failed(3 + c, e),
                    Ok(params) => {
                        // the parameters end at `)`, which is taken
                        let k: nat = 4 + c;
                        if !(cur(t, pos + k) is LBrace) {
                            failed(k, unexpected(t, pos + k, TokenV::LBrace))
                        } else {
                            let (c2, r2) = p_statements(t, pos + k + 1, StatementsEnd::AtBrace);
                            match r2 {
                                Err(e) => failed(k + 1 + c2, e),
                                // the body ends at `}`, which is taken
                                Ok(body) => parsed(
                                    k + 2 + c2,
                                    AstV::FunctionDeclaration { name, parameters: params, body },
                                ),
                            }
                        }
                    },
                }
            },
            _ => failed(1, ParseErrorV::MissingFunctionName),
        }
    }
}

/// `return expression ;`.
pub open spec fn p_return(t: Seq<TokenV>, pos: int) -> (nat, Result<AstV, ParseErrorV>)
    decreases remaining(t.len() as int, pos), 10nat,
{
    if !(cur(t, pos) is Return) {
        failed(0, unexpected(t, pos, TokenV::Return))
    } else {
        let (c, r) = p_expression(t, pos + 1);
        match r {
            Err(e) => failed(1 + c, e),
            Ok(ex) => if !(cur(t, pos + 1 + c) is Semicolon) {
                failed(1 + c, unexpected(t, pos + 1 + c, TokenV::Semicolon))
            } else {
                parsed(2 + c, AstV::Return { expression: Box::new(ex) })
            },
        }
    }
}

/// `if ( condition ) { statements }`, optionally followed by
/// `Else { statements }`.
pub open spec fn p_if(t: Seq<TokenV>, pos: int) -> (nat, Result<AstV, ParseErrorV>)
    decreases remaining(t.len() as int, pos), 10nat,
{
    if !(cur(t, pos) is If) {
        failed(0, unexpected(t, pos, TokenV::If))
    } else if !(cur(t, pos + 1) is LParen) {
        failed(1, unexpected(t, pos + 1, TokenV::LParen))
    } else {
        let (c, r) = p_expression(t, pos + 2);
        match r {
            Err(e) => failed(2 + c, e),
            Ok(cond) => {
                let k: nat = 2 + c;
                if !(cur(t, pos + k) is RParen) {
                    failed(k, unexpected(t, pos + k, TokenV::RParen))
                } else if !(cur(t, pos + k + 1) is LBrace) {
                    failed(k + 1, unexpected(t, pos + k + 1, TokenV::LBrace))
                } else {
                    let (c2, r2) = p_statements(t, pos + k + 2, StatementsEnd::AtBraceOrEof);
                    match r2 {
                        Err(e) => failed(k + 2 + c2, e),
                        Ok(then_branch) => {
                            let q: nat = k + 2 + c2;
                            if !(cur(t, pos + q) is RBrace) {
                                failed(q, unexpected(t, pos + q, TokenV::RBrace))
                            } else if !(cur(t, pos + q + 1) is Else) {
                                parsed(
                                    q + 1,
                                    AstV::IfElse {
                                        condition: Box::new(cond),
                                        if_branch: then_branch,
                                        else_branch: None,
                                    },
                                )
                            } else if !(cur(t, pos + q + 2) is LBrace) {
                                failed(q + 2, unexpected(t, pos + q + 2, TokenV::LBrace))
                            } else {
                                let (c3, r3) = p_statements(
                                    t,
                                    pos + q + 3,
                                    StatementsEnd::AtBraceOrEof,
                                );
                                match r3 {
                                    Err(e) => failed(q + 3 + c3, e),
                                    Ok(else_branch) => {
                                        let u: nat = q + 3 + c3;
                                        if !(cur(t, pos + u) is RBrace) {
                                            failed(u, unexpected(t, pos + u, TokenV::RBrace))
                                        } else {
                                            parsed(
                                                u + 1,
                                                AstV::IfElse {
                                                    condition: Box::new(cond),
                                                    if_branch: then_branch,
                                                    else_branch: Some(else_branch),
                                                },
                                            )
                                        }
                                    },
                                }
                            }
                        },
                    }
                }
            },
        }
    }
}

/// An expression: a sum.
pub open spec fn p_expression(t: Seq<TokenV>, pos: int) -> (nat, Result<AstV, ParseErrorV>)
    decreases remaining(t.len() as int, pos), 9nat,
{
    p_additive(t, pos)
}

/// Whether a token is `+` or `-`.
pub open spec fn is_additive_op(tok: TokenV) -> bool {
    tok is Plus || tok is Minus
}

/// Whether a token is `*` or `/`.
pub open spec fn is_multiplicative_op(tok: TokenV) -> bool {
    tok is Multiply || tok is Divide
}

/// Whether a token is one of the six comparisons.
pub open spec fn is_comparison_op(tok: TokenV) -> bool {
    tok is Less || tok is LessEqual || tok is Greater || tok is GreaterEqual || tok is EqualEqual
        || tok is NotEqual
}

/// Terms joined by `+` and `-`, grouped from the left.
pub open spec fn p_additive(t: Seq<TokenV>, pos: int) -> (nat, Result<AstV, ParseErrorV>)
    decreases remaining(t.len() as int, pos), 8nat,
{
    let (c, r) = p_term(t, pos);
    match r {
        Err(e) => failed(c, e),
        Ok(left) => {
            let (c2, r2) = p_additive_rest(t, pos + c, left);
            (c + c2, r2)
        },
    }
}

/// The rest of a sum whose operands so far make `left`.
pub open spec fn p_additive_rest(t: Seq<TokenV>, pos: int, left: AstV) -> (
    nat,
    Result<AstV, ParseErrorV>,
)
    decreases remaining(t.len() as int, pos), 7nat,
{
    let op = cur(t, pos);
    if !is_additive_op(op) {
        parsed(0, left)
    } else {
        let (c, r) = p_term(t, pos + 1);
        match r {
            Err(e) => failed(1 + c, e),
            Ok(right) => {
                let (c2, r2) = p_additive_rest(
                    t,
                    pos + 1 + c,
                    AstV::BinaryExpression { left: Box::new(left), operator: op, right: Box::new(right) },
                );
                (1 + c + c2, r2)
            },
        }
    }
}

/// Factors joined by `*` and `/`, grouped from the left.
pub open spec fn p_term(t: Seq<TokenV>, pos: int) -> (nat, Result<AstV, ParseErrorV>)
    decreases remaining(t.len() as int, pos), 6nat,
{
    let (c, r) = p_factor(t, pos);
    match r {
        Err(e) => failed(c, e),
        Ok(left) => {
            let (c2, r2) = p_term_rest(t, pos + c, left);
            (c + c2, r2)
        },
    }
}

/// The rest of a product whose operands so far make `left`.
pub open spec fn p_term_rest(t: Seq<TokenV>, pos: int, left: AstV) -> (
    nat,
    Result<AstV, ParseErrorV>,
)
    decreases remaining(t.len() as int, pos), 5nat,
{
    let op = cur(t, pos);
    if !is_multiplicative_op(op) {
        parsed(0, left)
    } else {
        let (c, r) = p_factor(t, pos + 1);
        match r {
            Err(e) => failed(1 + c, e),
            Ok(right) => {
                let (c2, r2) = p_term_rest(
                    t,
                    pos + 1 + c,
                    AstV::BinaryExpression { left: Box::new(left), operator: op, right: Box::new(right) },
                );
                (1 + c + c2, r2)
            },
        }
    }
}

/// Sums joined by comparisons, grouped from the left.
pub open spec fn p_comparison(t: Seq<TokenV>, pos: int) -> (nat, Result<AstV, ParseErrorV>)
    decreases remaining(t.len() as int, pos), 9nat,
{
    let (c, r) = p_additive(t, pos);
    match r {
        Err(e) => failed(c, e),
        Ok(left) => {
            let (c2, r2) = p_comparison_rest(t, pos + c, left);
            (c + c2, r2)
        },
    }
}

/// The rest of a comparison chain whose operands so far make `left`.
pub open spec fn p_comparison_rest(t: Seq<TokenV>, pos: int, left: AstV) -> (
    nat,
    Result<AstV, ParseErrorV>,
)
    decreases remaining(t.len() as int, pos), 7nat,
{
    let op = cur(t, pos);
    if !is_comparison_op(op) {
        parsed(0, left)
    } else {
        let (c, r) = p_additive(t, pos + 1);
        match r {
            Err(e) => failed(1 + c, e),
            Ok(right) => {
                let (c2, r2) = p_comparison_rest(
                    t,
                    pos + 1 + c,
                    AstV::BinaryExpression { left: Box::new(left), operator: op, right: Box::new(right) },
                );
                (1 + c + c2, r2)
            },
        }
    }
}

/// An operand: a literal, an identifier, a call, or an expression in
/// parentheses.
pub open spec fn p_factor(t: Seq<TokenV>, pos: int) -> (nat, Result<AstV, ParseErrorV>)
    decreases remaining(t.len() as int, pos), 4nat,
{
    match cur(t, pos) {
        TokenV::Number(v) => parsed(1, AstV::Number(v)),
        TokenV::FloatLiteral(v) => parsed(1, AstV::FloatLiteral(v)),
        TokenV::StringLiteral(s) => parsed(1, AstV::StringLiteral(s)),
        TokenV::Ident(name) => if cur(t, pos + 1) is LParen {
            let (c, r) = p_call(t, pos + 1, name);
            (1 + c, r)
        } else {
            parsed(1, AstV::Identifier(name))
        },
        TokenV::LParen => {
            let (c, r) = p_expression(t, pos + 1);
            match r {
                Err(e) => failed(1 + c, e),
                Ok(ex) => if !(cur(t, pos + 1 + c) is RParen) {
                    failed(1 + c, unexpected(t, pos + 1 + c, TokenV::RParen))
                } else {
                    parsed(2 + c, ex)
                },
            }
        },
        _ => failed(0, ParseErrorV::UnexpectedFactor),
    }
}

/// `( arguments )` of a call to `name`.
pub open spec fn p_call(t: Seq<TokenV>, pos: int, name: Seq<char>) -> (
    nat,
    Result<AstV, ParseErrorV>,
)
    decreases remaining(t.len() as int, pos), 3nat,
{
    if !(cur(t, pos) is LParen) {
        failed(0, unexpected(t, pos, TokenV::LParen))
    } else {
        let (c, r) = p_arguments(t, pos + 1);
        match r {
            Err(e) => failed(1 + c, e),
            // the arguments end at `)`, which is taken
            Ok(args) => parsed(2 + c, AstV::FunctionCall { name, arguments: args }),
        }
    }
}

/// A program: statements up to the end of the tokens.
pub open spec fn p_program(t: Seq<TokenV>, pos: int) -> (nat, Result<AstV, ParseErrorV>) {
    let (c, r) = p_statements(t, pos, StatementsEnd::AtEof);
    match r {
        Err(e) => failed(c, e),
        Ok(s) => parsed(c, AstV::Program(s)),
    }
}


// ---------------------------------------------------------------------------
// Lemmas
// ---------------------------------------------------------------------------

/// An operand that parses takes the token at `pos`.
pub proof fn lemma_factor_takes_a_token(t: Seq<TokenV>, pos: int)
    ensures
        p_factor(t, pos).1 is Ok ==> p_factor(t, pos).0 >= 1 && 0 <= pos < t.len(),
{
}

/// An expression that parses takes the token at `pos`.
pub proof fn lemma_expression_takes_a_token(t: Seq<TokenV>, pos: int)
    ensures
        p_expression(t, pos).1 is Ok ==> p_expression(t, pos).0 >= 1 && 0 <= pos < t.len(),
{
    lemma_factor_takes_a_token(t, pos);
    assert(p_term(t, pos).1 is Ok ==> p_term(t, pos).0 >= 1 && 0 <= pos < t.len());
    assert(p_additive(t, pos).1 is Ok ==> p_additive(t, pos).0 >= 1 && 0 <= pos < t.len());
}

/// A statement that parses takes the token at `pos`.
pub proof fn lemma_statement_takes_a_token(t: Seq<TokenV>, pos: int)
    ensures
        p_statement(t, pos).1 is Ok ==> p_statement(t, pos).0 >= 1 && 0 <= pos < t.len(),
{
    lemma_expression_takes_a_token(t, pos);
}

// ---------------------------------------------------------------------------
// Views of results
// ---------------------------------------------------------------------------

/// The view of a parse that gives a tree.
pub open spec fn node_result(r: Result<ASTNode, ParseError>) -> Result<AstV, ParseErrorV> {
    match r {
        Ok(n) => Ok(n@),
        Err(e) => Err(e@),
    }
}

/// The view of a parse that gives a list of trees.
pub open spec fn list_result(r: Result<Vec<Box<ASTNode>>, ParseError>) -> Result<
    Seq<AstV>,
    ParseErrorV,
> {
    match r {
        Ok(v) => Ok(nodes_view(v@)),
        Err(e) => Err(e@),
    }
}

/// The view of a parse that gives a list of names.
pub open spec fn names_result(r: Result<Vec<String>, ParseError>) -> Result<
    Seq<Seq<char>>,
    ParseErrorV,
> {
    match r {
        Ok(v) => Ok(names_view(v@)),
        Err(e) => Err(e@),
    }
}

/// The view of a step that gives nothing.
pub open spec fn unit_result(r: Result<(), ParseError>) -> Result<(), ParseErrorV> {
    match r {
        Ok(()) => Ok(()),
        Err(e) => Err(e@),
    }
}

/// `k` tokens taken, then the rest of a list.
pub open spec fn extend<T>(pre: Seq<T>, k: nat, rest: (nat, Result<Seq<T>, ParseErrorV>)) -> (
    nat,
    Result<Seq<T>, ParseErrorV>,
) {
    (
        k + rest.0,
        match rest.1 {
            Ok(s) => Ok(pre + s),
            Err(e) => Err(e),
        },
    )
}

// ---------------------------------------------------------------------------
// The parser
// ---------------------------------------------------------------------------

/// Whether a token is one of the six comparisons.
fn is_comparison(tok: &Token) -> (r: bool)
    ensures
        r == is_comparison_op(tok@),
{
    matches!(
        tok,
        Token::Less | Token::LessEqual | Token::Greater | Token::GreaterEqual | Token::EqualEqual
            | Token::NotEqual
    )
}

/// A parser over a list of tokens.
pub struct Parser {
    tokens: Vec<Token>,
    position: usize,
}

impl Parser {
    /// The views of the tokens.
    pub closed spec fn toks(&self) -> Seq<TokenV> {
        token_views(self.tokens@)
    }

    /// The position of the next token to read.
    pub closed spec fn pos(&self) -> int {
        self.position as int
    }

    /// A parser at the first of `tokens`.
    pub fn new(tokens: Vec<Token>) -> (p: Parser)
        ensures
            p.toks() == token_views(tokens@),
            p.pos() == 0,
    {
        Parser { tokens, position: 0 }
    }

    /// The current position.
    pub fn position(&self) -> (p: usize)
        ensures
            p == self.pos(),
    {
        self.position
    }

    /// The token at the current position; past the end, `Eof`.
    pub fn current_token(&self) -> (t: Token)
        ensures
            t@ == cur(self.toks(), self.pos()),
    {
        if self.position < self.tokens.len() {
            self.tokens[self.position].duplicate()
        } else {
            Token::Eof
        }
    }

    /// Takes the token `expected`, or fails without moving.
    /// Input on which `eat` may not be called is answered with an
    /// error, which the contract names exactly.
    pub fn try_eat(&mut self, expected: Token) -> (r: Result<(), ParseError>)
        requires
            old(self).pos() >= old(self).toks().len() && expected@ is Eof ==> old(self).pos()
                < usize::MAX,
        ensures
            final(self).toks() == old(self).toks(),
            final(self).pos() == old(self).pos() + eat_spec(
                old(self).toks(),
                old(self).pos(),
                expected@,
            ).0,
            unit_result(r) == eat_spec(old(self).toks(), old(self).pos(), expected@).1,
    {
        let current = self.current_token();
        assert(self.toks().len() == self.tokens.len());
        if current.same(&expected) {
            self.position = self.position + 1;
            Ok(())
        } else {
            Err(ParseError::UnexpectedToken { expected, found: current })
        }
    }

    /// An operand: a literal, an identifier, a call, or an expression in
    /// parentheses.
    /// Input on which `parse_factor` may not be called is answered with an
    /// error, which the contract names exactly.
    pub fn try_parse_factor(&mut self) -> (r: Result<ASTNode, ParseError>)
        ensures
            final(self).toks() == old(self).toks(),
            final(self).pos() == old(self).pos() + p_factor(old(self).toks(), old(self).pos()).0,
            node_result(r) == p_factor(old(self).toks(), old(self).pos()).1,
        decreases remaining(old(self).toks().len() as int, old(self).pos()), 4nat,
    {
        match self.current_token() {
            Token::Number(value) => {
                let _ = self.try_eat(Token::Number(value));
                Ok(ASTNode::Number(value))
            },
            Token::FloatLiteral(value) => {
                let _ = self.try_eat(Token::FloatLiteral(value));
                Ok(ASTNode::FloatLiteral(value))
            },
            Token::StringLiteral(value) => {
                let _ = self.try_eat(Token::StringLiteral(value.clone()));
                Ok(ASTNode::StringLiteral(value))
            },
            Token::Ident(name) => {
                let identifier = name.clone();
                let _ = self.try_eat(Token::Ident(name));
                if self.current_token().same(&Token::LParen) {
                    return self.try_parse_function_call(identifier);
                }
                Ok(ASTNode::Identifier(identifier))
            },
            Token::LParen => {
                let _ = self.try_eat(Token::LParen);
                let expr = match self.try_parse_expression() {
                    Ok(e) => e,
                    Err(e) => return Err(e),
                };
                match self.try_eat(Token::RParen) {
                    Ok(()) => {},
                    Err(e) => return Err(e),
                }
                Ok(expr)
            },
            _ => Err(ParseError::UnexpectedFactor),
        }
    }

    /// An expression: a sum.
    /// Input on which `parse_expression` may not be called is answered with an
    /// error, which the contract names exactly.
    pub fn try_parse_expression(&mut self) -> (r: Result<ASTNode, ParseError>)
        ensures
            final(self).toks() == old(self).toks(),
            final(self).pos() == old(self).pos() + p_expression(old(self).toks(), old(self).pos()).0,
            node_result(r) == p_expression(old(self).toks(), old(self).pos()).1,
        decreases remaining(old(self).toks().len() as int, old(self).pos()), 9nat,
    {
        self.try_parse_additive_expression()
    }

    /// Terms joined by `+` and `-`, grouped from the left.
    /// Input on which `parse_additive_expression` may not be called is answered with an
    /// error, which the contract names exactly.
    pub fn try_parse_additive_expression(&mut self) -> (r: Result<ASTNode, ParseError>)
        ensures
            final(self).toks() == old(self).toks(),
            final(self).pos() == old(self).pos() + p_additive(old(self).toks(), old(self).pos()).0,
            node_result(r) == p_additive(old(self).toks(), old(self).pos()).1,
        decreases remaining(old(self).toks().len() as int, old(self).pos()), 8nat,
    {
        let ghost t = self.toks();
        let ghost start = self.pos();
        let mut left = match self.try_parse_term() {
            Ok(l) => l,
            Err(e) => return Err(e),
        };
        loop
            invariant
                t == old(self).toks(),
                start == old(self).pos(),
                self.toks() == t,
                start <= self.pos(),
                remaining(t.len() as int, self.pos()) <= remaining(t.len() as int, start),
                p_additive(t, start) == (
                    (self.pos() - start) as nat + p_additive_rest(t, self.pos(), left@).0,
                    p_additive_rest(t, self.pos(), left@).1,
                ),
            decreases remaining(t.len() as int, self.pos()),
        {
            let op = self.current_token();
            if !matches!(op, Token::Plus | Token::Minus) {
                return Ok(left);
            }
            let _ = self.try_eat(op.duplicate());
            let right = match self.try_parse_term() {
                Ok(r) => r,
                Err(e) => return Err(e),
            };
            left = ASTNode::BinaryExpression { left: Box::new(left), operator: op, right: Box::new(right) };
        }
    }

    /// Factors joined by `*` and `/`, grouped from the left.
    /// Input on which `parse_term` may not be called is answered with an
    /// error, which the contract names exactly.
    pub fn try_parse_term(&mut self) -> (r: Result<ASTNode, ParseError>)
        ensures
            final(self).toks() == old(self).toks(),
            final(self).pos() == old(self).pos() + p_term(old(self).toks(), old(self).pos()).0,
            node_result(r) == p_term(old(self).toks(), old(self).pos()).1,
        decreases remaining(old(self).toks().len() as int, old(self).pos()), 6nat,
    {
        let ghost t = self.toks();
        let ghost start = self.pos();
        let mut left = match self.try_parse_factor() {
            Ok(l) => l,
            Err(e) => return Err(e),
        };
        loop
            invariant
                t == old(self).toks(),
                start == old(self).pos(),
                self.toks() == t,
                start <= self.pos(),
                remaining(t.len() as int, self.pos()) <= remaining(t.len() as int, start),
                p_term(t, start) == (
                    (self.pos() - start) as nat + p_term_rest(t, self.pos(), left@).0,
                    p_term_rest(t, self.pos(), left@).1,
                ),
            decreases remaining(t.len() as int, self.pos()),
        {
            let op = self.current_token();
            if !matches!(op, Token::Multiply | Token::Divide) {
                return Ok(left);
            }
            let _ = self.try_eat(op.duplicate());
            let right = match self.try_parse_factor() {
                Ok(r) => r,
                Err(e) => return Err(e),
            };
            left = ASTNode::BinaryExpression { left: Box::new(left), operator: op, right: Box::new(right) };
        }
    }

    /// Sums joined by the six comparisons, grouped from the left. No other
    /// parsing function reaches this one.
    /// Input on which `parse_comparison_expression` may not be called is answered with an
    /// error, which the contract names exactly.
    pub fn try_parse_comparison_expression(&mut self) -> (r: Result<ASTNode, ParseError>)
        ensures
            final(self).toks() == old(self).toks(),
            final(self).pos() == old(self).pos() + p_comparison(old(self).toks(), old(self).pos()).0,
            node_result(r) == p_comparison(old(self).toks(), old(self).pos()).1,
        decreases remaining(old(self).toks().len() as int, old(self).pos()), 9nat,
    {
        let ghost t = self.toks();
        let ghost start = self.pos();
        let mut left = match self.try_parse_additive_expression() {
            Ok(l) => l,
            Err(e) => return Err(e),
        };
        loop
            invariant
                t == old(self).toks(),
                start == old(self).pos(),
                self.toks() == t,
                start <= self.pos(),
                remaining(t.len() as int, self.pos()) <= remaining(t.len() as int, start),
                p_comparison(t, start) == (
                    (self.pos() - start) as nat + p_comparison_rest(t, self.pos(), left@).0,
                    p_comparison_rest(t, self.pos(), left@).1,
                ),
            decreases remaining(t.len() as int, self.pos()),
        {
            let op = self.current_token();
            if !is_comparison(&op) {
                return Ok(left);
            }
            let _ = self.try_eat(op.duplicate());
            let right = match self.try_parse_additive_expression() {
                Ok(r) => r,
                Err(e) => return Err(e),
            };
            left = ASTNode::BinaryExpression { left: Box::new(left), operator: op, right: Box::new(right) };
        }
    }

    /// Arguments of a call, up to `)`, which is left in place.
    fn parse_arguments(&mut self) -> (r: Result<Vec<Box<ASTNode>>, ParseError>)
        ensures
            final(self).toks() == old(self).toks(),
            final(self).pos() == old(self).pos() + p_arguments(old(self).toks(), old(self).pos()).0,
            list_result(r) == p_arguments(old(self).toks(), old(self).pos()).1,
            r is Ok ==> cur(final(self).toks(), final(self).pos()) is RParen,
        decreases remaining(old(self).toks().len() as int, old(self).pos()), 12nat,
    {
        let ghost t = self.toks();
        let ghost start = self.pos();
        let mut arguments: Vec<Box<ASTNode>> = Vec::new();
        loop
            invariant
                t == old(self).toks(),
                start == old(self).pos(),
                self.toks() == t,
                start <= self.pos(),
                remaining(t.len() as int, self.pos()) <= remaining(t.len() as int, start),
                p_arguments(t, start) == extend(
                    nodes_view(arguments@),
                    (self.pos() - start) as nat,
                    p_arguments(t, self.pos()),
                ),
            decreases remaining(t.len() as int, self.pos()),
        {
            if self.current_token().same(&Token::RParen) {
                proof {
                    assert(nodes_view(arguments@) + seq![] =~= nodes_view(arguments@));
                }
                return Ok(arguments);
            }
            let ghost p0 = self.pos();
            let argument = match self.try_parse_expression() {
                Ok(a) => a,
                Err(e) => return Err(e),
            };
            proof {
                lemma_expression_takes_a_token(t, p0);
            }
            let ghost a = argument@;
            let ghost before_nodes = arguments@;
            let ghost before = nodes_view(arguments@);
            arguments.push(Box::new(argument));
            proof {
                lemma_nodes_view_push(before_nodes, arguments@.last());
                assert(arguments@ == before_nodes.push(arguments@.last()));
            }
            if self.current_token().same(&Token::Comma) {
                let _ = self.try_eat(Token::Comma);
            }
            proof {
                let rest = p_arguments(t, self.pos());
                match rest.1 {
                    Ok(s) => {
                        assert(before + (seq![a] + s) =~= before.push(a) + s);
                    },
                    Err(e) => {},
                }
            }
        }
    }

    /// `( arguments )` of a call to `name`.
    /// Input on which `parse_function_call` may not be called is answered with an
    /// error, which the contract names exactly.
    pub fn try_parse_function_call(&mut self, name: String) -> (r: Result<ASTNode, ParseError>)
        ensures
            final(self).toks() == old(self).toks(),
            final(self).pos() == old(self).pos() + p_call(old(self).toks(), old(self).pos(), name@).0,
            node_result(r) == p_call(old(self).toks(), old(self).pos(), name@).1,
        decreases remaining(old(self).toks().len() as int, old(self).pos()), 3nat,
    {
        match self.try_eat(Token::LParen) {
            Ok(()) => {},
            Err(e) => return Err(e),
        }
        let arguments = match self.parse_arguments() {
            Ok(a) => a,
            Err(e) => return Err(e),
        };
        let _ = self.try_eat(Token::RParen);
        Ok(ASTNode::FunctionCall { name, arguments })
    }

    /// Statements up to the end that `end` names, which is left in place.
    fn parse_statements(&mut self, end: StatementsEnd) -> (r: Result<Vec<Box<ASTNode>>, ParseError>)
        ensures
            final(self).toks() == old(self).toks(),
            final(self).pos() == old(self).pos() + p_statements(old(self).toks(), old(self).pos(), end).0,
            list_result(r) == p_statements(old(self).toks(), old(self).pos(), end).1,
            r is Ok ==> ends_at(cur(final(self).toks(), final(self).pos()), end),
        decreases remaining(old(self).toks().len() as int, old(self).pos()), 12nat,
    {
        let ghost t = self.toks();
        let ghost start = self.pos();
        let mut statements: Vec<Box<ASTNode>> = Vec::new();
        loop
            invariant
                t == old(self).toks(),
                start == old(self).pos(),
                self.toks() == t,
                start <= self.pos(),
                remaining(t.len() as int, self.pos()) <= remaining(t.len() as int, start),
                p_statements(t, start, end) == extend(
                    nodes_view(statements@),
                    (self.pos() - start) as nat,
                    p_statements(t, self.pos(), end),
                ),
            decreases remaining(t.len() as int, self.pos()),
        {
            let current = self.current_token();
            let stop = match end {
                StatementsEnd::AtEof => matches!(current, Token::Eof),
                StatementsEnd::AtBraceOrEof => matches!(current, Token::RBrace | Token::Eof),
                StatementsEnd::AtBrace => matches!(current, Token::RBrace),
            };
            if stop {
                proof {
                    assert(nodes_view(statements@) + seq![] =~= nodes_view(statements@));
                }
                return Ok(statements);
            }
            let ghost p0 = self.pos();
            let statement = match self.try_parse_statement() {
                Ok(s) => s,
                Err(e) => return Err(e),
            };
            proof {
                lemma_statement_takes_a_token(t, p0);
            }
            let ghost a = statement@;
            let ghost before_nodes = statements@;
            let ghost before = nodes_view(statements@);
            statements.push(Box::new(statement));
            proof {
                lemma_nodes_view_push(before_nodes, statements@.last());
                assert(statements@ == before_nodes.push(statements@.last()));
                let rest = p_statements(t, self.pos(), end);
                match rest.1 {
                    Ok(s) => {
                        assert(before + (seq![a] + s) =~= before.push(a) + s);
                    },
                    Err(e) => {},
                }
            }
        }
    }

    /// A program: statements up to the end of the tokens.
    /// Input on which `parse_program` may not be called is answered with an
    /// error, which the contract names exactly.
    pub fn try_parse_program(&mut self) -> (r: Result<ASTNode, ParseError>)
        ensures
            final(self).toks() == old(self).toks(),
            final(self).pos() == old(self).pos() + p_program(old(self).toks(), old(self).pos()).0,
            node_result(r) == p_program(old(self).toks(), old(self).pos()).1,
    {
        match self.parse_statements(StatementsEnd::AtEof) {
            Ok(nodes) => Ok(ASTNode::Program(nodes)),
            Err(e) => Err(e),
        }
    }

    /// A statement: a declaration, a `return`, an `if`, or an expression.
    /// Input on which `parse_statement` may not be called is answered with an
    /// error, which the contract names exactly.
    pub fn try_parse_statement(&mut self) -> (r: Result<ASTNode, ParseError>)
        ensures
            final(self).toks() == old(self).toks(),
            final(self).pos() == old(self).pos() + p_statement(old(self).toks(), old(self).pos()).0,
            node_result(r) == p_statement(old(self).toks(), old(self).pos()).1,
        decreases remaining(old(self).toks().len() as int, old(self).pos()), 11nat,
    {
        match self.current_token() {
            Token::Let => self.try_parse_let_declaration(),
            Token::Function => self.try_parse_function_declaration(),
            Token::Return => self.try_parse_return_declaration(),
            Token::If => self.try_parse_if_statement(),
            _ => self.try_parse_expression(),
        }
    }

    /// `let name : type = expression ;`. The keyword `string` is checked
    /// against `bool` when it is taken, so a `string` declaration fails.
    /// Input on which `parse_let_declaration` may not be called is answered with an
    /// error, which the contract names exactly.
    pub fn try_parse_let_declaration(&mut self) -> (r: Result<ASTNode, ParseError>)
        ensures
            final(self).toks() == old(self).toks(),
            final(self).pos() == old(self).pos() + p_let(old(self).toks(), old(self).pos()).0,
            node_result(r) == p_let(old(self).toks(), old(self).pos()).1,
        decreases remaining(old(self).toks().len() as int, old(self).pos()), 10nat,
    {
        match self.try_eat(Token::Let) {
            Ok(()) => {},
            Err(e) => return Err(e),
        }
        let identifier = match self.current_token() {
            Token::Ident(name) => name,
            _ => return Err(ParseError::MissingLetIdentifier),
        };
        let _ = self.try_eat(Token::Ident(identifier.clone()));
        match self.try_eat(Token::Colon) {
            Ok(()) => {},
            Err(e) => return Err(e),
        }
        let var_type = match self.current_token() {
            Token::IntType => {
                let _ = self.try_eat(Token::IntType);
                Type::Int
            },
            Token::FloatType => {
                let _ = self.try_eat(Token::FloatType);
                Type::Float
            },
            Token::BoolType => {
                let _ = self.try_eat(Token::BoolType);
                Type::Bool
            },
            Token::StringType => {
                match self.try_eat(Token::BoolType) {
                    Ok(()) => {},
                    Err(e) => return Err(e),
                }
                Type::String
            },
            _ => return Err(ParseError::MissingType),
        };
        match self.try_eat(Token::Assign) {
            Ok(()) => {},
            Err(e) => return Err(e),
        }
        let expression = match self.try_parse_expression() {
            Ok(e) => e,
            Err(e) => return Err(e),
        };
        match self.try_eat(Token::Semicolon) {
            Ok(()) => {},
            Err(e) => return Err(e),
        }
        Ok(ASTNode::LetDeclaration { identifier, var_type, expression: Box::new(expression) })
    }

    /// `return expression ;`.
    /// Input on which `parse_return_declaration` may not be called is answered with an
    /// error, which the contract names exactly.
    pub fn try_parse_return_declaration(&mut self) -> (r: Result<ASTNode, ParseError>)
        ensures
            final(self).toks() == old(self).toks(),
            final(self).pos() == old(self).pos() + p_return(old(self).toks(), old(self).pos()).0,
            node_result(r) == p_return(old(self).toks(), old(self).pos()).1,
        decreases remaining(old(self).toks().len() as int, old(self).pos()), 10nat,
    {
        match self.try_eat(Token::Return) {
            Ok(()) => {},
            Err(e) => return Err(e),
        }
        let expression = match self.try_parse_expression() {
            Ok(e) => e,
            Err(e) => return Err(e),
        };
        match self.try_eat(Token::Semicolon) {
            Ok(()) => {},
            Err(e) => return Err(e),
        }
        Ok(ASTNode::Return { expression: Box::new(expression) })
    }

    /// Statements up to `}` or the end of the tokens, which is left in place.
    /// Input on which `parse_block` may not be called is answered with an
    /// error, which the contract names exactly.
    pub fn try_parse_block(&mut self) -> (r: Result<Vec<Box<ASTNode>>, ParseError>)
        ensures
            final(self).toks() == old(self).toks(),
            final(self).pos() == old(self).pos() + p_statements(
                old(self).toks(),
                old(self).pos(),
                StatementsEnd::AtBraceOrEof,
            ).0,
            list_result(r) == p_statements(
                old(self).toks(),
                old(self).pos(),
                StatementsEnd::AtBraceOrEof,
            ).1,
        decreases remaining(old(self).toks().len() as int, old(self).pos()), 13nat,
    {
        self.parse_statements(StatementsEnd::AtBraceOrEof)
    }

    /// `if ( condition ) { statements }`, optionally followed by
    /// `Else { statements }`.
    /// Input on which `parse_if_statement` may not be called is answered with an
    /// error, which the contract names exactly.
    #[verifier::rlimit(60)]
    #[verifier::spinoff_prover]
    pub fn try_parse_if_statement(&mut self) -> (r: Result<ASTNode, ParseError>)
        ensures
            final(self).toks() == old(self).toks(),
            final(self).pos() == old(self).pos() + p_if(old(self).toks(), old(self).pos()).0,
            node_result(r) == p_if(old(self).toks(), old(self).pos()).1,
        decreases remaining(old(self).toks().len() as int, old(self).pos()), 10nat,
    {
        match self.try_eat(Token::If) {
            Ok(()) => {},
            Err(e) => return Err(e),
        }
        match self.try_eat(Token::LParen) {
            Ok(()) => {},
            Err(e) => return Err(e),
        }
        let condition = match self.try_parse_expression() {
            Ok(e) => e,
            Err(e) => return Err(e),
        };
        match self.try_eat(Token::RParen) {
            Ok(()) => {},
            Err(e) => return Err(e),
        }
        match self.try_eat(Token::LBrace) {
            Ok(()) => {},
            Err(e) => return Err(e),
        }
        let if_branch = match self.parse_statements(StatementsEnd::AtBraceOrEof) {
            Ok(b) => b,
            Err(e) => return Err(e),
        };
        match self.try_eat(Token::RBrace) {
            Ok(()) => {},
            Err(e) => return Err(e),
        }
        let else_branch = if self.current_token().same(&Token::Else) {
            let _ = self.try_eat(Token::Else);
            match self.try_eat(Token::LBrace) {
                Ok(()) => {},
                Err(e) => return Err(e),
            }
            let block = match self.parse_statements(StatementsEnd::AtBraceOrEof) {
                Ok(b) => b,
                Err(e) => return Err(e),
            };
            match self.try_eat(Token::RBrace) {
                Ok(()) => {},
                Err(e) => return Err(e),
            }
            Some(block)
        } else {
            None
        };
        Ok(ASTNode::IfElse { condition: Box::new(condition), if_branch, else_branch })
    }

    /// Parameters of a declaration, up to `)`, which is left in place.
    fn parse_parameters(&mut self) -> (r: Result<Vec<String>, ParseError>)
        ensures
            final(self).toks() == old(self).toks(),
            final(self).pos() == old(self).pos() + p_parameters(old(self).toks(), old(self).pos()).0,
            names_result(r) == p_parameters(old(self).toks(), old(self).pos()).1,
            r is Ok ==> cur(final(self).toks(), final(self).pos()) is RParen,
    {
        let ghost t = self.toks();
        let ghost start = self.pos();
        let mut parameters: Vec<String> = Vec::new();
        loop
            invariant
                t == old(self).toks(),
                start == old(self).pos(),
                self.toks() == t,
                start <= self.pos(),
                p_parameters(t, start) == extend(
                    names_view(parameters@),
                    (self.pos() - start) as nat,
                    p_parameters(t, self.pos()),
                ),
            decreases remaining(t.len() as int, self.pos()),
        {
            let ghost before = names_view(parameters@);
            match self.current_token() {
                Token::RParen => {
                    proof {
                        assert(before + seq![] =~= before);
                    }
                    return Ok(parameters);
                },
                Token::Ident(param) => {
                    let ghost name = param@;
                    parameters.push(param.clone());
                    let _ = self.try_eat(Token::Ident(param));
                    if self.current_token().same(&Token::Comma) {
                        let _ = self.try_eat(Token::Comma);
                    }
                    proof {
                        assert(names_view(parameters@) =~= before.push(name));
                        let rest = p_parameters(t, self.pos());
                        match rest.1 {
                            Ok(s) => {
                                assert(before + (seq![name] + s) =~= before.push(name) + s);
                            },
                            Err(e) => {},
                        }
                    }
                },
                Token::Comma => {
                    let _ = self.try_eat(Token::Comma);
                },
                _ => return Err(ParseError::MalformedParameters),
            }
        }
    }

    /// `function name ( parameters ) { statements }`.
    /// Input on which `parse_function_declaration` may not be called is answered with an
    /// error, which the contract names exactly.
    pub fn try_parse_function_declaration(&mut self) -> (r: Result<ASTNode, ParseError>)
        ensures
            final(self).toks() == old(self).toks(),
            final(self).pos() == old(self).pos() + p_function(old(self).toks(), old(self).pos()).0,
            node_result(r) == p_function(old(self).toks(), old(self).pos()).1,
        decreases remaining(old(self).toks().len() as int, old(self).pos()), 10nat,
    {
        match self.try_eat(Token::Function) {
            Ok(()) => {},
            Err(e) => return Err(e),
        }
        let name = match self.current_token() {
            Token::Ident(name) => name,
            _ => return Err(ParseError::MissingFunctionName),
        };
        let _ = self.try_eat(Token::Ident(name.clone()));
        match self.try_eat(Token::LParen) {
            Ok(()) => {},
            Err(e) => return Err(e),
        }
        let parameters = match self.parse_parameters() {
            Ok(p) => p,
            Err(e) => return Err(e),
        };
        let _ = self.try_eat(Token::RParen);
        match self.try_eat(Token::LBrace) {
            Ok(()) => {},
            Err(e) => return Err(e),
        }
        let body = match self.parse_statements(StatementsEnd::AtBrace) {
            Ok(b) => b,
            Err(e) => return Err(e),
        };
        let _ = self.try_eat(Token::RBrace);
        Ok(ASTNode::FunctionDeclaration { name, parameters, body })
    }
    /// Takes the token `expected`, which must be the current one; `try_eat`
    /// answers any other token with an error.
    pub fn eat(&mut self, expected: Token)
        requires
            cur(old(self).toks(), old(self).pos()) == expected@,
            old(self).pos() >= old(self).toks().len() && expected@ is Eof ==> old(self).pos()
                < usize::MAX,
        ensures
            final(self).toks() == old(self).toks(),
            final(self).pos() == old(self).pos() + 1,
    {
        let _ = self.try_eat(expected);
    }

    /// An operand: a literal, an identifier, a call, or an expression in
    /// parentheses.
    /// The tokens must make one; the `try_` form answers any others with an
    /// error.
    pub fn parse_factor(&mut self) -> (n: ASTNode)
        requires
            p_factor(old(self).toks(), old(self).pos()).1 is Ok,
        ensures
            final(self).toks() == old(self).toks(),
            final(self).pos() == old(self).pos() + p_factor(old(self).toks(), old(self).pos()).0,
            node_result(Ok(n)) == p_factor(old(self).toks(), old(self).pos()).1,
    {
        match self.try_parse_factor() {
            Ok(n) => n,
            Err(_) => {
                proof {
                    assert(false);
                }
                ASTNode::Number(0)
            },
        }
    }

    /// An expression: a sum.
    /// The tokens must make one; the `try_` form answers any others with an
    /// error.
    pub fn parse_expression(&mut self) -> (n: ASTNode)
        requires
            p_expression(old(self).toks(), old(self).pos()).1 is Ok,
        ensures
            final(self).toks() == old(self).toks(),
            final(self).pos() == old(self).pos() + p_expression(old(self).toks(), old(self).pos()).0,
            node_result(Ok(n)) == p_expression(old(self).toks(), old(self).pos()).1,
    {
        match self.try_parse_expression() {
            Ok(n) => n,
            Err(_) => {
                proof {
                    assert(false);
                }
                ASTNode::Number(0)
            },
        }
    }

    /// Terms joined by `+` and `-`, grouped from the left.
    /// The tokens must make one; the `try_` form answers any others with an
    /// error.
    pub fn parse_additive_expression(&mut self) -> (n: ASTNode)
        requires
            p_additive(old(self).toks(), old(self).pos()).1 is Ok,
        ensures
            final(self).toks() == old(self).toks(),
            final(self).pos() == old(self).pos() + p_additive(old(self).toks(), old(self).pos()).0,
            node_result(Ok(n)) == p_additive(old(self).toks(), old(self).pos()).1,
    {
        match self.try_parse_additive_expression() {
            Ok(n) => n,
            Err(_) => {
                proof {
                    assert(false);
                }
                ASTNode::Number(0)
            },
        }
    }

    /// Factors joined by `*` and `/`, grouped from the left.
    /// The tokens must make one; the `try_` form answers any others with an
    /// error.
    pub fn parse_term(&mut self) -> (n: ASTNode)
        requires
            p_term(old(self).toks(), old(self).pos()).1 is Ok,
        ensures
            final(self).toks() == old(self).toks(),
            final(self).pos() == old(self).pos() + p_term(old(self).toks(), old(self).pos()).0,
            node_result(Ok(n)) == p_term(old(self).toks(), old(self).pos()).1,
    {
        match self.try_parse_term() {
            Ok(n) => n,
            Err(_) => {
                proof {
                    assert(false);
                }
                ASTNode::Number(0)
            },
        }
    }

    /// Sums joined by comparisons, grouped from the left.
    /// The tokens must make one; the `try_` form answers any others with an
    /// error.
    pub fn parse_comparison_expression(&mut self) -> (n: ASTNode)
        requires
            p_comparison(old(self).toks(), old(self).pos()).1 is Ok,
        ensures
            final(self).toks() == old(self).toks(),
            final(self).pos() == old(self).pos() + p_comparison(old(self).toks(), old(self).pos()).0,
            node_result(Ok(n)) == p_comparison(old(self).toks(), old(self).pos()).1,
    {
        match self.try_parse_comparison_expression() {
            Ok(n) => n,
            Err(_) => {
                proof {
                    assert(false);
                }
                ASTNode::Number(0)
            },
        }
    }

    /// A call of `name`: its arguments in parentheses.
    /// The tokens must make one; the `try_` form answers any others with an
    /// error.
    pub fn parse_function_call(&mut self, name: String) -> (n: ASTNode)
        requires
            p_call(old(self).toks(), old(self).pos(), name@).1 is Ok,
        ensures
            final(self).toks() == old(self).toks(),
            final(self).pos() == old(self).pos() + p_call(old(self).toks(), old(self).pos(), name@).0,
            node_result(Ok(n)) == p_call(old(self).toks(), old(self).pos(), name@).1,
    {
        match self.try_parse_function_call(name) {
            Ok(n) => n,
            Err(_) => {
                proof {
                    assert(false);
                }
                ASTNode::Number(0)
            },
        }
    }

    /// A program: statements up to the end of the tokens.
    /// The tokens must make one; the `try_` form answers any others with an
    /// error.
    pub fn parse_program(&mut self) -> (n: ASTNode)
        requires
            p_program(old(self).toks(), old(self).pos()).1 is Ok,
        ensures
            final(self).toks() == old(self).toks(),
            final(self).pos() == old(self).pos() + p_program(old(self).toks(), old(self).pos()).0,
            node_result(Ok(n)) == p_program(old(self).toks(), old(self).pos()).1,
    {
        match self.try_parse_program() {
            Ok(n) => n,
            Err(_) => {
                proof {
                    assert(false);
                }
                ASTNode::Number(0)
            },
        }
    }

    /// A statement: a declaration, a `return`, an `if`, or an expression.
    /// The tokens must make one; the `try_` form answers any others with an
    /// error.
    pub fn parse_statement(&mut self) -> (n: ASTNode)
        requires
            p_statement(old(self).toks(), old(self).pos()).1 is Ok,
        ensures
            final(self).toks() == old(self).toks(),
            final(self).pos() == old(self).pos() + p_statement(old(self).toks(), old(self).pos()).0,
            node_result(Ok(n)) == p_statement(old(self).toks(), old(self).pos()).1,
    {
        match self.try_parse_statement() {
            Ok(n) => n,
            Err(_) => {
                proof {
                    assert(false);
                }
                ASTNode::Number(0)
            },
        }
    }

    /// `let name: type = expression;`.
    /// The tokens must make one; the `try_` form answers any others with an
    /// error.
    pub fn parse_let_declaration(&mut self) -> (n: ASTNode)
        requires
            p_let(old(self).toks(), old(self).pos()).1 is Ok,
        ensures
            final(self).toks() == old(self).toks(),
            final(self).pos() == old(self).pos() + p_let(old(self).toks(), old(self).pos()).0,
            node_result(Ok(n)) == p_let(old(self).toks(), old(self).pos()).1,
    {
        match self.try_parse_let_declaration() {
            Ok(n) => n,
            Err(_) => {
                proof {
                    assert(false);
                }
                ASTNode::Number(0)
            },
        }
    }

    /// `return expression;`.
    /// The tokens must make one; the `try_` form answers any others with an
    /// error.
    pub fn parse_return_declaration(&mut self) -> (n: ASTNode)
        requires
            p_return(old(self).toks(), old(self).pos()).1 is Ok,
        ensures
            final(self).toks() == old(self).toks(),
            final(self).pos() == old(self).pos() + p_return(old(self).toks(), old(self).pos()).0,
            node_result(Ok(n)) == p_return(old(self).toks(), old(self).pos()).1,
    {
        match self.try_parse_return_declaration() {
            Ok(n) => n,
            Err(_) => {
                proof {
                    assert(false);
                }
                ASTNode::Number(0)
            },
        }
    }

    /// Statements up to `}` or the end of the tokens, which is left in place.
    /// The tokens must make them; `try_parse_block` answers any others with
    /// an error.
    pub fn parse_block(&mut self) -> (v: Vec<Box<ASTNode>>)
        requires
            p_statements(old(self).toks(), old(self).pos(), StatementsEnd::AtBraceOrEof).1 is Ok,
        ensures
            final(self).toks() == old(self).toks(),
            final(self).pos() == old(self).pos() + p_statements(
                old(self).toks(),
                old(self).pos(),
                StatementsEnd::AtBraceOrEof,
            ).0,
            list_result(Ok(v)) == p_statements(
                old(self).toks(),
                old(self).pos(),
                StatementsEnd::AtBraceOrEof,
            ).1,
    {
        match self.try_parse_block() {
            Ok(v) => v,
            Err(_) => {
                proof {
                    assert(false);
                }
                Vec::new()
            },
        }
    }

    /// `if ( condition ) { statements }`, optionally followed by
    /// `Else { statements }`.
    /// The tokens must make one; the `try_` form answers any others with an
    /// error.
    pub fn parse_if_statement(&mut self) -> (n: ASTNode)
        requires
            p_if(old(self).toks(), old(self).pos()).1 is Ok,
        ensures
            final(self).toks() == old(self).toks(),
            final(self).pos() == old(self).pos() + p_if(old(self).toks(), old(self).pos()).0,
            node_result(Ok(n)) == p_if(old(self).toks(), old(self).pos()).1,
    {
        match self.try_parse_if_statement() {
            Ok(n) => n,
            Err(_) => {
                proof {
                    assert(false);
                }
                ASTNode::Number(0)
            },
        }
    }

    /// `function name ( parameters ) { statements }`.
    /// The tokens must make one; the `try_` form answers any others with an
    /// error.
    pub fn parse_function_declaration(&mut self) -> (n: ASTNode)
        requires
            p_function(old(self).toks(), old(self).pos()).1 is Ok,
        ensures
            final(self).toks() == old(self).toks(),
            final(self).pos() == old(self).pos() + p_function(old(self).toks(), old(self).pos()).0,
            node_result(Ok(n)) == p_function(old(self).toks(), old(self).pos()).1,
    {
        match self.try_parse_function_declaration() {
            Ok(n) => n,
            Err(_) => {
                proof {
                    assert(false);
                }
                ASTNode::Number(0)
            },
        }
    }
}

} // verus!
