//! Properties that hold of the lexer, the parser and the machine across
//! calls and for all inputs.
use vstd::prelude::*;

use crate::ast::{AstV, Type, ast_size, lemma_ast_size_positive, seq_size};
use crate::floats::{FloatArith, FloatCompare, FloatModel};
use crate::lexer::{
    LexError, lex_from, lex_token, lex_word, lemma_lex_token_advances, scan_to_quote, word_token,
};
use crate::parser::{
    StatementsEnd, cur, ends_at, is_additive_op, is_comparison_op, is_multiplicative_op,
    lemma_expression_takes_a_token, lemma_statement_takes_a_token, p_additive, p_additive_rest, p_arguments, p_call,
    p_comparison, p_comparison_rest, p_expression, p_factor, p_program, p_statements, p_term,
    p_term_rest, remaining,
};
use crate::text::unicode_whitespace;
use crate::token::TokenV;
use crate::value::ValueV;
use crate::vm::{
    RunError, VmState, call, eval, eval_arguments, exec_block, exec_each, exec_if, exec_stmt,
    if_size, with_vars,
};

verus! {

// ---------------------------------------------------------------------------
// Lexer
// ---------------------------------------------------------------------------

/// Once only whitespace is left, the lexer gives `Eof` at the end of the
/// input.
pub proof fn law_lexer_ends_with_eof(input: Seq<char>, pos: int, flit: spec_fn(Seq<char>) -> u64)
    requires
        0 <= pos <= input.len(),
        forall|k: int| pos <= k < input.len() ==> unicode_whitespace(#[trigger] input[k]),
    ensures
        lex_token(input, pos, flit) == (input.len() as int, Ok::<TokenV, crate::lexer::LexError>(TokenV::Eof)),
    decreases input.len() - pos,
{
    if pos < input.len() {
        law_lexer_ends_with_eof(input, pos + 1, flit);
    }
}

/// After `Eof` the lexer stays where it is and gives `Eof` again.
pub proof fn law_eof_repeats(input: Seq<char>, pos: int, flit: spec_fn(Seq<char>) -> u64)
    requires
        0 <= pos <= input.len(),
        lex_token(input, pos, flit).1 == Ok::<TokenV, crate::lexer::LexError>(TokenV::Eof),
    ensures
        lex_token(input, lex_token(input, pos, flit).0, flit) == lex_token(input, pos, flit),
{
    lemma_lex_token_advances(input, pos, flit);
    let p = lex_token(input, pos, flit).0;
    assert(p == input.len());
}

/// The tokens of a text that lexes end with `Eof`, and hold no other `Eof`.
pub proof fn law_tokens_end_with_one_eof(input: Seq<char>, pos: int, flit: spec_fn(Seq<char>) -> u64)
    requires
        0 <= pos <= input.len(),
        lex_from(input, pos, flit) is Ok,
    ensures
        ({
            let ts = lex_from(input, pos, flit)->Ok_0;
            &&& ts.len() >= 1
            &&& ts.last() is Eof
            &&& forall|i: int| 0 <= i < ts.len() - 1 ==> !(#[trigger] ts[i] is Eof)
        }),
    decreases input.len() - pos,
{
    let (p, r) = lex_token(input, pos, flit);
    lemma_lex_token_advances(input, pos, flit);
    if let Ok(t) = r {
        if !(t is Eof) {
            law_tokens_end_with_one_eof(input, p, flit);
            let rest = lex_from(input, p, flit)->Ok_0;
            let ts = lex_from(input, pos, flit)->Ok_0;
            assert(ts == seq![t] + rest);
            assert forall|i: int| 0 <= i < ts.len() - 1 implies !(#[trigger] ts[i] is Eof) by {
                if i > 0 {
                    assert(ts[i] == rest[i - 1]);
                }
            }
        }
    }
}

// ---------------------------------------------------------------------------
// Parser
// ---------------------------------------------------------------------------

/// A list of statements that parses stops where its end is.
pub proof fn law_statements_stop_at_their_end(t: Seq<TokenV>, pos: int, end: StatementsEnd)
    requires
        p_statements(t, pos, end).1 is Ok,
    ensures
        ends_at(cur(t, pos + p_statements(t, pos, end).0), end),
    decreases remaining(t.len() as int, pos),
{
    if !ends_at(cur(t, pos), end) {
        lemma_statement_takes_a_token(t, pos);
        let c = crate::parser::p_statement(t, pos).0;
        law_statements_stop_at_their_end(t, pos + c, end);
    }
}

/// A program that parses is read up to the end of the tokens.
pub proof fn law_program_reads_to_eof(t: Seq<TokenV>, pos: int)
    requires
        p_program(t, pos).1 is Ok,
    ensures
        cur(t, pos + p_program(t, pos).0) is Eof,
{
    law_statements_stop_at_their_end(t, pos, StatementsEnd::AtEof);
}


// ---------------------------------------------------------------------------
// Machine: evaluation never changes the variables in scope
// ---------------------------------------------------------------------------

/// Evaluating an expression leaves the variables in scope as they were:
/// a call inside it gives the caller's variables back.
pub proof fn law_eval_keeps_variables(m: FloatModel, st: VmState, e: AstV, budget: nat)
    ensures
        eval(m, st, e, budget).0.vars == st.vars,
    decreases budget, ast_size(e), 1nat,
{
    match e {
        AstV::BinaryExpression { left, operator, right } => {
            law_eval_keeps_variables(m, st, *left, budget);
            let s1 = eval(m, st, *left, budget).0;
            law_eval_keeps_variables(m, s1, *right, budget);
        },
        AstV::FunctionCall { name, arguments } => {
            law_call_keeps_variables(m, st, name, arguments, budget);
        },
        AstV::Return { expression } => {
            law_eval_keeps_variables(m, st, *expression, budget);
        },
        _ => {},
    }
}

/// Evaluating the arguments of a call leaves the caller's variables as they
/// were.
pub proof fn law_arguments_keep_variables(
    m: FloatModel,
    st: VmState,
    params: Seq<Seq<char>>,
    args: Seq<AstV>,
    locals: Map<Seq<char>, (ValueV, Type)>,
    budget: nat,
)
    ensures
        eval_arguments(m, st, params, args, locals, budget).0.vars == st.vars,
    decreases budget, seq_size(args), 2nat,
{
    if params.len() != 0 && args.len() != 0 {
        law_eval_keeps_variables(m, st, args[0], budget);
        let (s1, r) = eval(m, st, args[0], budget);
        if let Ok(v) = r {
            lemma_ast_size_positive(args[0]);
            law_arguments_keep_variables(
                m,
                s1,
                params.drop_first(),
                args.drop_first(),
                locals.insert(params[0], v),
                budget,
            );
        }
    }
}

/// A call gives the caller's variables back, whatever its body does.
pub proof fn law_call_keeps_variables(
    m: FloatModel,
    st: VmState,
    name: Seq<char>,
    args: Seq<AstV>,
    budget: nat,
)
    ensures
        call(m, st, name, args, budget).0.vars == st.vars,
    decreases budget, seq_size(args), 3nat,
{
    if st.funcs.contains_key(name) {
        let (params, body) = st.funcs[name];
        law_arguments_keep_variables(m, st, params, args, Map::empty(), budget);
    }
}

// ---------------------------------------------------------------------------
// Machine: declarations are never undone
// ---------------------------------------------------------------------------

/// `b` extends `a`: the order of `let` declarations only grows, and every
/// declared function stays declared.
pub open spec fn extends(a: VmState, b: VmState) -> bool {
    &&& a.order.len() <= b.order.len()
    &&& b.order.take(a.order.len() as int) == a.order
    &&& forall|k: Seq<char>| a.funcs.contains_key(k) ==> #[trigger] b.funcs.contains_key(k)
}

proof fn lemma_extends_trans(a: VmState, b: VmState, c: VmState)
    requires
        extends(a, b),
        extends(b, c),
    ensures
        extends(a, c),
{
    assert(c.order.take(a.order.len() as int) =~= b.order.take(a.order.len() as int));
}

proof fn lemma_extends_refl(a: VmState)
    ensures
        extends(a, a),
{
    assert(a.order.take(a.order.len() as int) =~= a.order);
}

/// Evaluation only adds declarations.
pub proof fn law_eval_extends(m: FloatModel, st: VmState, e: AstV, budget: nat)
    ensures
        extends(st, eval(m, st, e, budget).0),
    decreases budget, ast_size(e), 1nat,
{
    lemma_extends_refl(st);
    match e {
        AstV::BinaryExpression { left, operator, right } => {
            law_eval_extends(m, st, *left, budget);
            let s1 = eval(m, st, *left, budget).0;
            law_eval_extends(m, s1, *right, budget);
            lemma_extends_trans(st, s1, eval(m, s1, *right, budget).0);
        },
        AstV::FunctionCall { name, arguments } => {
            law_call_extends(m, st, name, arguments, budget);
        },
        AstV::Return { expression } => {
            law_eval_extends(m, st, *expression, budget);
        },
        _ => {},
    }
}

/// Evaluating arguments only adds declarations.
pub proof fn law_arguments_extend(
    m: FloatModel,
    st: VmState,
    params: Seq<Seq<char>>,
    args: Seq<AstV>,
    locals: Map<Seq<char>, (ValueV, Type)>,
    budget: nat,
)
    ensures
        extends(st, eval_arguments(m, st, params, args, locals, budget).0),
    decreases budget, seq_size(args), 2nat,
{
    lemma_extends_refl(st);
    if params.len() != 0 && args.len() != 0 {
        law_eval_extends(m, st, args[0], budget);
        let (s1, r) = eval(m, st, args[0], budget);
        if let Ok(v) = r {
            lemma_ast_size_positive(args[0]);
            law_arguments_extend(
                m,
                s1,
                params.drop_first(),
                args.drop_first(),
                locals.insert(params[0], v),
                budget,
            );
            lemma_extends_trans(
                st,
                s1,
                eval_arguments(
                    m,
                    s1,
                    params.drop_first(),
                    args.drop_first(),
                    locals.insert(params[0], v),
                    budget,
                ).0,
            );
        }
    }
}

/// A call only adds declarations.
pub proof fn law_call_extends(
    m: FloatModel,
    st: VmState,
    name: Seq<char>,
    args: Seq<AstV>,
    budget: nat,
)
    ensures
        extends(st, call(m, st, name, args, budget).0),
    decreases budget, seq_size(args), 3nat,
{
    lemma_extends_refl(st);
    if st.funcs.contains_key(name) {
        let (params, body) = st.funcs[name];
        law_arguments_extend(m, st, params, args, Map::empty(), budget);
        let (s1, r) = eval_arguments(m, st, params, args, Map::empty(), budget);
        if let Ok(locals) = r {
            if budget > 0 {
                let inner = with_vars(s1, locals);
                law_block_extends(m, inner, body, (budget - 1) as nat);
                let s2 = exec_block(m, inner, body, (budget - 1) as nat).0;
                lemma_extends_trans(st, s1, with_vars(s2, s1.vars));
            }
        }
    }
}

/// A statement only adds declarations.
pub proof fn law_statement_extends(m: FloatModel, st: VmState, s: AstV, budget: nat)
    ensures
        extends(st, exec_stmt(m, st, s, budget).0),
    decreases budget, ast_size(s), 1nat,
{
    lemma_extends_refl(st);
    match s {
        AstV::Program(stmts) => {
            law_block_extends(m, st, stmts, budget);
        },
        AstV::LetDeclaration { identifier, var_type, expression } => {
            law_eval_extends(m, st, *expression, budget);
            let s1 = eval(m, st, *expression, budget).0;
            let s2 = VmState {
                vars: s1.vars,
                order: s1.order.push(identifier),
                funcs: s1.funcs,
            };
            assert(s2.order.take(s1.order.len() as int) =~= s1.order);
            lemma_extends_trans(st, s1, s2);
            let s3 = exec_stmt(m, st, s, budget).0;
            assert(s3.order == s1.order || s3.order == s2.order);
        },
        AstV::FunctionCall { name, arguments } => {
            law_call_extends(m, st, name, arguments, budget);
        },
        AstV::Return { expression } => {
            law_eval_extends(m, st, *expression, budget);
        },
        AstV::IfElse { condition, if_branch, else_branch } => {
            law_if_extends(m, st, *condition, if_branch, else_branch, budget);
        },
        _ => {},
    }
}

/// A list of statements only adds declarations.
pub proof fn law_block_extends(m: FloatModel, st: VmState, stmts: Seq<AstV>, budget: nat)
    ensures
        extends(st, exec_block(m, st, stmts, budget).0),
    decreases budget, seq_size(stmts), 2nat,
{
    lemma_extends_refl(st);
    if stmts.len() > 0 {
        law_statement_extends(m, st, stmts[0], budget);
        let (s1, r) = exec_stmt(m, st, stmts[0], budget);
        if r == Ok::<Option<(ValueV, Type)>, RunError>(None) {
            lemma_ast_size_positive(stmts[0]);
            law_block_extends(m, s1, stmts.drop_first(), budget);
            lemma_extends_trans(st, s1, exec_block(m, s1, stmts.drop_first(), budget).0);
        }
    }
}

/// Running each statement of a list only adds declarations.
pub proof fn law_each_extends(m: FloatModel, st: VmState, stmts: Seq<AstV>, budget: nat)
    ensures
        extends(st, exec_each(m, st, stmts, budget).0),
    decreases budget, seq_size(stmts), 2nat,
{
    lemma_extends_refl(st);
    if stmts.len() > 0 {
        law_statement_extends(m, st, stmts[0], budget);
        let (s1, r) = exec_stmt(m, st, stmts[0], budget);
        if r is Ok {
            lemma_ast_size_positive(stmts[0]);
            law_each_extends(m, s1, stmts.drop_first(), budget);
            lemma_extends_trans(st, s1, exec_each(m, s1, stmts.drop_first(), budget).0);
        }
    }
}

/// An `if` only adds declarations.
pub proof fn law_if_extends(
    m: FloatModel,
    st: VmState,
    cond: AstV,
    if_branch: Seq<AstV>,
    else_branch: Option<Seq<AstV>>,
    budget: nat,
)
    ensures
        extends(st, exec_if(m, st, cond, if_branch, else_branch, budget).0),
    decreases budget, if_size(cond, if_branch, else_branch), 2nat,
{
    law_eval_extends(m, st, cond, budget);
    let s1 = eval(m, st, cond, budget).0;
    lemma_ast_size_positive(cond);
    law_each_extends(m, s1, if_branch, budget);
    lemma_extends_trans(st, s1, exec_each(m, s1, if_branch, budget).0);
}


// ---------------------------------------------------------------------------
// Machine: the call budget only cuts runs off
// ---------------------------------------------------------------------------

/// A larger budget gives the same evaluation, unless the smaller one ran out.
pub proof fn law_eval_budget(m: FloatModel, st: VmState, e: AstV, budget: nat, larger: nat)
    requires
        budget <= larger,
        eval(m, st, e, budget).1 != Err::<(ValueV, Type), RunError>(RunError::CallDepthExceeded),
    ensures
        eval(m, st, e, larger) == eval(m, st, e, budget),
    decreases budget, ast_size(e), 1nat,
{
    match e {
        AstV::BinaryExpression { left, operator, right } => {
            law_eval_budget(m, st, *left, budget, larger);
            let (s1, r1) = eval(m, st, *left, budget);
            if r1 is Ok {
                law_eval_budget(m, s1, *right, budget, larger);
            }
        },
        AstV::FunctionCall { name, arguments } => {
            law_call_budget(m, st, name, arguments, budget, larger);
        },
        AstV::Return { expression } => {
            law_eval_budget(m, st, *expression, budget, larger);
        },
        _ => {},
    }
}

/// A larger budget gives the same evaluation of arguments, unless the
/// smaller one ran out.
pub proof fn law_arguments_budget(
    m: FloatModel,
    st: VmState,
    params: Seq<Seq<char>>,
    args: Seq<AstV>,
    locals: Map<Seq<char>, (ValueV, Type)>,
    budget: nat,
    larger: nat,
)
    requires
        budget <= larger,
        eval_arguments(m, st, params, args, locals, budget).1 != Err::<
            Map<Seq<char>, (ValueV, Type)>,
            RunError,
        >(RunError::CallDepthExceeded),
    ensures
        eval_arguments(m, st, params, args, locals, larger) == eval_arguments(
            m,
            st,
            params,
            args,
            locals,
            budget,
        ),
    decreases budget, seq_size(args), 2nat,
{
    if params.len() != 0 && args.len() != 0 {
        law_eval_budget(m, st, args[0], budget, larger);
        let (s1, r) = eval(m, st, args[0], budget);
        if let Ok(v) = r {
            lemma_ast_size_positive(args[0]);
            law_arguments_budget(
                m,
                s1,
                params.drop_first(),
                args.drop_first(),
                locals.insert(params[0], v),
                budget,
                larger,
            );
        }
    }
}

/// A larger budget gives the same call, unless the smaller one ran out.
pub proof fn law_call_budget(
    m: FloatModel,
    st: VmState,
    name: Seq<char>,
    args: Seq<AstV>,
    budget: nat,
    larger: nat,
)
    requires
        budget <= larger,
        call(m, st, name, args, budget).1 != Err::<Option<(ValueV, Type)>, RunError>(
            RunError::CallDepthExceeded,
        ),
    ensures
        call(m, st, name, args, larger) == call(m, st, name, args, budget),
    decreases budget, seq_size(args), 3nat,
{
    if st.funcs.contains_key(name) {
        let (params, body) = st.funcs[name];
        law_arguments_budget(m, st, params, args, Map::empty(), budget, larger);
        let (s1, r) = eval_arguments(m, st, params, args, Map::empty(), budget);
        if let Ok(locals) = r {
            law_block_budget(
                m,
                with_vars(s1, locals),
                body,
                (budget - 1) as nat,
                (larger - 1) as nat,
            );
        }
    }
}

/// A larger budget gives the same statement run, unless the smaller one ran
/// out.
pub proof fn law_statement_budget(m: FloatModel, st: VmState, s: AstV, budget: nat, larger: nat)
    requires
        budget <= larger,
        exec_stmt(m, st, s, budget).1 != Err::<Option<(ValueV, Type)>, RunError>(
            RunError::CallDepthExceeded,
        ),
    ensures
        exec_stmt(m, st, s, larger) == exec_stmt(m, st, s, budget),
    decreases budget, ast_size(s), 1nat,
{
    match s {
        AstV::Program(stmts) => {
            law_block_budget(m, st, stmts, budget, larger);
        },
        AstV::LetDeclaration { identifier, var_type, expression } => {
            law_eval_budget(m, st, *expression, budget, larger);
        },
        AstV::FunctionCall { name, arguments } => {
            law_call_budget(m, st, name, arguments, budget, larger);
        },
        AstV::Return { expression } => {
            law_eval_budget(m, st, *expression, budget, larger);
        },
        AstV::IfElse { condition, if_branch, else_branch } => {
            law_if_budget(m, st, *condition, if_branch, else_branch, budget, larger);
        },
        _ => {},
    }
}

/// A larger budget gives the same run of a list of statements, unless the
/// smaller one ran out.
pub proof fn law_block_budget(m: FloatModel, st: VmState, stmts: Seq<AstV>, budget: nat, larger: nat)
    requires
        budget <= larger,
        exec_block(m, st, stmts, budget).1 != Err::<Option<(ValueV, Type)>, RunError>(
            RunError::CallDepthExceeded,
        ),
    ensures
        exec_block(m, st, stmts, larger) == exec_block(m, st, stmts, budget),
    decreases budget, seq_size(stmts), 2nat,
{
    if stmts.len() > 0 {
        law_statement_budget(m, st, stmts[0], budget, larger);
        let (s1, r) = exec_stmt(m, st, stmts[0], budget);
        if r == Ok::<Option<(ValueV, Type)>, RunError>(None) {
            lemma_ast_size_positive(stmts[0]);
            law_block_budget(m, s1, stmts.drop_first(), budget, larger);
        }
    }
}

/// A larger budget gives the same run of each statement of a list, unless
/// the smaller one ran out.
pub proof fn law_each_budget(m: FloatModel, st: VmState, stmts: Seq<AstV>, budget: nat, larger: nat)
    requires
        budget <= larger,
        exec_each(m, st, stmts, budget).1 != Err::<(), RunError>(RunError::CallDepthExceeded),
    ensures
        exec_each(m, st, stmts, larger) == exec_each(m, st, stmts, budget),
    decreases budget, seq_size(stmts), 2nat,
{
    if stmts.len() > 0 {
        law_statement_budget(m, st, stmts[0], budget, larger);
        let (s1, r) = exec_stmt(m, st, stmts[0], budget);
        if r is Ok {
            lemma_ast_size_positive(stmts[0]);
            law_each_budget(m, s1, stmts.drop_first(), budget, larger);
        }
    }
}

/// A larger budget gives the same `if`, unless the smaller one ran out.
pub proof fn law_if_budget(
    m: FloatModel,
    st: VmState,
    cond: AstV,
    if_branch: Seq<AstV>,
    else_branch: Option<Seq<AstV>>,
    budget: nat,
    larger: nat,
)
    requires
        budget <= larger,
        exec_if(m, st, cond, if_branch, else_branch, budget).1 != Err::<(), RunError>(
            RunError::CallDepthExceeded,
        ),
    ensures
        exec_if(m, st, cond, if_branch, else_branch, larger) == exec_if(
            m,
            st,
            cond,
            if_branch,
            else_branch,
            budget,
        ),
    decreases budget, if_size(cond, if_branch, else_branch), 2nat,
{
    law_eval_budget(m, st, cond, budget, larger);
    let (s1, r) = eval(m, st, cond, budget);
    lemma_ast_size_positive(cond);
    if let Ok((ValueV::Bool(true), _)) = r {
        law_each_budget(m, s1, if_branch, budget, larger);
    }
}

// ---------------------------------------------------------------------------
// Machine: declarations
// ---------------------------------------------------------------------------

/// A `let` that succeeds binds its name to the value of its expression with
/// the declared type, and appends the name to the order; one that fails
/// leaves the variables as they were.
pub proof fn law_let_binds(
    m: FloatModel,
    st: VmState,
    identifier: Seq<char>,
    var_type: Type,
    expression: AstV,
    budget: nat,
)
    ensures
        ({
            let stmt = AstV::LetDeclaration {
                identifier,
                var_type,
                expression: Box::new(expression),
            };
            let (s, r) = exec_stmt(m, st, stmt, budget);
            let (s1, v) = eval(m, st, expression, budget);
            &&& r is Ok <==> (v is Ok && v->Ok_0.1 == var_type)
            &&& r is Ok ==> r == Ok::<Option<(ValueV, Type)>, RunError>(None) && s.vars == st.vars.insert(
                identifier,
                (v->Ok_0.0, var_type),
            ) && s.order == s1.order.push(identifier) && s.funcs == s1.funcs
            &&& r is Err ==> s.vars == st.vars
        }),
{
    law_eval_keeps_variables(m, st, expression, budget);
}

/// A function declaration makes the function callable with its parameters
/// and body, replacing any earlier one of that name.
pub proof fn law_declaration_defines(
    m: FloatModel,
    st: VmState,
    name: Seq<char>,
    parameters: Seq<Seq<char>>,
    body: Seq<AstV>,
    budget: nat,
)
    ensures
        ({
            let (s, r) = exec_stmt(
                m,
                st,
                AstV::FunctionDeclaration { name, parameters, body },
                budget,
            );
            &&& r == Ok::<Option<(ValueV, Type)>, RunError>(None)
            &&& s.funcs.contains_key(name)
            &&& s.funcs[name] == (parameters, body)
            &&& s.vars == st.vars
            &&& s.order == st.order
        }),
{
}

// ---------------------------------------------------------------------------
// What the operations mean
// ---------------------------------------------------------------------------

/// The value of a `Number` node.
pub open spec fn number_value(e: AstV) -> i32 {
    match e {
        AstV::Number(n) => n,
        _ => 0,
    }
}

/// The node `l op r`.
pub open spec fn bin(l: AstV, op: TokenV, r: AstV) -> AstV {
    AstV::BinaryExpression { left: Box::new(l), operator: op, right: Box::new(r) }
}

/// The length of the shorter of two lists.
pub open spec fn paired_len(a: int, b: int) -> int {
    if a < b {
        a
    } else {
        b
    }
}

/// Evaluating literal arguments leaves the state as it is, and binds each
/// parameter to the argument at the same place, while both lists last; other
/// names keep what `locals` held.
proof fn lemma_literal_arguments_bind_in_order(
    m: FloatModel,
    st: VmState,
    params: Seq<Seq<char>>,
    args: Seq<AstV>,
    locals: Map<Seq<char>, (ValueV, Type)>,
    budget: nat,
)
    requires
        params.no_duplicates(),
        forall|j: int| 0 <= j < args.len() ==> #[trigger] args[j] is Number,
    ensures
        eval_arguments(m, st, params, args, locals, budget).0 == st,
        eval_arguments(m, st, params, args, locals, budget).1 is Ok,
        forall|j: int|
            0 <= j < paired_len(params.len() as int, args.len() as int) ==> eval_arguments(
                m,
                st,
                params,
                args,
                locals,
                budget,
            ).1->Ok_0.contains_key(#[trigger] params[j]) && eval_arguments(
                m,
                st,
                params,
                args,
                locals,
                budget,
            ).1->Ok_0[params[j]] == (ValueV::Int(number_value(args[j])), Type::Int),
        forall|key: Seq<char>|
            !(#[trigger] params.take(paired_len(params.len() as int, args.len() as int)).contains(key))
                ==> (eval_arguments(m, st, params, args, locals, budget).1->Ok_0.contains_key(key)
                == locals.contains_key(key) && (locals.contains_key(key) ==> eval_arguments(
                m,
                st,
                params,
                args,
                locals,
                budget,
            ).1->Ok_0[key] == locals[key])),
    decreases params.len(),
{
    if params.len() == 0 || args.len() == 0 {
        assert(params.take(0) =~= Seq::<Seq<char>>::empty());
    } else {
        let v0 = (ValueV::Int(number_value(args[0])), Type::Int);
        assert(args[0] is Number);
        assert(eval(m, st, args[0], budget) == (st, Ok::<(ValueV, Type), RunError>(v0)));
        let ps = params.drop_first();
        let rs = args.drop_first();
        assert(ps.no_duplicates()) by {
            assert forall|i: int, j: int| 0 <= i < ps.len() && 0 <= j < ps.len() && i != j implies ps[i] != ps[j] by {
                assert(ps[i] == params[i + 1] && ps[j] == params[j + 1]);
            }
        }
        assert forall|j: int| 0 <= j < rs.len() implies #[trigger] rs[j] is Number by {
            assert(rs[j] == args[j + 1]);
        }
        let l1 = locals.insert(params[0], v0);
        lemma_literal_arguments_bind_in_order(m, st, ps, rs, l1, budget);
        let n: int = paired_len(params.len() as int, args.len() as int);
        let n1: int = paired_len(ps.len() as int, rs.len() as int);
        assert(n1 == n - 1);
        let r = eval_arguments(m, st, params, args, locals, budget).1;
        assert(r == eval_arguments(m, st, ps, rs, l1, budget).1);
        assert(!ps.take(n1).contains(params[0])) by {
            if ps.take(n1).contains(params[0]) {
                let i = choose|i: int| 0 <= i < ps.take(n1).len() && ps.take(n1)[i] == params[0];
                assert(params[i + 1] == params[0]);
            }
        }
        let r1 = eval_arguments(m, st, ps, rs, l1, budget).1;
        assert(r1 is Ok);
        assert(l1.contains_key(params[0]) && l1[params[0]] == v0);
        assert(r1->Ok_0.contains_key(params[0]));
        assert(r1->Ok_0[params[0]] == v0);
        assert forall|j: int| 0 <= j < n implies r->Ok_0.contains_key(#[trigger] params[j])
            && r->Ok_0[params[j]] == (ValueV::Int(number_value(args[j])), Type::Int) by {
            if j > 0 {
                assert(params[j] == ps[j - 1]);
                assert(args[j] == rs[j - 1]);
            }
        }
        assert forall|key: Seq<char>|
            #![trigger params.take(n).contains(key)]
            !params.take(n).contains(key) implies (r->Ok_0.contains_key(key)
            == locals.contains_key(key) && (locals.contains_key(key) ==> r->Ok_0[key] == locals[key])) by {
            assert(key != params[0]) by {
                assert(params.take(n)[0] == params[0]);
            }
            if ps.take(n1).contains(key) {
                let i = choose|i: int| 0 <= i < ps.take(n1).len() && ps.take(n1)[i] == key;
                assert(params.take(n)[i + 1] == key);
            }
            assert(!ps.take(n1).contains(key));
        }
    }
}

/// A call binds the k-th declared parameter to the value of the k-th
/// argument. Shown through a function whose body returns one parameter:
/// with distinct parameter names and literal arguments, calling it gives
/// the argument at that parameter's place, and leaves the caller's state as
/// it was.
pub proof fn law_call_binds_parameters_in_order(
    m: FloatModel,
    st: VmState,
    name: Seq<char>,
    args: Seq<AstV>,
    k: int,
    budget: nat,
)
    requires
        st.funcs.contains_key(name),
        st.funcs[name].0.no_duplicates(),
        0 <= k < st.funcs[name].0.len(),
        k < args.len(),
        st.funcs[name].1 == seq![
            AstV::Return { expression: Box::new(AstV::Identifier(st.funcs[name].0[k])) },
        ],
        forall|j: int| 0 <= j < args.len() ==> #[trigger] args[j] is Number,
        budget > 0,
    ensures
        call(m, st, name, args, budget) == (
            st,
            Ok::<Option<(ValueV, Type)>, RunError>(
                Some((ValueV::Int(number_value(args[k])), Type::Int)),
            ),
        ),
{
    let (params, body) = st.funcs[name];
    lemma_literal_arguments_bind_in_order(m, st, params, args, Map::empty(), budget);
    let locals = eval_arguments(m, st, params, args, Map::empty(), budget).1->Ok_0;
    assert(locals.contains_key(params[k]));
    let inner = with_vars(st, locals);
    let ret = body[0];
    assert(exec_stmt(m, inner, ret, (budget - 1) as nat) == (
        inner,
        Ok::<Option<(ValueV, Type)>, RunError>(Some((locals[params[k]].0, Type::Int))),
    ));
    assert(exec_block(m, inner, body, (budget - 1) as nat) == (
        inner,
        Ok::<Option<(ValueV, Type)>, RunError>(Some((locals[params[k]].0, Type::Int))),
    ));
    assert(with_vars(inner, st.vars) == st);
}

/// Float operators: `+ - * /` are the float model's addition, subtraction,
/// multiplication and division of the left value by the right one, and
/// `== != > >= < <=` are its comparisons of the left value with the right
/// one.
pub proof fn law_float_operators(m: FloatModel, st: VmState, a: u64, b: u64, budget: nat)
    ensures
        ({
            let fa = AstV::FloatLiteral(a);
            let fb = AstV::FloatLiteral(b);
            let num = |x: u64| (st, Ok::<(ValueV, Type), RunError>((ValueV::Float(x), Type::Float)));
            let truth = |x: bool| (st, Ok::<(ValueV, Type), RunError>((ValueV::Bool(x), Type::Bool)));
            &&& eval(m, st, bin(fa, TokenV::Plus, fb), budget) == num((m.arith)(FloatArith::Add, a, b))
            &&& eval(m, st, bin(fa, TokenV::Minus, fb), budget) == num((m.arith)(FloatArith::Sub, a, b))
            &&& eval(m, st, bin(fa, TokenV::Multiply, fb), budget) == num((m.arith)(FloatArith::Mul, a, b))
            &&& eval(m, st, bin(fa, TokenV::Divide, fb), budget) == num((m.arith)(FloatArith::Div, a, b))
            &&& eval(m, st, bin(fa, TokenV::EqualEqual, fb), budget) == truth((m.compare)(FloatCompare::Eq, a, b))
            &&& eval(m, st, bin(fa, TokenV::NotEqual, fb), budget) == truth((m.compare)(FloatCompare::Ne, a, b))
            &&& eval(m, st, bin(fa, TokenV::Greater, fb), budget) == truth((m.compare)(FloatCompare::Gt, a, b))
            &&& eval(m, st, bin(fa, TokenV::GreaterEqual, fb), budget) == truth((m.compare)(FloatCompare::Ge, a, b))
            &&& eval(m, st, bin(fa, TokenV::Less, fb), budget) == truth((m.compare)(FloatCompare::Lt, a, b))
            &&& eval(m, st, bin(fa, TokenV::LessEqual, fb), budget) == truth((m.compare)(FloatCompare::Le, a, b))
        }),
{
    reveal_with_fuel(eval, 2);
}

/// Integer operators: the comparisons compare the left value with the right
/// one; `+ - *` give the exact sum, difference and product when it fits in an
/// `i32`, and an overflow error when it does not.
pub proof fn law_int_operators(m: FloatModel, st: VmState, a: i32, b: i32, budget: nat)
    ensures
        ({
            let ia = AstV::Number(a);
            let ib = AstV::Number(b);
            let truth = |x: bool| (st, Ok::<(ValueV, Type), RunError>((ValueV::Bool(x), Type::Bool)));
            let exact = |x: int| if i32::MIN <= x <= i32::MAX {
                (st, Ok::<(ValueV, Type), RunError>((ValueV::Int(x as i32), Type::Int)))
            } else {
                (st, Err::<(ValueV, Type), RunError>(RunError::IntegerOverflow))
            };
            &&& eval(m, st, bin(ia, TokenV::EqualEqual, ib), budget) == truth(a == b)
            &&& eval(m, st, bin(ia, TokenV::NotEqual, ib), budget) == truth(a != b)
            &&& eval(m, st, bin(ia, TokenV::Greater, ib), budget) == truth(a > b)
            &&& eval(m, st, bin(ia, TokenV::GreaterEqual, ib), budget) == truth(a >= b)
            &&& eval(m, st, bin(ia, TokenV::Less, ib), budget) == truth(a < b)
            &&& eval(m, st, bin(ia, TokenV::LessEqual, ib), budget) == truth(a <= b)
            &&& eval(m, st, bin(ia, TokenV::Plus, ib), budget) == exact(a + b)
            &&& eval(m, st, bin(ia, TokenV::Minus, ib), budget) == exact(a - b)
            &&& eval(m, st, bin(ia, TokenV::Multiply, ib), budget) == exact(a * b)
        }),
{
    reveal_with_fuel(eval, 2);
}

/// String `+` puts the right text after the left one; no other operator
/// applies to strings.
pub proof fn law_string_operators(m: FloatModel, st: VmState, a: Seq<char>, b: Seq<char>, op: TokenV, budget: nat)
    ensures
        eval(m, st, bin(AstV::StringLiteral(a), TokenV::Plus, AstV::StringLiteral(b)), budget) == (
            st,
            Ok::<(ValueV, Type), RunError>((ValueV::Str(a + b), Type::String)),
        ),
        !(op is Plus) ==> eval(
            m,
            st,
            bin(AstV::StringLiteral(a), op, AstV::StringLiteral(b)),
            budget,
        ) == (st, Err::<(ValueV, Type), RunError>(RunError::UnsupportedOperation)),
{
    reveal_with_fuel(eval, 2);
}

/// The tree of the first `i + 1` numbers of a chain `nums[0] ops[0]
/// nums[1] ...`, each operator taking everything to its left as its left
/// operand and the one number after it as its right operand.
pub open spec fn left_chain(nums: Seq<i32>, ops: Seq<TokenV>, i: nat) -> AstV
    decreases i,
{
    if i == 0 {
        AstV::Number(nums[0])
    } else {
        bin(left_chain(nums, ops, (i - 1) as nat), ops[i - 1], AstV::Number(nums[i as int]))
    }
}

/// The tokens from `pos` are the chain `nums[0] ops[0] nums[1] ... nums[k]`
/// of number literals and operators, with `k == ops.len()`.
pub open spec fn chain_at(t: Seq<TokenV>, pos: int, nums: Seq<i32>, ops: Seq<TokenV>) -> bool {
    &&& 0 <= pos
    &&& nums.len() == ops.len() + 1
    &&& forall|i: int| 0 <= i < nums.len() ==> cur(t, pos + 2 * i) == TokenV::Number(#[trigger] nums[i])
    &&& forall|i: int| 0 <= i < ops.len() ==> cur(t, pos + 2 * i + 1) == #[trigger] ops[i]
}

proof fn lemma_term_rest_chain(t: Seq<TokenV>, pos: int, nums: Seq<i32>, ops: Seq<TokenV>, i: nat)
    requires
        chain_at(t, pos, nums, ops),
        i <= ops.len(),
        forall|j: int| 0 <= j < ops.len() ==> is_multiplicative_op(#[trigger] ops[j]),
        !is_multiplicative_op(cur(t, pos + 2 * ops.len() + 1)),
    ensures
        p_term_rest(t, pos + 2 * i + 1, left_chain(nums, ops, i)) == (
            (2 * (ops.len() - i)) as nat,
            Ok::<AstV, crate::parser::ParseErrorV>(left_chain(nums, ops, ops.len())),
        ),
    decreases ops.len() - i,
{
    if i < ops.len() {
        assert(cur(t, pos + 2 * i + 1) == ops[i as int]);
        assert(cur(t, pos + 2 * (i + 1)) == TokenV::Number(nums[i + 1int]));
        assert(p_factor(t, pos + 2 * i + 2) == (1nat, Ok::<AstV, crate::parser::ParseErrorV>(AstV::Number(nums[i + 1int]))));
        lemma_term_rest_chain(t, pos, nums, ops, i + 1);
    }
}

/// Products group from the left: in a chain of number literals joined by
/// `*` and `/`, each operator's right operand is the single number after
/// it, so `f1 op f2 op f3` has `f1 op f2` as its left operand. The whole
/// chain is taken.
pub proof fn law_products_group_from_the_left(t: Seq<TokenV>, pos: int, nums: Seq<i32>, ops: Seq<TokenV>)
    requires
        chain_at(t, pos, nums, ops),
        forall|j: int| 0 <= j < ops.len() ==> is_multiplicative_op(#[trigger] ops[j]),
        !is_multiplicative_op(cur(t, pos + 2 * ops.len() + 1)),
    ensures
        p_term(t, pos) == (
            (2 * ops.len() + 1) as nat,
            Ok::<AstV, crate::parser::ParseErrorV>(left_chain(nums, ops, ops.len())),
        ),
{
    assert(cur(t, pos) == TokenV::Number(nums[0]));
    lemma_term_rest_chain(t, pos, nums, ops, 0);
}

proof fn lemma_additive_rest_chain(t: Seq<TokenV>, pos: int, nums: Seq<i32>, ops: Seq<TokenV>, i: nat)
    requires
        chain_at(t, pos, nums, ops),
        i <= ops.len(),
        forall|j: int| 0 <= j < ops.len() ==> is_additive_op(#[trigger] ops[j]),
        !is_additive_op(cur(t, pos + 2 * ops.len() + 1)),
        !is_multiplicative_op(cur(t, pos + 2 * ops.len() + 1)),
    ensures
        p_additive_rest(t, pos + 2 * i + 1, left_chain(nums, ops, i)) == (
            (2 * (ops.len() - i)) as nat,
            Ok::<AstV, crate::parser::ParseErrorV>(left_chain(nums, ops, ops.len())),
        ),
    decreases ops.len() - i,
{
    if i < ops.len() {
        let q = pos + 2 * (i + 1);
        assert(cur(t, pos + 2 * i + 1) == ops[i as int]);
        assert(cur(t, q) == TokenV::Number(nums[i + 1int]));
        assert(p_factor(t, q) == (1nat, Ok::<AstV, crate::parser::ParseErrorV>(AstV::Number(nums[i + 1int]))));
        if i + 1 < ops.len() {
            assert(cur(t, q + 1) == ops[i + 1int]);
        }
        assert(!is_multiplicative_op(cur(t, q + 1)));
        assert(p_term_rest(t, q + 1, AstV::Number(nums[i + 1int])) == (0nat, Ok::<AstV, crate::parser::ParseErrorV>(AstV::Number(nums[i + 1int]))));
        assert(p_term(t, q) == (1nat, Ok::<AstV, crate::parser::ParseErrorV>(AstV::Number(nums[i + 1int]))));
        lemma_additive_rest_chain(t, pos, nums, ops, i + 1);
    }
}

/// Sums group from the left: in a chain of number literals joined by `+`
/// and `-`, each operator's right operand is the single number after it, so
/// `a - b - c` is `(a - b) - c`. The whole chain is taken.
pub proof fn law_sums_group_from_the_left(t: Seq<TokenV>, pos: int, nums: Seq<i32>, ops: Seq<TokenV>)
    requires
        chain_at(t, pos, nums, ops),
        forall|j: int| 0 <= j < ops.len() ==> is_additive_op(#[trigger] ops[j]),
        !is_additive_op(cur(t, pos + 2 * ops.len() + 1)),
        !is_multiplicative_op(cur(t, pos + 2 * ops.len() + 1)),
    ensures
        p_expression(t, pos) == (
            (2 * ops.len() + 1) as nat,
            Ok::<AstV, crate::parser::ParseErrorV>(left_chain(nums, ops, ops.len())),
        ),
{
    assert(cur(t, pos) == TokenV::Number(nums[0]));
    if 0 < ops.len() {
        assert(cur(t, pos + 1) == ops[0]);
    }
    assert(!is_multiplicative_op(cur(t, pos + 1)));
    assert(p_term_rest(t, pos + 1, AstV::Number(nums[0])) == (0nat, Ok::<AstV, crate::parser::ParseErrorV>(AstV::Number(nums[0]))));
    assert(p_term(t, pos) == (1nat, Ok::<AstV, crate::parser::ParseErrorV>(AstV::Number(nums[0]))));
    lemma_additive_rest_chain(t, pos, nums, ops, 0);
}

/// Products bind tighter than sums: `a + b * c` is `a + (b * c)`, and
/// `a * b + c` is `(a * b) + c`.
pub proof fn law_products_bind_tighter(t: Seq<TokenV>, pos: int, a: i32, b: i32, c: i32, add: TokenV, mul: TokenV)
    requires
        0 <= pos,
        is_additive_op(add),
        is_multiplicative_op(mul),
        cur(t, pos) == TokenV::Number(a),
        cur(t, pos + 2) == TokenV::Number(b),
        cur(t, pos + 4) == TokenV::Number(c),
        !is_additive_op(cur(t, pos + 5)),
        !is_multiplicative_op(cur(t, pos + 5)),
    ensures
        cur(t, pos + 1) == add && cur(t, pos + 3) == mul ==> p_expression(t, pos) == (
            5nat,
            Ok::<AstV, crate::parser::ParseErrorV>(bin(AstV::Number(a), add, bin(AstV::Number(b), mul, AstV::Number(c)))),
        ),
        cur(t, pos + 1) == mul && cur(t, pos + 3) == add ==> p_expression(t, pos) == (
            5nat,
            Ok::<AstV, crate::parser::ParseErrorV>(bin(bin(AstV::Number(a), mul, AstV::Number(b)), add, AstV::Number(c))),
        ),
{
    if cur(t, pos + 1) == add && cur(t, pos + 3) == mul {
        assert(p_term_rest(t, pos + 1, AstV::Number(a)) == (0nat, Ok::<AstV, crate::parser::ParseErrorV>(AstV::Number(a))));
        assert(p_term(t, pos) == (1nat, Ok::<AstV, crate::parser::ParseErrorV>(AstV::Number(a))));
        let nums = seq![b, c];
        let ops = seq![mul];
        assert(chain_at(t, pos + 2, nums, ops)) by {
            assert forall|i: int| 0 <= i < nums.len() implies cur(t, pos + 2 + 2 * i) == TokenV::Number(#[trigger] nums[i]) by {
                if i == 1 { assert(pos + 2 + 2 * i == pos + 4); }
            }
        }
        law_products_group_from_the_left(t, pos + 2, nums, ops);
        assert(left_chain(nums, ops, 1) == bin(AstV::Number(b), mul, AstV::Number(c)));
        assert(p_additive_rest(t, pos + 5, bin(AstV::Number(a), add, bin(AstV::Number(b), mul, AstV::Number(c))))
            == (0nat, Ok::<AstV, crate::parser::ParseErrorV>(bin(AstV::Number(a), add, bin(AstV::Number(b), mul, AstV::Number(c))))));
    }
    if cur(t, pos + 1) == mul && cur(t, pos + 3) == add {
        let nums = seq![a, b];
        let ops = seq![mul];
        assert(chain_at(t, pos, nums, ops)) by {
            assert forall|i: int| 0 <= i < nums.len() implies cur(t, pos + 2 * i) == TokenV::Number(#[trigger] nums[i]) by {
                if i == 1 { assert(pos + 2 * i == pos + 2); }
            }
        }
        law_products_group_from_the_left(t, pos, nums, ops);
        assert(left_chain(nums, ops, 1) == bin(AstV::Number(a), mul, AstV::Number(b)));
        assert(p_term_rest(t, pos + 5, AstV::Number(c)) == (0nat, Ok::<AstV, crate::parser::ParseErrorV>(AstV::Number(c))));
        assert(p_term(t, pos + 4) == (1nat, Ok::<AstV, crate::parser::ParseErrorV>(AstV::Number(c))));
        assert(p_additive_rest(t, pos + 5, bin(bin(AstV::Number(a), mul, AstV::Number(b)), add, AstV::Number(c)))
            == (0nat, Ok::<AstV, crate::parser::ParseErrorV>(bin(bin(AstV::Number(a), mul, AstV::Number(b)), add, AstV::Number(c)))));
    }
}

/// An argument of a call is a whole expression: when `(` is followed by an
/// expression and then `)`, the call has that expression as its one
/// argument and takes everything up to and including `)`.
pub proof fn law_call_argument_is_an_expression(t: Seq<TokenV>, pos: int, name: Seq<char>)
    requires
        0 <= pos,
        cur(t, pos) is LParen,
        p_expression(t, pos + 1).1 is Ok,
        cur(t, pos + 1 + p_expression(t, pos + 1).0) is RParen,
    ensures
        p_call(t, pos, name) == (
            p_expression(t, pos + 1).0 + 2,
            Ok::<AstV, crate::parser::ParseErrorV>(
                AstV::FunctionCall { name, arguments: seq![p_expression(t, pos + 1).1->Ok_0] },
            ),
        ),
{
    lemma_expression_takes_a_token(t, pos + 1);
    let (c, r) = p_expression(t, pos + 1);
    let e = r->Ok_0;
    if cur(t, pos + 1) is RParen {
        assert(p_factor(t, pos + 1).1 is Err);
        assert(p_term(t, pos + 1).1 is Err);
    }
    assert(p_arguments(t, pos + 1 + c) == (0nat, Ok::<Seq<AstV>, crate::parser::ParseErrorV>(seq![])));
    assert(seq![e] + Seq::<AstV>::empty() =~= seq![e]);
}

/// Arguments are separated by commas, each a whole expression: `( e1 , e2 )`
/// gives the call with the two arguments `e1` and `e2`, in that order.
pub proof fn law_call_arguments_in_order(t: Seq<TokenV>, pos: int, name: Seq<char>)
    requires
        0 <= pos,
        cur(t, pos) is LParen,
        p_expression(t, pos + 1).1 is Ok,
        cur(t, pos + 1 + p_expression(t, pos + 1).0) is Comma,
        p_expression(t, pos + 2 + p_expression(t, pos + 1).0).1 is Ok,
        cur(
            t,
            pos + 2 + p_expression(t, pos + 1).0 + p_expression(t, pos + 2 + p_expression(t, pos + 1).0).0,
        ) is RParen,
    ensures
        p_call(t, pos, name) == (
            p_expression(t, pos + 1).0 + p_expression(t, pos + 2 + p_expression(t, pos + 1).0).0 + 3,
            Ok::<AstV, crate::parser::ParseErrorV>(
                AstV::FunctionCall {
                    name,
                    arguments: seq![
                        p_expression(t, pos + 1).1->Ok_0,
                        p_expression(t, pos + 2 + p_expression(t, pos + 1).0).1->Ok_0,
                    ],
                },
            ),
        ),
{
    lemma_expression_takes_a_token(t, pos + 1);
    let (c, r) = p_expression(t, pos + 1);
    let q = pos + 2 + c;
    lemma_expression_takes_a_token(t, q);
    let (c2, r2) = p_expression(t, q);
    if cur(t, pos + 1) is RParen {
        assert(p_factor(t, pos + 1).1 is Err);
        assert(p_term(t, pos + 1).1 is Err);
    }
    if cur(t, q) is RParen {
        assert(p_factor(t, q).1 is Err);
        assert(p_term(t, q).1 is Err);
    }
    assert(p_arguments(t, q + c2) == (0nat, Ok::<Seq<AstV>, crate::parser::ParseErrorV>(seq![])));
    assert(seq![r2->Ok_0] + Seq::<AstV>::empty() =~= seq![r2->Ok_0]);
    assert(p_arguments(t, q) == (c2, Ok::<Seq<AstV>, crate::parser::ParseErrorV>(seq![r2->Ok_0])));
    assert(seq![r->Ok_0] + seq![r2->Ok_0] =~= seq![r->Ok_0, r2->Ok_0]);
}

/// The text that spells a keyword token; no other token has one.
pub open spec fn keyword_spelling(tok: TokenV) -> Option<Seq<char>> {
    match tok {
        TokenV::IntType => Some("int"@),
        TokenV::FloatType => Some("float"@),
        TokenV::BoolType => Some("bool"@),
        TokenV::StringType => Some("string"@),
        TokenV::Let => Some("let"@),
        TokenV::Function => Some("function"@),
        TokenV::Return => Some("return"@),
        TokenV::If => Some("if"@),
        TokenV::Else => Some("Else"@),
        _ => None,
    }
}

/// A word is a keyword only when it is spelled exactly as that keyword:
/// a word that is not a keyword is an identifier holding the word itself,
/// a keyword token read from a word is the one that word spells, and each
/// keyword's spelling reads as that keyword.
pub proof fn law_keywords_only_when_spelled_exactly(w: Seq<char>, tok: TokenV)
    ensures
        word_token(w) is Ident ==> word_token(w) == TokenV::Ident(w),
        !(word_token(w) is Ident) ==> keyword_spelling(word_token(w)) == Some(w),
        keyword_spelling(tok) == Some(w) ==> word_token(w) == tok,
{
    reveal_strlit("int");
    reveal_strlit("float");
    reveal_strlit("bool");
    reveal_strlit("string");
    reveal_strlit("let");
    reveal_strlit("function");
    reveal_strlit("return");
    reveal_strlit("if");
    reveal_strlit("Else");
    if keyword_spelling(tok) == Some(w) {
        // the spellings differ in length or in their first letter
        assert(w.len() == 2 ==> w[0] == 'i');
        assert(w.len() == 3 ==> (w[0] == 'i' || w[0] == 'l'));
        assert(w.len() == 4 ==> (w[0] == 'b' || w[0] == 'E'));
        assert(w.len() == 6 ==> (w[0] == 's' || w[0] == 'r'));
    }
}

/// Reading a word gives the identifier of the exact text read, or the
/// keyword that this exact text spells.
pub proof fn law_read_word_is_the_whole_word(input: Seq<char>, pos: int)
    ensures
        ({
            let (end, r) = lex_word(input, pos);
            let w = input.subrange(pos, end);
            ||| r == Ok::<TokenV, crate::lexer::LexError>(TokenV::Ident(w))
            ||| (r is Ok && keyword_spelling(r->Ok_0) == Some(w))
        }),
{
    let (end, r) = lex_word(input, pos);
    law_keywords_only_when_spelled_exactly(input.subrange(pos, end), TokenV::Eof);
}

/// `q` is `a / b` rounded toward zero: what is left, `a - q * b`, is smaller
/// than `b` in size and is zero or has the sign of `a`.
pub open spec fn is_truncated_quotient(a: int, b: int, q: int) -> bool {
    let rem = a - q * b;
    &&& (if rem < 0 { -rem } else { rem }) < (if b < 0 { -b } else { b })
    &&& (rem == 0 || ((rem < 0) == (a < 0)))
}

proof fn lemma_div_toward_zero(a: int, b: int)
    requires
        b != 0,
        i32::MIN <= a <= i32::MAX,
    ensures
        is_truncated_quotient(a, b, crate::vm::div_toward_zero(a, b)),
        i32::MIN <= crate::vm::div_toward_zero(a, b) <= i32::MAX <==> !(a == i32::MIN && b == -1),
{
    let aa: int = if a < 0 { -a } else { a };
    let bb: int = if b < 0 { -b } else { b };
    let q0 = aa / bb;
    let r0 = aa % bb;
    vstd::arithmetic::div_mod::lemma_fundamental_div_mod(aa, bb);
    vstd::arithmetic::div_mod::lemma_mod_pos_bound(aa, bb);
    assert(aa == bb * q0 + r0);
    assert(0 <= q0) by (nonlinear_arith)
        requires
            aa == bb * q0 + r0,
            0 <= r0 < bb,
            0 <= aa,
    ;
    assert(q0 <= aa) by (nonlinear_arith)
        requires
            aa == bb * q0 + r0,
            0 <= r0,
            1 <= bb,
            0 <= q0,
    ;
    assert(bb >= 2 ==> 2 * q0 <= aa) by (nonlinear_arith)
        requires
            aa == bb * q0 + r0,
            0 <= r0,
            0 <= q0,
    ;
    let q = crate::vm::div_toward_zero(a, b);
    assert(bb == 1 ==> q0 == aa) by (nonlinear_arith)
        requires
            aa == bb * q0 + r0,
            0 <= r0 < bb,
    ;
    assert(q * b == (if a < 0 { -(q0 * bb) } else { q0 * bb })) by (nonlinear_arith)
        requires
            q == (if (a < 0) != (b < 0) { -q0 } else { q0 }),
            bb == (if b < 0 { -b } else { b }),
    ;
}

/// Integer division by zero fails. Otherwise the quotient is rounded toward
/// zero, so `a == q * b + rem` with `rem` smaller than `b` in size and of
/// the sign of `a`; the one quotient that does not fit, `i32::MIN / -1`,
/// is an overflow.
pub proof fn law_int_division(m: FloatModel, st: VmState, a: i32, b: i32, budget: nat)
    ensures
        ({
            let e = eval(m, st, bin(AstV::Number(a), TokenV::Divide, AstV::Number(b)), budget);
            &&& e.0 == st
            &&& b == 0 ==> e.1 == Err::<(ValueV, Type), RunError>(RunError::DivisionByZero)
            &&& b != 0 && !(a == i32::MIN && b == -1) ==> (e.1 matches Ok((ValueV::Int(q), Type::Int))
                && is_truncated_quotient(a as int, b as int, q as int))
            &&& a == i32::MIN && b == -1 ==> e.1 == Err::<(ValueV, Type), RunError>(
                RunError::IntegerOverflow,
            )
        }),
{
    reveal_with_fuel(eval, 2);
    if b != 0 {
        lemma_div_toward_zero(a as int, b as int);
    }
}

/// The token that an operator or punctuation character stands for; `eq`
/// tells whether `=` follows it, which makes `==`, `<=`, `>=` and `!=`.
pub open spec fn operator_char_token(c: char, eq: bool) -> Option<TokenV> {
    if c == '+' { Some(TokenV::Plus) }
    else if c == '-' { Some(TokenV::Minus) }
    else if c == '*' { Some(TokenV::Multiply) }
    else if c == '/' { Some(TokenV::Divide) }
    else if c == ';' { Some(TokenV::Semicolon) }
    else if c == '(' { Some(TokenV::LParen) }
    else if c == ')' { Some(TokenV::RParen) }
    else if c == '{' { Some(TokenV::LBrace) }
    else if c == '}' { Some(TokenV::RBrace) }
    else if c == ',' { Some(TokenV::Comma) }
    else if c == ':' { Some(TokenV::Colon) }
    else if c == '=' { Some(if eq { TokenV::EqualEqual } else { TokenV::Assign }) }
    else if c == '<' { Some(if eq { TokenV::LessEqual } else { TokenV::Less }) }
    else if c == '>' { Some(if eq { TokenV::GreaterEqual } else { TokenV::Greater }) }
    else if c == '!' && eq { Some(TokenV::NotEqual) }
    else { None }
}

/// Each operator and punctuation character is read as its own token, one
/// character long; `=`, `<`, `>` and `!` followed by `=` are read together
/// as one two-character token.
pub proof fn law_operators_and_punctuation(input: Seq<char>, pos: int, flit: spec_fn(Seq<char>) -> u64)
    requires
        0 <= pos < input.len(),
    ensures
        ({
            let c = input[pos];
            let eq = pos + 1 < input.len() && input[pos + 1] == '=';
            let two = eq && (c == '=' || c == '<' || c == '>' || c == '!');
            operator_char_token(c, eq) is Some ==> lex_token(input, pos, flit) == (
                if two { pos + 2 } else { pos + 1 },
                Ok::<TokenV, LexError>(operator_char_token(c, eq)->Some_0),
            )
        }),
{
    let c = input[pos];
    let eq = pos + 1 < input.len() && input[pos + 1] == '=';
    if operator_char_token(c, eq) is Some {
        assert(!unicode_whitespace(c));
        assert(crate::lexer::skip_ws(input, pos) == pos);
    }
}

proof fn lemma_scan_to_quote_finds(input: Seq<char>, i: int, q: int)
    requires
        0 <= i <= q < input.len(),
        input[q] == '"',
        forall|k: int| i <= k < q ==> input[k] != '"',
    ensures
        scan_to_quote(input, i) == q,
    decreases q - i,
{
    if i < q {
        lemma_scan_to_quote_finds(input, i + 1, q);
    }
}

/// A string literal is the text between its opening quote and the next
/// quote, taken as it is; reading it ends after the closing quote.
pub proof fn law_string_literal_is_the_quoted_text(
    input: Seq<char>,
    pos: int,
    q: int,
    flit: spec_fn(Seq<char>) -> u64,
)
    requires
        0 <= pos < q < input.len(),
        input[pos] == '"',
        input[q] == '"',
        forall|k: int| pos < k < q ==> input[k] != '"',
    ensures
        lex_token(input, pos, flit) == (
            q + 1,
            Ok::<TokenV, LexError>(TokenV::StringLiteral(input.subrange(pos + 1, q))),
        ),
{
    assert(!unicode_whitespace(input[pos]));
    assert(crate::lexer::skip_ws(input, pos) == pos);
    lemma_scan_to_quote_finds(input, pos + 1, q);
}

/// `let name : type = expression ;` declares `name` with the type that the
/// keyword names (`int`, `float` or `bool`) and the expression that follows
/// `=`; the declaration ends with its `;`.
pub proof fn law_let_declaration_parts(t: Seq<TokenV>, pos: int, name: Seq<char>, kw: TokenV)
    requires
        0 <= pos,
        cur(t, pos) is Let,
        cur(t, pos + 1) == TokenV::Ident(name),
        cur(t, pos + 2) is Colon,
        cur(t, pos + 3) == kw,
        kw is IntType || kw is FloatType || kw is BoolType,
        cur(t, pos + 4) is Assign,
        p_expression(t, pos + 5).1 is Ok,
        cur(t, pos + 5 + p_expression(t, pos + 5).0) is Semicolon,
    ensures
        crate::parser::p_let(t, pos) == (
            p_expression(t, pos + 5).0 + 6,
            Ok::<AstV, crate::parser::ParseErrorV>(
                AstV::LetDeclaration {
                    identifier: name,
                    var_type: if kw is IntType {
                        Type::Int
                    } else if kw is FloatType {
                        Type::Float
                    } else {
                        Type::Bool
                    },
                    expression: Box::new(p_expression(t, pos + 5).1->Ok_0),
                },
            ),
        ),
{
}

proof fn lemma_comparison_rest_chain(t: Seq<TokenV>, pos: int, nums: Seq<i32>, ops: Seq<TokenV>, i: nat)
    requires
        chain_at(t, pos, nums, ops),
        i <= ops.len(),
        forall|j: int| 0 <= j < ops.len() ==> is_comparison_op(#[trigger] ops[j]),
        !is_comparison_op(cur(t, pos + 2 * ops.len() + 1)),
        !is_additive_op(cur(t, pos + 2 * ops.len() + 1)),
        !is_multiplicative_op(cur(t, pos + 2 * ops.len() + 1)),
    ensures
        p_comparison_rest(t, pos + 2 * i + 1, left_chain(nums, ops, i)) == (
            (2 * (ops.len() - i)) as nat,
            Ok::<AstV, crate::parser::ParseErrorV>(left_chain(nums, ops, ops.len())),
        ),
    decreases ops.len() - i,
{
    if i < ops.len() {
        let q = pos + 2 * (i + 1);
        let n = AstV::Number(nums[i + 1int]);
        assert(cur(t, pos + 2 * i + 1) == ops[i as int]);
        assert(cur(t, q) == TokenV::Number(nums[i + 1int]));
        if i + 1 < ops.len() {
            assert(cur(t, q + 1) == ops[i + 1int]);
        }
        assert(!is_multiplicative_op(cur(t, q + 1)) && !is_additive_op(cur(t, q + 1)));
        assert(p_factor(t, q) == (1nat, Ok::<AstV, crate::parser::ParseErrorV>(n)));
        assert(p_term_rest(t, q + 1, n) == (0nat, Ok::<AstV, crate::parser::ParseErrorV>(n)));
        assert(p_term(t, q) == (1nat, Ok::<AstV, crate::parser::ParseErrorV>(n)));
        assert(p_additive_rest(t, q + 1, n) == (0nat, Ok::<AstV, crate::parser::ParseErrorV>(n)));
        assert(p_additive(t, q) == (1nat, Ok::<AstV, crate::parser::ParseErrorV>(n)));
        lemma_comparison_rest_chain(t, pos, nums, ops, i + 1);
    }
}

/// Comparisons group from the left: in a chain of number literals joined
/// by comparisons, each comparison's right operand is the single number
/// after it. The whole chain is taken.
pub proof fn law_comparisons_group_from_the_left(t: Seq<TokenV>, pos: int, nums: Seq<i32>, ops: Seq<TokenV>)
    requires
        chain_at(t, pos, nums, ops),
        forall|j: int| 0 <= j < ops.len() ==> is_comparison_op(#[trigger] ops[j]),
        !is_comparison_op(cur(t, pos + 2 * ops.len() + 1)),
        !is_additive_op(cur(t, pos + 2 * ops.len() + 1)),
        !is_multiplicative_op(cur(t, pos + 2 * ops.len() + 1)),
    ensures
        p_comparison(t, pos) == (
            (2 * ops.len() + 1) as nat,
            Ok::<AstV, crate::parser::ParseErrorV>(left_chain(nums, ops, ops.len())),
        ),
{
    let n = AstV::Number(nums[0]);
    assert(cur(t, pos) == TokenV::Number(nums[0]));
    if 0 < ops.len() {
        assert(cur(t, pos + 1) == ops[0]);
    }
    assert(!is_multiplicative_op(cur(t, pos + 1)) && !is_additive_op(cur(t, pos + 1)));
    assert(p_term_rest(t, pos + 1, n) == (0nat, Ok::<AstV, crate::parser::ParseErrorV>(n)));
    assert(p_term(t, pos) == (1nat, Ok::<AstV, crate::parser::ParseErrorV>(n)));
    assert(p_additive_rest(t, pos + 1, n) == (0nat, Ok::<AstV, crate::parser::ParseErrorV>(n)));
    assert(p_additive(t, pos) == (1nat, Ok::<AstV, crate::parser::ParseErrorV>(n)));
    lemma_comparison_rest_chain(t, pos, nums, ops, 0);
}

/// An identifier evaluates to the value its variable holds, and fails when
/// no variable of that name is in scope; the state is left as it is.
pub proof fn law_identifier_reads_its_variable(m: FloatModel, st: VmState, name: Seq<char>, budget: nat)
    ensures
        st.vars.contains_key(name) ==> (eval(m, st, AstV::Identifier(name), budget).1 matches Ok((v, _))
            && v == st.vars[name].0),
        !st.vars.contains_key(name) ==> eval(m, st, AstV::Identifier(name), budget).1 == Err::<(ValueV, Type), RunError>(RunError::VariableNotFound),
        eval(m, st, AstV::Identifier(name), budget).0 == st,
{
}

/// Whether `c` ends a number: it is neither a digit nor a dot.
pub open spec fn ends_number(c: char) -> bool {
    !('0' <= c && c <= '9') && c != '.'
}

/// Numbers are read in decimal, most significant digit first: one digit
/// `d` is the number `d`, and two digits `d e` are `10 * d + e`.
pub proof fn law_numbers_are_decimal(input: Seq<char>, pos: int, flit: spec_fn(Seq<char>) -> u64)
    requires
        0 <= pos < input.len(),
        '0' <= input[pos] <= '9',
    ensures
        ({
            let d = input[pos] as int - '0' as int;
            (pos + 1 == input.len() || ends_number(input[pos + 1])) ==> lex_token(input, pos, flit)
                == (pos + 1, Ok::<TokenV, LexError>(TokenV::Number(d as i32)))
        }),
        ({
            let d = input[pos] as int - '0' as int;
            let e = input[pos + 1] as int - '0' as int;
            (pos + 1 < input.len() && '0' <= input[pos + 1] <= '9' && (pos + 2 == input.len()
                || ends_number(input[pos + 2]))) ==> lex_token(input, pos, flit) == (
                pos + 2,
                Ok::<TokenV, LexError>(TokenV::Number((10 * d + e) as i32)),
            )
        }),
{
    assert(!unicode_whitespace(input[pos]));
    assert(crate::lexer::skip_ws(input, pos) == pos);
    reveal_with_fuel(crate::lexer::scan_number, 3);
    reveal_with_fuel(crate::lexer::decimal_value, 3);
    if pos + 1 == input.len() || ends_number(input[pos + 1]) {
        let text = input.subrange(pos, pos + 1);
        assert(text.drop_last() =~= Seq::<char>::empty());
    }
    if pos + 1 < input.len() && '0' <= input[pos + 1] <= '9' && (pos + 2 == input.len()
        || ends_number(input[pos + 2])) {
        let text = input.subrange(pos, pos + 2);
        assert(text.drop_last() =~= input.subrange(pos, pos + 1));
        assert(input.subrange(pos, pos + 1).drop_last() =~= Seq::<char>::empty());
    }
}

/// A `return` ends a block: the block gives the returned value, and the
/// statements after it are not run.
pub proof fn law_return_ends_a_block(m: FloatModel, st: VmState, v: i32, rest: Seq<AstV>, budget: nat)
    ensures
        exec_block(
            m,
            st,
            seq![AstV::Return { expression: Box::new(AstV::Number(v)) }] + rest,
            budget,
        ) == (st, Ok::<Option<(ValueV, Type)>, RunError>(Some((ValueV::Int(v), Type::Int)))),
{
    let stmts = seq![AstV::Return { expression: Box::new(AstV::Number(v)) }] + rest;
    assert(stmts[0] == AstV::Return { expression: Box::new(AstV::Number(v)) });
    assert(eval(m, st, AstV::Number(v), budget) == (
        st,
        Ok::<(ValueV, Type), RunError>((ValueV::Int(v), Type::Int)),
    ));
    assert(exec_stmt(m, st, stmts[0], budget) == (
        st,
        Ok::<Option<(ValueV, Type)>, RunError>(Some((ValueV::Int(v), Type::Int))),
    ));
}

/// An `if` whose condition is `true` runs its first branch: a declaration
/// there binds its name.
pub proof fn law_true_condition_runs_the_first_branch(
    m: FloatModel,
    st: VmState,
    name: Seq<char>,
    v: i32,
    other: Option<Seq<AstV>>,
    budget: nat,
)
    ensures
        ({
            let decl = AstV::LetDeclaration {
                identifier: name,
                var_type: Type::Int,
                expression: Box::new(AstV::Number(v)),
            };
            let (s, r) = exec_if(m, st, AstV::BooleanLiteral(true), seq![decl], other, budget);
            &&& r == Ok::<(), RunError>(())
            &&& s.vars == st.vars.insert(name, (ValueV::Int(v), Type::Int))
        }),
{
    let decl = AstV::LetDeclaration {
        identifier: name,
        var_type: Type::Int,
        expression: Box::new(AstV::Number(v)),
    };
    let s1 = exec_stmt(m, st, decl, budget).0;
    assert(exec_each(m, s1, seq![decl].drop_first(), budget) == (s1, Ok::<(), RunError>(()))) by {
        assert(seq![decl].drop_first().len() == 0);
    }
}

} // verus!
