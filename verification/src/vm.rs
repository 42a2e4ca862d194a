//! The virtual machine: runs a syntax tree.
//!
//! The machine holds the global variables, the order in which `let`
//! declarations ran, and the declared functions. Its behaviour is specified
//! by big-step functions over its view (`VmState`): each gives the state
//! after the step and the step's result. A step that fails leaves the state
//! that the specification gives for the point of failure.
//!
//! A call runs the function's body in a fresh environment holding only the
//! arguments, and gives the caller's variables back afterwards. Calls nest
//! at most `budget` deep; this bounds the recursion of the machine itself.
use vstd::prelude::*;

use crate::ast::{
    ASTNode, AstV, Type, ast_size, duplicate_names, duplicate_nodes, lemma_ast_size_positive,
    lemma_nodes_view_index, lemma_seq_size_element, names_view, nodes_view, seq_size,
};
use crate::floats::{FloatArith, FloatCompare, FloatModel, FloatOps};
use crate::table::Table;
use crate::token::{Token, TokenV};
use crate::value::{Value, ValueV, type_of};

verus! {

/// Why running a program failed.
#[derive(Clone, Copy, Debug, PartialEq, Eq, Structural)]
pub enum RunError {
    /// A call to a function that was never declared.
    FunctionNotFound,
    /// A call used for its value, from a function that gave none.
    NoReturnValue,
    /// A variable that was never declared.
    VariableNotFound,
    /// The two operands of an operator have different types.
    MixedTypes,
    /// An operator that the operands' values do not support.
    UnsupportedOperation,
    /// A function declaration where a value is needed.
    UnexpectedFunctionDeclaration,
    /// A node that gives no value.
    UnsupportedExpression,
    /// A `let` whose value has another type than the declared one.
    DeclaredTypeMismatch { expected: Type, found: Type },
    /// An `if` whose condition is not `true`: a `false` condition fails too.
    ConditionNotBoolean,
    /// A node that is no statement.
    UnsupportedStatement,
    /// An integer result outside the range of `i32`.
    IntegerOverflow,
    /// An integer division by zero.
    DivisionByZero,
    /// Calls nested deeper than the budget allows.
    CallDepthExceeded,
}

/// The view of the machine.
pub struct VmState {
    /// The variables in scope: each name to its value and type.
    pub vars: Map<Seq<char>, (ValueV, Type)>,
    /// The names that `let` declarations bound, in order, repeats included.
    pub order: Seq<Seq<char>>,
    /// The declared functions: each name to its parameters and body.
    pub funcs: Map<Seq<char>, (Seq<Seq<char>>, Seq<AstV>)>,
}

/// The same state with other variables.
pub open spec fn with_vars(st: VmState, vars: Map<Seq<char>, (ValueV, Type)>) -> VmState {
    VmState { vars, order: st.order, funcs: st.funcs }
}

// ---------------------------------------------------------------------------
// Specification
// ---------------------------------------------------------------------------

/// An integer result, or overflow.
pub open spec fn int_result(x: int) -> Result<(ValueV, Type), RunError> {
    if i32::MIN <= x <= i32::MAX {
        Ok((ValueV::Int(x as i32), Type::Int))
    } else {
        Err(RunError::IntegerOverflow)
    }
}

/// Integer division rounded toward zero, as `i32` division does.
pub open spec fn div_toward_zero(a: int, b: int) -> int {
    let q = (if a < 0 { -a } else { a }) / (if b < 0 { -b } else { b });
    if (a < 0) != (b < 0) {
        -q
    } else {
        q
    }
}

/// A boolean result.
pub open spec fn bool_result(b: bool) -> Result<(ValueV, Type), RunError> {
    Ok((ValueV::Bool(b), Type::Bool))
}

/// What an operator gives on two values.
pub open spec fn operator_result(m: FloatModel, lv: ValueV, rv: ValueV, op: TokenV) -> Result<
    (ValueV, Type),
    RunError,
> {
    match (lv, rv) {
        (ValueV::Int(l), ValueV::Int(r)) => match op {
            TokenV::Plus => int_result(l + r),
            TokenV::Minus => int_result(l - r),
            TokenV::Multiply => int_result(l * r),
            TokenV::Divide => if r == 0 {
                Err(RunError::DivisionByZero)
            } else {
                int_result(div_toward_zero(l as int, r as int))
            },
            TokenV::EqualEqual => bool_result(l == r),
            TokenV::NotEqual => bool_result(l != r),
            TokenV::Greater => bool_result(l > r),
            TokenV::GreaterEqual => bool_result(l >= r),
            TokenV::Less => bool_result(l < r),
            TokenV::LessEqual => bool_result(l <= r),
            _ => Err(RunError::UnsupportedOperation),
        },
        (ValueV::Float(l), ValueV::Float(r)) => match op {
            TokenV::Plus => Ok((ValueV::Float((m.arith)(FloatArith::Add, l, r)), Type::Float)),
            TokenV::Minus => Ok((ValueV::Float((m.arith)(FloatArith::Sub, l, r)), Type::Float)),
            TokenV::Multiply => Ok((ValueV::Float((m.arith)(FloatArith::Mul, l, r)), Type::Float)),
            TokenV::Divide => Ok((ValueV::Float((m.arith)(FloatArith::Div, l, r)), Type::Float)),
            TokenV::EqualEqual => bool_result((m.compare)(FloatCompare::Eq, l, r)),
            TokenV::NotEqual => bool_result((m.compare)(FloatCompare::Ne, l, r)),
            TokenV::Greater => bool_result((m.compare)(FloatCompare::Gt, l, r)),
            TokenV::GreaterEqual => bool_result((m.compare)(FloatCompare::Ge, l, r)),
            TokenV::Less => bool_result((m.compare)(FloatCompare::Lt, l, r)),
            TokenV::LessEqual => bool_result((m.compare)(FloatCompare::Le, l, r)),
            _ => Err(RunError::UnsupportedOperation),
        },
        (ValueV::Str(l), ValueV::Str(r)) => match op {
            TokenV::Plus => Ok((ValueV::Str(l + r), Type::String)),
            _ => Err(RunError::UnsupportedOperation),
        },
        _ => Err(RunError::UnsupportedOperation),
    }
}

/// The number of nodes in the parts of an `if`.
pub open spec fn if_size(cond: AstV, if_branch: Seq<AstV>, else_branch: Option<Seq<AstV>>) -> nat {
    ast_size(cond) + seq_size(if_branch) + match else_branch {
        Some(s) => seq_size(s),
        None => 0,
    }
}

/// Evaluating an expression: the state after it, and its value and type.
/// An identifier's value is reported with type `int`, whatever its value.
pub open spec fn eval(m: FloatModel, st: VmState, e: AstV, budget: nat) -> (
    VmState,
    Result<(ValueV, Type), RunError>,
)
    decreases budget, ast_size(e), 1nat,
{
    match e {
        AstV::Number(n) => (st, Ok((ValueV::Int(n), Type::Int))),
        AstV::FloatLiteral(b) => (st, Ok((ValueV::Float(b), Type::Float))),
        AstV::BooleanLiteral(b) => (st, Ok((ValueV::Bool(b), Type::Bool))),
        AstV::StringLiteral(s) => (st, Ok((ValueV::Str(s), Type::String))),
        AstV::Identifier(name) => if st.vars.contains_key(name) {
            (st, Ok((st.vars[name].0, Type::Int)))
        } else {
            (st, Err(RunError::VariableNotFound))
        },
        AstV::BinaryExpression { left, operator, right } => {
            let (s1, r1) = eval(m, st, *left, budget);
            match r1 {
                Err(err) => (s1, Err(err)),
                Ok((lv, lt)) => {
                    let (s2, r2) = eval(m, s1, *right, budget);
                    match r2 {
                        Err(err) => (s2, Err(err)),
                        Ok((rv, rt)) => if lt != rt {
                            (s2, Err(RunError::MixedTypes))
                        } else {
                            (s2, operator_result(m, lv, rv, operator))
                        },
                    }
                },
            }
        },
        AstV::FunctionCall { name, arguments } => {
            let (s1, r) = call(m, st, name, arguments, budget);
            (
                s1,
                match r {
                    Ok(Some(v)) => Ok(v),
                    Ok(None) => Err(RunError::NoReturnValue),
                    Err(err) => Err(err),
                },
            )
        },
        AstV::FunctionDeclaration { .. } => (st, Err(RunError::UnexpectedFunctionDeclaration)),
        AstV::Return { expression } => eval(m, st, *expression, budget),
        _ => (st, Err(RunError::UnsupportedExpression)),
    }
}

/// Evaluating arguments into a function's fresh environment `locals`, pair by
/// pair while both lists last; a repeated parameter keeps the last value.
pub open spec fn eval_arguments(
    m: FloatModel,
    st: VmState,
    params: Seq<Seq<char>>,
    args: Seq<AstV>,
    locals: Map<Seq<char>, (ValueV, Type)>,
    budget: nat,
) -> (VmState, Result<Map<Seq<char>, (ValueV, Type)>, RunError>)
    decreases budget, seq_size(args), 2nat,
{
    if params.len() == 0 || args.len() == 0 {
        (st, Ok(locals))
    } else {
        let (s1, r) = eval(m, st, args[0], budget);
        match r {
            Err(err) => (s1, Err(err)),
            Ok(v) => {
                proof {
                    lemma_ast_size_positive(args[0]);
                }
                eval_arguments(
                m,
                s1,
                params.drop_first(),
                args.drop_first(),
                locals.insert(params[0], v),
                budget,
            )
            },
        }
    }
}

/// Calling `name`: the state after the call, and the value that a `return`
/// in the body gave, if any. The caller's variables are given back.
pub open spec fn call(
    m: FloatModel,
    st: VmState,
    name: Seq<char>,
    args: Seq<AstV>,
    budget: nat,
) -> (VmState, Result<Option<(ValueV, Type)>, RunError>)
    decreases budget, seq_size(args), 3nat,
{
    if !st.funcs.contains_key(name) {
        (st, Err(RunError::FunctionNotFound))
    } else {
        let (params, body) = st.funcs[name];
        let (s1, r) = eval_arguments(m, st, params, args, Map::empty(), budget);
        match r {
            Err(err) => (s1, Err(err)),
            Ok(locals) => if budget == 0 {
                (s1, Err(RunError::CallDepthExceeded))
            } else {
                let (s2, r2) = exec_block(m, with_vars(s1, locals), body, (budget - 1) as nat);
                (with_vars(s2, s1.vars), r2)
            },
        }
    }
}

/// Running a statement: the state after it, and the value it gives, if any
/// (a `return`, or a call used as a statement).
pub open spec fn exec_stmt(m: FloatModel, st: VmState, s: AstV, budget: nat) -> (
    VmState,
    Result<Option<(ValueV, Type)>, RunError>,
)
    decreases budget, ast_size(s), 1nat,
{
    match s {
        AstV::Program(stmts) => exec_block(m, st, stmts, budget),
        AstV::LetDeclaration { identifier, var_type, expression } => {
            let (s1, r) = eval(m, st, *expression, budget);
            match r {
                Err(err) => (s1, Err(err)),
                Ok((v, t)) => if var_type != t {
                    (s1, Err(RunError::DeclaredTypeMismatch { expected: var_type, found: t }))
                } else {
                    (
                        VmState {
                            vars: s1.vars.insert(identifier, (v, t)),
                            order: s1.order.push(identifier),
                            funcs: s1.funcs,
                        },
                        Ok(None),
                    )
                },
            }
        },
        AstV::FunctionDeclaration { name, parameters, body } => (
            VmState { vars: st.vars, order: st.order, funcs: st.funcs.insert(name, (parameters, body)) },
            Ok(None),
        ),
        AstV::FunctionCall { name, arguments } => {
            let (s1, r) = call(m, st, name, arguments, budget);
            (
                s1,
                match r {
                    Ok(Some(v)) => Ok(Some(v)),
                    Ok(None) => Err(RunError::NoReturnValue),
                    Err(err) => Err(err),
                },
            )
        },
        AstV::Return { expression } => {
            let (s1, r) = eval(m, st, *expression, budget);
            (
                s1,
                match r {
                    Ok(v) => Ok(Some(v)),
                    Err(err) => Err(err),
                },
            )
        },
        AstV::IfElse { condition, if_branch, else_branch } => {
            let (s1, r) = exec_if(m, st, *condition, if_branch, else_branch, budget);
            (
                s1,
                match r {
                    Ok(()) => Ok(None),
                    Err(err) => Err(err),
                },
            )
        },
        _ => (st, Err(RunError::UnsupportedStatement)),
    }
}

/// Running statements in order until one gives a value.
pub open spec fn exec_block(m: FloatModel, st: VmState, stmts: Seq<AstV>, budget: nat) -> (
    VmState,
    Result<Option<(ValueV, Type)>, RunError>,
)
    decreases budget, seq_size(stmts), 2nat,
{
    if stmts.len() == 0 {
        (st, Ok(None))
    } else {
        let (s1, r) = exec_stmt(m, st, stmts[0], budget);
        match r {
            Err(err) => (s1, Err(err)),
            Ok(Some(v)) => (s1, Ok(Some(v))),
            Ok(None) => {
                proof {
                    lemma_ast_size_positive(stmts[0]);
                }
                exec_block(m, s1, stmts.drop_first(), budget)
            },
        }
    }
}

/// Running every statement in order; the values they give are dropped.
pub open spec fn exec_each(m: FloatModel, st: VmState, stmts: Seq<AstV>, budget: nat) -> (
    VmState,
    Result<(), RunError>,
)
    decreases budget, seq_size(stmts), 2nat,
{
    if stmts.len() == 0 {
        (st, Ok(()))
    } else {
        let (s1, r) = exec_stmt(m, st, stmts[0], budget);
        match r {
            Err(err) => (s1, Err(err)),
            Ok(_) => {
                proof {
                    lemma_ast_size_positive(stmts[0]);
                }
                exec_each(m, s1, stmts.drop_first(), budget)
            },
        }
    }
}

/// Running an `if`: a `true` condition runs the first branch; any other
/// value, `false` included, fails. The other branch never runs.
pub open spec fn exec_if(
    m: FloatModel,
    st: VmState,
    cond: AstV,
    if_branch: Seq<AstV>,
    else_branch: Option<Seq<AstV>>,
    budget: nat,
) -> (VmState, Result<(), RunError>)
    decreases budget, if_size(cond, if_branch, else_branch), 2nat,
{
    let (s1, r) = eval(m, st, cond, budget);
    match r {
        Err(err) => (s1, Err(err)),
        Ok((v, _)) => match v {
            ValueV::Bool(true) => exec_each(m, s1, if_branch, budget),
            _ => (s1, Err(RunError::ConditionNotBoolean)),
        },
    }
}


// ---------------------------------------------------------------------------
// Views of results
// ---------------------------------------------------------------------------

/// The view of an evaluation result.
pub open spec fn value_result(r: Result<(Value, Type), RunError>) -> Result<(ValueV, Type), RunError> {
    match r {
        Ok((v, t)) => Ok((v@, t)),
        Err(e) => Err(e),
    }
}

/// The view of a statement's result.
pub open spec fn statement_result(r: Result<Option<(Value, Type)>, RunError>) -> Result<
    Option<(ValueV, Type)>,
    RunError,
> {
    match r {
        Ok(Some((v, t))) => Ok(Some((v@, t))),
        Ok(None) => Ok(None),
        Err(e) => Err(e),
    }
}

// ---------------------------------------------------------------------------
// Operators
// ---------------------------------------------------------------------------

/// An integer result, or overflow.
fn checked_int(x: Option<i32>) -> (r: Result<(Value, Type), RunError>)
    ensures
        r == match x {
            Some(v) => Ok::<(Value, Type), RunError>((Value::Int(v), Type::Int)),
            None => Err(RunError::IntegerOverflow),
        },
{
    match x {
        Some(v) => Ok((Value::Int(v), Type::Int)),
        None => Err(RunError::IntegerOverflow),
    }
}

/// What an operator gives on two values.
pub fn apply_operator<
    A: Fn(FloatArith, u64, u64) -> u64,
    C: Fn(FloatCompare, u64, u64) -> bool,
>(floats: &FloatOps<A, C>, left: Value, right: Value, operator: Token) -> (r: Result<
    (Value, Type),
    RunError,
>)
    requires
        floats.well_behaved(),
    ensures
        value_result(r) == operator_result(floats.model(), left@, right@, operator@),
{
    match (left, right) {
        (Value::Int(l), Value::Int(r)) => match operator {
            Token::Plus => checked_int(l.checked_add(r)),
            Token::Minus => checked_int(l.checked_sub(r)),
            Token::Multiply => checked_int(l.checked_mul(r)),
            Token::Divide => {
                if r == 0 {
                    Err(RunError::DivisionByZero)
                } else {
                    let q = l.checked_div(r);
                    proof {
                        let a = l as int;
                        let b = r as int;
                        if a == 0 {
                            assert(0int / (if b < 0 { -b } else { b }) == 0) by (nonlinear_arith)
                                requires b != 0;
                        }
                    }
                    checked_int(q)
                }
            },
            Token::EqualEqual => Ok((Value::Bool(l == r), Type::Bool)),
            Token::NotEqual => Ok((Value::Bool(l != r), Type::Bool)),
            Token::Greater => Ok((Value::Bool(l > r), Type::Bool)),
            Token::GreaterEqual => Ok((Value::Bool(l >= r), Type::Bool)),
            Token::Less => Ok((Value::Bool(l < r), Type::Bool)),
            Token::LessEqual => Ok((Value::Bool(l <= r), Type::Bool)),
            _ => Err(RunError::UnsupportedOperation),
        },
        (Value::Float(l), Value::Float(r)) => match operator {
            Token::Plus => Ok((Value::Float(floats.apply_arith(FloatArith::Add, l, r)), Type::Float)),
            Token::Minus => Ok((Value::Float(floats.apply_arith(FloatArith::Sub, l, r)), Type::Float)),
            Token::Multiply => Ok(
                (Value::Float(floats.apply_arith(FloatArith::Mul, l, r)), Type::Float),
            ),
            Token::Divide => Ok((Value::Float(floats.apply_arith(FloatArith::Div, l, r)), Type::Float)),
            Token::EqualEqual => Ok(
                (Value::Bool(floats.apply_compare(FloatCompare::Eq, l, r)), Type::Bool),
            ),
            Token::NotEqual => Ok(
                (Value::Bool(floats.apply_compare(FloatCompare::Ne, l, r)), Type::Bool),
            ),
            Token::Greater => Ok(
                (Value::Bool(floats.apply_compare(FloatCompare::Gt, l, r)), Type::Bool),
            ),
            Token::GreaterEqual => Ok(
                (Value::Bool(floats.apply_compare(FloatCompare::Ge, l, r)), Type::Bool),
            ),
            Token::Less => Ok(
                (Value::Bool(floats.apply_compare(FloatCompare::Lt, l, r)), Type::Bool),
            ),
            Token::LessEqual => Ok(
                (Value::Bool(floats.apply_compare(FloatCompare::Le, l, r)), Type::Bool),
            ),
            _ => Err(RunError::UnsupportedOperation),
        },
        (Value::String(l), Value::String(r)) => match operator {
            Token::Plus => {
                let mut joined = l;
                joined.append(r.as_str());
                Ok((Value::String(joined), Type::String))
            },
            _ => Err(RunError::UnsupportedOperation),
        },
        _ => Err(RunError::UnsupportedOperation),
    }
}



/// Whether two values are equal: numbers, booleans and strings by value,
/// floats by the float comparison `Eq`; values of different kinds never.
pub open spec fn values_equal(m: FloatModel, a: ValueV, b: ValueV) -> bool {
    match (a, b) {
        (ValueV::Int(x), ValueV::Int(y)) => x == y,
        (ValueV::Float(x), ValueV::Float(y)) => (m.compare)(FloatCompare::Eq, x, y),
        (ValueV::Bool(x), ValueV::Bool(y)) => x == y,
        (ValueV::Str(x), ValueV::Str(y)) => x == y,
        _ => false,
    }
}

/// The outcome of checking a variable against an expected value and type.
#[derive(Debug)]
pub enum VariableCheck {
    /// The variable has the expected value and type.
    Passed,
    /// The variable has another value or type; this is its value.
    Failed(Value),
    /// No such variable.
    Missing,
}

/// Whether two values are equal, as `values_equal` says.
pub fn value_equals<A: Fn(FloatArith, u64, u64) -> u64, C: Fn(FloatCompare, u64, u64) -> bool>(
    floats: &FloatOps<A, C>,
    a: &Value,
    b: &Value,
) -> (r: bool)
    requires
        floats.well_behaved(),
    ensures
        r == values_equal(floats.model(), a@, b@),
{
    match (a, b) {
        (Value::Int(x), Value::Int(y)) => *x == *y,
        (Value::Float(x), Value::Float(y)) => floats.apply_compare(FloatCompare::Eq, *x, *y),
        (Value::Bool(x), Value::Bool(y)) => *x == *y,
        (Value::String(x), Value::String(y)) => *x == *y,
        _ => false,
    }
}

// ---------------------------------------------------------------------------
// The machine
// ---------------------------------------------------------------------------

/// A declared function: its parameters and its body.
pub struct FunctionDef {
    pub parameters: Vec<String>,
    pub body: Vec<Box<ASTNode>>,
}

impl View for FunctionDef {
    type V = (Seq<Seq<char>>, Seq<AstV>);

    open spec fn view(&self) -> (Seq<Seq<char>>, Seq<AstV>) {
        (names_view(self.parameters@), nodes_view(self.body@))
    }
}

/// The virtual machine.
pub struct MiniLangVM {
    variables: Table<(Value, Type)>,
    variable_order: Vec<String>,
    functions: Table<FunctionDef>,
}

impl View for MiniLangVM {
    type V = VmState;

    closed spec fn view(&self) -> VmState {
        VmState {
            vars: self.variables@,
            order: names_view(self.variable_order@),
            funcs: self.functions@,
        }
    }
}

impl MiniLangVM {
    /// A machine with no variables and no functions.
    pub fn new() -> (vm: MiniLangVM)
        ensures
            vm@ == (VmState {
                vars: Map::empty(),
                order: Seq::empty(),
                funcs: Map::empty(),
            }),
    {
        let vm = MiniLangVM {
            variables: Table::new(),
            variable_order: Vec::new(),
            functions: Table::new(),
        };
        assert(names_view(vm.variable_order@) =~= Seq::<Seq<char>>::empty());
        vm
    }

    /// The variables in scope, with their values and types.
    pub fn variables(&self) -> (t: &Table<(Value, Type)>)
        ensures
            t@ == self@.vars,
    {
        &self.variables
    }

    /// The names that `let` declarations bound, in order.
    pub fn variable_order(&self) -> (v: &Vec<String>)
        ensures
            names_view(v@) == self@.order,
    {
        &self.variable_order
    }

    /// Checks the variable `name` against an expected value and type.
    pub fn assert_variable<
        A: Fn(FloatArith, u64, u64) -> u64,
        C: Fn(FloatCompare, u64, u64) -> bool,
    >(&self, name: &String, expected_value: Value, expected_type: Type, floats: &FloatOps<A, C>) -> (r:
        VariableCheck)
        requires
            floats.well_behaved(),
        ensures
            match r {
                VariableCheck::Passed => self@.vars.contains_key(name@) && values_equal(
                    floats.model(),
                    self@.vars[name@].0,
                    expected_value@,
                ) && self@.vars[name@].1 == expected_type,
                VariableCheck::Failed(found) => self@.vars.contains_key(name@) && !(values_equal(
                    floats.model(),
                    self@.vars[name@].0,
                    expected_value@,
                ) && self@.vars[name@].1 == expected_type) && found@ == self@.vars[name@].0,
                VariableCheck::Missing => !self@.vars.contains_key(name@),
            },
    {
        match self.variables.get(name) {
            Some(entry) => {
                if value_equals(floats, &entry.0, &expected_value) && entry.1 == expected_type {
                    VariableCheck::Passed
                } else {
                    VariableCheck::Failed(entry.0.duplicate())
                }
            },
            None => VariableCheck::Missing,
        }
    }

    /// The type of a value.
    pub fn determine_type(&self, value: &Value) -> (t: Type)
        ensures
            t == type_of(value@),
    {
        match value {
            Value::Int(_) => Type::Int,
            Value::Float(_) => Type::Float,
            Value::Bool(_) => Type::Bool,
            Value::String(_) => Type::String,
        }
    }

    /// Evaluates an expression.
    /// Input on which `evaluate_expression` may not be called is answered with an
    /// error, which the contract names exactly.
    pub fn try_evaluate_expression<
        A: Fn(FloatArith, u64, u64) -> u64,
        C: Fn(FloatCompare, u64, u64) -> bool,
    >(&mut self, expression: ASTNode, floats: &FloatOps<A, C>, budget: usize) -> (r: Result<
        (Value, Type),
        RunError,
    >)
        requires
            floats.well_behaved(),
        ensures
            (final(self)@, value_result(r)) == eval(
                floats.model(),
                old(self)@,
                expression@,
                budget as nat,
            ),
        decreases budget, ast_size(expression@), 1nat,
    {
        match expression {
            ASTNode::Number(value) => Ok((Value::Int(value), Type::Int)),
            ASTNode::FloatLiteral(value) => Ok((Value::Float(value), Type::Float)),
            ASTNode::BooleanLiteral(value) => Ok((Value::Bool(value), Type::Bool)),
            ASTNode::StringLiteral(value) => Ok((Value::String(value), Type::String)),
            ASTNode::Identifier(name) => {
                let value = match self.variables.get(&name) {
                    Some(entry) => entry.0.duplicate(),
                    None => return Err(RunError::VariableNotFound),
                };
                let _expr_type = self.determine_type(&value);
                Ok((value, Type::Int))
            },
            ASTNode::BinaryExpression { left, operator, right } => {
                let (left_value, left_type) = match self.try_evaluate_expression(*left, floats, budget) {
                    Ok(v) => v,
                    Err(e) => return Err(e),
                };
                let (right_value, right_type) = match self.try_evaluate_expression(
                    *right,
                    floats,
                    budget,
                ) {
                    Ok(v) => v,
                    Err(e) => return Err(e),
                };
                if left_type != right_type {
                    return Err(RunError::MixedTypes);
                }
                apply_operator(floats, left_value, right_value, operator)
            },
            ASTNode::FunctionCall { name, arguments } => {
                match self.try_execute_function_call(name, arguments, floats, budget) {
                    Ok(Some(result)) => Ok(result),
                    Ok(None) => Err(RunError::NoReturnValue),
                    Err(e) => Err(e),
                }
            },
            ASTNode::FunctionDeclaration { .. } => Err(RunError::UnexpectedFunctionDeclaration),
            ASTNode::Return { expression } => self.try_evaluate_expression(*expression, floats, budget),
            _ => Err(RunError::UnsupportedExpression),
        }
    }

    /// Calls the function `name` with `arguments`: evaluates the arguments,
    /// runs the body in an environment holding only them, and gives the
    /// caller's variables back.
    /// Input on which `execute_function_call` may not be called is answered with an
    /// error, which the contract names exactly.
    pub fn try_execute_function_call<
        A: Fn(FloatArith, u64, u64) -> u64,
        C: Fn(FloatCompare, u64, u64) -> bool,
    >(
        &mut self,
        name: String,
        arguments: Vec<Box<ASTNode>>,
        floats: &FloatOps<A, C>,
        budget: usize,
    ) -> (r: Result<Option<(Value, Type)>, RunError>)
        requires
            floats.well_behaved(),
        ensures
            (final(self)@, statement_result(r)) == call(
                floats.model(),
                old(self)@,
                name@,
                nodes_view(arguments@),
                budget as nat,
            ),
        decreases budget, seq_size(nodes_view(arguments@)), 3nat,
    {
        let ghost m = floats.model();
        let ghost st0 = self@;
        let ghost args = nodes_view(arguments@);
        let (parameters, body) = match self.functions.get(&name) {
            Some(f) => (duplicate_names(&f.parameters), duplicate_nodes(&f.body)),
            None => return Err(RunError::FunctionNotFound),
        };
        let ghost params = names_view(parameters@);
        let mut local_variables: Table<(Value, Type)> = Table::new();
        let count = if parameters.len() < arguments.len() {
            parameters.len()
        } else {
            arguments.len()
        };
        let ghost body_view = nodes_view(body@);
        let mut pending = arguments;
        proof {
            lemma_nodes_view_index(pending@);
            assert(params.skip(0) =~= params);
            assert(args.skip(0) =~= args);
        }
        pending.truncate(count);
        let mut i: usize = 0;
        for argument in it: pending.into_iter()
            invariant
                floats.well_behaved(),
                m == floats.model(),
                i == it.index(),
                args == nodes_view(arguments@),
                st0 == old(self)@,
                st0.funcs.contains_key(name@),
                st0.funcs[name@] == (params, body_view),
                body_view == nodes_view(body@),
                count <= parameters.len(),
                count <= args.len(),
                it.seq().len() == count,
                params == names_view(parameters@),
                params.len() == parameters.len(),
                forall|j: int| 0 <= j < count ==> (#[trigger] it.seq()[j])@ == args[j],
                eval_arguments(m, st0, params, args, Map::empty(), budget as nat) == eval_arguments(
                    m,
                    self@,
                    params.skip(i as int),
                    args.skip(i as int),
                    local_variables@,
                    budget as nat,
                ),
        {
            proof {
                lemma_seq_size_element(args, i as int);
                assert(params.skip(i as int).drop_first() =~= params.skip(i + 1));
                assert(args.skip(i as int).drop_first() =~= args.skip(i + 1));
            }
            let (value, value_type) = match self.try_evaluate_expression(*argument, floats, budget) {
                Ok(v) => v,
                Err(e) => return Err(e),
            };
            local_variables.insert(parameters[i].clone(), (value, value_type));
            i = i + 1;
        }
        proof {
            assert(params.skip(i as int).len() == 0 || args.skip(i as int).len() == 0);
        }
        if budget == 0 {
            return Err(RunError::CallDepthExceeded);
        }
        let ghost s1 = self@;
        let ghost locals = local_variables@;
        let mut saved = local_variables;
        std::mem::swap(&mut saved, &mut self.variables);
        let ghost stmts = nodes_view(body@);
        let ghost block = exec_block(m, with_vars(s1, locals), stmts, (budget - 1) as nat);
        proof {
            assert(call(m, st0, name@, args, budget as nat) == (with_vars(block.0, s1.vars), block.1));
            lemma_nodes_view_index(body@);
            assert(stmts.skip(0) =~= stmts);
        }
        for statement in it: body.into_iter()
            invariant
                floats.well_behaved(),
                m == floats.model(),
                budget > 0,
                saved@ == s1.vars,
                call(m, st0, name@, args, budget as nat) == (with_vars(block.0, s1.vars), block.1),
                block == exec_block(m, with_vars(s1, locals), stmts, (budget - 1) as nat),
                st0 == old(self)@,
                args == nodes_view(arguments@),
                it.seq().len() == stmts.len(),
                forall|j: int| 0 <= j < stmts.len() ==> (#[trigger] it.seq()[j])@ == stmts[j],
                exec_block(m, with_vars(s1, locals), stmts, (budget - 1) as nat) == exec_block(
                    m,
                    self@,
                    stmts.skip(it.index() as int),
                    (budget - 1) as nat,
                ),
        {
            let ghost k = it.index() as int;
            proof {
                assert(stmts.skip(k).drop_first() =~= stmts.skip(k + 1));
                assert((*statement)@ == stmts[k]);
            }
            match self.try_run(*statement, floats, budget - 1) {
                Ok(Some(result)) => {
                    self.variables = saved;
                    return Ok(Some(result));
                },
                Ok(None) => {},
                Err(e) => {
                    self.variables = saved;
                    return Err(e);
                },
            }
        }
        self.variables = saved;
        Ok(None)
    }

    /// Runs an `if`: a `true` condition runs the first branch, dropping what
    /// its statements give; any other value, `false` included, fails. The
    /// `else_branch` is never run.
    /// Input on which `execute_if_else` may not be called is answered with an
    /// error, which the contract names exactly.
    pub fn try_execute_if_else<
        A: Fn(FloatArith, u64, u64) -> u64,
        C: Fn(FloatCompare, u64, u64) -> bool,
    >(
        &mut self,
        condition: ASTNode,
        if_branch: Vec<Box<ASTNode>>,
        else_branch: Option<Vec<Box<ASTNode>>>,
        floats: &FloatOps<A, C>,
        budget: usize,
    ) -> (r: Result<(), RunError>)
        requires
            floats.well_behaved(),
        ensures
            (final(self)@, r) == exec_if(
                floats.model(),
                old(self)@,
                condition@,
                nodes_view(if_branch@),
                match else_branch {
                    Some(v) => Some(nodes_view(v@)),
                    None => None,
                },
                budget as nat,
            ),
        decreases budget, if_size(
            condition@,
            nodes_view(if_branch@),
            match else_branch {
                Some(v) => Some(nodes_view(v@)),
                None => None,
            },
        ), 2nat,
    {
        let ghost m = floats.model();
        let ghost stmts = nodes_view(if_branch@);
        let (condition_value, _) = match self.try_evaluate_expression(condition, floats, budget) {
            Ok(v) => v,
            Err(e) => return Err(e),
        };
        match condition_value {
            Value::Bool(true) => {
                proof {
                    lemma_nodes_view_index(if_branch@);
                    lemma_ast_size_positive(condition@);
                    assert(stmts.skip(0) =~= stmts);
                }
                let ghost s1 = self@;
                assert(exec_if(
                    m,
                    old(self)@,
                    condition@,
                    stmts,
                    match else_branch {
                        Some(v) => Some(nodes_view(v@)),
                        None => None,
                    },
                    budget as nat,
                ) == exec_each(m, s1, stmts, budget as nat));
                for stmt in it: if_branch.into_iter()
                    invariant
                        floats.well_behaved(),
                        m == floats.model(),
                        stmts == nodes_view(if_branch@),
                        seq_size(stmts) < if_size(
                            condition@,
                            nodes_view(if_branch@),
                            match else_branch {
                                Some(v) => Some(nodes_view(v@)),
                                None => None,
                            },
                        ),
                        exec_if(
                            m,
                            old(self)@,
                            condition@,
                            stmts,
                            match else_branch {
                                Some(v) => Some(nodes_view(v@)),
                                None => None,
                            },
                            budget as nat,
                        ) == exec_each(m, s1, stmts, budget as nat),
                        it.seq().len() == stmts.len(),
                        forall|j: int| 0 <= j < stmts.len() ==> (#[trigger] it.seq()[j])@ == stmts[j],
                        exec_each(m, s1, stmts, budget as nat) == exec_each(
                            m,
                            self@,
                            stmts.skip(it.index() as int),
                            budget as nat,
                        ),
                {
                    let ghost k = it.index() as int;
                    proof {
                        assert(stmts.skip(k).drop_first() =~= stmts.skip(k + 1));
                        lemma_seq_size_element(stmts, k);
                        assert((*stmt)@ == stmts[k]);
                    }
                    match self.try_run(*stmt, floats, budget) {
                        Ok(_) => {},
                        Err(e) => return Err(e),
                    }
                }
                Ok(())
            },
            _ => Err(RunError::ConditionNotBoolean),
        }
    }

    /// Runs a statement, or a whole program. Gives the value of a `return`
    /// or of a call used as a statement; a program stops at the first
    /// statement that gives one.
    /// Input on which `run` may not be called is answered with an
    /// error, which the contract names exactly.
    pub fn try_run<A: Fn(FloatArith, u64, u64) -> u64, C: Fn(FloatCompare, u64, u64) -> bool>(
        &mut self,
        ast: ASTNode,
        floats: &FloatOps<A, C>,
        budget: usize,
    ) -> (r: Result<Option<(Value, Type)>, RunError>)
        requires
            floats.well_behaved(),
        ensures
            (final(self)@, statement_result(r)) == exec_stmt(
                floats.model(),
                old(self)@,
                ast@,
                budget as nat,
            ),
        decreases budget, ast_size(ast@), 1nat,
    {
        let ghost m = floats.model();
        let ghost whole = ast@;
        match ast {
            ASTNode::Program(statements) => {
                let ghost stmts = nodes_view(statements@);
                proof {
                    lemma_nodes_view_index(statements@);
                    assert(stmts.skip(0) =~= stmts);
                }
                let ghost s0 = self@;
                for statement in it: statements.into_iter()
                    invariant
                        floats.well_behaved(),
                        m == floats.model(),
                        it.seq().len() == stmts.len(),
                        forall|j: int| 0 <= j < stmts.len() ==> (#[trigger] it.seq()[j])@ == stmts[j],
                        exec_block(m, s0, stmts, budget as nat) == exec_block(
                            m,
                            self@,
                            stmts.skip(it.index() as int),
                            budget as nat,
                        ),
                        whole == AstV::Program(stmts),
                        whole == ast@,
                        s0 == old(self)@,
                {
                    let ghost k = it.index() as int;
                    proof {
                        assert(stmts.skip(k).drop_first() =~= stmts.skip(k + 1));
                        lemma_seq_size_element(stmts, k);
                        assert((*statement)@ == stmts[k]);
                        assert(ast_size((*statement)@) < ast_size(whole));
                    }
                    match self.try_run(*statement, floats, budget) {
                        Ok(Some(result)) => return Ok(Some(result)),
                        Ok(None) => {},
                        Err(e) => return Err(e),
                    }
                }
                Ok(None)
            },
            ASTNode::LetDeclaration { identifier, var_type, expression } => {
                let (value, expr_type) = match self.try_evaluate_expression(*expression, floats, budget) {
                    Ok(v) => v,
                    Err(e) => return Err(e),
                };
                if var_type != expr_type {
                    return Err(RunError::DeclaredTypeMismatch { expected: var_type, found: expr_type });
                }
                self.variables.insert(identifier.clone(), (value, expr_type));
                let ghost order = names_view(self.variable_order@);
                let ghost id = identifier@;
                self.variable_order.push(identifier);
                assert(names_view(self.variable_order@) =~= order.push(id));
                Ok(None)
            },
            ASTNode::FunctionDeclaration { name, parameters, body } => {
                self.functions.insert(name, FunctionDef { parameters, body });
                Ok(None)
            },
            ASTNode::FunctionCall { name, arguments } => {
                match self.try_execute_function_call(name, arguments, floats, budget) {
                    Ok(Some(result)) => Ok(Some(result)),
                    Ok(None) => Err(RunError::NoReturnValue),
                    Err(e) => Err(e),
                }
            },
            ASTNode::Return { expression } => {
                match self.try_evaluate_expression(*expression, floats, budget) {
                    Ok(v) => Ok(Some(v)),
                    Err(e) => Err(e),
                }
            },
            ASTNode::IfElse { condition, if_branch, else_branch } => {
                match self.try_execute_if_else(*condition, if_branch, else_branch, floats, budget) {
                    Ok(()) => Ok(None),
                    Err(e) => Err(e),
                }
            },
            _ => Err(RunError::UnsupportedStatement),
        }
    }
    /// Evaluates an expression. The evaluation must succeed within `budget`
    /// nested calls; `try_evaluate_expression` answers any other expression
    /// with an error.
    pub fn evaluate_expression<
        A: Fn(FloatArith, u64, u64) -> u64,
        C: Fn(FloatCompare, u64, u64) -> bool,
    >(&mut self, expression: ASTNode, floats: &FloatOps<A, C>, budget: usize) -> (r: (
        Value,
        Type,
    ))
        requires
            floats.well_behaved(),
            eval(floats.model(), old(self)@, expression@, budget as nat).1 is Ok,
        ensures
            (final(self)@, value_result(Ok(r))) == eval(
                floats.model(),
                old(self)@,
                expression@,
                budget as nat,
            ),
    {
        match self.try_evaluate_expression(expression, floats, budget) {
            Ok(r) => r,
            Err(_) => {
                proof {
                    assert(false);
                }
                (Value::Int(0), Type::Int)
            },
        }
    }

    /// Calls the function `name` with `arguments`, which must succeed within
    /// `budget` nested calls; `try_execute_function_call` answers any other
    /// call with an error.
    pub fn execute_function_call<
        A: Fn(FloatArith, u64, u64) -> u64,
        C: Fn(FloatCompare, u64, u64) -> bool,
    >(
        &mut self,
        name: String,
        arguments: Vec<Box<ASTNode>>,
        floats: &FloatOps<A, C>,
        budget: usize,
    ) -> (r: Option<(Value, Type)>)
        requires
            floats.well_behaved(),
            call(floats.model(), old(self)@, name@, nodes_view(arguments@), budget as nat).1 is Ok,
        ensures
            (final(self)@, statement_result(Ok(r))) == call(
                floats.model(),
                old(self)@,
                name@,
                nodes_view(arguments@),
                budget as nat,
            ),
    {
        match self.try_execute_function_call(name, arguments, floats, budget) {
            Ok(r) => r,
            Err(_) => {
                proof {
                    assert(false);
                }
                None
            },
        }
    }

    /// Runs an `if`, which must succeed within `budget` nested calls;
    /// `try_execute_if_else` answers any other with an error.
    pub fn execute_if_else<
        A: Fn(FloatArith, u64, u64) -> u64,
        C: Fn(FloatCompare, u64, u64) -> bool,
    >(
        &mut self,
        condition: ASTNode,
        if_branch: Vec<Box<ASTNode>>,
        else_branch: Option<Vec<Box<ASTNode>>>,
        floats: &FloatOps<A, C>,
        budget: usize,
    )
        requires
            floats.well_behaved(),
            exec_if(
                floats.model(),
                old(self)@,
                condition@,
                nodes_view(if_branch@),
                match else_branch {
                    Some(v) => Some(nodes_view(v@)),
                    None => None,
                },
                budget as nat,
            ).1 is Ok,
        ensures
            final(self)@ == exec_if(
                floats.model(),
                old(self)@,
                condition@,
                nodes_view(if_branch@),
                match else_branch {
                    Some(v) => Some(nodes_view(v@)),
                    None => None,
                },
                budget as nat,
            ).0,
    {
        let _ = self.try_execute_if_else(condition, if_branch, else_branch, floats, budget);
    }

    /// Runs a statement, or a whole program, which must succeed within
    /// `budget` nested calls; `try_run` answers any other with an error.
    pub fn run<A: Fn(FloatArith, u64, u64) -> u64, C: Fn(FloatCompare, u64, u64) -> bool>(
        &mut self,
        ast: ASTNode,
        floats: &FloatOps<A, C>,
        budget: usize,
    ) -> (r: Option<(Value, Type)>)
        requires
            floats.well_behaved(),
            exec_stmt(floats.model(), old(self)@, ast@, budget as nat).1 is Ok,
        ensures
            (final(self)@, statement_result(Ok(r))) == exec_stmt(
                floats.model(),
                old(self)@,
                ast@,
                budget as nat,
            ),
    {
        match self.try_run(ast, floats, budget) {
            Ok(r) => r,
            Err(_) => {
                proof {
                    assert(false);
                }
                None
            },
        }
    }
}

} // verus!
