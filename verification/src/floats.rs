//! Floating-point semantics, supplied by the caller.
//!
//! The language has `float` values. The library holds a float as the bit
//! pattern of an IEEE-754 double (`u64`) and leaves the arithmetic itself to
//! functions that the caller hands in: one that turns the text of a float
//! literal into its bit pattern, one for `+ - * /` and one for the six
//! comparisons. Contracts are stated over the mathematical function that each
//! of them computes; the only thing asked of them is that they accept every
//! input and answer the same for the same input.
use vstd::prelude::*;

verus! {

/// A float arithmetic operation.
#[derive(Clone, Copy, Debug, PartialEq, Eq, Structural)]
pub enum FloatArith {
    Add,
    Sub,
    Mul,
    Div,
}

/// A float comparison.
#[derive(Clone, Copy, Debug, PartialEq, Eq, Structural)]
pub enum FloatCompare {
    Eq,
    Ne,
    Gt,
    Ge,
    Lt,
    Le,
}

/// The float semantics as mathematical functions.
pub struct FloatModel {
    pub arith: spec_fn(FloatArith, u64, u64) -> u64,
    pub compare: spec_fn(FloatCompare, u64, u64) -> bool,
}

/// The function that a literal parser computes, on the text of a literal.
pub open spec fn literal_model<L: Fn(String) -> u64>(parse: L) -> spec_fn(Seq<char>) -> u64 {
    |s: Seq<char>|
        (choose|b: u64, t: String| t@ == s && #[trigger] call_ensures(parse, (t,), b)).0
}

/// A literal parser accepts every text and gives one answer per text.
pub open spec fn literal_parser_ok<L: Fn(String) -> u64>(parse: L) -> bool {
    &&& forall|t: String| call_requires(parse, (t,))
    &&& forall|t1: String, t2: String, b1: u64, b2: u64|
        t1@ == t2@ && call_ensures(parse, (t1,), b1) && call_ensures(parse, (t2,), b2) ==> b1
            == b2
}

/// Parses the text of a float literal with the caller's parser.
pub(crate) fn parse_float_literal<L: Fn(String) -> u64>(parse: &L, text: String) -> (b: u64)
    requires
        literal_parser_ok(*parse),
    ensures
        b == literal_model(*parse)(text@),
{
    let ghost s = text@;
    let b = parse(text);
    proof {
        assert(exists|b1: u64, t: String| t@ == s && #[trigger] call_ensures(*parse, (t,), b1));
    }
    b
}

/// Float arithmetic and comparison, as the caller supplies them.
pub struct FloatOps<A, C> {
    pub arith: A,
    pub compare: C,
}

impl<A: Fn(FloatArith, u64, u64) -> u64, C: Fn(FloatCompare, u64, u64) -> bool> FloatOps<A, C> {
    /// Both functions accept every input and answer the same for the same input.
    pub open spec fn well_behaved(&self) -> bool {
        &&& forall|op: FloatArith, a: u64, b: u64| call_requires(self.arith, (op, a, b))
        &&& forall|op: FloatCompare, a: u64, b: u64| call_requires(self.compare, (op, a, b))
        &&& forall|op: FloatArith, a: u64, b: u64, r1: u64, r2: u64|
            call_ensures(self.arith, (op, a, b), r1) && call_ensures(self.arith, (op, a, b), r2)
                ==> r1 == r2
        &&& forall|op: FloatCompare, a: u64, b: u64, r1: bool, r2: bool|
            call_ensures(self.compare, (op, a, b), r1) && call_ensures(
                self.compare,
                (op, a, b),
                r2,
            ) ==> r1 == r2
    }

    /// The functions that the two computations implement.
    pub open spec fn model(&self) -> FloatModel {
        FloatModel {
            arith: |op: FloatArith, a: u64, b: u64|
                choose|r: u64| call_ensures(self.arith, (op, a, b), r),
            compare: |op: FloatCompare, a: u64, b: u64|
                choose|r: bool| call_ensures(self.compare, (op, a, b), r),
        }
    }

    /// Applies an arithmetic operation.
    pub(crate) fn apply_arith(&self, op: FloatArith, a: u64, b: u64) -> (r: u64)
        requires
            self.well_behaved(),
        ensures
            r == (self.model().arith)(op, a, b),
    {
        (self.arith)(op, a, b)
    }

    /// Applies a comparison.
    pub(crate) fn apply_compare(&self, op: FloatCompare, a: u64, b: u64) -> (r: bool)
        requires
            self.well_behaved(),
        ensures
            r == (self.model().compare)(op, a, b),
    {
        (self.compare)(op, a, b)
    }
}

} // verus!
