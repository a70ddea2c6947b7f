//! The arithmetic that the engine asks of its host.
//!
//! The engine decides what is to be computed and in which order; the
//! computing itself is done by a kernel that the caller hands in: a function
//! from an [`Operation`] to the [`Scalar`] it yields. The engine asks only
//! that the kernel accept every operation and answer alike for like
//! operations. Such a kernel has an [`Arithmetic`], its [`model`], and every
//! contract in this crate says what is computed in terms of an arithmetic.

use vstd::prelude::*;
use crate::scalar::Scalar;

verus! {

/// One computation for the kernel to carry out.
#[derive(Debug, PartialEq)]
pub enum Operation {
    /// The value of a decimal literal: digits, optionally followed by a
    /// point and further digits.
    Literal(String),
    /// `lhs + rhs`
    Add(Scalar, Scalar),
    /// `lhs - rhs`
    Sub(Scalar, Scalar),
    /// `lhs * rhs`
    Mul(Scalar, Scalar),
    /// `lhs / rhs`
    Div(Scalar, Scalar),
    /// The sine of the operand.
    Sin(Scalar),
    /// `base` raised to `exponent`.
    Pow { base: Scalar, exponent: Scalar },
    /// The logarithm of `argument` to `base`.
    Log { argument: Scalar, base: Scalar },
}

/// What an [`Operation`] is in contracts: the same request, with the text of
/// a literal as a sequence of characters.
pub enum OperationView {
    Literal(Seq<char>),
    Add(Scalar, Scalar),
    Sub(Scalar, Scalar),
    Mul(Scalar, Scalar),
    Div(Scalar, Scalar),
    Sin(Scalar),
    Pow { base: Scalar, exponent: Scalar },
    Log { argument: Scalar, base: Scalar },
}

impl View for Operation {
    type V = OperationView;

    open spec fn view(&self) -> OperationView {
        match *self {
            Operation::Literal(text) => OperationView::Literal(text@),
            Operation::Add(a, b) => OperationView::Add(a, b),
            Operation::Sub(a, b) => OperationView::Sub(a, b),
            Operation::Mul(a, b) => OperationView::Mul(a, b),
            Operation::Div(a, b) => OperationView::Div(a, b),
            Operation::Sin(a) => OperationView::Sin(a),
            Operation::Pow { base, exponent } => OperationView::Pow { base, exponent },
            Operation::Log { argument, base } => OperationView::Log { argument, base },
        }
    }
}

/// A kernel that can be asked anything and that answers like requests
/// alike.
pub open spec fn well_behaved<K: Fn(Operation) -> Scalar>(kernel: &K) -> bool {
    &&& forall|op: Operation| kernel.requires((op,))
    &&& forall|a: Operation, b: Operation, x: Scalar, y: Scalar|
        a@ == b@ && #[trigger] kernel.ensures((a,), x) && #[trigger] kernel.ensures((b,), y) ==> x
            == y
}

/// Whether `kernel` may answer `request` with `r`.
pub open spec fn answers<K: Fn(Operation) -> Scalar>(
    kernel: &K,
    request: OperationView,
    r: Scalar,
) -> bool {
    exists|op: Operation| op@ == request && #[trigger] kernel.ensures((op,), r)
}

/// An arithmetic: the answer to every request.
pub type Arithmetic = spec_fn(OperationView) -> Scalar;

/// The arithmetic of `kernel`: to each request the answer that the kernel
/// gives it.
pub open spec fn model<K: Fn(Operation) -> Scalar>(kernel: &K) -> Arithmetic {
    |request: OperationView| choose|r: Scalar| answers(kernel, request, r)
}

/// A well-behaved kernel has one answer to a request: whatever it may
/// answer is the answer of its arithmetic.
pub proof fn lemma_one_answer<K: Fn(Operation) -> Scalar>(
    kernel: &K,
    request: OperationView,
    r: Scalar,
)
    requires
        well_behaved(kernel),
        answers(kernel, request, r),
    ensures
        model(kernel)(request) == r,
{
}

/// Asks `kernel` to carry out `op`. What comes back is an answer of the
/// kernel, and so the answer of its arithmetic.
pub fn perform<K: Fn(Operation) -> Scalar>(kernel: &K, op: Operation) -> (r: Scalar)
    requires
        well_behaved(kernel),
    ensures
        answers(kernel, op@, r),
        r == model(kernel)(op@),
{
    let ghost request = op@;
    let ghost asked = op;
    let r = kernel(op);
    proof {
        assert(asked@ == request && kernel.ensures((asked,), r));
        lemma_one_answer(kernel, request, r);
    }
    r
}

} // verus!
