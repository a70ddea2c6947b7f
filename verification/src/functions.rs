//! Function trees: named mathematical operations over child operands,
//! evaluated against an environment of variables, with every domain
//! violation reported as an error.

use vstd::prelude::*;
use vstd::hash_map::StringHashMap;
use crate::arith::{model, perform, well_behaved, Arithmetic, Operation, OperationView};
use crate::scalar::Scalar;

verus! {

/// Why a function has no value.
#[derive(Clone, Copy, Debug, PartialEq, Eq, Structural)]
pub enum FnError {
    DivisionByZero,
    NegativeEvenRoot,
    NonPositiveLogArg,
    NonPositiveLogBase,
    LogBaseOne,
    NegativeBaseNonIntegerExponent,
    ParameterNotFound,
}

/// The value of a function, or the reason why it has none.
pub type FnResult = Result<Scalar, FnError>;

/// The environment of an evaluation: a value for each variable name.
pub struct FnArgs {
    values: StringHashMap<Scalar>,
}

impl View for FnArgs {
    type V = Map<Seq<char>, Scalar>;

    closed spec fn view(&self) -> Map<Seq<char>, Scalar> {
        self.values@
    }
}

impl FnArgs {
    /// An environment without variables.
    pub fn new() -> (r: FnArgs)
        ensures
            r@ == Map::<Seq<char>, Scalar>::empty(),
    {
        FnArgs { values: StringHashMap::new() }
    }

    /// Gives `name` the value `value`, in place of any it had.
    pub fn insert(&mut self, name: String, value: Scalar)
        ensures
            final(self)@ == old(self)@.insert(name@, value),
    {
        self.values.insert(name, value);
    }

    /// The value of `name`, if it has one.
    pub fn get(&self, name: &str) -> (r: Option<Scalar>)
        ensures
            r == (if self@.contains_key(name@) {
                Some(self@[name@])
            } else {
                None
            }),
    {
        match self.values.get(name) {
            Some(value) => Some(*value),
            None => None,
        }
    }
}

/// An operand of a function node: a nested function, a variable or a
/// literal.
#[derive(Debug, PartialEq)]
pub enum ChildFn {
    Fn(Box<FnNode>),
    Var(String),
    Const(Scalar),
}

/// A function node of any of the kinds that the library has.
#[derive(Debug, PartialEq)]
pub enum FnNode {
    Add(AddFn),
    Mul(MulFn),
    Div(DivFn),
    Coef(CoefFn),
    Exp(ExpFn),
    Log(LogFn),
}

/// The sum of its children.
#[derive(Debug, PartialEq)]
pub struct AddFn {
    pub children: Vec<ChildFn>,
}

/// The product of its children.
#[derive(Debug, PartialEq)]
pub struct MulFn {
    pub children: Vec<ChildFn>,
}

/// The quotient of two operands.
#[derive(Debug, PartialEq)]
pub struct DivFn {
    pub numerator: ChildFn,
    pub denominator: ChildFn,
}

/// A child scaled by a coefficient.
#[derive(Debug, PartialEq)]
pub struct CoefFn {
    pub coefficient: Scalar,
    pub child: ChildFn,
}

/// A base raised to an exponent.
#[derive(Debug, PartialEq)]
pub struct ExpFn {
    pub base: ChildFn,
    pub exponent: ChildFn,
}

/// The logarithm of an argument to a base.
#[derive(Debug, PartialEq)]
pub struct LogFn {
    pub base: ChildFn,
    pub argument: ChildFn,
}

impl From<String> for ChildFn {
    /// The variable of that name.
    fn from(name: String) -> (r: ChildFn) {
        ChildFn::Var(name)
    }
}

impl vstd::std_specs::convert::FromSpecImpl<String> for ChildFn {
    open spec fn obeys_from_spec() -> bool {
        true
    }

    open spec fn from_spec(name: String) -> ChildFn {
        ChildFn::Var(name)
    }
}

impl From<&str> for ChildFn {
    /// The variable of that name.
    fn from(name: &str) -> (r: ChildFn)
        ensures
            r matches ChildFn::Var(owned) && owned@ == name@,
    {
        ChildFn::Var(name.to_owned())
    }
}

impl vstd::std_specs::convert::FromSpecImpl<&str> for ChildFn {
    open spec fn obeys_from_spec() -> bool {
        false
    }

    open spec fn from_spec(name: &str) -> ChildFn {
        arbitrary()
    }
}

impl From<Scalar> for ChildFn {
    /// The literal of that value.
    fn from(value: Scalar) -> (r: ChildFn) {
        ChildFn::Const(value)
    }
}

impl vstd::std_specs::convert::FromSpecImpl<Scalar> for ChildFn {
    open spec fn obeys_from_spec() -> bool {
        true
    }

    open spec fn from_spec(value: Scalar) -> ChildFn {
        ChildFn::Const(value)
    }
}

impl DivFn {
    /// The quotient of `num` and `denom`.
    pub fn new<T: Into<ChildFn>>(num: T, denom: T) -> (r: DivFn)
        ensures
            call_ensures(T::into, (num,), r.numerator),
            call_ensures(T::into, (denom,), r.denominator),
    {
        DivFn { numerator: num.into(), denominator: denom.into() }
    }
}

impl CoefFn {
    /// `child` scaled by `coefficient`.
    pub fn new<T: Into<ChildFn>>(coefficient: Scalar, child: T) -> (r: CoefFn)
        ensures
            r.coefficient == coefficient,
            call_ensures(T::into, (child,), r.child),
    {
        CoefFn { coefficient, child: child.into() }
    }
}

impl ExpFn {
    /// `base` raised to `exp`.
    pub fn new<T, U>(base: T, exp: U) -> (r: ExpFn) where T: Into<ChildFn>, U: Into<ChildFn>
        ensures
            call_ensures(T::into, (base,), r.base),
            call_ensures(U::into, (exp,), r.exponent),
    {
        ExpFn { base: base.into(), exponent: exp.into() }
    }
}

impl LogFn {
    /// The logarithm of `arg` to `base`.
    pub fn new<T, U>(base: T, arg: U) -> (r: LogFn) where T: Into<ChildFn>, U: Into<ChildFn>
        ensures
            call_ensures(T::into, (base,), r.base),
            call_ensures(U::into, (arg,), r.argument),
    {
        LogFn { base: base.into(), argument: arg.into() }
    }
}

/// The value of a variable: what the environment holds for its name.
pub open spec fn lookup(args: Map<Seq<char>, Scalar>, name: Seq<char>) -> FnResult {
    if args.contains_key(name) {
        Ok(args[name])
    } else {
        Err(FnError::ParameterNotFound)
    }
}

/// The error of two operands that were both evaluated: that of the first
/// where it has one, else that of the second.
pub open spec fn first_error(first: FnResult, second: FnResult) -> Option<FnError> {
    match (first, second) {
        (Err(e), _) => Some(e),
        (Ok(_), Err(e)) => Some(e),
        (Ok(_), Ok(_)) => None,
    }
}

/// The quotient of two evaluated operands: undefined where the denominator
/// is zero.
pub open spec fn quotient(
    numerator: FnResult,
    denominator: FnResult,
    arith: Arithmetic,
) -> FnResult {
    match first_error(numerator, denominator) {
        Some(e) => Err(e),
        None => {
            let n = numerator->Ok_0;
            let d = denominator->Ok_0;
            if d.zero_valued() {
                Err(FnError::DivisionByZero)
            } else {
                Ok(arith(OperationView::Div(n, d)))
            }
        },
    }
}

/// An evaluated child scaled by `coefficient`.
pub open spec fn scaled(coefficient: Scalar, child: FnResult, arith: Arithmetic) -> FnResult {
    match child {
        Ok(v) => Ok(arith(OperationView::Mul(coefficient, v))),
        Err(e) => Err(e),
    }
}

/// The power of two evaluated operands: undefined where the base is
/// negative and the exponent is not a whole number.
pub open spec fn power(base: FnResult, exponent: FnResult, arith: Arithmetic) -> FnResult {
    match first_error(base, exponent) {
        Some(e) => Err(e),
        None => {
            let b = base->Ok_0;
            let n = exponent->Ok_0;
            if b.negative() && !n.integral() {
                Err(FnError::NegativeBaseNonIntegerExponent)
            } else {
                Ok(arith(OperationView::Pow { base: b, exponent: n }))
            }
        },
    }
}

/// The logarithm of two evaluated operands: undefined where the argument
/// is not positive and, failing that, where the base is not positive.
pub open spec fn logarithm(base: FnResult, argument: FnResult, arith: Arithmetic) -> FnResult {
    match first_error(base, argument) {
        Some(e) => Err(e),
        None => {
            let b = base->Ok_0;
            let a = argument->Ok_0;
            if a.non_positive() {
                Err(FnError::NonPositiveLogArg)
            } else if b.non_positive() {
                Err(FnError::NonPositiveLogBase)
            } else {
                Ok(arith(OperationView::Log { argument: a, base: b }))
            }
        },
    }
}

/// The two ways of combining the children of a sequence node.
#[derive(Clone, Copy, Debug, PartialEq, Eq, Structural)]
pub enum Combine {
    Sum,
    Product,
}

impl Combine {
    /// The value of a node without children.
    pub open spec fn identity(self) -> Scalar {
        match self {
            Combine::Sum => Scalar::zero(),
            Combine::Product => Scalar::one(),
        }
    }

    /// The request that takes one more value into the running result.
    pub open spec fn step(self, acc: Scalar, v: Scalar) -> OperationView {
        match self {
            Combine::Sum => OperationView::Add(acc, v),
            Combine::Product => OperationView::Mul(acc, v),
        }
    }
}

/// The running result of a sequence node after its first `n` children,
/// taken from left to right: the first error among them where there is one,
/// else the identity combined with their values in order.
pub open spec fn partial(
    children: Seq<ChildFn>,
    n: nat,
    combine: Combine,
    args: Map<Seq<char>, Scalar>,
    arith: Arithmetic,
) -> FnResult
    decreases children, n,
{
    if n == 0 || n > children.len() {
        Ok(combine.identity())
    } else {
        match partial(children, (n - 1) as nat, combine, args, arith) {
            Ok(acc) => match children[n - 1].value(args, arith) {
                Ok(v) => Ok(arith(combine.step(acc, v))),
                Err(e) => Err(e),
            },
            Err(e) => Err(e),
        }
    }
}

impl ChildFn {
    /// What the operand evaluates to.
    pub open spec fn value(&self, args: Map<Seq<char>, Scalar>, arith: Arithmetic) -> FnResult
        decreases self, 0nat,
    {
        match self {
            ChildFn::Fn(node) => node.value(args, arith),
            ChildFn::Var(name) => lookup(args, name@),
            ChildFn::Const(value) => Ok(*value),
        }
    }
}

impl FnNode {
    /// What the node evaluates to.
    pub open spec fn value(&self, args: Map<Seq<char>, Scalar>, arith: Arithmetic) -> FnResult
        decreases self, 0nat,
    {
        match self {
            FnNode::Add(node) => partial(
                node.children@,
                node.children@.len(),
                Combine::Sum,
                args,
                arith,
            ),
            FnNode::Mul(node) => partial(
                node.children@,
                node.children@.len(),
                Combine::Product,
                args,
                arith,
            ),
            FnNode::Div(node) => quotient(
                node.numerator.value(args, arith),
                node.denominator.value(args, arith),
                arith,
            ),
            FnNode::Coef(node) => scaled(node.coefficient, node.child.value(args, arith), arith),
            FnNode::Exp(node) => power(
                node.base.value(args, arith),
                node.exponent.value(args, arith),
                arith,
            ),
            FnNode::Log(node) => logarithm(
                node.base.value(args, arith),
                node.argument.value(args, arith),
                arith,
            ),
        }
    }
}

/// The quotient of two operands from what they evaluated to.
pub fn divide<K: Fn(Operation) -> Scalar>(
    numerator: FnResult,
    denominator: FnResult,
    kernel: &K,
) -> (r: FnResult)
    requires
        well_behaved(kernel),
    ensures
        r == quotient(numerator, denominator, model(kernel)),
{
    match (numerator, denominator) {
        (Ok(n), Ok(d)) => {
            if d.is_zero() {
                Err(FnError::DivisionByZero)
            } else {
                Ok(perform(kernel, Operation::Div(n, d)))
            }
        },
        (Err(e), _) => Err(e),
        (_, Err(e)) => Err(e),
    }
}

/// A child scaled by a coefficient, from what the child evaluated to.
pub fn scale<K: Fn(Operation) -> Scalar>(coefficient: Scalar, child: FnResult, kernel: &K) -> (r:
    FnResult)
    requires
        well_behaved(kernel),
    ensures
        r == scaled(coefficient, child, model(kernel)),
{
    match child {
        Ok(v) => Ok(perform(kernel, Operation::Mul(coefficient, v))),
        Err(e) => Err(e),
    }
}

/// The power of two operands from what they evaluated to.
pub fn raise<K: Fn(Operation) -> Scalar>(base: FnResult, exponent: FnResult, kernel: &K) -> (r:
    FnResult)
    requires
        well_behaved(kernel),
    ensures
        r == power(base, exponent, model(kernel)),
{
    match (base, exponent) {
        (Ok(b), Ok(n)) => {
            if b.is_negative() && n.has_fraction() {
                Err(FnError::NegativeBaseNonIntegerExponent)
            } else {
                Ok(perform(kernel, Operation::Pow { base: b, exponent: n }))
            }
        },
        (Err(e), _) => Err(e),
        (_, Err(e)) => Err(e),
    }
}

/// The logarithm of two operands from what they evaluated to.
pub fn take_logarithm<K: Fn(Operation) -> Scalar>(
    base: FnResult,
    argument: FnResult,
    kernel: &K,
) -> (r: FnResult)
    requires
        well_behaved(kernel),
    ensures
        r == logarithm(base, argument, model(kernel)),
{
    match (base, argument) {
        (Ok(b), Ok(a)) => {
            if a.is_non_positive() {
                Err(FnError::NonPositiveLogArg)
            } else if b.is_non_positive() {
                Err(FnError::NonPositiveLogBase)
            } else {
                Ok(perform(kernel, Operation::Log { argument: a, base: b }))
            }
        },
        (Err(e), _) => Err(e),
        (_, Err(e)) => Err(e),
    }
}

/// What can be evaluated against an environment.
pub trait Function {
    /// What `apply` returns under an arithmetic.
    spec fn result(&self, args: Map<Seq<char>, Scalar>, arith: Arithmetic) -> FnResult;

    /// Evaluates against `args`: the value, or the first domain error met.
    fn apply<K: Fn(Operation) -> Scalar>(&self, args: &FnArgs, kernel: &K) -> (r: FnResult)
        requires
            well_behaved(kernel),
        ensures
            r == self.result(args@, model(kernel)),
    ;
}

/// Evaluates the children of a sequence node from left to right, stopping
/// at the first that has no value.
fn apply_sequence<K: Fn(Operation) -> Scalar>(
    children: &Vec<ChildFn>,
    combine: Combine,
    args: &FnArgs,
    kernel: &K,
) -> (r: FnResult)
    requires
        well_behaved(kernel),
    ensures
        r == partial(children@, children@.len(), combine, args@, model(kernel)),
    decreases children,
{
    let mut result = match combine {
        Combine::Sum => Scalar { bits: 0 },
        Combine::Product => Scalar { bits: 0x3f80_0000 },
    };
    let mut i: usize = 0;
    while i < children.len()
        invariant
            well_behaved(kernel),
            i <= children.len(),
            partial(children@, i as nat, combine, args@, model(kernel)) == Ok::<Scalar, FnError>(
                result,
            ),
        decreases children.len() - i,
    {
        let child_result = children[i].apply(args, kernel);
        match child_result {
            Ok(v) => {
                result = match combine {
                    Combine::Sum => perform(kernel, Operation::Add(result, v)),
                    Combine::Product => perform(kernel, Operation::Mul(result, v)),
                };
            },
            Err(e) => {
                proof {
                    lemma_partial_error(
                        children@,
                        (i + 1) as nat,
                        children@.len(),
                        combine,
                        args@,
                        model(kernel),
                    );
                }
                return Err(e);
            },
        }
        i += 1;
    }
    Ok(result)
}

/// Once the running result of a sequence node is an error, it stays that
/// error however many more children are taken.
pub proof fn lemma_partial_error(
    children: Seq<ChildFn>,
    n: nat,
    m: nat,
    combine: Combine,
    args: Map<Seq<char>, Scalar>,
    arith: Arithmetic,
)
    requires
        n <= m <= children.len(),
        partial(children, n, combine, args, arith) is Err,
    ensures
        partial(children, m, combine, args, arith) == partial(children, n, combine, args, arith),
    decreases m,
{
    if n < m {
        lemma_partial_error(children, n, (m - 1) as nat, combine, args, arith);
    }
}

/// A sequence node stops at its first child without a value: where the
/// children before position `i` all have values and the one at `i` has
/// none, the node has the error of that child, whatever follows it.
pub proof fn lemma_sequence_first_error(
    children: Seq<ChildFn>,
    i: nat,
    combine: Combine,
    args: Map<Seq<char>, Scalar>,
    arith: Arithmetic,
)
    requires
        i < children.len(),
        forall|j: int| 0 <= j < i ==> (#[trigger] children[j]).value(args, arith) is Ok,
        children[i as int].value(args, arith) is Err,
    ensures
        partial(children, children.len(), combine, args, arith) == children[i as int].value(
            args,
            arith,
        ),
{
    lemma_partial_values(children, i, combine, args, arith);
    lemma_partial_error(children, i + 1, children.len(), combine, args, arith);
}

/// A sequence node whose first `n` children all have values has a running
/// result after them.
pub proof fn lemma_partial_values(
    children: Seq<ChildFn>,
    n: nat,
    combine: Combine,
    args: Map<Seq<char>, Scalar>,
    arith: Arithmetic,
)
    requires
        n <= children.len(),
        forall|j: int| 0 <= j < n ==> (#[trigger] children[j]).value(args, arith) is Ok,
    ensures
        partial(children, n, combine, args, arith) is Ok,
    decreases n,
{
    if n > 0 {
        lemma_partial_values(children, (n - 1) as nat, combine, args, arith);
    }
}

/// The two errors that no function raises.
pub open spec fn never_raised(result: FnResult) -> bool {
    result != Err::<Scalar, FnError>(FnError::NegativeEvenRoot) && result != Err::<
        Scalar,
        FnError,
    >(FnError::LogBaseOne)
}

/// No operand evaluates to `NegativeEvenRoot` or to `LogBaseOne`.
pub proof fn lemma_child_never_raises(
    child: ChildFn,
    args: Map<Seq<char>, Scalar>,
    arith: Arithmetic,
)
    ensures
        never_raised(child.value(args, arith)),
    decreases child, 0nat,
{
    match child {
        ChildFn::Fn(node) => {
            lemma_node_never_raises(*node, args, arith);
        },
        _ => {},
    }
}

/// No node evaluates to `NegativeEvenRoot` or to `LogBaseOne`.
pub proof fn lemma_node_never_raises(node: FnNode, args: Map<Seq<char>, Scalar>, arith: Arithmetic)
    ensures
        never_raised(node.value(args, arith)),
    decreases node, 0nat,
{
    match node {
        FnNode::Add(add) => {
            lemma_partial_never_raises(
                add.children@,
                add.children@.len(),
                Combine::Sum,
                args,
                arith,
            );
        },
        FnNode::Mul(mul) => {
            lemma_partial_never_raises(
                mul.children@,
                mul.children@.len(),
                Combine::Product,
                args,
                arith,
            );
        },
        FnNode::Div(div) => {
            lemma_child_never_raises(div.numerator, args, arith);
            lemma_child_never_raises(div.denominator, args, arith);
        },
        FnNode::Coef(coef) => {
            lemma_child_never_raises(coef.child, args, arith);
        },
        FnNode::Exp(exp) => {
            lemma_child_never_raises(exp.base, args, arith);
            lemma_child_never_raises(exp.exponent, args, arith);
        },
        FnNode::Log(log) => {
            lemma_child_never_raises(log.base, args, arith);
            lemma_child_never_raises(log.argument, args, arith);
        },
    }
}

/// No running result of a sequence node is `NegativeEvenRoot` or
/// `LogBaseOne`.
pub proof fn lemma_partial_never_raises(
    children: Seq<ChildFn>,
    n: nat,
    combine: Combine,
    args: Map<Seq<char>, Scalar>,
    arith: Arithmetic,
)
    ensures
        never_raised(partial(children, n, combine, args, arith)),
    decreases children, n,
{
    if 0 < n <= children.len() {
        lemma_partial_never_raises(children, (n - 1) as nat, combine, args, arith);
        lemma_child_never_raises(children[n - 1], args, arith);
    }
}

impl Function for ChildFn {
    open spec fn result(&self, args: Map<Seq<char>, Scalar>, arith: Arithmetic) -> FnResult {
        self.value(args, arith)
    }

    fn apply<K: Fn(Operation) -> Scalar>(&self, args: &FnArgs, kernel: &K) -> (r: FnResult)
        decreases self,
    {
        match self {
            ChildFn::Fn(f) => f.apply(args, kernel),
            ChildFn::Var(s) => match args.get(s.as_str()) {
                Some(v) => Ok(v),
                None => Err(FnError::ParameterNotFound),
            },
            ChildFn::Const(c) => Ok(*c),
        }
    }
}

impl Function for FnNode {
    open spec fn result(&self, args: Map<Seq<char>, Scalar>, arith: Arithmetic) -> FnResult {
        self.value(args, arith)
    }

    fn apply<K: Fn(Operation) -> Scalar>(&self, args: &FnArgs, kernel: &K) -> (r: FnResult)
        decreases self,
    {
        match self {
            FnNode::Add(node) => node.apply(args, kernel),
            FnNode::Mul(node) => node.apply(args, kernel),
            FnNode::Div(node) => node.apply(args, kernel),
            FnNode::Coef(node) => node.apply(args, kernel),
            FnNode::Exp(node) => node.apply(args, kernel),
            FnNode::Log(node) => node.apply(args, kernel),
        }
    }
}

impl Function for AddFn {
    open spec fn result(&self, args: Map<Seq<char>, Scalar>, arith: Arithmetic) -> FnResult {
        partial(self.children@, self.children@.len(), Combine::Sum, args, arith)
    }

    fn apply<K: Fn(Operation) -> Scalar>(&self, args: &FnArgs, kernel: &K) -> (r: FnResult)
        decreases self,
    {
        apply_sequence(&self.children, Combine::Sum, args, kernel)
    }
}

impl Function for MulFn {
    open spec fn result(&self, args: Map<Seq<char>, Scalar>, arith: Arithmetic) -> FnResult {
        partial(self.children@, self.children@.len(), Combine::Product, args, arith)
    }

    fn apply<K: Fn(Operation) -> Scalar>(&self, args: &FnArgs, kernel: &K) -> (r: FnResult)
        decreases self,
    {
        apply_sequence(&self.children, Combine::Product, args, kernel)
    }
}

impl Function for DivFn {
    open spec fn result(&self, args: Map<Seq<char>, Scalar>, arith: Arithmetic) -> FnResult {
        quotient(self.numerator.value(args, arith), self.denominator.value(args, arith), arith)
    }

    fn apply<K: Fn(Operation) -> Scalar>(&self, args: &FnArgs, kernel: &K) -> (r: FnResult)
        decreases self,
    {
        let num_result = self.numerator.apply(args, kernel);
        let den_result = self.denominator.apply(args, kernel);
        divide(num_result, den_result, kernel)
    }
}

impl Function for CoefFn {
    open spec fn result(&self, args: Map<Seq<char>, Scalar>, arith: Arithmetic) -> FnResult {
        scaled(self.coefficient, self.child.value(args, arith), arith)
    }

    fn apply<K: Fn(Operation) -> Scalar>(&self, args: &FnArgs, kernel: &K) -> (r: FnResult)
        decreases self,
    {
        let child_result = self.child.apply(args, kernel);
        scale(self.coefficient, child_result, kernel)
    }
}

impl Function for ExpFn {
    open spec fn result(&self, args: Map<Seq<char>, Scalar>, arith: Arithmetic) -> FnResult {
        power(self.base.value(args, arith), self.exponent.value(args, arith), arith)
    }

    fn apply<K: Fn(Operation) -> Scalar>(&self, args: &FnArgs, kernel: &K) -> (r: FnResult)
        decreases self,
    {
        let base_result = self.base.apply(args, kernel);
        let exp_result = self.exponent.apply(args, kernel);
        raise(base_result, exp_result, kernel)
    }
}

impl Function for LogFn {
    open spec fn result(&self, args: Map<Seq<char>, Scalar>, arith: Arithmetic) -> FnResult {
        logarithm(self.base.value(args, arith), self.argument.value(args, arith), arith)
    }

    fn apply<K: Fn(Operation) -> Scalar>(&self, args: &FnArgs, kernel: &K) -> (r: FnResult)
        decreases self,
    {
        let base_result = self.base.apply(args, kernel);
        let arg_result = self.argument.apply(args, kernel);
        take_logarithm(base_result, arg_result, kernel)
    }
}

} // verus!
