//! Expression trees: what the parser builds.

use vstd::prelude::*;
use crate::arith::{model, perform, well_behaved, Arithmetic, Operation, OperationView};
use crate::functions::FnArgs;
use crate::scalar::Scalar;

verus! {

/// A node of an expression tree. A binary node owns its two operands, a
/// sine node its one.
#[derive(Debug, PartialEq)]
pub enum Expr {
    Num(Scalar),
    Var(String),
    Add(Box<Expr>, Box<Expr>),
    Sub(Box<Expr>, Box<Expr>),
    Mul(Box<Expr>, Box<Expr>),
    Div(Box<Expr>, Box<Expr>),
    Sin(Box<Expr>),
}

/// An [`Expr`] as contracts see it: a variable is the characters of its
/// name.
pub enum ExprView {
    Num(Scalar),
    Var(Seq<char>),
    Add(Box<ExprView>, Box<ExprView>),
    Sub(Box<ExprView>, Box<ExprView>),
    Mul(Box<ExprView>, Box<ExprView>),
    Div(Box<ExprView>, Box<ExprView>),
    Sin(Box<ExprView>),
}

impl View for Expr {
    type V = ExprView;

    open spec fn view(&self) -> ExprView {
        self.shape()
    }
}

impl Expr {
    /// The tree, node for node, with each name as its characters.
    pub open spec fn shape(&self) -> ExprView
        decreases self,
    {
        match self {
            Expr::Num(value) => ExprView::Num(*value),
            Expr::Var(name) => ExprView::Var(name@),
            Expr::Add(lhs, rhs) => ExprView::Add(Box::new(lhs.shape()), Box::new(rhs.shape())),
            Expr::Sub(lhs, rhs) => ExprView::Sub(Box::new(lhs.shape()), Box::new(rhs.shape())),
            Expr::Mul(lhs, rhs) => ExprView::Mul(Box::new(lhs.shape()), Box::new(rhs.shape())),
            Expr::Div(lhs, rhs) => ExprView::Div(Box::new(lhs.shape()), Box::new(rhs.shape())),
            Expr::Sin(inner) => ExprView::Sin(Box::new(inner.shape())),
        }
    }
}

impl ExprView {
    /// No variable occurs in the tree.
    pub open spec fn constant(self) -> bool
        decreases self,
    {
        match self {
            ExprView::Num(_) => true,
            ExprView::Var(_) => false,
            ExprView::Add(lhs, rhs) => lhs.constant() && rhs.constant(),
            ExprView::Sub(lhs, rhs) => lhs.constant() && rhs.constant(),
            ExprView::Mul(lhs, rhs) => lhs.constant() && rhs.constant(),
            ExprView::Div(lhs, rhs) => lhs.constant() && rhs.constant(),
            ExprView::Sin(inner) => inner.constant(),
        }
    }

    /// The number that a constant tree stands for under an arithmetic: what
    /// each operator yields on the values of its operands, the left one
    /// first. Of a tree with a variable it says nothing.
    pub open spec fn value(self, arith: Arithmetic) -> Scalar
        decreases self,
    {
        match self {
            ExprView::Num(value) => value,
            ExprView::Var(_) => arbitrary(),
            ExprView::Add(lhs, rhs) => arith(
                OperationView::Add(lhs.value(arith), rhs.value(arith)),
            ),
            ExprView::Sub(lhs, rhs) => arith(
                OperationView::Sub(lhs.value(arith), rhs.value(arith)),
            ),
            ExprView::Mul(lhs, rhs) => arith(
                OperationView::Mul(lhs.value(arith), rhs.value(arith)),
            ),
            ExprView::Div(lhs, rhs) => arith(
                OperationView::Div(lhs.value(arith), rhs.value(arith)),
            ),
            ExprView::Sin(inner) => arith(OperationView::Sin(inner.value(arith))),
        }
    }

    /// What a tree evaluates to under an arithmetic where each variable has
    /// the value that `env` holds for its name: what each operator yields
    /// on what its operands evaluate to, the left one first. A tree with a
    /// variable that `env` lacks evaluates to nothing.
    pub open spec fn meaning(self, env: Map<Seq<char>, Scalar>, arith: Arithmetic) -> Option<Scalar>
        decreases self,
    {
        match self {
            ExprView::Num(value) => Some(value),
            ExprView::Var(name) => if env.contains_key(name) {
                Some(env[name])
            } else {
                None
            },
            ExprView::Add(lhs, rhs) => match (lhs.meaning(env, arith), rhs.meaning(env, arith)) {
                (Some(a), Some(b)) => Some(arith(OperationView::Add(a, b))),
                _ => None,
            },
            ExprView::Sub(lhs, rhs) => match (lhs.meaning(env, arith), rhs.meaning(env, arith)) {
                (Some(a), Some(b)) => Some(arith(OperationView::Sub(a, b))),
                _ => None,
            },
            ExprView::Mul(lhs, rhs) => match (lhs.meaning(env, arith), rhs.meaning(env, arith)) {
                (Some(a), Some(b)) => Some(arith(OperationView::Mul(a, b))),
                _ => None,
            },
            ExprView::Div(lhs, rhs) => match (lhs.meaning(env, arith), rhs.meaning(env, arith)) {
                (Some(a), Some(b)) => Some(arith(OperationView::Div(a, b))),
                _ => None,
            },
            ExprView::Sin(inner) => match inner.meaning(env, arith) {
                Some(a) => Some(arith(OperationView::Sin(a))),
                None => None,
            },
        }
    }

    /// Nothing is left to fold: every operator in the tree has a variable
    /// somewhere below it.
    pub open spec fn folded(self) -> bool
        decreases self,
    {
        match self {
            ExprView::Num(_) => true,
            ExprView::Var(_) => true,
            ExprView::Add(lhs, rhs) => !self.constant() && lhs.folded() && rhs.folded(),
            ExprView::Sub(lhs, rhs) => !self.constant() && lhs.folded() && rhs.folded(),
            ExprView::Mul(lhs, rhs) => !self.constant() && lhs.folded() && rhs.folded(),
            ExprView::Div(lhs, rhs) => !self.constant() && lhs.folded() && rhs.folded(),
            ExprView::Sin(inner) => !self.constant() && inner.folded(),
        }
    }

    /// The tree with every constant sub-tree replaced by the single number
    /// that it stands for. What holds a variable keeps its shape.
    pub open spec fn fold(self, arith: Arithmetic) -> ExprView
        decreases self,
    {
        if self.constant() {
            ExprView::Num(self.value(arith))
        } else {
            match self {
                ExprView::Num(_) => self,
                ExprView::Var(_) => self,
                ExprView::Add(lhs, rhs) => ExprView::Add(
                    Box::new(lhs.fold(arith)),
                    Box::new(rhs.fold(arith)),
                ),
                ExprView::Sub(lhs, rhs) => ExprView::Sub(
                    Box::new(lhs.fold(arith)),
                    Box::new(rhs.fold(arith)),
                ),
                ExprView::Mul(lhs, rhs) => ExprView::Mul(
                    Box::new(lhs.fold(arith)),
                    Box::new(rhs.fold(arith)),
                ),
                ExprView::Div(lhs, rhs) => ExprView::Div(
                    Box::new(lhs.fold(arith)),
                    Box::new(rhs.fold(arith)),
                ),
                ExprView::Sin(inner) => ExprView::Sin(Box::new(inner.fold(arith))),
            }
        }
    }
}

impl Expr {
    /// The sum of two trees.
    pub fn new_add(lhs: Expr, rhs: Expr) -> (r: Expr)
        ensures
            r@ == ExprView::Add(Box::new(lhs@), Box::new(rhs@)),
    {
        Expr::Add(Box::new(lhs), Box::new(rhs))
    }

    /// The difference of two trees.
    pub fn new_sub(lhs: Expr, rhs: Expr) -> (r: Expr)
        ensures
            r@ == ExprView::Sub(Box::new(lhs@), Box::new(rhs@)),
    {
        Expr::Sub(Box::new(lhs), Box::new(rhs))
    }

    /// The product of two trees.
    pub fn new_mul(lhs: Expr, rhs: Expr) -> (r: Expr)
        ensures
            r@ == ExprView::Mul(Box::new(lhs@), Box::new(rhs@)),
    {
        Expr::Mul(Box::new(lhs), Box::new(rhs))
    }

    /// The quotient of two trees.
    pub fn new_div(lhs: Expr, rhs: Expr) -> (r: Expr)
        ensures
            r@ == ExprView::Div(Box::new(lhs@), Box::new(rhs@)),
    {
        Expr::Div(Box::new(lhs), Box::new(rhs))
    }

    /// The sine of a tree.
    pub fn new_sin(inner: Expr) -> (r: Expr)
        ensures
            r@ == ExprView::Sin(Box::new(inner@)),
    {
        Expr::Sin(Box::new(inner))
    }

    /// Whether the tree holds no variable.
    pub fn is_constant(&self) -> (r: bool)
        ensures
            r == self@.constant(),
        decreases self,
    {
        match self {
            Expr::Num(_) => true,
            Expr::Var(_) => false,
            Expr::Add(lhs, rhs) => lhs.is_constant() && rhs.is_constant(),
            Expr::Sub(lhs, rhs) => lhs.is_constant() && rhs.is_constant(),
            Expr::Mul(lhs, rhs) => lhs.is_constant() && rhs.is_constant(),
            Expr::Div(lhs, rhs) => lhs.is_constant() && rhs.is_constant(),
            Expr::Sin(inner) => inner.is_constant(),
        }
    }

    /// Evaluates a tree where each variable has the value that `args` holds
    /// for its name: `None` where `args` lacks a variable of the tree.
    pub fn eval<K: Fn(Operation) -> Scalar>(&self, args: &FnArgs, kernel: &K) -> (r: Option<Scalar>)
        requires
            well_behaved(kernel),
        ensures
            r == self@.meaning(args@, model(kernel)),
        decreases self,
    {
        match self {
            Expr::Num(value) => Some(*value),
            Expr::Var(name) => args.get(name.as_str()),
            Expr::Add(lhs, rhs) => match (lhs.eval(args, kernel), rhs.eval(args, kernel)) {
                (Some(a), Some(b)) => Some(perform(kernel, Operation::Add(a, b))),
                _ => None,
            },
            Expr::Sub(lhs, rhs) => match (lhs.eval(args, kernel), rhs.eval(args, kernel)) {
                (Some(a), Some(b)) => Some(perform(kernel, Operation::Sub(a, b))),
                _ => None,
            },
            Expr::Mul(lhs, rhs) => match (lhs.eval(args, kernel), rhs.eval(args, kernel)) {
                (Some(a), Some(b)) => Some(perform(kernel, Operation::Mul(a, b))),
                _ => None,
            },
            Expr::Div(lhs, rhs) => match (lhs.eval(args, kernel), rhs.eval(args, kernel)) {
                (Some(a), Some(b)) => Some(perform(kernel, Operation::Div(a, b))),
                _ => None,
            },
            Expr::Sin(inner) => match inner.eval(args, kernel) {
                Some(a) => Some(perform(kernel, Operation::Sin(a))),
                None => None,
            },
        }
    }

    /// Evaluates a tree that holds no variable.
    pub fn eval_const<K: Fn(Operation) -> Scalar>(&self, kernel: &K) -> (r: Scalar)
        requires
            well_behaved(kernel),
            self@.constant(),
        ensures
            r == self@.value(model(kernel)),
        decreases self,
    {
        match self {
            Expr::Num(value) => *value,
            Expr::Var(_) => unreached(),
            Expr::Add(lhs, rhs) => {
                let a = lhs.eval_const(kernel);
                let b = rhs.eval_const(kernel);
                perform(kernel, Operation::Add(a, b))
            },
            Expr::Sub(lhs, rhs) => {
                let a = lhs.eval_const(kernel);
                let b = rhs.eval_const(kernel);
                perform(kernel, Operation::Sub(a, b))
            },
            Expr::Mul(lhs, rhs) => {
                let a = lhs.eval_const(kernel);
                let b = rhs.eval_const(kernel);
                perform(kernel, Operation::Mul(a, b))
            },
            Expr::Div(lhs, rhs) => {
                let a = lhs.eval_const(kernel);
                let b = rhs.eval_const(kernel);
                perform(kernel, Operation::Div(a, b))
            },
            Expr::Sin(inner) => {
                let a = inner.eval_const(kernel);
                perform(kernel, Operation::Sin(a))
            },
        }
    }
}

/// Folding leaves nothing to fold, keeps a tree constant or not as it was,
/// and turns a constant tree into the one number that it stands for.
pub proof fn lemma_fold_is_exhaustive(tree: ExprView, arith: Arithmetic)
    ensures
        tree.fold(arith).folded(),
        tree.fold(arith).constant() == tree.constant(),
        tree.constant() ==> tree.fold(arith) == ExprView::Num(tree.value(arith)),
    decreases tree,
{
    if !tree.constant() {
        match tree {
            ExprView::Num(_) => {},
            ExprView::Var(_) => {},
            ExprView::Add(lhs, rhs) => {
                lemma_fold_is_exhaustive(*lhs, arith);
                lemma_fold_is_exhaustive(*rhs, arith);
            },
            ExprView::Sub(lhs, rhs) => {
                lemma_fold_is_exhaustive(*lhs, arith);
                lemma_fold_is_exhaustive(*rhs, arith);
            },
            ExprView::Mul(lhs, rhs) => {
                lemma_fold_is_exhaustive(*lhs, arith);
                lemma_fold_is_exhaustive(*rhs, arith);
            },
            ExprView::Div(lhs, rhs) => {
                lemma_fold_is_exhaustive(*lhs, arith);
                lemma_fold_is_exhaustive(*rhs, arith);
            },
            ExprView::Sin(inner) => {
                lemma_fold_is_exhaustive(*inner, arith);
            },
        }
    }
}

/// A constant tree evaluates to its value, whatever the environment.
pub proof fn lemma_constant_meaning(tree: ExprView, env: Map<Seq<char>, Scalar>, arith: Arithmetic)
    requires
        tree.constant(),
    ensures
        tree.meaning(env, arith) == Some(tree.value(arith)),
    decreases tree,
{
    match tree {
        ExprView::Num(_) => {},
        ExprView::Var(_) => {},
        ExprView::Add(lhs, rhs) => {
            lemma_constant_meaning(*lhs, env, arith);
            lemma_constant_meaning(*rhs, env, arith);
        },
        ExprView::Sub(lhs, rhs) => {
            lemma_constant_meaning(*lhs, env, arith);
            lemma_constant_meaning(*rhs, env, arith);
        },
        ExprView::Mul(lhs, rhs) => {
            lemma_constant_meaning(*lhs, env, arith);
            lemma_constant_meaning(*rhs, env, arith);
        },
        ExprView::Div(lhs, rhs) => {
            lemma_constant_meaning(*lhs, env, arith);
            lemma_constant_meaning(*rhs, env, arith);
        },
        ExprView::Sin(inner) => {
            lemma_constant_meaning(*inner, env, arith);
        },
    }
}

/// Folding changes nothing of what a tree evaluates to: in every
/// environment the folded tree and the tree itself evaluate alike. For a
/// constant tree the folded tree is one number, the value of the tree.
pub proof fn lemma_fold_keeps_meaning(
    tree: ExprView,
    env: Map<Seq<char>, Scalar>,
    arith: Arithmetic,
)
    ensures
        tree.fold(arith).meaning(env, arith) == tree.meaning(env, arith),
        tree.constant() ==> tree.fold(arith).value(arith) == tree.value(arith),
    decreases tree,
{
    if tree.constant() {
        lemma_constant_meaning(tree, env, arith);
    } else {
        match tree {
            ExprView::Num(_) => {},
            ExprView::Var(_) => {},
            ExprView::Add(lhs, rhs) => {
                lemma_fold_keeps_meaning(*lhs, env, arith);
                lemma_fold_keeps_meaning(*rhs, env, arith);
            },
            ExprView::Sub(lhs, rhs) => {
                lemma_fold_keeps_meaning(*lhs, env, arith);
                lemma_fold_keeps_meaning(*rhs, env, arith);
            },
            ExprView::Mul(lhs, rhs) => {
                lemma_fold_keeps_meaning(*lhs, env, arith);
                lemma_fold_keeps_meaning(*rhs, env, arith);
            },
            ExprView::Div(lhs, rhs) => {
                lemma_fold_keeps_meaning(*lhs, env, arith);
                lemma_fold_keeps_meaning(*rhs, env, arith);
            },
            ExprView::Sin(inner) => {
                lemma_fold_keeps_meaning(*inner, env, arith);
            },
        }
    }
}

/// A tree with nothing left to fold is its own folding; so folding twice
/// is folding once.
pub proof fn lemma_fold_is_idempotent(tree: ExprView, arith: Arithmetic)
    ensures
        tree.folded() ==> tree.fold(arith) == tree,
        tree.fold(arith).fold(arith) == tree.fold(arith),
    decreases tree,
{
    lemma_folded_is_fixed(tree, arith);
    lemma_fold_is_exhaustive(tree, arith);
    lemma_folded_is_fixed(tree.fold(arith), arith);
}

/// A tree with nothing left to fold is its own folding.
proof fn lemma_folded_is_fixed(tree: ExprView, arith: Arithmetic)
    ensures
        tree.folded() ==> tree.fold(arith) == tree,
    decreases tree,
{
    if tree.folded() {
        match tree {
            ExprView::Num(_) => {},
            ExprView::Var(_) => {},
            ExprView::Add(lhs, rhs) => {
                lemma_folded_is_fixed(*lhs, arith);
                lemma_folded_is_fixed(*rhs, arith);
            },
            ExprView::Sub(lhs, rhs) => {
                lemma_folded_is_fixed(*lhs, arith);
                lemma_folded_is_fixed(*rhs, arith);
            },
            ExprView::Mul(lhs, rhs) => {
                lemma_folded_is_fixed(*lhs, arith);
                lemma_folded_is_fixed(*rhs, arith);
            },
            ExprView::Div(lhs, rhs) => {
                lemma_folded_is_fixed(*lhs, arith);
                lemma_folded_is_fixed(*rhs, arith);
            },
            ExprView::Sin(inner) => {
                lemma_folded_is_fixed(*inner, arith);
            },
        }
    }
}

} // verus!
