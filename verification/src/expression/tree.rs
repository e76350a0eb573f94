//! Parsed scalar expressions.

use vstd::prelude::*;
use crate::types::{DataType, Datum, Value};

verus! {

/// Maximum nesting of an expression.
pub const MAX_EXPRESSION_DEPTH: usize = 128;

/// Operators with one operand.
#[derive(Clone, Copy, Debug, PartialEq, Eq, Structural)]
pub enum UnaryOperator {
    Plus,
    Minus,
    Not,
}

/// Operators with two operands.
#[derive(Clone, Copy, Debug, PartialEq, Eq, Structural)]
pub enum BinaryOperator {
    Add,
    Subtract,
    Multiply,
    Divide,
    Modulo,
    Equal,
    NotEqual,
    Less,
    LessOrEqual,
    Greater,
    GreaterOrEqual,
    And,
    Or,
}

/// A parsed scalar expression.
#[derive(Debug, PartialEq)]
pub enum Expr {
    Literal(Value),
    Column(String),
    QuotedColumn(String),
    Unary { operator: UnaryOperator, expression: Box<Expr> },
    Binary { left: Box<Expr>, operator: BinaryOperator, right: Box<Expr> },
    IsNull { expression: Box<Expr>, negated: bool },
    Cast { expression: Box<Expr>, target: DataType },
    Case {
        operand: Option<Box<Expr>>,
        branches: Vec<(Expr, Expr)>,
        else_expression: Option<Box<Expr>>,
    },
    Function { name: String, arguments: Vec<Expr> },
}

/// The content of an expression.
pub enum Tree {
    Literal(Datum),
    Column(Seq<char>),
    QuotedColumn(Seq<char>),
    Unary { operator: UnaryOperator, expression: Box<Tree> },
    Binary { left: Box<Tree>, operator: BinaryOperator, right: Box<Tree> },
    IsNull { expression: Box<Tree>, negated: bool },
    Cast { expression: Box<Tree>, target: DataType },
    Case {
        operand: Option<Box<Tree>>,
        branches: Seq<(Tree, Tree)>,
        else_expression: Option<Box<Tree>>,
    },
    Function { name: Seq<char>, arguments: Seq<Tree> },
}

/// The content of an expression.
pub open spec fn tree_of(e: Expr) -> Tree
    decreases e, 0nat,
{
    match e {
        Expr::Literal(value) => Tree::Literal(value@),
        Expr::Column(name) => Tree::Column(name@),
        Expr::QuotedColumn(name) => Tree::QuotedColumn(name@),
        Expr::Unary { operator, expression } => Tree::Unary {
            operator,
            expression: Box::new(tree_of(*expression)),
        },
        Expr::Binary { left, operator, right } => Tree::Binary {
            left: Box::new(tree_of(*left)),
            operator,
            right: Box::new(tree_of(*right)),
        },
        Expr::IsNull { expression, negated } => Tree::IsNull {
            expression: Box::new(tree_of(*expression)),
            negated,
        },
        Expr::Cast { expression, target } => Tree::Cast {
            expression: Box::new(tree_of(*expression)),
            target,
        },
        Expr::Case { operand, branches, else_expression } => Tree::Case {
            operand: match operand {
                Some(o) => Some(Box::new(tree_of(*o))),
                None => None,
            },
            branches: branches_of(branches@, branches@.len()),
            else_expression: match else_expression {
                Some(o) => Some(Box::new(tree_of(*o))),
                None => None,
            },
        },
        Expr::Function { name, arguments } => Tree::Function {
            name: name@,
            arguments: trees_of(arguments@, arguments@.len()),
        },
    }
}

/// The contents of the first `n` expressions.
pub open spec fn trees_of(list: Seq<Expr>, n: nat) -> Seq<Tree>
    decreases list, n,
{
    if n == 0 || n > list.len() {
        Seq::empty()
    } else {
        trees_of(list, (n - 1) as nat).push(tree_of(list[n - 1]))
    }
}

/// The contents of the first `n` branches.
pub open spec fn branches_of(list: Seq<(Expr, Expr)>, n: nat) -> Seq<(Tree, Tree)>
    decreases list, n,
{
    if n == 0 || n > list.len() {
        Seq::empty()
    } else {
        branches_of(list, (n - 1) as nat).push(
            (tree_of(list[n - 1].0), tree_of(list[n - 1].1)),
        )
    }
}

impl View for Expr {
    type V = Tree;

    open spec fn view(&self) -> Tree {
        tree_of(*self)
    }
}

pub(crate) proof fn trees_match(list: Seq<Expr>, n: nat)
    requires
        n <= list.len(),
    ensures
        trees_of(list, n).len() == n,
        forall|i: int| 0 <= i < n ==> #[trigger] trees_of(list, n)[i] == tree_of(list[i]),
    decreases n,
{
    if n > 0 {
        trees_match(list, (n - 1) as nat);
    }
}

pub(crate) proof fn branches_match(list: Seq<(Expr, Expr)>, n: nat)
    requires
        n <= list.len(),
    ensures
        branches_of(list, n).len() == n,
        forall|i: int|
            0 <= i < n ==> #[trigger] branches_of(list, n)[i] == (
                tree_of(list[i].0),
                tree_of(list[i].1),
            ),
    decreases n,
{
    if n > 0 {
        branches_match(list, (n - 1) as nat);
    }
}

pub(crate) proof fn trees_grow(list: Seq<Expr>, e: Expr)
    ensures
        trees_of(list.push(e), list.len() + 1) == trees_of(list, list.len()).push(tree_of(e)),
{
    trees_match(list, list.len());
    trees_match(list.push(e), list.len() + 1);
    assert(trees_of(list.push(e), list.len() + 1) =~= trees_of(list, list.len()).push(tree_of(e)));
}

pub(crate) proof fn branches_grow(list: Seq<(Expr, Expr)>, e: (Expr, Expr))
    ensures
        branches_of(list.push(e), list.len() + 1) == branches_of(list, list.len()).push(
            (tree_of(e.0), tree_of(e.1)),
        ),
{
    branches_match(list, list.len());
    branches_match(list.push(e), list.len() + 1);
    assert(branches_of(list.push(e), list.len() + 1) =~= branches_of(list, list.len()).push(
        (tree_of(e.0), tree_of(e.1)),
    ));
}

#[verifier::loop_isolation(false)]
fn copied_all(list: &Vec<Expr>) -> (r: Vec<Expr>)
    ensures
        trees_of(r@, r@.len()) == trees_of(list@, list@.len()),
    decreases list, 0nat,
{
    let mut r: Vec<Expr> = Vec::new();
    let mut i: usize = 0;
    while i < list.len()
        invariant
            i <= list.len(),
            r@.len() == i,
            trees_of(r@, i as nat) == trees_of(list@, i as nat),
        decreases list.len() - i,
    {
        let next = copied(&list[i]);
        proof {
            trees_grow(r@, next);
        }
        r.push(next);
        i = i + 1;
    }
    r
}

#[verifier::loop_isolation(false)]
fn copied_branches(list: &Vec<(Expr, Expr)>) -> (r: Vec<(Expr, Expr)>)
    ensures
        branches_of(r@, r@.len()) == branches_of(list@, list@.len()),
    decreases list, 0nat,
{
    let mut r: Vec<(Expr, Expr)> = Vec::new();
    let mut i: usize = 0;
    while i < list.len()
        invariant
            i <= list.len(),
            r@.len() == i,
            branches_of(r@, i as nat) == branches_of(list@, i as nat),
        decreases list.len() - i,
    {
        let next = (copied(&list[i].0), copied(&list[i].1));
        proof {
            branches_grow(r@, next);
        }
        r.push(next);
        i = i + 1;
    }
    r
}

fn copied(e: &Expr) -> (r: Expr)
    ensures
        r@ == e@,
    decreases e, 1nat,
{
    match e {
        Expr::Literal(value) => Expr::Literal(value.clone()),
        Expr::Column(name) => Expr::Column(name.clone()),
        Expr::QuotedColumn(name) => Expr::QuotedColumn(name.clone()),
        Expr::Unary { operator, expression } => Expr::Unary {
            operator: *operator,
            expression: Box::new(copied(expression)),
        },
        Expr::Binary { left, operator, right } => Expr::Binary {
            left: Box::new(copied(left)),
            operator: *operator,
            right: Box::new(copied(right)),
        },
        Expr::IsNull { expression, negated } => Expr::IsNull {
            expression: Box::new(copied(expression)),
            negated: *negated,
        },
        Expr::Cast { expression, target } => Expr::Cast {
            expression: Box::new(copied(expression)),
            target: *target,
        },
        Expr::Case { operand, branches, else_expression } => {
            let operand_copy = match operand {
                Some(o) => Some(Box::new(copied(o))),
                None => None,
            };
            let else_copy = match else_expression {
                Some(o) => Some(Box::new(copied(o))),
                None => None,
            };
            Expr::Case {
                operand: operand_copy,
                branches: copied_branches(branches),
                else_expression: else_copy,
            }
        },
        Expr::Function { name, arguments } => Expr::Function {
            name: name.clone(),
            arguments: copied_all(arguments),
        },
    }
}

impl Clone for Expr {
    fn clone(&self) -> (r: Expr)
        ensures
            r@ == self@,
    {
        copied(self)
    }
}

/// Whether no path through an expression has more than `limit` nodes.
pub open spec fn fits(t: Tree, limit: nat) -> bool
    decreases t, 0nat,
{
    limit > 0 && {
        let below = (limit - 1) as nat;
        match t {
            Tree::Literal(_) | Tree::Column(_) | Tree::QuotedColumn(_) => true,
            Tree::Unary { expression, .. } => fits(*expression, below),
            Tree::IsNull { expression, .. } => fits(*expression, below),
            Tree::Cast { expression, .. } => fits(*expression, below),
            Tree::Binary { left, right, .. } => fits(*left, below) && fits(*right, below),
            Tree::Case { operand, branches, else_expression } => {
                &&& (operand matches Some(o) ==> fits(*o, below))
                &&& branches_fit(branches, branches.len(), below)
                &&& (else_expression matches Some(o) ==> fits(*o, below))
            },
            Tree::Function { arguments, .. } => all_fit(arguments, arguments.len(), below),
        }
    }
}

/// Whether the first `n` expressions are nested within a limit.
pub open spec fn all_fit(list: Seq<Tree>, n: nat, limit: nat) -> bool
    decreases list, n,
{
    n == 0 || n > list.len() || (all_fit(list, (n - 1) as nat, limit) && fits(list[n - 1], limit))
}

/// Whether the first `n` branches are nested within a limit.
pub open spec fn branches_fit(list: Seq<(Tree, Tree)>, n: nat, limit: nat) -> bool
    decreases list, n,
{
    n == 0 || n > list.len() || (branches_fit(list, (n - 1) as nat, limit) && fits(
        list[n - 1].0,
        limit,
    ) && fits(list[n - 1].1, limit))
}

impl Expr {
    /// Whether no path through the expression has more than `limit` nodes.
    ///
    /// The recursion is no deeper than the limit, however deep the expression is.
    #[verifier::loop_isolation(false)]
    pub fn fits_within(&self, limit: usize) -> (r: bool)
        ensures
            r == fits(self@, limit as nat),
        decreases limit,
    {
        if limit == 0 {
            return false;
        }
        let below = limit - 1;
        match self {
            Expr::Literal(_) => true,
            Expr::Column(_) => true,
            Expr::QuotedColumn(_) => true,
            Expr::Unary { operator: _, expression } => expression.fits_within(below),
            Expr::IsNull { expression, negated: _ } => expression.fits_within(below),
            Expr::Cast { expression, target: _ } => expression.fits_within(below),
            Expr::Binary { left, operator: _, right } => left.fits_within(below)
                && right.fits_within(below),
            Expr::Case { operand, branches, else_expression } => {
                let ghost list = branches_of(branches@, branches@.len());
                proof {
                    branches_match(branches@, branches@.len());
                }
                let first = match operand {
                    Some(o) => o.fits_within(below),
                    None => true,
                };
                let mut middle = true;
                let mut i: usize = 0;
                while i < branches.len()
                    invariant
                        i <= branches.len(),
                        middle == branches_fit(list, i as nat, below as nat),
                    decreases branches.len() - i,
                {
                    assert(list[i as int] == (tree_of(branches@[i as int].0), tree_of(branches@[i as int].1)));
                    let both = branches[i].0.fits_within(below) && branches[i].1.fits_within(below);
                    middle = middle && both;
                    i = i + 1;
                }
                let last = match else_expression {
                    Some(o) => o.fits_within(below),
                    None => true,
                };
                first && middle && last
            },
            Expr::Function { name: _, arguments } => {
                let ghost list = trees_of(arguments@, arguments@.len());
                proof {
                    trees_match(arguments@, arguments@.len());
                }
                let mut all = true;
                let mut i: usize = 0;
                while i < arguments.len()
                    invariant
                        i <= arguments.len(),
                        all == all_fit(list, i as nat, below as nat),
                    decreases arguments.len() - i,
                {
                    assert(list[i as int] == tree_of(arguments@[i as int]));
                    let one = arguments[i].fits_within(below);
                    all = all && one;
                    i = i + 1;
                }
                all
            },
        }
    }
}

} // verus!
