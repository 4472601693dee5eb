//! The parts of calls, declarations, assignments and index expressions.
use vstd::prelude::*;
use crate::tree::ChildFilter;
use crate::tree::NodeKind;
use crate::tree::SyntaxTree;

verus! {

impl SyntaxTree {
    /// The first expression directly under `i`: the receiver of a method
    /// call, the callee of a call, the left side of a binary expression, the
    /// base of an index expression, the initializer of a declaration.
    pub open spec fn first_expr_of(&self, i: usize) -> Option<usize> {
        self.child_of(i, ChildFilter::Expr, 0)
    }

    /// The second expression directly under `i`: the right side of a binary
    /// expression, the index of an index expression.
    pub open spec fn second_expr_of(&self, i: usize) -> Option<usize> {
        self.child_of(i, ChildFilter::Expr, 1)
    }

    /// The pattern that a declaration binds.
    pub open spec fn pat_of(&self, i: usize) -> Option<usize> {
        self.child_of(i, ChildFilter::Kind(NodeKind::Pat), 0)
    }

    /// The type that a declaration states.
    pub open spec fn type_of(&self, i: usize) -> Option<usize> {
        self.child_of(i, ChildFilter::Kind(NodeKind::Type), 0)
    }

    /// The name of the method that a method call calls.
    pub open spec fn method_name_of(&self, i: usize) -> Option<usize> {
        self.child_of(i, ChildFilter::Kind(NodeKind::NameRef), 0)
    }

    /// The arguments of a call, in order.
    pub open spec fn args_of(&self, i: usize) -> Seq<usize> {
        match self.child_of(i, ChildFilter::Kind(NodeKind::ArgList), 0) {
            Some(list) => self.children_of(list, ChildFilter::Expr),
            None => Seq::empty(),
        }
    }

    /// The `n`-th argument of a call.
    pub open spec fn arg_of(&self, i: usize, n: int) -> Option<usize> {
        let args = self.args_of(i);
        if 0 <= n < args.len() {
            Some(args[n])
        } else {
            None
        }
    }

    /// The argument of a call that has exactly one.
    pub open spec fn sole_arg_of(&self, i: usize) -> Option<usize> {
        let args = self.args_of(i);
        if args.len() == 1 {
            Some(args[0])
        } else {
            None
        }
    }

    /// The first expression directly under `i`.
    pub fn first_expr(&self, i: usize) -> (r: Option<usize>)
        requires
            self.has(i),
        ensures
            r == self.first_expr_of(i),
            r is Some ==> i < r->0 && self.has(r->0),
    {
        self.child(i, ChildFilter::Expr, 0)
    }

    /// The second expression directly under `i`.
    pub fn second_expr(&self, i: usize) -> (r: Option<usize>)
        requires
            self.has(i),
        ensures
            r == self.second_expr_of(i),
            r is Some ==> i < r->0 && self.has(r->0),
    {
        self.child(i, ChildFilter::Expr, 1)
    }

    /// The pattern that a declaration binds.
    pub fn pat(&self, i: usize) -> (r: Option<usize>)
        requires
            self.has(i),
        ensures
            r == self.pat_of(i),
            r is Some ==> i < r->0 && self.has(r->0),
    {
        self.child(i, ChildFilter::Kind(NodeKind::Pat), 0)
    }

    /// The type that a declaration states.
    pub fn declared_type(&self, i: usize) -> (r: Option<usize>)
        requires
            self.has(i),
        ensures
            r == self.type_of(i),
            r is Some ==> i < r->0 && self.has(r->0),
    {
        self.child(i, ChildFilter::Kind(NodeKind::Type), 0)
    }

    /// The name of the method that a method call calls.
    pub fn method_name(&self, i: usize) -> (r: Option<usize>)
        requires
            self.has(i),
        ensures
            r == self.method_name_of(i),
            r is Some ==> i < r->0 && self.has(r->0),
    {
        self.child(i, ChildFilter::Kind(NodeKind::NameRef), 0)
    }

    /// The arguments of a call, in order.
    pub fn args(&self, i: usize) -> (r: Vec<usize>)
        requires
            self.has(i),
        ensures
            r@ == self.args_of(i),
            forall|k: int| 0 <= k < r@.len() ==> i < #[trigger] r@[k] && self.has(r@[k]),
    {
        match self.child(i, ChildFilter::Kind(NodeKind::ArgList), 0) {
            Some(list) => self.children(list, ChildFilter::Expr),
            None => Vec::new(),
        }
    }

    /// The `n`-th argument of a call.
    pub fn arg(&self, i: usize, n: usize) -> (r: Option<usize>)
        requires
            self.has(i),
        ensures
            r == self.arg_of(i, n as int),
            r is Some ==> i < r->0 && self.has(r->0),
    {
        let args = self.args(i);
        if n < args.len() {
            Some(args[n])
        } else {
            None
        }
    }

    /// The argument of a call that has exactly one.
    pub fn sole_arg(&self, i: usize) -> (r: Option<usize>)
        requires
            self.has(i),
        ensures
            r == self.sole_arg_of(i),
            r is Some ==> i < r->0 && self.has(r->0),
    {
        let args = self.args(i);
        exactly_one(&args)
    }
}

/// The only item of `items`, where it holds exactly one.
///
/// Calls `Itertools::exactly_one` on the items in order. That function hands
/// back the first item of an iterator that yields one item and no second,
/// and an error for an iterator that yields none or more than one.
#[verifier::external_body]
fn exactly_one(items: &Vec<usize>) -> (r: Option<usize>)
    ensures
        r == if items@.len() == 1 {
            Some(items@[0])
        } else {
            None::<usize>
        },
{
    itertools::Itertools::exactly_one(items.iter().copied()).ok()
}

} // verus!
