//! The syntax tree that the rewriter reads.
//!
//! A tree is the source text and its elements in document order. An element
//! is a syntax node, or an `unsafe` keyword token (a leaf). Each element
//! records how deep it sits, so the element after a node is its first child
//! exactly when it sits one level deeper, and a node's subtree is the run of
//! deeper elements that follows it.
use vstd::prelude::*;
use vstd::slice::slice_subrange;
use crate::text::TextRange;
use crate::text::bytes_eq;

verus! {

/// The kinds of element that the rewriter tells apart.
#[derive(Clone, Copy, Debug, PartialEq, Eq, Structural)]
pub enum NodeKind {
    /// The statements between the braces of a block.
    StmtList,
    /// An expression used as a statement.
    ExprStmt,
    /// A `let` statement.
    LetStmt,
    /// A block expression, `unsafe` blocks included.
    BlockExpr,
    /// A call of a path or another callee expression.
    CallExpr,
    /// A method call.
    MethodCallExpr,
    /// A binary expression, assignments included.
    BinExpr,
    /// An index expression `base[index]`.
    IndexExpr,
    /// A path used as an expression.
    PathExpr,
    /// The parenthesised arguments of a call.
    ArgList,
    /// A name that refers to an item, a local or a method.
    NameRef,
    /// Any other expression.
    OtherExpr,
    /// Any pattern.
    Pat,
    /// Any type.
    Type,
    /// The `unsafe` keyword token.
    UnsafeKw,
    /// Any other node.
    Other,
}

impl NodeKind {
    /// The kind is one of the expression kinds.
    pub open spec fn is_expr(self) -> bool {
        self == NodeKind::BlockExpr || self == NodeKind::CallExpr || self
            == NodeKind::MethodCallExpr || self == NodeKind::BinExpr || self == NodeKind::IndexExpr
            || self == NodeKind::PathExpr || self == NodeKind::OtherExpr
    }

    /// Whether the kind is one of the expression kinds.
    pub fn is_expression(self) -> (r: bool)
        ensures
            r == self.is_expr(),
    {
        self == NodeKind::BlockExpr || self == NodeKind::CallExpr || self
            == NodeKind::MethodCallExpr || self == NodeKind::BinExpr || self == NodeKind::IndexExpr
            || self == NodeKind::PathExpr || self == NodeKind::OtherExpr
    }
}

/// Which children of a node a query asks for.
#[derive(Clone, Copy, Debug, PartialEq, Eq, Structural)]
pub enum ChildFilter {
    /// Every child.
    Any,
    /// The children that are expressions.
    Expr,
    /// The children of one kind.
    Kind(NodeKind),
}

impl ChildFilter {
    /// The filter lets a child of the given kind through.
    pub open spec fn accepts(self, kind: NodeKind) -> bool {
        match self {
            ChildFilter::Any => true,
            ChildFilter::Expr => kind.is_expr(),
            ChildFilter::Kind(k) => kind == k,
        }
    }

    /// Whether the filter lets a child of the given kind through.
    pub fn admits(self, kind: NodeKind) -> (r: bool)
        ensures
            r == self.accepts(kind),
    {
        match self {
            ChildFilter::Any => true,
            ChildFilter::Expr => kind.is_expression(),
            ChildFilter::Kind(k) => kind == k,
        }
    }
}

/// One element of a tree: its kind, its depth below the root, and the span
/// of source text it covers.
#[derive(Clone, Copy, Debug, PartialEq, Eq, Structural)]
pub struct Element {
    pub kind: NodeKind,
    pub depth: usize,
    pub range: TextRange,
}

/// First offset at or after `j` whose element is no deeper than `depth`, or
/// the number of elements when there is none.
pub open spec fn subtree_end_from(e: Seq<Element>, depth: usize, j: int) -> int
    decreases e.len() - j,
{
    if j < 0 || j >= e.len() {
        e.len() as int
    } else if e[j].depth <= depth {
        j
    } else {
        subtree_end_from(e, depth, j + 1)
    }
}

/// One past the last element of the subtree of element `i`.
pub open spec fn subtree_end(e: Seq<Element>, i: int) -> int {
    subtree_end_from(e, e[i].depth, i + 1)
}

/// Element `j` lies in the subtree of element `i`, `i` itself included.
pub open spec fn in_subtree(e: Seq<Element>, i: int, j: int) -> bool {
    i <= j < subtree_end(e, i)
}

/// Nearest element at or before `j` that is shallower than `depth`.
pub open spec fn parent_from(e: Seq<Element>, depth: usize, j: int) -> Option<usize>
    decreases j + 1,
{
    if j < 0 || j >= e.len() {
        None
    } else if e[j].depth < depth {
        Some(j as usize)
    } else {
        parent_from(e, depth, j - 1)
    }
}

/// Nearest element at or before `j` that sits at `depth` under the same
/// parent as the element the search started from.
pub open spec fn prev_sibling_from(e: Seq<Element>, depth: usize, j: int) -> Option<usize>
    decreases j + 1,
{
    if j < 0 || j >= e.len() || e[j].depth < depth {
        None
    } else if e[j].depth == depth {
        Some(j as usize)
    } else {
        prev_sibling_from(e, depth, j - 1)
    }
}

/// The children of a node at `depth` that `filter` accepts, among the
/// elements `j..end`, in document order.
pub open spec fn children_from(
    e: Seq<Element>,
    depth: usize,
    j: int,
    end: int,
    filter: ChildFilter,
) -> Seq<usize>
    decreases end - j,
{
    if j < 0 || j >= end || j >= e.len() {
        Seq::empty()
    } else if e[j].depth == depth + 1 && filter.accepts(e[j].kind) {
        seq![j as usize] + children_from(e, depth, j + 1, end, filter)
    } else {
        children_from(e, depth, j + 1, end, filter)
    }
}

/// First element among `j..end` of the given kind.
pub open spec fn first_of_kind_from(e: Seq<Element>, kind: NodeKind, j: int, end: int) -> Option<
    usize,
>
    decreases end - j,
{
    if j < 0 || j >= end || j >= e.len() {
        None
    } else if e[j].kind == kind {
        Some(j as usize)
    } else {
        first_of_kind_from(e, kind, j + 1, end)
    }
}

/// Element `i` may follow element `i - 1`: it sits below the root, at most
/// one level deeper than the element before it, and not below a keyword
/// token.
pub open spec fn follows(e: Seq<Element>, i: int) -> bool {
    &&& 1 <= e[i].depth <= e[i - 1].depth + 1
    &&& e[i - 1].kind == NodeKind::UnsafeKw ==> e[i].depth <= e[i - 1].depth
}

/// The depths describe one tree: a single root, no element more than one
/// level below the element before it, and keyword tokens without children.
pub open spec fn depths_ok(e: Seq<Element>) -> bool {
    &&& e.len() > 0 ==> e[0].depth == 0
    &&& forall|i: int| 0 < i < e.len() ==> #[trigger] follows(e, i)
}

/// Every span lies inside the text.
pub open spec fn ranges_fit(e: Seq<Element>, len: int) -> bool {
    forall|i: int| 0 <= i < e.len() ==> (#[trigger] e[i]).range.fits(len)
}

/// Element `j` relates to the earlier element `i` as the text demands: it is
/// covered by `i` when it lies in the subtree of `i`, and starts no earlier
/// than `i` ends when it does not.
pub open spec fn placed(e: Seq<Element>, i: int, j: int) -> bool {
    if j < subtree_end(e, i) {
        e[i].range.start <= e[j].range.start && e[j].range.end <= e[i].range.end
    } else {
        e[i].range.end <= e[j].range.start
    }
}

/// Spans nest as the tree does, and follow each other in document order.
pub open spec fn ranges_nest(e: Seq<Element>) -> bool {
    forall|i: int, j: int| 0 <= i < j < e.len() ==> #[trigger] placed(e, i, j)
}

/// The elements and the text form a valid syntax tree.
pub open spec fn well_formed(text: Seq<u8>, e: Seq<Element>) -> bool {
    &&& e.len() <= usize::MAX
    &&& depths_ok(e)
    &&& ranges_fit(e, text.len() as int)
    &&& ranges_nest(e)
}

/// What `subtree_end_from` finds is the first element at or after `j` that
/// is no deeper than `depth`.
pub proof fn lemma_subtree_end_from(e: Seq<Element>, depth: usize, j: int)
    requires
        0 <= j <= e.len(),
    ensures
        j <= subtree_end_from(e, depth, j) <= e.len(),
        forall|k: int| j <= k < subtree_end_from(e, depth, j) ==> (#[trigger] e[k]).depth > depth,
        subtree_end_from(e, depth, j) < e.len() ==> e[subtree_end_from(e, depth, j)].depth
            <= depth,
    decreases e.len() - j,
{
    if j < e.len() && e[j].depth > depth {
        lemma_subtree_end_from(e, depth, j + 1);
    }
}

/// The subtree of `i` is the run of strictly deeper elements after it.
pub proof fn lemma_subtree_end(e: Seq<Element>, i: int)
    requires
        0 <= i < e.len(),
    ensures
        i < subtree_end(e, i) <= e.len(),
        forall|k: int| i < k < subtree_end(e, i) ==> (#[trigger] e[k]).depth > e[i].depth,
        subtree_end(e, i) < e.len() ==> e[subtree_end(e, i)].depth <= e[i].depth,
{
    lemma_subtree_end_from(e, e[i].depth, i + 1);
}

/// What `children_from` yields: the elements among `j..end` that sit one
/// level below `depth` and that `filter` accepts, each once, in document
/// order.
pub proof fn lemma_children_from(
    e: Seq<Element>,
    depth: usize,
    j: int,
    end: int,
    filter: ChildFilter,
)
    requires
        0 <= j,
        end <= e.len() <= usize::MAX,
    ensures
        forall|c: usize| #[trigger]
            children_from(e, depth, j, end, filter).contains(c) <==> j <= c < end && e[c as int].depth
                == depth + 1 && filter.accepts(e[c as int].kind),
        forall|x: int, y: int|
            0 <= x < y < children_from(e, depth, j, end, filter).len() ==> children_from(
                e,
                depth,
                j,
                end,
                filter,
            )[x] < children_from(e, depth, j, end, filter)[y],
    decreases end - j,
{
    let all = children_from(e, depth, j, end, filter);
    if j < end {
        lemma_children_from(e, depth, j + 1, end, filter);
        let rest = children_from(e, depth, j + 1, end, filter);
        if e[j].depth == depth + 1 && filter.accepts(e[j].kind) {
            assert(all =~= seq![j as usize] + rest);
            assert(all[0] == j as usize);
            assert forall|c: usize| #[trigger] all.contains(c) <==> j <= c < end && e[c as int].depth
                == depth + 1 && filter.accepts(e[c as int].kind) by {
                if all.contains(c) {
                    let x = choose|x: int| 0 <= x < all.len() && all[x] == c;
                    if x > 0 {
                        assert(rest[x - 1] == c);
                        assert(rest.contains(c));
                    }
                }
                if j <= c < end && e[c as int].depth == depth + 1 && filter.accepts(
                    e[c as int].kind,
                ) {
                    if c == j {
                        assert(all[0] == c);
                    } else {
                        assert(rest.contains(c));
                        let y = choose|y: int| 0 <= y < rest.len() && rest[y] == c;
                        assert(all[y + 1] == c);
                    }
                }
            }
            assert forall|x: int, y: int| 0 <= x < y < all.len() implies all[x] < all[y] by {
                assert(rest[y - 1] == all[y]);
                assert(rest.contains(all[y]));
                if x > 0 {
                    assert(rest[x - 1] == all[x]);
                }
            }
        } else {
            assert(all =~= rest);
        }
    }
}

/// What `parent_from` finds is the nearest shallower element.
pub proof fn lemma_parent_from(e: Seq<Element>, depth: usize, j: int)
    requires
        -1 <= j < e.len(),
        e.len() <= usize::MAX,
    ensures
        match parent_from(e, depth, j) {
            Some(p) => 0 <= p <= j && e[p as int].depth < depth && forall|k: int|
                p < k <= j ==> (#[trigger] e[k]).depth >= depth,
            None => forall|k: int| 0 <= k <= j ==> (#[trigger] e[k]).depth >= depth,
        },
    decreases j + 1,
{
    if j >= 0 && e[j].depth >= depth {
        lemma_parent_from(e, depth, j - 1);
    }
}

/// What `prev_sibling_from` finds sits at the same depth, with only deeper
/// elements between.
pub proof fn lemma_prev_sibling_from(e: Seq<Element>, depth: usize, j: int)
    requires
        -1 <= j < e.len(),
        e.len() <= usize::MAX,
    ensures
        match prev_sibling_from(e, depth, j) {
            Some(p) => 0 <= p <= j && e[p as int].depth == depth,
            None => true,
        },
    decreases j + 1,
{
    if j >= 0 && e[j].depth > depth {
        lemma_prev_sibling_from(e, depth, j - 1);
    }
}

/// An element lies in the subtree of its parent.
pub proof fn lemma_parent_holds_child(e: Seq<Element>, x: int)
    requires
        0 <= x < e.len(),
        e.len() <= usize::MAX,
    ensures
        match parent_from(e, e[x].depth, x - 1) {
            Some(p) => p < x && in_subtree(e, p as int, x) && e[p as int].depth < e[x].depth,
            None => true,
        },
{
    lemma_parent_from(e, e[x].depth, x - 1);
    match parent_from(e, e[x].depth, x - 1) {
        Some(p) => {
            lemma_subtree_end(e, p as int);
        },
        None => {},
    }
}

/// An element below `a` has a parent, and the parent lies in the subtree of
/// `a`.
pub proof fn lemma_parent_stays_inside(e: Seq<Element>, a: int, x: int)
    requires
        0 <= a < x < subtree_end(e, a),
        x < e.len(),
        e.len() <= usize::MAX,
    ensures
        parent_from(e, e[x].depth, x - 1) is Some,
        a <= parent_from(e, e[x].depth, x - 1)->0 < x,
{
    lemma_subtree_end(e, a);
    lemma_parent_from(e, e[x].depth, x - 1);
}

/// Subtrees nest: the subtree of an element of a subtree ends inside it.
pub proof fn lemma_subtrees_nest(e: Seq<Element>, a: int, x: int)
    requires
        0 <= a <= x < subtree_end(e, a),
        x < e.len(),
    ensures
        subtree_end(e, x) <= subtree_end(e, a),
{
    lemma_subtree_end(e, a);
    lemma_subtree_end(e, x);
}

/// An element that is no deeper than an earlier one lies after its subtree.
pub proof fn lemma_later_sibling_is_outside(e: Seq<Element>, b: int, a: int)
    requires
        0 <= b < a < e.len(),
        e[a].depth <= e[b].depth,
    ensures
        subtree_end(e, b) <= a,
{
    lemma_subtree_end(e, b);
}

/// A syntax tree: source text and its elements in document order.
pub struct SyntaxTree {
    text: Vec<u8>,
    elems: Vec<Element>,
}

impl SyntaxTree {
    /// The source text.
    pub closed spec fn text(&self) -> Seq<u8> {
        self.text@
    }

    /// The elements, in document order.
    pub closed spec fn elements(&self) -> Seq<Element> {
        self.elems@
    }

    /// The text and the elements form a valid tree.
    #[verifier::type_invariant]
    pub closed spec fn inv(self) -> bool {
        well_formed(self.text@, self.elems@)
    }

    /// The validity that every tree has.
    pub open spec fn wf(&self) -> bool {
        well_formed(self.text(), self.elements())
    }

    /// The invariant of the type is the validity of the tree.
    pub proof fn lemma_inv_is_wf(&self)
        requires
            self.inv(),
        ensures
            self.wf(),
    {
    }

    /// `i` is an element of this tree.
    pub open spec fn has(&self, i: usize) -> bool {
        (i as int) < self.elements().len()
    }

    /// The source text that element `i` covers.
    pub open spec fn text_at(&self, i: usize) -> Seq<u8> {
        self.elements()[i as int].range.of(self.text())
    }

    /// The kind of element `i`.
    pub open spec fn kind_at(&self, i: usize) -> NodeKind {
        self.elements()[i as int].kind
    }

    /// The span of element `i`.
    pub open spec fn range_at(&self, i: usize) -> TextRange {
        self.elements()[i as int].range
    }

    /// The depth of element `i`.
    pub open spec fn depth_at(&self, i: usize) -> usize {
        self.elements()[i as int].depth
    }

    /// One past the last element of the subtree of `i`.
    pub open spec fn end_of(&self, i: usize) -> int {
        subtree_end(self.elements(), i as int)
    }

    /// The element that `i` is a child of.
    pub open spec fn parent_of(&self, i: usize) -> Option<usize> {
        parent_from(self.elements(), self.elements()[i as int].depth, i - 1)
    }

    /// The sibling just before `i`.
    pub open spec fn prev_sibling_of(&self, i: usize) -> Option<usize> {
        prev_sibling_from(self.elements(), self.elements()[i as int].depth, i - 1)
    }

    /// The sibling just after `i`.
    pub open spec fn next_sibling_of(&self, i: usize) -> Option<usize> {
        let j = self.end_of(i);
        if j < self.elements().len() && self.elements()[j].depth == self.elements()[i as int].depth {
            Some(j as usize)
        } else {
            None
        }
    }

    /// The children of `i` that `filter` accepts, in document order.
    pub open spec fn children_of(&self, i: usize, filter: ChildFilter) -> Seq<usize> {
        children_from(
            self.elements(),
            self.elements()[i as int].depth,
            i + 1,
            self.end_of(i),
            filter,
        )
    }

    /// The `n`-th child of `i` that `filter` accepts.
    pub open spec fn child_of(&self, i: usize, filter: ChildFilter, n: int) -> Option<usize> {
        let c = self.children_of(i, filter);
        if 0 <= n < c.len() {
            Some(c[n])
        } else {
            None
        }
    }

    /// The first element of the given kind in the subtree of `i`, in
    /// document order, `i` itself included.
    pub open spec fn first_of_kind(&self, i: usize, kind: NodeKind) -> Option<usize> {
        first_of_kind_from(self.elements(), kind, i as int, self.end_of(i))
    }

    /// Some element in the subtree of `i`, `i` itself included, has exactly
    /// the text `name`.
    pub open spec fn mentions(&self, i: usize, name: Seq<u8>) -> bool {
        exists|j: int|
            in_subtree(self.elements(), i as int, j) && #[trigger] self.elements()[j].range.of(
                self.text(),
            ) == name
    }

    /// Builds a tree, or nothing where the elements and the text do not form
    /// a valid one.
    pub fn new(text: Vec<u8>, elems: Vec<Element>) -> (r: Option<SyntaxTree>)
        ensures
            r is Some <==> well_formed(text@, elems@),
            r is Some ==> r->0.text() == text@ && r->0.elements() == elems@,
    {
        if !check_depths(&elems) || !check_fit(&elems, text.len()) {
            return None;
        }
        if !check_nesting(&elems) {
            return None;
        }
        Some(SyntaxTree { text, elems })
    }

    /// Number of elements.
    pub fn len(&self) -> (r: usize)
        ensures
            r == self.elements().len(),
    {
        self.elems.len()
    }

    /// The whole source text.
    pub fn source(&self) -> (r: &[u8])
        ensures
            r@ == self.text(),
    {
        self.text.as_slice()
    }

    /// The kind of element `i`.
    pub fn kind(&self, i: usize) -> (r: NodeKind)
        requires
            self.has(i),
        ensures
            r == self.kind_at(i),
    {
        self.elems[i].kind
    }

    /// The depth of element `i`.
    pub fn depth(&self, i: usize) -> (r: usize)
        requires
            self.has(i),
        ensures
            r == self.depth_at(i),
    {
        self.elems[i].depth
    }

    /// The span of element `i`.
    pub fn range(&self, i: usize) -> (r: TextRange)
        requires
            self.has(i),
        ensures
            r == self.range_at(i),
            r.fits(self.text().len() as int),
    {
        proof {
            use_type_invariant(self);
        }
        self.elems[i].range
    }

    /// The source text that element `i` covers.
    pub fn node_text(&self, i: usize) -> (r: &[u8])
        requires
            self.has(i),
        ensures
            r@ == self.text_at(i),
    {
        proof {
            use_type_invariant(self);
        }
        let range = self.elems[i].range;
        slice_subrange(self.text.as_slice(), range.start, range.end)
    }

    /// One past the last element of the subtree of `i`.
    pub fn subtree_end(&self, i: usize) -> (r: usize)
        requires
            self.has(i),
        ensures
            r == self.end_of(i),
            i < r <= self.elements().len(),
    {
        let depth = self.elems[i].depth;
        let n = self.elems.len();
        let mut j: usize = i + 1;
        while j < n && self.elems[j].depth > depth
            invariant
                i < j <= n,
                n == self.elems@.len(),
                subtree_end(self.elems@, i as int) == subtree_end_from(
                    self.elems@,
                    depth,
                    j as int,
                ),
                depth == self.elems@[i as int].depth,
            decreases n - j,
        {
            j += 1;
        }
        j
    }

    /// The element that `i` is a child of.
    pub fn parent(&self, i: usize) -> (r: Option<usize>)
        requires
            self.has(i),
        ensures
            r == self.parent_of(i),
            r is Some ==> r->0 < i && in_subtree(self.elements(), r->0 as int, i as int),
    {
        proof {
            use_type_invariant(self);
            lemma_parent_holds_child(self.elems@, i as int);
        }
        let depth = self.elems[i].depth;
        let mut j: usize = i;
        while j > 0
            invariant
                j <= i,
                self.has(i),
                depth == self.elems@[i as int].depth,
                self.parent_of(i) == parent_from(self.elems@, depth, j - 1),
                self.parent_of(i) is Some ==> in_subtree(
                    self.elems@,
                    self.parent_of(i)->0 as int,
                    i as int,
                ),
            decreases j,
        {
            j -= 1;
            if self.elems[j].depth < depth {
                return Some(j);
            }
        }
        None
    }

    /// The sibling just before `i`.
    pub fn prev_sibling(&self, i: usize) -> (r: Option<usize>)
        requires
            self.has(i),
        ensures
            r == self.prev_sibling_of(i),
            r is Some ==> r->0 < i && self.depth_at(r->0) == self.depth_at(i),
    {
        let depth = self.elems[i].depth;
        let mut j: usize = i;
        while j > 0
            invariant
                j <= i,
                self.has(i),
                depth == self.elems@[i as int].depth,
                self.prev_sibling_of(i) == prev_sibling_from(self.elems@, depth, j - 1),
            decreases j,
        {
            j -= 1;
            if self.elems[j].depth < depth {
                return None;
            }
            if self.elems[j].depth == depth {
                return Some(j);
            }
        }
        None
    }

    /// The sibling just after `i`.
    pub fn next_sibling(&self, i: usize) -> (r: Option<usize>)
        requires
            self.has(i),
        ensures
            r == self.next_sibling_of(i),
            r is Some ==> i < r->0 && self.has(r->0),
    {
        let j = self.subtree_end(i);
        if j < self.elems.len() && self.elems[j].depth == self.elems[i].depth {
            Some(j)
        } else {
            None
        }
    }

    /// The children of `i` that `filter` accepts, in document order.
    pub fn children(&self, i: usize, filter: ChildFilter) -> (r: Vec<usize>)
        requires
            self.has(i),
        ensures
            r@ == self.children_of(i, filter),
            forall|k: int| 0 <= k < r@.len() ==> i < #[trigger] r@[k] && self.has(r@[k]),
    {
        let depth = self.elems[i].depth;
        let end = self.subtree_end(i);
        let mut out: Vec<usize> = Vec::new();
        let mut j: usize = i + 1;
        while j < end
            invariant
                i < j <= end || (j == i + 1 && end <= j),
                end <= self.elems@.len(),
                depth == self.elems@[i as int].depth,
                self.children_of(i, filter) == out@ + children_from(
                    self.elems@,
                    depth,
                    j as int,
                    end as int,
                    filter,
                ),
                forall|k: int| 0 <= k < out@.len() ==> i < #[trigger] out@[k] && self.has(out@[k]),
            decreases end - j,
        {
            if depth < usize::MAX && self.elems[j].depth == depth + 1 && filter.admits(
                self.elems[j].kind,
            ) {
                proof {
                    assert(out@.push(j) + children_from(
                        self.elems@,
                        depth,
                        j + 1,
                        end as int,
                        filter,
                    ) =~= out@ + (seq![j] + children_from(
                        self.elems@,
                        depth,
                        j + 1,
                        end as int,
                        filter,
                    )));
                }
                out.push(j);
            }
            j += 1;
        }
        assert(out@ + Seq::<usize>::empty() =~= out@);
        out
    }

    /// The `n`-th child of `i` that `filter` accepts.
    pub fn child(&self, i: usize, filter: ChildFilter, n: usize) -> (r: Option<usize>)
        requires
            self.has(i),
        ensures
            r == self.child_of(i, filter, n as int),
            r is Some ==> i < r->0 && self.has(r->0),
    {
        let all = self.children(i, filter);
        if n < all.len() {
            Some(all[n])
        } else {
            None
        }
    }

    /// The first element of the given kind in the subtree of `i`, in
    /// document order, `i` itself included.
    pub fn first_descendant_of_kind(&self, i: usize, kind: NodeKind) -> (r: Option<usize>)
        requires
            self.has(i),
        ensures
            r == self.first_of_kind(i, kind),
            r is Some ==> self.has(r->0) && self.kind_at(r->0) == kind,
    {
        let end = self.subtree_end(i);
        let mut j: usize = i;
        while j < end
            invariant
                i <= j <= end,
                end <= self.elems@.len(),
                self.first_of_kind(i, kind) == first_of_kind_from(
                    self.elems@,
                    kind,
                    j as int,
                    end as int,
                ),
            decreases end - j,
        {
            if self.elems[j].kind == kind {
                return Some(j);
            }
            j += 1;
        }
        None
    }

    /// Whether some element in the subtree of `i`, `i` itself included, has
    /// exactly the text `name`.
    pub fn has_mention(&self, i: usize, name: &[u8]) -> (r: bool)
        requires
            self.has(i),
        ensures
            r == self.mentions(i, name@),
    {
        let end = self.subtree_end(i);
        let mut j: usize = i;
        while j < end
            invariant
                i <= j <= end,
                end == self.end_of(i),
                end <= self.elems@.len(),
                forall|k: int| i <= k < j ==> (#[trigger] self.elems@[k]).range.of(self.text@) != name@,
            decreases end - j,
        {
            if bytes_eq(self.node_text(j), name) {
                return true;
            }
            j += 1;
        }
        false
    }
}

/// Checks the depths of the elements.
fn check_depths(elems: &Vec<Element>) -> (r: bool)
    ensures
        r == depths_ok(elems@),
{
    let n = elems.len();
    if n == 0 {
        return true;
    }
    if elems[0].depth != 0 {
        return false;
    }
    let mut i: usize = 1;
    while i < n
        invariant
            1 <= i <= n,
            n == elems@.len(),
            elems@[0].depth == 0,
            forall|k: int| 0 < k < i ==> #[trigger] follows(elems@, k),
        decreases n - i,
    {
        let before = elems[i - 1];
        let depth = elems[i].depth;
        if depth < 1 || depth - 1 > before.depth || (before.kind == NodeKind::UnsafeKw && depth
            > before.depth) {
            assert(!follows(elems@, i as int));
            return false;
        }
        i += 1;
    }
    true
}

/// Checks that every span lies inside a text of `len` bytes.
fn check_fit(elems: &Vec<Element>, len: usize) -> (r: bool)
    ensures
        r == ranges_fit(elems@, len as int),
        elems@.len() <= usize::MAX,
{
    let n = elems.len();
    let mut i: usize = 0;
    while i < n
        invariant
            i <= n,
            n == elems@.len(),
            forall|k: int| 0 <= k < i ==> (#[trigger] elems@[k]).range.fits(len as int),
        decreases n - i,
    {
        let range = elems[i].range;
        if range.start > range.end || range.end > len {
            return false;
        }
        i += 1;
    }
    true
}

/// Element `x` lies in the subtree of `i` where every element from just
/// after `i` up to `x` is deeper than `i`.
pub proof fn lemma_deeper_run_is_inside(e: Seq<Element>, i: int, x: int)
    requires
        0 <= i < x < e.len(),
        forall|k: int| i < k <= x ==> (#[trigger] e[k]).depth > e[i].depth,
    ensures
        x < subtree_end(e, i),
{
    lemma_subtree_end(e, i);
}

/// `open` holds the path from the root to element `j - 1`: for each depth
/// on the path, the element at that depth that every later element up to
/// `j - 1` lies below.
spec fn is_path(e: Seq<Element>, open: Seq<usize>, j: int) -> bool {
    &&& open.len() == e[j - 1].depth + 1
    &&& forall|d: int|
        0 <= d < open.len() ==> (#[trigger] open[d]) < j && e[open[d] as int].depth == d
            && forall|k: int| open[d] < k < j ==> (#[trigger] e[k]).depth > d
}

/// Element `j` relates as the text demands to every element before it,
/// given that it does to its parent and to the sibling before it, and that
/// all elements before it do to each other.
proof fn lemma_placed_after_path(e: Seq<Element>, open: Seq<usize>, j: int, a: int)
    requires
        0 < j < e.len(),
        0 <= a < j,
        e.len() <= usize::MAX,
        depths_ok(e),
        forall|i: int| 0 <= i < e.len() ==> (#[trigger] e[i]).range.start <= e[i].range.end,
        is_path(e, open, j),
        forall|x: int, y: int| 0 <= x < y < j ==> #[trigger] placed(e, x, y),
        1 <= e[j].depth <= open.len(),
        e[open[e[j].depth - 1] as int].range.start <= e[j].range.start,
        e[j].range.end <= e[open[e[j].depth - 1] as int].range.end,
        e[j].depth < open.len() ==> e[open[e[j].depth as int] as int].range.end
            <= e[j].range.start,
    ensures
        placed(e, a, j),
{
    let dj = e[j].depth as int;
    let da = e[a].depth as int;
    let p = open[dj - 1] as int;
    lemma_subtree_end(e, a);
    assert(open[open.len() - 1] == j - 1);
    if j < subtree_end(e, a) {
        let q = open[da] as int;
        assert(q == a);
        if da < dj - 1 {
            assert(a < p);
            assert(placed(e, a, p));
        }
    } else if dj < open.len() {
        let s = open[dj] as int;
        if a > s {
            lemma_deeper_run_is_inside(e, s, a);
            assert(placed(e, s, a));
        } else if a < s {
            if s < subtree_end(e, a) {
                lemma_deeper_run_is_inside(e, a, j);
            }
            assert(placed(e, a, s));
        }
    } else {
        assert(p == j - 1);
        assert(follows(e, j));
        if a == j - 1 {
            lemma_deeper_run_is_inside(e, a, j);
        } else {
            if j - 1 < subtree_end(e, a) {
                lemma_deeper_run_is_inside(e, a, j);
            }
            assert(placed(e, a, j - 1));
        }
    }
}

/// Checks that spans nest as the tree does, in one pass over the elements:
/// each element is held against its parent and against the sibling before
/// it.
fn check_nesting(elems: &Vec<Element>) -> (r: bool)
    requires
        depths_ok(elems@),
        exists|len: int| ranges_fit(elems@, len),
    ensures
        r == ranges_nest(elems@),
{
    let n = elems.len();
    if n == 0 {
        return true;
    }
    proof {
        let len = choose|len: int| ranges_fit(elems@, len);
        assert forall|i: int| 0 <= i < elems@.len() implies (#[trigger] elems@[i]).range.start
            <= elems@[i].range.end by {
            assert(elems@[i].range.fits(len));
        }
    }
    let mut open: Vec<usize> = Vec::new();
    open.push(0);
    let mut j: usize = 1;
    while j < n
        invariant
            1 <= j <= n,
            n == elems@.len(),
            depths_ok(elems@),
            forall|i: int|
                0 <= i < elems@.len() ==> (#[trigger] elems@[i]).range.start
                    <= elems@[i].range.end,
            is_path(elems@, open@, j as int),
            forall|x: int, y: int| 0 <= x < y < j ==> #[trigger] placed(elems@, x, y),
        decreases n - j,
    {
        let depth = elems[j].depth;
        let range = elems[j].range;
        assert(follows(elems@, j as int));
        let parent = open[depth - 1];
        let outer = elems[parent].range;
        proof {
            lemma_deeper_run_is_inside(elems@, parent as int, j as int);
        }
        if !(outer.start <= range.start && range.end <= outer.end) {
            assert(!placed(elems@, parent as int, j as int));
            return false;
        }
        if depth < open.len() {
            let before = open[depth];
            proof {
                lemma_later_sibling_is_outside(elems@, before as int, j as int);
            }
            if elems[before].range.end > range.start {
                assert(!placed(elems@, before as int, j as int));
                return false;
            }
        }
        proof {
            assert forall|a: int| 0 <= a < j implies #[trigger] placed(elems@, a, j as int) by {
                lemma_placed_after_path(elems@, open@, j as int, a);
            }
        }
        open.truncate(depth);
        open.push(j);
        j += 1;
    }
    true
}

} // verus!
