//! Where a rewrite touches the text: the whole `unsafe` block where the
//! rewritten statement is all it holds, else that statement alone, with the
//! new text placed before the block.
use vstd::prelude::*;
use crate::edit::EditPlan;
use crate::edit::PlanView;
use crate::edit::delet_insert_source_code;
use crate::edit::plan_view;
use crate::edit::replace_source_code;
use crate::region::anchor;
use crate::region::anchor_of;
use crate::region::effective_range;
use crate::text::TextRange;
use crate::text::indent_width;
use crate::text::line_indent;
use crate::text::lit;
use crate::text::push_bytes;
use crate::text::push_spaces;
use crate::text::push_str;
use crate::text::spaces;
use crate::tree::ChildFilter;
use crate::tree::NodeKind;
use crate::tree::SyntaxTree;
use crate::tree::lemma_later_sibling_is_outside;
use crate::tree::lemma_subtrees_nest;
use crate::tree::placed;

verus! {

/// `x` lies in the subtree of `region`, and is not `region` itself.
pub open spec fn inside(tree: &SyntaxTree, region: usize, x: usize) -> bool {
    tree.has(region) && region < x < tree.end_of(region)
}

/// The statement list of a block.
pub open spec fn stmt_list_of(tree: &SyntaxTree, region: usize) -> Option<usize> {
    tree.child_of(region, ChildFilter::Kind(NodeKind::StmtList), 0)
}

/// `stmt` is all that the statement list of `region` holds.
pub open spec fn is_sole(tree: &SyntaxTree, region: usize, stmt: usize) -> bool {
    stmt_list_of(tree, region) is Some && tree.parent_of(stmt) == stmt_list_of(tree, region)
        && tree.prev_sibling_of(stmt) is None && tree.next_sibling_of(stmt) is None
}

/// The statement that the expression `expr` forms: the expression statement
/// around it, or `expr` itself where it is the closing expression of a
/// block. An expression inside any other construct forms no statement.
pub open spec fn statement_for(tree: &SyntaxTree, expr: usize) -> Option<usize> {
    match tree.parent_of(expr) {
        Some(p) => if tree.kind_at(p) == NodeKind::ExprStmt {
            Some(p)
        } else if tree.kind_at(p) == NodeKind::StmtList {
            Some(expr)
        } else {
            None
        },
        None => None,
    }
}

/// `s` is a whole statement: a declaration, an expression statement, or an
/// expression that stands directly in a statement list.
pub open spec fn is_statement(tree: &SyntaxTree, s: usize) -> bool {
    tree.kind_at(s) == NodeKind::LetStmt || tree.kind_at(s) == NodeKind::ExprStmt
        || match tree.parent_of(s) {
        Some(p) => tree.kind_at(p) == NodeKind::StmtList,
        None => false,
    }
}

/// The text that is placed before a block: a line break, the indentation of
/// the block, and the generated statement.
pub open spec fn reindented_text(tree: &SyntaxTree, region: usize, buf: Seq<u8>) -> Seq<u8> {
    lit("\n"@) + spaces(indent_width(tree.text(), tree.range_at(region).start as int)) + buf
}

/// The edit that deletes `target_range` and places `buf` after the statement
/// before `region`. There is none where no statement stands before it.
pub open spec fn reindented(
    tree: &SyntaxTree,
    region: usize,
    target_range: TextRange,
    buf: Seq<u8>,
) -> Option<PlanView> {
    match tree.prev_sibling_of(anchor_of(tree, region)) {
        Some(prev) => Some(
            PlanView::DeleteInsert {
                target: target_range,
                position: tree.range_at(prev).end,
                text: reindented_text(tree, region, buf),
            },
        ),
        None => None,
    }
}

/// The edit that puts `buf` in place of the statement `stmt` of `region`.
pub open spec fn planned(tree: &SyntaxTree, region: usize, stmt: usize, buf: Seq<u8>) -> Option<
    PlanView,
> {
    if is_sole(tree, region, stmt) {
        Some(PlanView::Replace { target: effective_range(tree, region), text: buf })
    } else {
        reindented(tree, region, tree.range_at(stmt), buf)
    }
}

/// The span that goes when the statement `stmt` of `region` goes.
pub open spec fn span_to_delete(tree: &SyntaxTree, region: usize, stmt: usize) -> TextRange {
    if is_sole(tree, region, stmt) {
        effective_range(tree, region)
    } else {
        tree.range_at(stmt)
    }
}

/// Spans inside a block lie inside the span of its anchor.
pub proof fn lemma_anchor_covers(tree: &SyntaxTree, region: usize, x: usize)
    requires
        tree.wf(),
        inside(tree, region, x),
    ensures
        tree.has(x),
        tree.has(anchor_of(tree, region)),
        anchor_of(tree, region) < x < tree.end_of(anchor_of(tree, region)),
        tree.range_at(anchor_of(tree, region)).start <= tree.range_at(x).start,
        tree.range_at(x).end <= tree.range_at(anchor_of(tree, region)).end,
        tree.range_at(x).fits(tree.text().len() as int),
        tree.range_at(anchor_of(tree, region)).fits(tree.text().len() as int),
{
    let e = tree.elements();
    let a = anchor_of(tree, region);
    crate::tree::lemma_subtree_end(e, region as int);
    crate::tree::lemma_parent_holds_child(e, region as int);
    lemma_subtrees_nest(e, a as int, region as int);
    assert(placed(e, a as int, x as int));
    assert(e[x as int].range.fits(tree.text().len() as int));
    assert(e[a as int].range.fits(tree.text().len() as int));
}

/// A statement before a block ends where the span of its anchor begins, or
/// earlier.
pub proof fn lemma_earlier_sibling_ends_before(tree: &SyntaxTree, region: usize, b: usize)
    requires
        tree.wf(),
        tree.has(region),
        b < anchor_of(tree, region),
        tree.has(anchor_of(tree, region)),
        tree.depth_at(b) == tree.depth_at(anchor_of(tree, region)),
    ensures
        tree.range_at(b).start <= tree.range_at(b).end,
        tree.range_at(b).end <= tree.range_at(anchor_of(tree, region)).start,
{
    let e = tree.elements();
    let a = anchor_of(tree, region);
    lemma_later_sibling_is_outside(e, b as int, a as int);
    assert(placed(e, b as int, a as int));
    assert(e[b as int].range.fits(tree.text().len() as int));
}

/// Whether `target_expr` is all that the statement list of `unsafe_expr`
/// holds.
pub fn check_single_expr(tree: &SyntaxTree, unsafe_expr: usize, target_expr: usize) -> (r: bool)
    requires
        tree.has(unsafe_expr),
        tree.has(target_expr),
    ensures
        r == is_sole(tree, unsafe_expr, target_expr),
{
    let list = tree.child(unsafe_expr, ChildFilter::Kind(NodeKind::StmtList), 0);
    match (list, tree.parent(target_expr)) {
        (Some(l), Some(p)) => l == p && tree.prev_sibling(target_expr).is_none()
            && tree.next_sibling(target_expr).is_none(),
        _ => false,
    }
}

/// Finds the statement that the expression `expr` forms.
pub fn enclosing_statement(tree: &SyntaxTree, expr: usize) -> (r: Option<usize>)
    requires
        tree.has(expr),
    ensures
        r == statement_for(tree, expr),
        r is Some ==> tree.has(r->0) && r->0 <= expr && (r->0 == expr || tree.kind_at(r->0)
            == NodeKind::ExprStmt) && tree.parent_of(expr) is Some && tree.parent_of(expr)->0
            <= r->0,
{
    let p = tree.parent(expr)?;
    let kind = tree.kind(p);
    if kind == NodeKind::ExprStmt {
        Some(p)
    } else if kind == NodeKind::StmtList {
        Some(expr)
    } else {
        None
    }
}

/// Plans the deletion of `target_range` and the placing of `buf`, indented
/// as `unsafe_expr` is, after the statement before `unsafe_expr`.
pub fn reindent_expr(tree: &SyntaxTree, unsafe_expr: usize, target_range: TextRange, buf: &[u8]) -> (r:
    Option<EditPlan>)
    requires
        tree.has(unsafe_expr),
    ensures
        plan_view(r) == reindented(tree, unsafe_expr, target_range, buf@),
{
    let a = anchor(tree, unsafe_expr);
    let prev = tree.prev_sibling(a)?;
    let position = tree.range(prev).end;
    let indent = line_indent(tree.source(), tree.range(unsafe_expr).start);
    let mut new_buf: Vec<u8> = Vec::new();
    push_str(&mut new_buf, "\n");
    push_spaces(&mut new_buf, indent);
    push_bytes(&mut new_buf, buf);
    assert(new_buf@ =~= reindented_text(tree, unsafe_expr, buf@));
    Some(delet_insert_source_code(target_range, position, new_buf))
}

/// Plans the edit that puts `buf` in place of the statement `stmt` of
/// `unsafe_expr`.
pub fn plan_statement(tree: &SyntaxTree, unsafe_expr: usize, stmt: usize, buf: Vec<u8>) -> (r:
    Option<EditPlan>)
    requires
        inside(tree, unsafe_expr, stmt),
    ensures
        plan_view(r) == planned(tree, unsafe_expr, stmt, buf@),
        r is Some ==> r->0@.fits(tree.text().len() as int),
{
    proof {
        use_type_invariant(tree);
        tree.lemma_inv_is_wf();
        lemma_anchor_covers(tree, unsafe_expr, stmt);
    }
    if check_single_expr(tree, unsafe_expr, stmt) {
        let a = anchor(tree, unsafe_expr);
        Some(replace_source_code(tree.range(a), buf))
    } else {
        let a = anchor(tree, unsafe_expr);
        let r = reindent_expr(tree, unsafe_expr, tree.range(stmt), buf.as_slice());
        proof {
            match tree.prev_sibling_of(a) {
                Some(prev) => {
                    crate::tree::lemma_prev_sibling_from(
                        tree.elements(),
                        tree.depth_at(a),
                        a - 1,
                    );
                    lemma_earlier_sibling_ends_before(tree, unsafe_expr, prev);
                },
                None => {},
            }
        }
        r
    }
}

} // verus!
