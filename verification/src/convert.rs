//! The rewriter: it classifies the elements of the `unsafe` block under the
//! cursor in document order and plans the rewrite of the first operation it
//! knows.
use vstd::prelude::*;
use vstd::slice::slice_subrange;
use crate::edit::EditPlan;
use crate::edit::PlanView;
use crate::edit::delet_replace_source_code;
use crate::edit::plan_view;
use crate::edit::text_view;
use crate::generate::bytes_len_format;
use crate::generate::copy_from_slice_format;
use crate::generate::copywithin_format;
use crate::generate::cstring_new_format;
use crate::generate::from_transmute_format;
use crate::generate::from_utf8_format;
use crate::generate::generate_bytes_len_format;
use crate::generate::generate_copy_from_slice_format;
use crate::generate::generate_copywithin_format;
use crate::generate::generate_cstring_new_format;
use crate::generate::generate_from_transmute;
use crate::generate::generate_from_utf8;
use crate::generate::generate_get_mut;
use crate::generate::generate_let_from_utf8;
use crate::generate::generate_let_get_mut;
use crate::generate::generate_resizevec_format;
use crate::generate::generate_safevec_format;
use crate::generate::get_format;
use crate::generate::resizevec_format;
use crate::generate::safevec_format;
use crate::pattern::UnsafePattern;
use crate::plan::check_single_expr;
use crate::plan::enclosing_statement;
use crate::plan::inside;
use crate::plan::lemma_anchor_covers;
use crate::plan::lemma_earlier_sibling_ends_before;
use crate::plan::plan_statement;
use crate::plan::planned;
use crate::plan::span_to_delete;
use crate::plan::statement_for;
use crate::region::anchor;
use crate::region::collect_unsafe_vec_info;
use crate::region::companion_before;
use crate::region::find_companion;
use crate::region::has_reservation_before;
use crate::region::is_overwritten_after;
use crate::region::overwritten_after;
use crate::region::region_at;
use crate::region::reserved_before;
use crate::text::equals_str;
use crate::text::is_assign_op;
use crate::text::is_assignment_operator;
use crate::text::lit;
use crate::tree::NodeKind;
use crate::tree::SyntaxTree;
use crate::tree::lemma_parent_stays_inside;

verus! {

/// How a rewritten value is bound.
#[derive(Clone, Copy, Debug, PartialEq, Eq, Structural)]
pub enum BindingShape {
    /// By a declaration that introduces a pattern.
    Declaration,
    /// By an assignment to a place declared before.
    Assignment,
}

/// The binding of the value of a call.
#[derive(Clone, Copy, Debug, PartialEq, Eq, Structural)]
pub struct Binding {
    pub shape: BindingShape,
    /// The pattern that is bound, or the place that is assigned.
    pub target: usize,
    /// The declaration, or the assignment expression.
    pub holder: usize,
    /// The statement that the rewrite takes the place of.
    pub statement: usize,
}

/// `bin` assigns the value of `call`: `call` is its right side, and between
/// its two sides stands the assignment operator.
pub open spec fn assigns(tree: &SyntaxTree, bin: usize, call: usize) -> bool {
    match (tree.first_expr_of(bin), tree.second_expr_of(bin)) {
        (Some(left), Some(right)) => right == call && tree.range_at(left).end <= tree.range_at(
            call,
        ).start && tree.range_at(call).start <= tree.text().len() && is_assign_op(
            tree.text().subrange(tree.range_at(left).end as int, tree.range_at(call).start as int),
        ),
        _ => false,
    }
}

/// How the value of `call` is bound: by the declaration that `call`
/// initializes, or by the assignment whose right side it is. A call in any
/// other place has no binding.
pub open spec fn binding_of(tree: &SyntaxTree, call: usize) -> Option<Binding> {
    match tree.parent_of(call) {
        Some(p) => if tree.kind_at(p) == NodeKind::BinExpr {
            match (assigns(tree, p, call), tree.first_expr_of(p), statement_for(tree, p)) {
                (true, Some(left), Some(s)) => Some(
                    Binding {
                        shape: BindingShape::Assignment,
                        target: left,
                        holder: p,
                        statement: s,
                    },
                ),
                _ => None,
            }
        } else if tree.kind_at(p) == NodeKind::LetStmt {
            match tree.pat_of(p) {
                Some(pat) => Some(
                    Binding {
                        shape: BindingShape::Declaration,
                        target: pat,
                        holder: p,
                        statement: p,
                    },
                ),
                None => None,
            }
        } else {
            None
        },
        None => None,
    }
}

/// The length set by `mcall` may be rewritten: some statement before the
/// block asks for capacity, and no statement after it names the receiver
/// together with a write of a whole buffer.
pub open spec fn length_set_allowed(tree: &SyntaxTree, mcall: usize, region: usize) -> bool {
    reserved_before(tree, region) && match tree.first_expr_of(mcall) {
        Some(receiver) => !overwritten_after(tree, region, tree.text_at(receiver)),
        None => false,
    }
}

/// The operation that the name of a method stands for.
pub open spec fn method_pattern(text: Seq<u8>) -> Option<UnsafePattern> {
    if text == lit(UnsafePattern::UnitializedVec.signature()) {
        Some(UnsafePattern::UnitializedVec)
    } else if text == lit(UnsafePattern::GetUncheck.signature()) {
        Some(UnsafePattern::GetUncheck)
    } else if text == lit(UnsafePattern::GetUncheckMut.signature()) {
        Some(UnsafePattern::GetUncheckMut)
    } else {
        None
    }
}

/// The operation that the path of a callee stands for.
pub open spec fn path_pattern(text: Seq<u8>) -> Option<UnsafePattern> {
    if text == lit(UnsafePattern::CopyWithin.signature()) {
        Some(UnsafePattern::CopyWithin)
    } else if text == lit(UnsafePattern::CopyNonOverlap.signature()) {
        Some(UnsafePattern::CopyNonOverlap)
    } else if text == lit(UnsafePattern::CStringFromVec.signature()) {
        Some(UnsafePattern::CStringFromVec)
    } else if text == lit(UnsafePattern::CStringLength.signature()) {
        Some(UnsafePattern::CStringLength)
    } else if text == lit(UnsafePattern::BytesToUTFString.signature()) {
        Some(UnsafePattern::BytesToUTFString)
    } else if text == lit(UnsafePattern::TransmuteTo.signature()) {
        Some(UnsafePattern::TransmuteTo)
    } else {
        None
    }
}

/// The operation that element `target` names: `target` is the method name
/// of a method call, or the callee path of a call, and its text is the name
/// of an operation of the catalog.
pub open spec fn named_pattern(tree: &SyntaxTree, target: usize) -> Option<UnsafePattern> {
    match tree.parent_of(target) {
        Some(call) => if tree.kind_at(target) == NodeKind::NameRef && tree.kind_at(call)
            == NodeKind::MethodCallExpr && tree.method_name_of(call) == Some(target) {
            method_pattern(tree.text_at(target))
        } else if tree.kind_at(target) == NodeKind::PathExpr && tree.kind_at(call)
            == NodeKind::CallExpr && tree.first_expr_of(call) == Some(target) {
            path_pattern(tree.text_at(target))
        } else {
            None
        },
        None => None,
    }
}

/// The operation that element `target` of `region` is rewritten for: the one
/// it names, but for a length set that may not be rewritten.
pub open spec fn classified(tree: &SyntaxTree, target: usize, region: usize) -> Option<
    UnsafePattern,
> {
    match named_pattern(tree, target) {
        Some(UnsafePattern::UnitializedVec) => if length_set_allowed(
            tree,
            tree.parent_of(target)->0,
            region,
        ) {
            Some(UnsafePattern::UnitializedVec)
        } else {
            None
        },
        named => named,
    }
}

/// The statement that the rewrite of the operation `pattern` in `call` takes
/// the place of.
pub open spec fn matched_statement(tree: &SyntaxTree, call: usize, pattern: UnsafePattern) -> Option<
    usize,
> {
    match pattern {
        UnsafePattern::UnitializedVec
        | UnsafePattern::CopyWithin
        | UnsafePattern::CopyNonOverlap => statement_for(tree, call),
        UnsafePattern::GetUncheck
        | UnsafePattern::GetUncheckMut
        | UnsafePattern::CStringFromVec
        | UnsafePattern::CStringLength
        | UnsafePattern::BytesToUTFString
        | UnsafePattern::TransmuteTo => match binding_of(tree, call) {
            Some(b) => Some(b.statement),
            None => None,
        },
        _ => None,
    }
}

/// The rewrite of a statement that is a call: `text` in place of the
/// statement that `call` forms.
pub open spec fn statement_rewrite(
    tree: &SyntaxTree,
    region: usize,
    call: usize,
    text: Option<Seq<u8>>,
) -> Option<PlanView> {
    match (statement_for(tree, call), text) {
        (Some(stmt), Some(t)) => planned(tree, region, stmt, t),
        _ => None,
    }
}

/// The text that takes the place of the binding `b` of the value of `call`.
pub open spec fn bound_text(tree: &SyntaxTree, pattern: UnsafePattern, call: usize, b: Binding) -> Option<
    Seq<u8>,
> {
    let let_sign = b.shape == BindingShape::Declaration;
    match pattern {
        UnsafePattern::GetUncheck | UnsafePattern::GetUncheckMut => get_format(
            tree,
            call,
            Some(b.target),
            let_sign,
        ),
        UnsafePattern::BytesToUTFString => from_utf8_format(tree, call, Some(b.target), let_sign),
        UnsafePattern::CStringFromVec => cstring_new_format(
            tree.text_at(b.target),
            tree,
            call,
            let_sign,
        ),
        UnsafePattern::CStringLength => bytes_len_format(
            tree.text_at(b.target),
            tree,
            call,
            let_sign,
        ),
        UnsafePattern::TransmuteTo => if let_sign {
            from_transmute_format(tree, call, b.holder)
        } else {
            None
        },
        _ => None,
    }
}

/// The statement that the rewrite of the length set by `mcall` goes
/// together with: the nearest statement before the block that asks for
/// capacity and names the receiver.
pub open spec fn vec_companion(tree: &SyntaxTree, region: usize, mcall: usize) -> Option<usize> {
    match tree.first_expr_of(mcall) {
        Some(receiver) => companion_before(tree, region, tree.text_at(receiver)),
        None => None,
    }
}

/// The text that takes the place of the companion of the length set by
/// `mcall`. Where the companion builds the buffer it must be a declaration,
/// and a zero-filled buffer is declared in its place; where it reserves
/// capacity it must be an expression statement, and a resizing call takes
/// its place.
pub open spec fn vec_text(tree: &SyntaxTree, region: usize, mcall: usize) -> Option<Seq<u8>> {
    match (safevec_format(tree, mcall), resizevec_format(tree, mcall), vec_companion(
        tree,
        region,
        mcall,
    )) {
        (Some(declared), Some(resized), Some(c)) => if tree.mentions(
            c,
            lit(UnsafePattern::SetVecCapacity.signature()),
        ) {
            if tree.kind_at(c) == NodeKind::LetStmt {
                Some(declared)
            } else {
                None
            }
        } else if tree.kind_at(c) == NodeKind::ExprStmt {
            Some(resized)
        } else {
            None
        },
        _ => None,
    }
}

/// The statement that the rewrite of the operation `pattern` in `call`
/// writes.
pub open spec fn generated_text(tree: &SyntaxTree, region: usize, call: usize, pattern: UnsafePattern) -> Option<
    Seq<u8>,
> {
    match pattern {
        UnsafePattern::UnitializedVec => vec_text(tree, region, call),
        UnsafePattern::CopyWithin => copywithin_format(tree, call, region),
        UnsafePattern::CopyNonOverlap => copy_from_slice_format(tree, call, region),
        _ => match binding_of(tree, call) {
            Some(b) => bound_text(tree, pattern, call, b),
            None => None,
        },
    }
}

/// The rewrite of the operation `pattern` that element `target` of `region`
/// names.
///
/// A length set goes, with the whole block where it is all the block holds,
/// and the generated statement takes the place of its companion. Any other
/// operation has the generated statement put in place of its statement.
pub open spec fn rewrite_of(tree: &SyntaxTree, region: usize, target: usize, pattern: UnsafePattern) -> Option<
    PlanView,
> {
    match tree.parent_of(target) {
        Some(call) => match (
            matched_statement(tree, call, pattern),
            generated_text(tree, region, call, pattern),
        ) {
            (Some(stmt), Some(text)) => if pattern == UnsafePattern::UnitializedVec {
                Some(
                    PlanView::DeleteReplace {
                        target: span_to_delete(tree, region, stmt),
                        companion: tree.range_at(vec_companion(tree, region, call)->0),
                        text,
                    },
                )
            } else {
                planned(tree, region, stmt, text)
            },
            _ => None,
        },
        None => None,
    }
}

/// First element among `j..end` that names an operation of the catalog.
pub open spec fn first_match_from(tree: &SyntaxTree, region: usize, j: int, end: int) -> Option<
    usize,
>
    decreases end - j,
{
    if j < 0 || j >= end || j >= tree.elements().len() {
        None
    } else if classified(tree, j as usize, region) is Some {
        Some(j as usize)
    } else {
        first_match_from(tree, region, j + 1, end)
    }
}

/// The first element of `region`, in document order, that names an
/// operation of the catalog.
pub open spec fn first_match(tree: &SyntaxTree, region: usize) -> Option<usize> {
    first_match_from(tree, region, region + 1, tree.end_of(region))
}

/// The edit for the innermost `unsafe` block around `offset`: the rewrite
/// of the first operation of the catalog that the block names and that may
/// be rewritten.
pub open spec fn converted(tree: &SyntaxTree, offset: usize) -> Option<PlanView> {
    match region_at(tree, offset) {
        Some(region) => match first_match(tree, region) {
            Some(target) => rewrite_of(
                tree,
                region,
                target,
                classified(tree, target, region)->0,
            ),
            None => None,
        },
        None => None,
    }
}

/// The statement that the edit for the block at `offset` takes the place
/// of.
pub open spec fn rewritten_statement(tree: &SyntaxTree, offset: usize) -> Option<usize> {
    match region_at(tree, offset) {
        Some(region) => match first_match(tree, region) {
            Some(target) => match tree.parent_of(target) {
                Some(call) => matched_statement(tree, call, classified(tree, target, region)->0),
                None => None,
            },
            None => None,
        },
        None => None,
    }
}

/// The statement that the edit for the block at `offset` writes.
pub open spec fn rewritten_text(tree: &SyntaxTree, offset: usize) -> Option<Seq<u8>> {
    match region_at(tree, offset) {
        Some(region) => match first_match(tree, region) {
            Some(target) => match tree.parent_of(target) {
                Some(call) => generated_text(
                    tree,
                    region,
                    call,
                    classified(tree, target, region)->0,
                ),
                None => None,
            },
            None => None,
        },
        None => None,
    }
}

/// `target` is an element of the `unsafe` block `region` that names the
/// operation `pattern`.
pub open spec fn names(tree: &SyntaxTree, target: usize, region: usize, pattern: UnsafePattern) -> bool {
    inside(tree, region, target) && tree.has(target) && tree.kind_at(region)
        == NodeKind::BlockExpr && classified(tree, target, region) == Some(pattern)
}

/// The call that a classified element names lies inside the block.
pub proof fn lemma_call_inside(tree: &SyntaxTree, target: usize, region: usize)
    requires
        tree.elements().len() <= usize::MAX,
        inside(tree, region, target),
        tree.has(target),
        tree.kind_at(region) == NodeKind::BlockExpr,
        classified(tree, target, region) is Some,
    ensures
        tree.parent_of(target) is Some,
        inside(tree, region, tree.parent_of(target)->0),
        tree.parent_of(target)->0 < target,
{
    lemma_parent_stays_inside(tree.elements(), region as int, target as int);
}

/// The statement that takes a binding lies inside the block that the bound
/// call lies in.
pub proof fn lemma_binding_inside(tree: &SyntaxTree, call: usize, region: usize, b: Binding)
    requires
        tree.elements().len() <= usize::MAX,
        inside(tree, region, call),
        tree.has(call),
        tree.kind_at(region) == NodeKind::BlockExpr,
        binding_of(tree, call) == Some(b),
    ensures
        inside(tree, region, b.statement),
        inside(tree, region, b.holder),
{
    let e = tree.elements();
    lemma_parent_stays_inside(e, region as int, call as int);
    if b.statement != b.holder {
        lemma_parent_stays_inside(e, region as int, b.holder as int);
    }
}

/// Finds how the value of `call` is bound.
pub fn binding(tree: &SyntaxTree, call: usize) -> (r: Option<Binding>)
    requires
        tree.has(call),
    ensures
        r == binding_of(tree, call),
        r is Some ==> tree.has(r->0.target) && tree.has(r->0.holder) && tree.has(r->0.statement)
            && tree.parent_of(call) == Some(r->0.holder) && r->0.statement <= r->0.holder && (
        r->0.statement == r->0.holder || tree.kind_at(r->0.statement) == NodeKind::ExprStmt) && (
        tree.kind_at(r->0.holder) == NodeKind::BinExpr || tree.kind_at(r->0.holder)
            == NodeKind::LetStmt) && (r->0.statement != r->0.holder ==> tree.parent_of(r->0.holder)
            == Some(r->0.statement)),
{
    let p = tree.parent(call)?;
    let kind = tree.kind(p);
    if kind == NodeKind::BinExpr {
        let left = tree.first_expr(p)?;
        let right = tree.second_expr(p)?;
        if right != call {
            return None;
        }
        let from = tree.range(left).end;
        let to = tree.range(call).start;
        if from > to {
            return None;
        }
        if !is_assignment_operator(slice_subrange(tree.source(), from, to)) {
            return None;
        }
        let s = enclosing_statement(tree, p)?;
        Some(Binding { shape: BindingShape::Assignment, target: left, holder: p, statement: s })
    } else if kind == NodeKind::LetStmt {
        let pat = tree.pat(p)?;
        Some(Binding { shape: BindingShape::Declaration, target: pat, holder: p, statement: p })
    } else {
        None
    }
}

/// Whether the length set by `mcall` may be rewritten.
pub fn uninitialized_vec_analysis(tree: &SyntaxTree, mcall: usize, unsafe_expr: usize) -> (r: bool)
    requires
        tree.has(mcall),
        tree.has(unsafe_expr),
    ensures
        r == length_set_allowed(tree, mcall, unsafe_expr),
{
    if !has_reservation_before(tree, unsafe_expr) {
        return false;
    }
    match tree.first_expr(mcall) {
        Some(receiver) => !is_overwritten_after(tree, unsafe_expr, tree.node_text(receiver)),
        None => false,
    }
}

/// Names the operation of the catalog that element `target_expr` of
/// `unsafe_expr` stands for, if any.
pub fn check_convert_type(tree: &SyntaxTree, target_expr: usize, unsafe_expr: usize) -> (r: Option<
    UnsafePattern,
>)
    requires
        tree.has(target_expr),
        tree.has(unsafe_expr),
    ensures
        r == classified(tree, target_expr, unsafe_expr),
{
    let call = tree.parent(target_expr)?;
    let kind = tree.kind(target_expr);
    let text = tree.node_text(target_expr);
    if kind == NodeKind::NameRef && tree.kind(call) == NodeKind::MethodCallExpr {
        if tree.method_name(call) != Some(target_expr) {
            return None;
        }
        if equals_str(text, UnsafePattern::UnitializedVec.as_str()) {
            if uninitialized_vec_analysis(tree, call, unsafe_expr) {
                return Some(UnsafePattern::UnitializedVec);
            }
            return None;
        }
        if equals_str(text, UnsafePattern::GetUncheck.as_str()) {
            return Some(UnsafePattern::GetUncheck);
        }
        if equals_str(text, UnsafePattern::GetUncheckMut.as_str()) {
            return Some(UnsafePattern::GetUncheckMut);
        }
        return None;
    }
    if kind == NodeKind::PathExpr && tree.kind(call) == NodeKind::CallExpr {
        if tree.first_expr(call) != Some(target_expr) {
            return None;
        }
        if equals_str(text, UnsafePattern::CopyWithin.as_str()) {
            return Some(UnsafePattern::CopyWithin);
        }
        if equals_str(text, UnsafePattern::CopyNonOverlap.as_str()) {
            return Some(UnsafePattern::CopyNonOverlap);
        }
        if equals_str(text, UnsafePattern::CStringFromVec.as_str()) {
            return Some(UnsafePattern::CStringFromVec);
        }
        if equals_str(text, UnsafePattern::CStringLength.as_str()) {
            return Some(UnsafePattern::CStringLength);
        }
        if equals_str(text, UnsafePattern::BytesToUTFString.as_str()) {
            return Some(UnsafePattern::BytesToUTFString);
        }
        if equals_str(text, UnsafePattern::TransmuteTo.as_str()) {
            return Some(UnsafePattern::TransmuteTo);
        }
        return None;
    }
    None
}

/// Plans the rewrite of the statement that `call` forms into `text`.
fn convert_statement(tree: &SyntaxTree, call: usize, unsafe_expr: usize, text: Option<Vec<u8>>) -> (r:
    Option<EditPlan>)
    requires
        inside(tree, unsafe_expr, call),
        tree.has(call),
        tree.kind_at(unsafe_expr) == NodeKind::BlockExpr,
        tree.kind_at(call) != NodeKind::BlockExpr,
    ensures
        plan_view(r) == statement_rewrite(tree, unsafe_expr, call, text_view(text)),
        r is Some ==> r->0@.fits(tree.text().len() as int),
{
    proof {
        use_type_invariant(tree);
        tree.lemma_inv_is_wf();
    }
    let stmt = enclosing_statement(tree, call)?;
    let buf = text?;
    proof {
        lemma_parent_stays_inside(tree.elements(), unsafe_expr as int, call as int);
    }
    plan_statement(tree, unsafe_expr, stmt, buf)
}

/// Plans the rewrite of a raw copy inside one buffer into a checked copy.
pub fn convert_to_copy_within(tree: &SyntaxTree, target_expr: usize, unsafe_expr: usize) -> (r:
    Option<EditPlan>)
    requires
        names(tree, target_expr, unsafe_expr, UnsafePattern::CopyWithin),
    ensures
        plan_view(r) == rewrite_of(tree, unsafe_expr, target_expr, UnsafePattern::CopyWithin),
        r is Some ==> r->0@.fits(tree.text().len() as int),
{
    proof {
        use_type_invariant(tree);
        tree.lemma_inv_is_wf();
    }
    let mcall = tree.parent(target_expr)?;
    proof {
        lemma_call_inside(tree, target_expr, unsafe_expr);
    }
    let buf = generate_copywithin_format(tree, mcall, unsafe_expr);
    convert_statement(tree, mcall, unsafe_expr, buf)
}

/// Plans the rewrite of a raw copy between two buffers into a slice copy.
pub fn convert_to_copy_from_slice(tree: &SyntaxTree, target_expr: usize, unsafe_expr: usize) -> (r:
    Option<EditPlan>)
    requires
        names(tree, target_expr, unsafe_expr, UnsafePattern::CopyNonOverlap),
    ensures
        plan_view(r) == rewrite_of(tree, unsafe_expr, target_expr, UnsafePattern::CopyNonOverlap),
        r is Some ==> r->0@.fits(tree.text().len() as int),
{
    proof {
        use_type_invariant(tree);
        tree.lemma_inv_is_wf();
    }
    let mcall = tree.parent(target_expr)?;
    proof {
        lemma_call_inside(tree, target_expr, unsafe_expr);
    }
    let buf = generate_copy_from_slice_format(tree, mcall, unsafe_expr);
    convert_statement(tree, mcall, unsafe_expr, buf)
}

/// Plans the rewrite of an unchecked access to an element into a checked
/// one.
pub fn convert_to_get_mut(tree: &SyntaxTree, target_expr: usize, unsafe_expr: usize) -> (r: Option<
    EditPlan,
>)
    requires
        names(tree, target_expr, unsafe_expr, UnsafePattern::GetUncheck) || names(
            tree,
            target_expr,
            unsafe_expr,
            UnsafePattern::GetUncheckMut,
        ),
    ensures
        plan_view(r) == rewrite_of(
            tree,
            unsafe_expr,
            target_expr,
            classified(tree, target_expr, unsafe_expr)->0,
        ),
        r is Some ==> r->0@.fits(tree.text().len() as int),
{
    proof {
        use_type_invariant(tree);
        tree.lemma_inv_is_wf();
    }
    let mcall = tree.parent(target_expr)?;
    proof {
        lemma_call_inside(tree, target_expr, unsafe_expr);
    }
    let b = binding(tree, mcall)?;
    let buf = match b.shape {
        BindingShape::Assignment => generate_get_mut(tree, mcall, b.holder),
        BindingShape::Declaration => generate_let_get_mut(tree, mcall, b.holder),
    }?;
    proof {
        lemma_binding_inside(tree, mcall, unsafe_expr, b);
    }
    plan_statement(tree, unsafe_expr, b.statement, buf)
}

/// Plans the rewrite of an unvalidated conversion of bytes to text into a
/// validated one.
pub fn convert_to_from_utf8(tree: &SyntaxTree, target_expr: usize, unsafe_expr: usize) -> (r: Option<
    EditPlan,
>)
    requires
        names(tree, target_expr, unsafe_expr, UnsafePattern::BytesToUTFString),
    ensures
        plan_view(r) == rewrite_of(
            tree,
            unsafe_expr,
            target_expr,
            UnsafePattern::BytesToUTFString,
        ),
        r is Some ==> r->0@.fits(tree.text().len() as int),
{
    proof {
        use_type_invariant(tree);
        tree.lemma_inv_is_wf();
    }
    let mcall = tree.parent(target_expr)?;
    proof {
        lemma_call_inside(tree, target_expr, unsafe_expr);
    }
    let b = binding(tree, mcall)?;
    let buf = match b.shape {
        BindingShape::Assignment => generate_from_utf8(tree, mcall, b.holder),
        BindingShape::Declaration => generate_let_from_utf8(tree, mcall, b.holder),
    }?;
    proof {
        lemma_binding_inside(tree, mcall, unsafe_expr, b);
    }
    plan_statement(tree, unsafe_expr, b.statement, buf)
}

/// Plans the rewrite of a reinterpretation of bytes as text into a validated
/// conversion. Only a declaration that states that it binds borrowed text is
/// rewritten.
pub fn transmute_convertion(tree: &SyntaxTree, target_expr: usize, unsafe_expr: usize) -> (r: Option<
    EditPlan,
>)
    requires
        names(tree, target_expr, unsafe_expr, UnsafePattern::TransmuteTo),
    ensures
        plan_view(r) == rewrite_of(tree, unsafe_expr, target_expr, UnsafePattern::TransmuteTo),
        r is Some ==> r->0@.fits(tree.text().len() as int),
{
    proof {
        use_type_invariant(tree);
        tree.lemma_inv_is_wf();
    }
    let mcall = tree.parent(target_expr)?;
    proof {
        lemma_call_inside(tree, target_expr, unsafe_expr);
    }
    let b = binding(tree, mcall)?;
    let buf = match b.shape {
        BindingShape::Assignment => None,
        BindingShape::Declaration => generate_from_transmute(tree, mcall, b.holder),
    }?;
    proof {
        lemma_binding_inside(tree, mcall, unsafe_expr, b);
    }
    plan_statement(tree, unsafe_expr, b.statement, buf)
}

/// Plans the rewrite of an unvalidated construction of a C string into a
/// validated one.
pub fn convert_to_cstring_new(tree: &SyntaxTree, target_expr: usize, unsafe_expr: usize) -> (r:
    Option<EditPlan>)
    requires
        names(tree, target_expr, unsafe_expr, UnsafePattern::CStringFromVec),
    ensures
        plan_view(r) == rewrite_of(tree, unsafe_expr, target_expr, UnsafePattern::CStringFromVec),
        r is Some ==> r->0@.fits(tree.text().len() as int),
{
    proof {
        use_type_invariant(tree);
        tree.lemma_inv_is_wf();
    }
    let mcall = tree.parent(target_expr)?;
    proof {
        lemma_call_inside(tree, target_expr, unsafe_expr);
    }
    let b = binding(tree, mcall)?;
    let buf = generate_cstring_new_format(
        tree.node_text(b.target),
        tree,
        mcall,
        b.shape == BindingShape::Declaration,
    )?;
    proof {
        lemma_binding_inside(tree, mcall, unsafe_expr, b);
    }
    plan_statement(tree, unsafe_expr, b.statement, buf)
}

/// Plans the rewrite of a length measured by the C library into the length
/// in bytes of the string.
pub fn convert_to_cstring_bytes_len(tree: &SyntaxTree, target_expr: usize, unsafe_expr: usize) -> (r:
    Option<EditPlan>)
    requires
        names(tree, target_expr, unsafe_expr, UnsafePattern::CStringLength),
    ensures
        plan_view(r) == rewrite_of(tree, unsafe_expr, target_expr, UnsafePattern::CStringLength),
        r is Some ==> r->0@.fits(tree.text().len() as int),
{
    proof {
        use_type_invariant(tree);
        tree.lemma_inv_is_wf();
    }
    let mcall = tree.parent(target_expr)?;
    proof {
        lemma_call_inside(tree, target_expr, unsafe_expr);
    }
    let b = binding(tree, mcall)?;
    let buf = generate_bytes_len_format(
        tree.node_text(b.target),
        tree,
        mcall,
        b.shape == BindingShape::Declaration,
    )?;
    proof {
        lemma_binding_inside(tree, mcall, unsafe_expr, b);
    }
    plan_statement(tree, unsafe_expr, b.statement, buf)
}

/// Plans the rewrite of a length set on an uninitialized buffer, together
/// with the statement before the block that asked for the capacity.
pub fn convert_to_auto_vec_initialization(tree: &SyntaxTree, target_expr: usize, unsafe_expr: usize) -> (r:
    Option<EditPlan>)
    requires
        names(tree, target_expr, unsafe_expr, UnsafePattern::UnitializedVec),
    ensures
        plan_view(r) == rewrite_of(tree, unsafe_expr, target_expr, UnsafePattern::UnitializedVec),
        r is Some ==> r->0@.fits(tree.text().len() as int),
{
    proof {
        use_type_invariant(tree);
        tree.lemma_inv_is_wf();
    }
    let mcall = tree.parent(target_expr)?;
    proof {
        lemma_call_inside(tree, target_expr, unsafe_expr);
    }
    let buf = generate_safevec_format(tree, mcall)?;
    let buf_resize = generate_resizevec_format(tree, mcall)?;
    let stmt = enclosing_statement(tree, mcall)?;
    let receiver = tree.first_expr(mcall)?;
    let companion = find_companion(tree, unsafe_expr, tree.node_text(receiver))?;
    proof {
        lemma_parent_stays_inside(tree.elements(), unsafe_expr as int, mcall as int);
        lemma_anchor_covers(tree, unsafe_expr, stmt);
        lemma_earlier_sibling_ends_before(tree, unsafe_expr, companion);
    }
    let target_range = if check_single_expr(tree, unsafe_expr, stmt) {
        tree.range(anchor(tree, unsafe_expr))
    } else {
        tree.range(stmt)
    };
    if tree.has_mention(companion, UnsafePattern::SetVecCapacity.as_str().as_bytes()) {
        if tree.kind(companion) == NodeKind::LetStmt {
            Some(delet_replace_source_code(tree.range(companion), target_range, buf))
        } else {
            None
        }
    } else if tree.kind(companion) == NodeKind::ExprStmt {
        Some(delet_replace_source_code(tree.range(companion), target_range, buf_resize))
    } else {
        None
    }
}

/// Plans the rewrite of the operation `pattern` that `target_expr` names.
pub fn convert_pattern(
    tree: &SyntaxTree,
    target_expr: usize,
    unsafe_expr: usize,
    pattern: UnsafePattern,
) -> (r: Option<EditPlan>)
    requires
        names(tree, target_expr, unsafe_expr, pattern),
    ensures
        plan_view(r) == rewrite_of(tree, unsafe_expr, target_expr, pattern),
        r is Some ==> r->0@.fits(tree.text().len() as int),
{
    match pattern {
        UnsafePattern::UnitializedVec => convert_to_auto_vec_initialization(
            tree,
            target_expr,
            unsafe_expr,
        ),
        UnsafePattern::CopyWithin => convert_to_copy_within(tree, target_expr, unsafe_expr),
        UnsafePattern::CopyNonOverlap => convert_to_copy_from_slice(
            tree,
            target_expr,
            unsafe_expr,
        ),
        UnsafePattern::CStringFromVec => convert_to_cstring_new(tree, target_expr, unsafe_expr),
        UnsafePattern::CStringLength => convert_to_cstring_bytes_len(
            tree,
            target_expr,
            unsafe_expr,
        ),
        UnsafePattern::GetUncheckMut => convert_to_get_mut(tree, target_expr, unsafe_expr),
        UnsafePattern::GetUncheck => convert_to_get_mut(tree, target_expr, unsafe_expr),
        UnsafePattern::BytesToUTFString => convert_to_from_utf8(tree, target_expr, unsafe_expr),
        UnsafePattern::TransmuteTo => transmute_convertion(tree, target_expr, unsafe_expr),
        _ => None,
    }
}

/// Finds the first element of `unsafe_expr`, in document order, that names
/// an operation of the catalog.
pub fn find_first_match(tree: &SyntaxTree, unsafe_expr: usize) -> (r: Option<(usize, UnsafePattern)>)
    requires
        tree.has(unsafe_expr),
    ensures
        match r {
            Some((target, pattern)) => first_match(tree, unsafe_expr) == Some(target) && classified(
                tree,
                target,
                unsafe_expr,
            ) == Some(pattern) && inside(tree, unsafe_expr, target) && tree.has(target),
            None => first_match(tree, unsafe_expr) is None,
        },
{
    let end = tree.subtree_end(unsafe_expr);
    let mut j: usize = unsafe_expr + 1;
    while j < end
        invariant
            unsafe_expr < j <= end || (j == unsafe_expr + 1 && end <= j),
            end == tree.end_of(unsafe_expr),
            end <= tree.elements().len(),
            tree.has(unsafe_expr),
            first_match(tree, unsafe_expr) == first_match_from(
                tree,
                unsafe_expr,
                j as int,
                end as int,
            ),
        decreases end - j,
    {
        match check_convert_type(tree, j, unsafe_expr) {
            Some(pattern) => {
                return Some((j, pattern));
            },
            None => {},
        }
        j += 1;
    }
    None
}

/// Plans the rewrite of the first unchecked operation in the innermost
/// `unsafe` block around `offset`.
///
/// There is no edit where no `unsafe` block stands around `offset`, where
/// the block names no operation of the catalog, and where the first one it
/// names cannot be rewritten. An edit that is planned fits the text of the
/// tree.
pub fn convert_unsafe_to_safe(tree: &SyntaxTree, offset: usize) -> (r: Option<EditPlan>)
    ensures
        plan_view(r) == converted(tree, offset),
        r is Some ==> r->0@.fits(tree.text().len() as int),
{
    let info = collect_unsafe_vec_info(tree, offset)?;
    let (target, pattern) = find_first_match(tree, info.unsafe_expr)?;
    convert_pattern(tree, target, info.unsafe_expr, pattern)
}

} // verus!
