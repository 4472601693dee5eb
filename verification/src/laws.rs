//! What holds of every rewrite.
use vstd::prelude::*;
use crate::convert::BindingShape;
use crate::convert::Binding;
use crate::convert::binding_of;
use crate::convert::bound_text;
use crate::convert::classified;
use crate::convert::converted;
use crate::convert::first_match;
use crate::convert::first_match_from;
use crate::convert::generated_text;
use crate::convert::lemma_binding_inside;
use crate::convert::lemma_call_inside;
use crate::convert::matched_statement;
use crate::convert::named_pattern;
use crate::convert::names;
use crate::convert::rewrite_of;
use crate::convert::rewritten_statement;
use crate::convert::rewritten_text;
use crate::convert::vec_companion;
use crate::edit::PlanView;
use crate::edit::lemma_cut_is_all_that_goes;
use crate::edit::lemma_spared_text_is_kept;
use crate::generate::binding_prefix;
use crate::generate::bytes_len_text;
use crate::generate::cstring_new_text;
use crate::generate::from_utf8_text;
use crate::generate::get_text;
use crate::generate::is_mut_access;
use crate::tree::ChildFilter;
use crate::pattern::UnsafePattern;
use crate::plan::inside;
use crate::plan::is_sole;
use crate::plan::is_statement;
use crate::plan::lemma_anchor_covers;
use crate::plan::lemma_earlier_sibling_ends_before;
use crate::plan::reindented_text;
use crate::plan::span_to_delete;
use crate::region::anchor_of;
use crate::region::effective_range;
use crate::region::overwritten_after;
use crate::region::lemma_companion_before;
use crate::region::lemma_region_at;
use crate::region::region_at;
use crate::text::TextRange;
use crate::text::lit;
use crate::tree::SyntaxTree;
use crate::tree::lemma_parent_holds_child;
use crate::tree::lemma_parent_stays_inside;
use crate::tree::lemma_prev_sibling_from;
use crate::tree::lemma_subtree_end;
use crate::tree::placed;

verus! {

/// `t` begins with `p`.
pub open spec fn begins_with(t: Seq<u8>, p: Seq<u8>) -> bool {
    p.len() <= t.len() && t.subrange(0, p.len() as int) == p
}

/// The length set that `target` names is disqualified: a statement after
/// `region` names its receiver together with a write of a whole buffer.
pub open spec fn disqualified(tree: &SyntaxTree, target: usize, region: usize) -> bool {
    named_pattern(tree, target) == Some(UnsafePattern::UnitializedVec) && match tree.first_expr_of(
        tree.parent_of(target)->0,
    ) {
        Some(receiver) => overwritten_after(tree, region, tree.text_at(receiver)),
        None => false,
    }
}

/// What `first_match_from` finds is the first element among `j..end` that
/// names an operation that may be rewritten.
proof fn lemma_first_match_from(tree: &SyntaxTree, region: usize, j: int, end: int)
    requires
        0 <= j,
        end <= tree.elements().len() <= usize::MAX,
    ensures
        match first_match_from(tree, region, j, end) {
            Some(t) => j <= t < end && classified(tree, t, region) is Some && forall|u: usize|
                j <= u < t ==> (#[trigger] classified(tree, u, region)) is None,
            None => forall|t: usize| j <= t < end ==> (#[trigger] classified(tree, t, region)) is None,
        },
    decreases end - j,
{
    if j < end && !(classified(tree, j as usize, region) is Some) {
        lemma_first_match_from(tree, region, j + 1, end);
    }
}

/// The element that is rewritten is the first element of the block, in
/// document order, that names an operation of the catalog that may be
/// rewritten.
pub proof fn lemma_first_match(tree: &SyntaxTree, region: usize)
    requires
        tree.wf(),
        tree.has(region),
    ensures
        match first_match(tree, region) {
            Some(t) => inside(tree, region, t) && classified(tree, t, region) is Some && forall|
                u: usize,
            |
                inside(tree, region, u) && u < t ==> (#[trigger] classified(tree, u, region))
                    is None,
            None => forall|t: usize|
                inside(tree, region, t) ==> (#[trigger] classified(tree, t, region)) is None,
        },
{
    lemma_subtree_end(tree.elements(), region as int);
    lemma_first_match_from(tree, region, region + 1, tree.end_of(region));
}

/// A block that names no operation of the catalog gets no edit, however
/// often it is asked for.
pub proof fn lemma_no_idiom_no_edit(tree: &SyntaxTree, offset: usize)
    requires
        tree.wf(),
        region_at(tree, offset) is Some ==> forall|t: usize|
            inside(tree, region_at(tree, offset)->0, t) ==> (#[trigger] classified(
                tree,
                t,
                region_at(tree, offset)->0,
            )) is None,
    ensures
        converted(tree, offset) is None,
{
    match region_at(tree, offset) {
        Some(region) => {
            lemma_region_at(tree, offset);
            lemma_subtree_end(tree.elements(), region as int);
            lemma_first_match_from(tree, region, region + 1, tree.end_of(region));
        },
        None => {},
    }
}

/// A disqualified length set is passed over: it is not the operation that
/// the block is rewritten for.
pub proof fn lemma_disqualified_is_passed_over(tree: &SyntaxTree, target: usize, region: usize)
    requires
        disqualified(tree, target, region),
    ensures
        classified(tree, target, region) is None,
{
}

/// A block gets no edit where every operation of the catalog that it names
/// is a disqualified length set.
pub proof fn lemma_disqualified_no_edit(tree: &SyntaxTree, offset: usize)
    requires
        tree.wf(),
        region_at(tree, offset) is Some ==> forall|t: usize|
            inside(tree, region_at(tree, offset)->0, t) ==> (#[trigger] named_pattern(tree, t))
                is None || disqualified(tree, t, region_at(tree, offset)->0),
    ensures
        converted(tree, offset) is None,
{
    match region_at(tree, offset) {
        Some(region) => {
            assert forall|t: usize| inside(tree, region, t) implies (#[trigger] classified(
                tree,
                t,
                region,
            )) is None by {
                assert(named_pattern(tree, t) is None || disqualified(tree, t, region));
            }
            lemma_no_idiom_no_edit(tree, offset);
        },
        None => {},
    }
}

/// The bytes of a piece of template text that is plain ASCII are its
/// characters, one byte each.
pub proof fn lemma_ascii_template(s: &str)
    requires
        vstd::string::is_ascii(s),
    ensures
        lit(s@) == Seq::new(s@.len(), |i: int| s@[i] as u8),
{
    broadcast use vstd::string::is_ascii_spec_bytes;
    assert(vstd::string::StringSliceAdditionalSpecFns::spec_bytes(s) =~= Seq::new(
        s@.len(),
        |i: int| s@[i] as u8,
    ));
}

/// The declaration keyword with the space after it, byte by byte.
pub proof fn lemma_declaration_keyword()
    ensures
        lit("let "@) == seq![108u8, 101u8, 116u8, 32u8],
{
    reveal_strlit("let ");
    lemma_ascii_template("let ");
    assert(lit("let "@) =~= seq![108u8, 101u8, 116u8, 32u8]);
}

/// A generated statement that declares what it binds begins with the
/// declaration keyword and the pattern. One that assigns begins with the
/// place it assigns to: nothing is put before it.
pub proof fn lemma_binding_shape_is_kept(tree: &SyntaxTree, pattern: UnsafePattern, call: usize, b: Binding)
    requires
        binding_of(tree, call) == Some(b),
        bound_text(tree, pattern, call, b) is Some,
    ensures
        b.shape == BindingShape::Declaration ==> begins_with(
            bound_text(tree, pattern, call, b)->0,
            lit("let "@) + tree.text_at(b.target),
        ) && begins_with(bound_text(tree, pattern, call, b)->0, seq![108u8, 101u8, 116u8, 32u8]),
        b.shape == BindingShape::Assignment ==> begins_with(
            bound_text(tree, pattern, call, b)->0,
            tree.text_at(b.target),
        ),
{
    let t = bound_text(tree, pattern, call, b)->0;
    let target = tree.text_at(b.target);
    let let_sign = b.shape == BindingShape::Declaration;
    let head = binding_prefix(let_sign) + target;
    match pattern {
        UnsafePattern::GetUncheck | UnsafePattern::GetUncheckMut => {
            let receiver = tree.text_at(tree.first_expr_of(call)->0);
            let index = tree.text_at(tree.sole_arg_of(call)->0);
            assert(t == get_text(let_sign, target, receiver, index, is_mut_access(tree, call)));
            assert(t.subrange(0, head.len() as int) =~= head);
        },
        UnsafePattern::BytesToUTFString | UnsafePattern::TransmuteTo => {
            let bytes = tree.text_at(tree.arg_of(call, 0)->0);
            assert(t == from_utf8_text(let_sign, target, bytes));
            assert(t.subrange(0, head.len() as int) =~= head);
        },
        UnsafePattern::CStringFromVec => {
            let input = tree.text_at(tree.arg_of(call, 0)->0);
            assert(t == cstring_new_text(target, input, let_sign));
            assert(t.subrange(0, head.len() as int) =~= head);
        },
        UnsafePattern::CStringLength => {
            let input = tree.text_at(
                tree.child_of(tree.arg_of(call, 0)->0, ChildFilter::Any, 0)->0,
            );
            assert(t == bytes_len_text(target, input, let_sign));
            assert(t.subrange(0, head.len() as int) =~= head);
        },
        _ => {},
    }
    assert(begins_with(t, head));
    assert(Seq::<u8>::empty() + target =~= target);
    if let_sign {
        lemma_declaration_keyword();
        assert(t.subrange(0, 4) =~= head.subrange(0, 4));
        assert(head.subrange(0, 4) =~= lit("let "@));
    }
}

/// What the rewrite of an operation that a block names looks like: it takes
/// the place of a statement inside the block, it fits the text, and what it
/// adds goes before the block.
pub proof fn lemma_rewrite_shape(tree: &SyntaxTree, region: usize, target: usize, pattern: UnsafePattern)
    requires
        tree.wf(),
        names(tree, target, region, pattern),
        rewrite_of(tree, region, target, pattern) is Some,
    ensures
        ({
            let call = tree.parent_of(target)->0;
            let stmt = matched_statement(tree, call, pattern)->0;
            let text = generated_text(tree, region, call, pattern)->0;
            let plan = rewrite_of(tree, region, target, pattern)->0;
            let start = tree.range_at(anchor_of(tree, region)).start;
            &&& tree.parent_of(target) is Some
            &&& matched_statement(tree, call, pattern) is Some
            &&& generated_text(tree, region, call, pattern) is Some
            &&& inside(tree, region, stmt)
            &&& plan.fits(tree.text().len() as int)
            &&& plan.target() == span_to_delete(tree, region, stmt)
            &&& tree.range_at(region).end <= tree.text().len()
            &&& !is_sole(tree, region, stmt) ==> plan.cuts_from(
                tree.range_at(region),
                tree.range_at(stmt),
            )
            &&& match plan {
                PlanView::Replace { text: added, .. } => is_sole(tree, region, stmt) && added
                    == text,
                PlanView::DeleteInsert { position, text: added, .. } => !is_sole(
                    tree,
                    region,
                    stmt,
                ) && position <= start && added == reindented_text(tree, region, text),
                PlanView::DeleteReplace { companion, text: added, .. } => companion.end <= start
                    && added == text,
            }
        }),
{
    let e = tree.elements();
    let call = tree.parent_of(target)->0;
    let a = anchor_of(tree, region);
    lemma_call_inside(tree, target, region);
    lemma_parent_stays_inside(e, region as int, call as int);
    match binding_of(tree, call) {
        Some(b) => {
            lemma_binding_inside(tree, call, region, b);
        },
        None => {},
    }
    let stmt = matched_statement(tree, call, pattern)->0;
    lemma_anchor_covers(tree, region, stmt);
    lemma_parent_holds_child(e, region as int);
    if a != region {
        assert(placed(e, a as int, region as int));
    }
    assert(placed(e, region as int, stmt as int));
    assert(e[region as int].range.fits(tree.text().len() as int));
    assert(e[stmt as int].range.fits(tree.text().len() as int));
    if pattern == UnsafePattern::UnitializedVec {
        let receiver = tree.text_at(tree.first_expr_of(call)->0);
        lemma_companion_before(tree, region, receiver);
        lemma_earlier_sibling_ends_before(tree, region, vec_companion(tree, region, call)->0);
    } else if !is_sole(tree, region, stmt) {
        lemma_prev_sibling_from(e, tree.depth_at(a), a - 1);
        lemma_earlier_sibling_ends_before(tree, region, tree.prev_sibling_of(a)->0);
    }
}

/// What is known of the edit for the block at an offset: the block, the
/// element that names the rewritten operation, and the shape of the edit.
pub proof fn lemma_converted_shape(tree: &SyntaxTree, offset: usize)
    requires
        tree.wf(),
        converted(tree, offset) is Some,
    ensures
        ({
            let region = region_at(tree, offset)->0;
            let stmt = rewritten_statement(tree, offset)->0;
            let text = rewritten_text(tree, offset)->0;
            let plan = converted(tree, offset)->0;
            let start = tree.range_at(anchor_of(tree, region)).start;
            &&& region_at(tree, offset) is Some
            &&& rewritten_statement(tree, offset) is Some
            &&& rewritten_text(tree, offset) is Some
            &&& tree.has(region)
            &&& inside(tree, region, stmt)
            &&& plan.fits(tree.text().len() as int)
            &&& plan.target() == span_to_delete(tree, region, stmt)
            &&& tree.range_at(region).end <= tree.text().len()
            &&& !is_sole(tree, region, stmt) ==> plan.cuts_from(
                tree.range_at(region),
                tree.range_at(stmt),
            )
            &&& match plan {
                PlanView::Replace { text: added, .. } => is_sole(tree, region, stmt) && added
                    == text,
                PlanView::DeleteInsert { position, text: added, .. } => !is_sole(
                    tree,
                    region,
                    stmt,
                ) && position <= start && added == reindented_text(tree, region, text),
                PlanView::DeleteReplace { companion, text: added, .. } => companion.end <= start
                    && added == text,
            }
        }),
{
    lemma_region_at(tree, offset);
    let region = region_at(tree, offset)->0;
    lemma_subtree_end(tree.elements(), region as int);
    lemma_first_match_from(tree, region, region + 1, tree.end_of(region));
    let target = first_match(tree, region)->0;
    lemma_rewrite_shape(tree, region, target, classified(tree, target, region)->0);
}

/// What an edit takes the place of is a whole statement of the block, never
/// a part of one.
pub proof fn lemma_whole_statement_goes(tree: &SyntaxTree, offset: usize)
    requires
        tree.wf(),
        converted(tree, offset) is Some,
    ensures
        rewritten_statement(tree, offset) is Some,
        inside(tree, region_at(tree, offset)->0, rewritten_statement(tree, offset)->0),
        is_statement(tree, rewritten_statement(tree, offset)->0),
{
    lemma_converted_shape(tree, offset);
}

/// An edit that is planned fits the text it was planned for.
pub proof fn lemma_edit_fits(tree: &SyntaxTree, offset: usize)
    requires
        tree.wf(),
        converted(tree, offset) is Some,
    ensures
        converted(tree, offset)->0.fits(tree.text().len() as int),
{
    lemma_converted_shape(tree, offset);
}

/// Where the rewritten statement is all that the block holds, the edit is
/// reported for the span that stands for the whole block, the whole block
/// goes, and what the edit adds is the generated statement and nothing
/// around it.
pub proof fn lemma_sole_statement_collapses(tree: &SyntaxTree, offset: usize)
    requires
        tree.wf(),
        converted(tree, offset) is Some,
        is_sole(tree, region_at(tree, offset)->0, rewritten_statement(tree, offset)->0),
    ensures
        converted(tree, offset)->0.target() == effective_range(
            tree,
            region_at(tree, offset)->0,
        ),
        !(converted(tree, offset)->0 is DeleteInsert),
        Some(converted(tree, offset)->0.text()) == rewritten_text(tree, offset),
{
    lemma_converted_shape(tree, offset);
}

/// Where the block holds more than the rewritten statement, every part of
/// the block outside that statement reads after the edit as it did before,
/// at the place the edit moved it to.
pub proof fn lemma_rest_of_block_is_kept(tree: &SyntaxTree, offset: usize, kept: TextRange)
    requires
        tree.wf(),
        converted(tree, offset) is Some,
        !is_sole(tree, region_at(tree, offset)->0, rewritten_statement(tree, offset)->0),
        kept.start < kept.end,
        tree.range_at(region_at(tree, offset)->0).start <= kept.start,
        kept.end <= tree.range_at(region_at(tree, offset)->0).end,
        kept.end <= tree.range_at(rewritten_statement(tree, offset)->0).start || tree.range_at(
            rewritten_statement(tree, offset)->0,
        ).end <= kept.start,
    ensures
        ({
            let plan = converted(tree, offset)->0;
            let at = plan.moved(kept.start as int);
            &&& 0 <= at
            &&& at + (kept.end - kept.start) <= plan.apply(tree.text()).len()
            &&& plan.apply(tree.text()).subrange(at, at + (kept.end - kept.start)) == kept.of(
                tree.text(),
            )
        }),
{
    lemma_converted_shape(tree, offset);
    lemma_spared_text_is_kept(converted(tree, offset)->0, tree.text(), kept);
}

/// Where the block holds more than the rewritten statement, the block
/// stands after the edit as it did before, with that statement cut out of
/// it and nothing else changed.
pub proof fn lemma_block_keeps_all_but_the_statement(tree: &SyntaxTree, offset: usize)
    requires
        tree.wf(),
        converted(tree, offset) is Some,
        !is_sole(tree, region_at(tree, offset)->0, rewritten_statement(tree, offset)->0),
    ensures
        ({
            let plan = converted(tree, offset)->0;
            let block = tree.range_at(region_at(tree, offset)->0);
            let cut = tree.range_at(rewritten_statement(tree, offset)->0);
            let at = block.start + plan.grows();
            let kept = (block.end - block.start) - (cut.end - cut.start);
            &&& block.start <= cut.start <= cut.end <= block.end <= tree.text().len()
            &&& 0 <= at
            &&& at + kept <= plan.apply(tree.text()).len()
            &&& plan.apply(tree.text()).subrange(at, at + kept) == tree.text().subrange(
                block.start as int,
                cut.start as int,
            ) + tree.text().subrange(cut.end as int, block.end as int)
        }),
{
    lemma_converted_shape(tree, offset);
    lemma_cut_is_all_that_goes(
        converted(tree, offset)->0,
        tree.text(),
        tree.range_at(region_at(tree, offset)->0),
        tree.range_at(rewritten_statement(tree, offset)->0),
    );
}

/// Two elements of a block of which neither holds the other cover spans
/// that do not overlap, inside the span of the block.
pub proof fn lemma_apart_in_tree_apart_in_text(tree: &SyntaxTree, region: usize, stmt: usize, other: usize)
    requires
        tree.wf(),
        inside(tree, region, stmt),
        inside(tree, region, other),
        !(other <= stmt < tree.end_of(other)),
        !(stmt <= other < tree.end_of(stmt)),
    ensures
        tree.range_at(region).start <= tree.range_at(other).start,
        tree.range_at(other).end <= tree.range_at(region).end,
        tree.range_at(other).end <= tree.range_at(stmt).start || tree.range_at(stmt).end
            <= tree.range_at(other).start,
{
    let e = tree.elements();
    lemma_subtree_end(e, region as int);
    lemma_subtree_end(e, stmt as int);
    lemma_subtree_end(e, other as int);
    assert(placed(e, region as int, other as int));
    if other < stmt {
        assert(placed(e, other as int, stmt as int));
    } else {
        assert(placed(e, stmt as int, other as int));
    }
}

/// Where the block holds more than the rewritten statement, the text of
/// every other element of the block that does not hold that statement
/// reads after the edit as it did before.
pub proof fn lemma_siblings_are_kept(tree: &SyntaxTree, offset: usize, sibling: usize)
    requires
        tree.wf(),
        converted(tree, offset) is Some,
        !is_sole(tree, region_at(tree, offset)->0, rewritten_statement(tree, offset)->0),
        inside(tree, region_at(tree, offset)->0, sibling),
        tree.range_at(sibling).start < tree.range_at(sibling).end,
        !(sibling <= rewritten_statement(tree, offset)->0 < tree.end_of(sibling)),
        !(rewritten_statement(tree, offset)->0 <= sibling < tree.end_of(
            rewritten_statement(tree, offset)->0,
        )),
    ensures
        ({
            let plan = converted(tree, offset)->0;
            let kept = tree.range_at(sibling);
            let at = plan.moved(kept.start as int);
            &&& 0 <= at
            &&& at + (kept.end - kept.start) <= plan.apply(tree.text()).len()
            &&& plan.apply(tree.text()).subrange(at, at + (kept.end - kept.start)) == tree.text_at(
                sibling,
            )
        }),
{
    lemma_converted_shape(tree, offset);
    lemma_apart_in_tree_apart_in_text(
        tree,
        region_at(tree, offset)->0,
        rewritten_statement(tree, offset)->0,
        sibling,
    );
    lemma_rest_of_block_is_kept(tree, offset, tree.range_at(sibling));
}

} // verus!
