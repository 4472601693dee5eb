//! Planned edits: what to delete, what to put where, and the text that
//! results.
use vstd::prelude::*;
use vstd::slice::slice_subrange;
use crate::text::TextRange;
use crate::text::push_bytes;

verus! {

/// One edit of a source text. Every offset refers to the text before the
/// edit.
#[derive(Debug, PartialEq, Eq)]
pub enum EditPlan {
    /// Put `text` in place of `target`.
    Replace { target: TextRange, text: Vec<u8> },
    /// Delete `target` and insert `text` at `position`, which lies before it.
    DeleteInsert { target: TextRange, position: usize, text: Vec<u8> },
    /// Delete `target` and put `text` in place of `companion`, which lies
    /// before it.
    DeleteReplace { target: TextRange, companion: TextRange, text: Vec<u8> },
}

/// An edit as a mathematical value.
pub enum PlanView {
    Replace { target: TextRange, text: Seq<u8> },
    DeleteInsert { target: TextRange, position: usize, text: Seq<u8> },
    DeleteReplace { target: TextRange, companion: TextRange, text: Seq<u8> },
}

impl View for EditPlan {
    type V = PlanView;

    /// The edit with its text as a sequence of bytes.
    open spec fn view(&self) -> PlanView {
        match *self {
            EditPlan::Replace { target, text } => PlanView::Replace { target, text: text@ },
            EditPlan::DeleteInsert { target, position, text } => PlanView::DeleteInsert {
                target,
                position,
                text: text@,
            },
            EditPlan::DeleteReplace { target, companion, text } => PlanView::DeleteReplace {
                target,
                companion,
                text: text@,
            },
        }
    }
}

impl PlanView {
    /// The span that the edit is reported for: the one it deletes or
    /// replaces inside the rewritten region.
    pub open spec fn target(self) -> TextRange {
        match self {
            PlanView::Replace { target, .. } => target,
            PlanView::DeleteInsert { target, .. } => target,
            PlanView::DeleteReplace { target, .. } => target,
        }
    }

    /// The text that the edit adds.
    pub open spec fn text(self) -> Seq<u8> {
        match self {
            PlanView::Replace { text, .. } => text,
            PlanView::DeleteInsert { text, .. } => text,
            PlanView::DeleteReplace { text, .. } => text,
        }
    }

    /// The edit can be applied to a text of `len` bytes: its spans lie inside
    /// the text, and what it adds goes before what it deletes.
    pub open spec fn fits(self, len: int) -> bool {
        match self {
            PlanView::Replace { target, .. } => target.fits(len),
            PlanView::DeleteInsert { target, position, .. } => target.fits(len) && position
                <= target.start,
            PlanView::DeleteReplace { target, companion, .. } => target.fits(len)
                && companion.start <= companion.end && companion.end <= target.start,
        }
    }

    /// The text after the edit.
    pub open spec fn apply(self, source: Seq<u8>) -> Seq<u8> {
        match self {
            PlanView::Replace { target, text } => source.subrange(0, target.start as int) + text
                + source.subrange(target.end as int, source.len() as int),
            PlanView::DeleteInsert { target, position, text } => source.subrange(
                0,
                position as int,
            ) + text + source.subrange(position as int, target.start as int) + source.subrange(
                target.end as int,
                source.len() as int,
            ),
            PlanView::DeleteReplace { target, companion, text } => source.subrange(
                0,
                companion.start as int,
            ) + text + source.subrange(companion.end as int, target.start as int)
                + source.subrange(target.end as int, source.len() as int),
        }
    }

    /// Where the byte at offset `at` of the source stands after the edit,
    /// for a byte that the edit keeps.
    pub open spec fn moved(self, at: int) -> int {
        match self {
            PlanView::Replace { target, text } => if at < target.start {
                at
            } else {
                at - (target.end - target.start) + text.len()
            },
            PlanView::DeleteInsert { target, position, text } => if at < position {
                at
            } else if at < target.start {
                at + text.len()
            } else {
                at + text.len() - (target.end - target.start)
            },
            PlanView::DeleteReplace { target, companion, text } => if at < companion.start {
                at
            } else if at < target.start {
                at + text.len() - (companion.end - companion.start)
            } else {
                at + text.len() - (companion.end - companion.start) - (target.end
                    - target.start)
            },
        }
    }

    /// The edit leaves the span `kept` alone: it deletes nothing of it and
    /// adds nothing inside it.
    pub open spec fn spares(self, kept: TextRange) -> bool {
        match self {
            PlanView::Replace { target, .. } => kept.end <= target.start || target.end
                <= kept.start,
            PlanView::DeleteInsert { target, position, .. } => (kept.end <= target.start
                || target.end <= kept.start) && (kept.end <= position || position <= kept.start),
            PlanView::DeleteReplace { target, companion, .. } => (kept.end <= target.start
                || target.end <= kept.start) && (kept.end <= companion.start || companion.end
                <= kept.start),
        }
    }
}

/// The view of an optional plan.
pub open spec fn plan_view(plan: Option<EditPlan>) -> Option<PlanView> {
    match plan {
        Some(p) => Some(p@),
        None => None,
    }
}

/// The view of an optional piece of text.
pub open spec fn text_view(text: Option<Vec<u8>>) -> Option<Seq<u8>> {
    match text {
        Some(t) => Some(t@),
        None => None,
    }
}

/// A span that an edit spares reads after the edit as it did before, at the
/// place the edit moved it to.
pub proof fn lemma_spared_text_is_kept(plan: PlanView, source: Seq<u8>, kept: TextRange)
    requires
        plan.fits(source.len() as int),
        kept.fits(source.len() as int),
        kept.start < kept.end,
        plan.spares(kept),
    ensures
        0 <= plan.moved(kept.start as int),
        plan.moved(kept.start as int) + (kept.end - kept.start) <= plan.apply(source).len(),
        plan.apply(source).subrange(
            plan.moved(kept.start as int),
            plan.moved(kept.start as int) + (kept.end - kept.start),
        ) == kept.of(source),
{
    let out = plan.apply(source);
    let at = plan.moved(kept.start as int);
    let n = kept.end - kept.start;
    assert(0 <= at && at + n <= out.len());
    assert(out.subrange(at, at + n) =~= kept.of(source));
}

impl PlanView {
    /// The edit cuts `cut` out of `block` and touches nothing else of it:
    /// `cut` is what it deletes, and what it adds goes before `block`.
    pub open spec fn cuts_from(self, block: TextRange, cut: TextRange) -> bool {
        &&& block.start <= cut.start <= cut.end <= block.end
        &&& match self {
            PlanView::Replace { .. } => false,
            PlanView::DeleteInsert { target, position, .. } => target == cut && position
                <= block.start,
            PlanView::DeleteReplace { target, companion, .. } => target == cut
                && companion.start <= companion.end <= block.start,
        }
    }

    /// How far the edit moves the text that follows what it adds.
    pub open spec fn grows(self) -> int {
        match self {
            PlanView::Replace { target, text } => text.len() - (target.end - target.start),
            PlanView::DeleteInsert { text, .. } => text.len() as int,
            PlanView::DeleteReplace { companion, text, .. } => text.len() - (companion.end
                - companion.start),
        }
    }
}

/// A span from which an edit cuts a part reads after the edit as it did
/// before, but for the part that was cut.
pub proof fn lemma_cut_is_all_that_goes(
    plan: PlanView,
    source: Seq<u8>,
    block: TextRange,
    cut: TextRange,
)
    requires
        block.end <= source.len(),
        plan.cuts_from(block, cut),
    ensures
        ({
            let at = block.start + plan.grows();
            let kept = (block.end - block.start) - (cut.end - cut.start);
            &&& 0 <= at
            &&& at + kept <= plan.apply(source).len()
            &&& plan.apply(source).subrange(at, at + kept) == source.subrange(
                block.start as int,
                cut.start as int,
            ) + source.subrange(cut.end as int, block.end as int)
        }),
{
    let at = block.start + plan.grows();
    let kept = (block.end - block.start) - (cut.end - cut.start);
    assert(plan.apply(source).subrange(at, at + kept) =~= source.subrange(
        block.start as int,
        cut.start as int,
    ) + source.subrange(cut.end as int, block.end as int));
}

/// Plans the replacement of `target_range` by `buf`.
pub fn replace_source_code(target_range: TextRange, buf: Vec<u8>) -> (r: EditPlan)
    ensures
        r@ == (PlanView::Replace { target: target_range, text: buf@ }),
{
    EditPlan::Replace { target: target_range, text: buf }
}

/// Plans the deletion of `target_range` and the insertion of `new_buf` at
/// `position`.
pub fn delet_insert_source_code(target_range: TextRange, position: usize, new_buf: Vec<u8>) -> (r:
    EditPlan)
    ensures
        r@ == (PlanView::DeleteInsert { target: target_range, position, text: new_buf@ }),
{
    EditPlan::DeleteInsert { target: target_range, position, text: new_buf }
}

/// Plans the deletion of `target_range` and the replacement of `let_target`
/// by `buf`.
pub fn delet_replace_source_code(let_target: TextRange, target_range: TextRange, buf: Vec<u8>) -> (r:
    EditPlan)
    ensures
        r@ == (PlanView::DeleteReplace { target: target_range, companion: let_target, text: buf@ }),
{
    EditPlan::DeleteReplace { target: target_range, companion: let_target, text: buf }
}

impl EditPlan {
    /// The span that the edit is reported for.
    pub fn target(&self) -> (r: TextRange)
        ensures
            r == self@.target(),
    {
        match self {
            EditPlan::Replace { target, .. } => *target,
            EditPlan::DeleteInsert { target, .. } => *target,
            EditPlan::DeleteReplace { target, .. } => *target,
        }
    }

    /// The text that the edit adds.
    pub fn text(&self) -> (r: &[u8])
        ensures
            r@ == self@.text(),
    {
        match self {
            EditPlan::Replace { text, .. } => text.as_slice(),
            EditPlan::DeleteInsert { text, .. } => text.as_slice(),
            EditPlan::DeleteReplace { text, .. } => text.as_slice(),
        }
    }

    /// Whether the edit can be applied to a text of `len` bytes.
    pub fn fits(&self, len: usize) -> (r: bool)
        ensures
            r == self@.fits(len as int),
    {
        match self {
            EditPlan::Replace { target, .. } => target.start <= target.end && target.end <= len,
            EditPlan::DeleteInsert { target, position, .. } => target.start <= target.end
                && target.end <= len && *position <= target.start,
            EditPlan::DeleteReplace { target, companion, .. } => target.start <= target.end
                && target.end <= len && companion.start <= companion.end && companion.end
                <= target.start,
        }
    }

    /// The text after the edit, or nothing where the edit does not fit the
    /// text.
    pub fn apply(&self, source: &[u8]) -> (r: Option<Vec<u8>>)
        ensures
            r is Some <==> self@.fits(source@.len() as int),
            r is Some ==> r->0@ == self@.apply(source@),
    {
        if !self.fits(source.len()) {
            return None;
        }
        let n = source.len();
        let mut out: Vec<u8> = Vec::new();
        match self {
            EditPlan::Replace { target, text } => {
                push_bytes(&mut out, slice_subrange(source, 0, target.start));
                push_bytes(&mut out, text.as_slice());
                push_bytes(&mut out, slice_subrange(source, target.end, n));
            },
            EditPlan::DeleteInsert { target, position, text } => {
                push_bytes(&mut out, slice_subrange(source, 0, *position));
                push_bytes(&mut out, text.as_slice());
                push_bytes(&mut out, slice_subrange(source, *position, target.start));
                push_bytes(&mut out, slice_subrange(source, target.end, n));
            },
            EditPlan::DeleteReplace { target, companion, text } => {
                push_bytes(&mut out, slice_subrange(source, 0, companion.start));
                push_bytes(&mut out, text.as_slice());
                push_bytes(&mut out, slice_subrange(source, companion.end, target.start));
                push_bytes(&mut out, slice_subrange(source, target.end, n));
            },
        }
        assert(Seq::<u8>::empty() + source@.subrange(0, 0) =~= Seq::<u8>::empty());
        assert(out@ =~= self@.apply(source@));
        Some(out)
    }
}

} // verus!
