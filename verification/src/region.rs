//! The `unsafe` block under the cursor and the statements around it.
//!
//! The statements around a block are the siblings of its anchor: the block
//! itself where it stands directly in a statement list, else the construct
//! that holds it.
use vstd::prelude::*;
use crate::pattern::UnsafePattern;
use crate::text::TextRange;
use crate::text::lit;
use crate::tree::NodeKind;
use crate::tree::SyntaxTree;

verus! {

/// The `unsafe` block that a rewrite works on, and the span that stands for
/// the whole block when it is removed.
#[derive(Clone, Copy, Debug, PartialEq, Eq, Structural)]
pub struct UnsafeBlockInfo {
    pub unsafe_expr: usize,
    pub unsafe_range: TextRange,
}

/// The keyword `k` opens an `unsafe` block around `offset`: it is the
/// keyword of a block expression that stands inside another construct and
/// whose span holds the offset.
pub open spec fn opens_block_around(tree: &SyntaxTree, k: usize, offset: usize) -> bool {
    tree.kind_at(k) == NodeKind::UnsafeKw && match tree.parent_of(k) {
        Some(b) => tree.kind_at(b) == NodeKind::BlockExpr && tree.parent_of(b) is Some
            && tree.range_at(b).start <= offset < tree.range_at(b).end,
        None => false,
    }
}

/// Last keyword at or before element `j` that opens an `unsafe` block
/// around `offset`.
pub open spec fn keyword_from(tree: &SyntaxTree, offset: usize, j: int) -> Option<usize>
    decreases j + 1,
{
    if j < 0 || j >= tree.elements().len() {
        None
    } else if opens_block_around(tree, j as usize, offset) {
        Some(j as usize)
    } else {
        keyword_from(tree, offset, j - 1)
    }
}

/// The innermost `unsafe` block around `offset`: the one whose keyword
/// comes last in the text.
pub open spec fn region_at(tree: &SyntaxTree, offset: usize) -> Option<usize> {
    match keyword_from(tree, offset, tree.elements().len() - 1) {
        Some(k) => tree.parent_of(k),
        None => None,
    }
}

/// The element whose siblings are the statements around `region`.
pub open spec fn anchor_of(tree: &SyntaxTree, region: usize) -> usize {
    match tree.parent_of(region) {
        Some(p) => if tree.kind_at(p) == NodeKind::StmtList {
            region
        } else {
            p
        },
        None => region,
    }
}

/// The span that stands for the whole of `region`: its own, or that of the
/// construct that holds it where it does not stand directly in a statement
/// list.
pub open spec fn effective_range(tree: &SyntaxTree, region: usize) -> TextRange {
    tree.range_at(anchor_of(tree, region))
}

/// What locating the block under the cursor yields.
pub open spec fn located(tree: &SyntaxTree, offset: usize) -> Option<UnsafeBlockInfo> {
    match region_at(tree, offset) {
        Some(b) => Some(UnsafeBlockInfo { unsafe_expr: b, unsafe_range: effective_range(tree, b) }),
        None => None,
    }
}

/// Statement `s` is a declaration whose pattern names `name`.
pub open spec fn declares(tree: &SyntaxTree, s: usize, name: Seq<u8>) -> bool {
    tree.kind_at(s) == NodeKind::LetStmt && match tree.pat_of(s) {
        Some(p) => tree.mentions(p, name),
        None => false,
    }
}

/// Statement `s` asks for capacity: it names the construction of a buffer
/// with a capacity, or the reservation of more.
pub open spec fn reserves(tree: &SyntaxTree, s: usize) -> bool {
    tree.mentions(s, lit(UnsafePattern::SetVecCapacity.signature())) || tree.mentions(
        s,
        lit(UnsafePattern::ReserveVec.signature()),
    )
}

/// Statement `s` names `receiver` and a write of a whole buffer.
pub open spec fn overwrites(tree: &SyntaxTree, s: usize, receiver: Seq<u8>) -> bool {
    tree.mentions(s, receiver) && tree.mentions(s, lit(UnsafePattern::WriteVec.signature()))
}

/// Nearest sibling at or before `j`, at `depth`, that declares `name`.
pub open spec fn declaration_from(tree: &SyntaxTree, depth: usize, j: int, name: Seq<u8>) -> Option<
    usize,
>
    decreases j + 1,
{
    if j < 0 || j >= tree.elements().len() || tree.elements()[j].depth < depth {
        None
    } else if tree.elements()[j].depth == depth && declares(tree, j as usize, name) {
        Some(j as usize)
    } else {
        declaration_from(tree, depth, j - 1, name)
    }
}

/// Nearest sibling at or before `j`, at `depth`, that asks for capacity and
/// names `receiver`.
pub open spec fn companion_from(tree: &SyntaxTree, depth: usize, j: int, receiver: Seq<u8>) -> Option<
    usize,
>
    decreases j + 1,
{
    if j < 0 || j >= tree.elements().len() || tree.elements()[j].depth < depth {
        None
    } else if tree.elements()[j].depth == depth && reserves(tree, j as usize) && tree.mentions(
        j as usize,
        receiver,
    ) {
        Some(j as usize)
    } else {
        companion_from(tree, depth, j - 1, receiver)
    }
}

/// Some sibling at or before `j`, at `depth`, asks for capacity.
pub open spec fn reserved_from(tree: &SyntaxTree, depth: usize, j: int) -> bool
    decreases j + 1,
{
    if j < 0 || j >= tree.elements().len() || tree.elements()[j].depth < depth {
        false
    } else if tree.elements()[j].depth == depth && reserves(tree, j as usize) {
        true
    } else {
        reserved_from(tree, depth, j - 1)
    }
}

/// Some sibling at or after `j`, at `depth`, names `receiver` and a write of
/// a whole buffer.
pub open spec fn overwritten_from(tree: &SyntaxTree, depth: usize, j: int, receiver: Seq<u8>) -> bool
    decreases tree.elements().len() - j,
{
    if j < 0 || j >= tree.elements().len() || tree.elements()[j].depth < depth {
        false
    } else if tree.elements()[j].depth == depth && overwrites(tree, j as usize, receiver) {
        true
    } else {
        overwritten_from(tree, depth, j + 1, receiver)
    }
}

/// The nearest statement before `region` that declares `name`.
pub open spec fn declaration_before(tree: &SyntaxTree, region: usize, name: Seq<u8>) -> Option<
    usize,
> {
    let a = anchor_of(tree, region);
    declaration_from(tree, tree.depth_at(a), a - 1, name)
}

/// The nearest statement before `region` that asks for capacity and names
/// `receiver`.
pub open spec fn companion_before(tree: &SyntaxTree, region: usize, receiver: Seq<u8>) -> Option<
    usize,
> {
    let a = anchor_of(tree, region);
    companion_from(tree, tree.depth_at(a), a - 1, receiver)
}

/// Some statement before `region` asks for capacity.
pub open spec fn reserved_before(tree: &SyntaxTree, region: usize) -> bool {
    let a = anchor_of(tree, region);
    reserved_from(tree, tree.depth_at(a), a - 1)
}

/// Some statement after `region` names `receiver` and a write of a whole
/// buffer.
pub open spec fn overwritten_after(tree: &SyntaxTree, region: usize, receiver: Seq<u8>) -> bool {
    let a = anchor_of(tree, region);
    overwritten_from(tree, tree.depth_at(a), tree.end_of(a), receiver)
}

/// What `keyword_from` finds is the last keyword at or before `j` that
/// opens an `unsafe` block around the offset.
proof fn lemma_keyword_from(tree: &SyntaxTree, offset: usize, j: int)
    requires
        -1 <= j < tree.elements().len(),
        tree.elements().len() <= usize::MAX,
    ensures
        match keyword_from(tree, offset, j) {
            Some(k) => k <= j && opens_block_around(tree, k, offset) && forall|later: usize|
                k < later <= j ==> !#[trigger] opens_block_around(tree, later, offset),
            None => forall|k: usize| k <= j ==> !#[trigger] opens_block_around(tree, k, offset),
        },
    decreases j + 1,
{
    if j >= 0 && !opens_block_around(tree, j as usize, offset) {
        lemma_keyword_from(tree, offset, j - 1);
    }
}

/// The block that is found at an offset is an `unsafe` block of the tree
/// whose span holds the offset, it stands inside another element, and no
/// `unsafe` block that opens later in the text holds the offset.
pub proof fn lemma_region_at(tree: &SyntaxTree, offset: usize)
    requires
        tree.elements().len() <= usize::MAX,
    ensures
        match region_at(tree, offset) {
            Some(b) => tree.has(b) && tree.kind_at(b) == NodeKind::BlockExpr && tree.parent_of(b)
                is Some && tree.range_at(b).start <= offset < tree.range_at(b).end && exists|
                k: usize,
            |
                tree.has(k) && tree.parent_of(k) == Some(b) && #[trigger] opens_block_around(
                    tree,
                    k,
                    offset,
                ) && forall|later: usize|
                    k < later && tree.has(later) ==> !#[trigger] opens_block_around(
                        tree,
                        later,
                        offset,
                    ),
            None => forall|k: usize| tree.has(k) ==> !#[trigger] opens_block_around(
                tree,
                k,
                offset,
            ),
        },
{
    lemma_keyword_from(tree, offset, tree.elements().len() - 1);
    match keyword_from(tree, offset, tree.elements().len() - 1) {
        Some(k) => {
            crate::tree::lemma_parent_from(tree.elements(), tree.depth_at(k), k - 1);
        },
        None => {},
    }
}

/// `b` stands before `a` among the children of one parent: at the same
/// depth, with nothing shallower between them.
pub open spec fn sibling_before(tree: &SyntaxTree, b: int, a: int) -> bool {
    0 <= b < a < tree.elements().len() && tree.elements()[b].depth == tree.elements()[a].depth
        && forall|k: int| b < k < a ==> (#[trigger] tree.elements()[k]).depth
            >= tree.elements()[a].depth
}

/// `b` stands after `a` among the children of one parent.
pub open spec fn sibling_after(tree: &SyntaxTree, b: int, a: int) -> bool {
    sibling_before(tree, a, b)
}

/// What `companion_from` finds is the nearest sibling at or before `j` that
/// asks for capacity and names the receiver.
proof fn lemma_companion_from(tree: &SyntaxTree, a: int, j: int, receiver: Seq<u8>)
    requires
        -1 <= j < a < tree.elements().len(),
        tree.elements().len() <= usize::MAX,
        forall|k: int| j < k < a ==> (#[trigger] tree.elements()[k]).depth
            >= tree.elements()[a].depth,
        forall|k: int|
            j < k < a && sibling_before(tree, k, a) ==> !(#[trigger] reserves(tree, k as usize)
                && tree.mentions(k as usize, receiver)),
    ensures
        match companion_from(tree, tree.elements()[a].depth, j, receiver) {
            Some(c) => sibling_before(tree, c as int, a) && reserves(tree, c) && tree.mentions(
                c,
                receiver,
            ) && forall|b: int|
                c < b && sibling_before(tree, b, a) ==> !(#[trigger] reserves(tree, b as usize)
                    && tree.mentions(b as usize, receiver)),
            None => forall|b: int|
                sibling_before(tree, b, a) ==> !(#[trigger] reserves(tree, b as usize)
                    && tree.mentions(b as usize, receiver)),
        },
    decreases j + 1,
{
    let depth = tree.elements()[a].depth;
    if j >= 0 && tree.elements()[j].depth >= depth && !(tree.elements()[j].depth == depth
        && reserves(tree, j as usize) && tree.mentions(j as usize, receiver)) {
        lemma_companion_from(tree, a, j - 1, receiver);
    }
}

/// The companion of a length set is the nearest statement before the block
/// that asks for capacity and names the receiver.
pub proof fn lemma_companion_before(tree: &SyntaxTree, region: usize, receiver: Seq<u8>)
    requires
        tree.wf(),
        tree.has(anchor_of(tree, region)),
    ensures
        match companion_before(tree, region, receiver) {
            Some(c) => sibling_before(tree, c as int, anchor_of(tree, region) as int) && reserves(
                tree,
                c,
            ) && tree.mentions(c, receiver) && forall|b: int|
                c < b && sibling_before(tree, b, anchor_of(tree, region) as int) ==> !(
                #[trigger] reserves(tree, b as usize) && tree.mentions(b as usize, receiver)),
            None => forall|b: int|
                sibling_before(tree, b, anchor_of(tree, region) as int) ==> !(#[trigger] reserves(
                    tree,
                    b as usize,
                ) && tree.mentions(b as usize, receiver)),
        },
{
    let a = anchor_of(tree, region) as int;
    lemma_companion_from(tree, a, a - 1, receiver);
}

/// What `declaration_from` finds is the nearest sibling at or before `j`
/// that declares the name.
proof fn lemma_declaration_from(tree: &SyntaxTree, a: int, j: int, name: Seq<u8>)
    requires
        -1 <= j < a < tree.elements().len(),
        tree.elements().len() <= usize::MAX,
        forall|k: int| j < k < a ==> (#[trigger] tree.elements()[k]).depth
            >= tree.elements()[a].depth,
        forall|k: int|
            j < k < a && sibling_before(tree, k, a) ==> !#[trigger] declares(
                tree,
                k as usize,
                name,
            ),
    ensures
        match declaration_from(tree, tree.elements()[a].depth, j, name) {
            Some(d) => sibling_before(tree, d as int, a) && declares(tree, d, name) && forall|
                b: int,
            |
                d < b && sibling_before(tree, b, a) ==> !#[trigger] declares(
                    tree,
                    b as usize,
                    name,
                ),
            None => forall|b: int|
                sibling_before(tree, b, a) ==> !#[trigger] declares(tree, b as usize, name),
        },
    decreases j + 1,
{
    let depth = tree.elements()[a].depth;
    if j >= 0 && tree.elements()[j].depth >= depth && !(tree.elements()[j].depth == depth
        && declares(tree, j as usize, name)) {
        lemma_declaration_from(tree, a, j - 1, name);
    }
}

/// The declaration of a name is the nearest statement before the block
/// that declares it.
pub proof fn lemma_declaration_before(tree: &SyntaxTree, region: usize, name: Seq<u8>)
    requires
        tree.wf(),
        tree.has(anchor_of(tree, region)),
    ensures
        match declaration_before(tree, region, name) {
            Some(d) => sibling_before(tree, d as int, anchor_of(tree, region) as int) && declares(
                tree,
                d,
                name,
            ) && forall|b: int|
                d < b && sibling_before(tree, b, anchor_of(tree, region) as int)
                    ==> !#[trigger] declares(tree, b as usize, name),
            None => forall|b: int|
                sibling_before(tree, b, anchor_of(tree, region) as int) ==> !#[trigger] declares(
                    tree,
                    b as usize,
                    name,
                ),
        },
{
    let a = anchor_of(tree, region) as int;
    lemma_declaration_from(tree, a, a - 1, name);
}

/// `reserved_from` holds exactly where a sibling at or before `j` asks for
/// capacity.
proof fn lemma_reserved_from(tree: &SyntaxTree, a: int, j: int)
    requires
        -1 <= j < a < tree.elements().len(),
        forall|k: int| j < k < a ==> (#[trigger] tree.elements()[k]).depth
            >= tree.elements()[a].depth,
    ensures
        reserved_from(tree, tree.elements()[a].depth, j) <==> exists|b: int|
            b <= j && sibling_before(tree, b, a) && #[trigger] reserves(tree, b as usize),
    decreases j + 1,
{
    let depth = tree.elements()[a].depth;
    if j >= 0 && tree.elements()[j].depth >= depth {
        if tree.elements()[j].depth == depth && reserves(tree, j as usize) {
            assert(sibling_before(tree, j, a));
        } else {
            lemma_reserved_from(tree, a, j - 1);
        }
    }
}

/// A block has a reservation before it exactly where some statement before
/// it asks for capacity.
pub proof fn lemma_reserved_before(tree: &SyntaxTree, region: usize)
    requires
        tree.has(anchor_of(tree, region)),
    ensures
        reserved_before(tree, region) <==> exists|b: int|
            sibling_before(tree, b, anchor_of(tree, region) as int) && #[trigger] reserves(
                tree,
                b as usize,
            ),
{
    let a = anchor_of(tree, region) as int;
    lemma_reserved_from(tree, a, a - 1);
}

/// `overwritten_from` holds exactly where a sibling at or after `j` names the
/// receiver together with a write of a whole buffer.
proof fn lemma_overwritten_from(tree: &SyntaxTree, a: int, j: int, receiver: Seq<u8>)
    requires
        0 <= a < j <= tree.elements().len(),
        forall|k: int| a < k < j ==> (#[trigger] tree.elements()[k]).depth
            >= tree.elements()[a].depth,
        forall|k: int|
            a < k < j && sibling_after(tree, k, a) ==> !#[trigger] overwrites(
                tree,
                k as usize,
                receiver,
            ),
    ensures
        overwritten_from(tree, tree.elements()[a].depth, j, receiver) <==> exists|b: int|
            sibling_after(tree, b, a) && #[trigger] overwrites(tree, b as usize, receiver),
    decreases tree.elements().len() - j,
{
    let depth = tree.elements()[a].depth;
    if j < tree.elements().len() && tree.elements()[j].depth >= depth {
        if tree.elements()[j].depth == depth && overwrites(tree, j as usize, receiver) {
            assert(sibling_after(tree, j, a));
        } else {
            lemma_overwritten_from(tree, a, j + 1, receiver);
        }
    } else {
        assert forall|b: int| sibling_after(tree, b, a) implies !#[trigger] overwrites(
            tree,
            b as usize,
            receiver,
        ) by {
            if j < tree.elements().len() && b >= j {
                assert(tree.elements()[j].depth < depth);
            }
        }
    }
}

/// A block is overwritten after it exactly where some statement after it
/// names the receiver together with a write of a whole buffer.
pub proof fn lemma_overwritten_after(tree: &SyntaxTree, region: usize, receiver: Seq<u8>)
    requires
        tree.has(anchor_of(tree, region)),
    ensures
        overwritten_after(tree, region, receiver) <==> exists|b: int|
            sibling_after(tree, b, anchor_of(tree, region) as int) && #[trigger] overwrites(
                tree,
                b as usize,
                receiver,
            ),
{
    let a = anchor_of(tree, region) as int;
    crate::tree::lemma_subtree_end(tree.elements(), a);
    assert forall|k: int| a < k < tree.end_of(a as usize) implies !sibling_after(tree, k, a) by {}
    lemma_overwritten_from(tree, a, tree.end_of(a as usize), receiver);
}

/// Whether the keyword `k` opens an `unsafe` block around `offset`.
pub fn is_block_around(tree: &SyntaxTree, k: usize, offset: usize) -> (r: bool)
    requires
        tree.has(k),
    ensures
        r == opens_block_around(tree, k, offset),
{
    if tree.kind(k) != NodeKind::UnsafeKw {
        return false;
    }
    match tree.parent(k) {
        Some(b) => {
            let range = tree.range(b);
            tree.kind(b) == NodeKind::BlockExpr && tree.parent(b).is_some() && range.start
                <= offset && offset < range.end
        },
        None => false,
    }
}

/// Finds the innermost `unsafe` block around `offset`.
pub fn collect_unsafe_vec_info(tree: &SyntaxTree, offset: usize) -> (r: Option<UnsafeBlockInfo>)
    ensures
        r == located(tree, offset),
        r is Some ==> tree.has(r->0.unsafe_expr) && tree.kind_at(r->0.unsafe_expr)
            == NodeKind::BlockExpr,
{
    let n = tree.len();
    let mut j: usize = n;
    while j > 0
        invariant
            j <= n,
            n == tree.elements().len(),
            keyword_from(tree, offset, n - 1) == keyword_from(tree, offset, j - 1),
        decreases j,
    {
        j -= 1;
        if is_block_around(tree, j, offset) {
            let block = match tree.parent(j) {
                Some(b) => b,
                None => { return None; },
            };
            let anchor = anchor(tree, block);
            return Some(UnsafeBlockInfo { unsafe_expr: block, unsafe_range: tree.range(anchor) });
        }
    }
    None
}

/// The element whose siblings are the statements around `region`.
pub fn anchor(tree: &SyntaxTree, region: usize) -> (r: usize)
    requires
        tree.has(region),
    ensures
        r == anchor_of(tree, region),
        r <= region,
        tree.has(r),
{
    match tree.parent(region) {
        Some(p) => if tree.kind(p) == NodeKind::StmtList {
            region
        } else {
            p
        },
        None => region,
    }
}

/// Whether statement `s` is a declaration whose pattern names `name`.
pub fn is_declaration_of(tree: &SyntaxTree, s: usize, name: &[u8]) -> (r: bool)
    requires
        tree.has(s),
    ensures
        r == declares(tree, s, name@),
{
    if tree.kind(s) != NodeKind::LetStmt {
        return false;
    }
    match tree.pat(s) {
        Some(p) => tree.has_mention(p, name),
        None => false,
    }
}

/// Whether statement `s` asks for capacity.
pub fn is_reservation(tree: &SyntaxTree, s: usize) -> (r: bool)
    requires
        tree.has(s),
    ensures
        r == reserves(tree, s),
{
    tree.has_mention(s, UnsafePattern::SetVecCapacity.as_str().as_bytes()) || tree.has_mention(
        s,
        UnsafePattern::ReserveVec.as_str().as_bytes(),
    )
}

/// Finds the nearest statement before `region` that declares `name`.
pub fn find_declaration(tree: &SyntaxTree, region: usize, name: &[u8]) -> (r: Option<usize>)
    requires
        tree.has(region),
    ensures
        r == declaration_before(tree, region, name@),
        r is Some ==> tree.has(r->0) && r->0 < anchor_of(tree, region) && declares(
            tree,
            r->0,
            name@,
        ),
{
    let a = anchor(tree, region);
    let depth = tree.depth(a);
    let mut j: usize = a;
    while j > 0
        invariant
            j <= a,
            tree.has(a),
            a == anchor_of(tree, region),
            depth == tree.depth_at(a),
            declaration_before(tree, region, name@) == declaration_from(tree, depth, j - 1, name@),
        decreases j,
    {
        j -= 1;
        let d = tree.depth(j);
        if d < depth {
            return None;
        }
        if d == depth && is_declaration_of(tree, j, name) {
            return Some(j);
        }
    }
    None
}

/// Finds the nearest statement before `region` that asks for capacity and
/// names `receiver`.
pub fn find_companion(tree: &SyntaxTree, region: usize, receiver: &[u8]) -> (r: Option<usize>)
    requires
        tree.has(region),
    ensures
        r == companion_before(tree, region, receiver@),
        r is Some ==> tree.has(r->0) && r->0 < anchor_of(tree, region) && tree.depth_at(r->0)
            == tree.depth_at(anchor_of(tree, region)),
{
    let a = anchor(tree, region);
    let depth = tree.depth(a);
    let mut j: usize = a;
    while j > 0
        invariant
            j <= a,
            tree.has(a),
            a == anchor_of(tree, region),
            depth == tree.depth_at(a),
            companion_before(tree, region, receiver@) == companion_from(
                tree,
                depth,
                j - 1,
                receiver@,
            ),
        decreases j,
    {
        j -= 1;
        let d = tree.depth(j);
        if d < depth {
            return None;
        }
        if d == depth && is_reservation(tree, j) && tree.has_mention(j, receiver) {
            return Some(j);
        }
    }
    None
}

/// Whether some statement before `region` asks for capacity.
pub fn has_reservation_before(tree: &SyntaxTree, region: usize) -> (r: bool)
    requires
        tree.has(region),
    ensures
        r == reserved_before(tree, region),
{
    let a = anchor(tree, region);
    let depth = tree.depth(a);
    let mut j: usize = a;
    while j > 0
        invariant
            j <= a,
            tree.has(a),
            a == anchor_of(tree, region),
            depth == tree.depth_at(a),
            reserved_before(tree, region) == reserved_from(tree, depth, j - 1),
        decreases j,
    {
        j -= 1;
        let d = tree.depth(j);
        if d < depth {
            return false;
        }
        if d == depth && is_reservation(tree, j) {
            return true;
        }
    }
    false
}

/// Whether some statement after `region` names `receiver` and a write of a
/// whole buffer.
pub fn is_overwritten_after(tree: &SyntaxTree, region: usize, receiver: &[u8]) -> (r: bool)
    requires
        tree.has(region),
    ensures
        r == overwritten_after(tree, region, receiver@),
{
    let a = anchor(tree, region);
    let depth = tree.depth(a);
    let n = tree.len();
    let mut j: usize = tree.subtree_end(a);
    while j < n
        invariant
            j <= n,
            n == tree.elements().len(),
            a == anchor_of(tree, region),
            depth == tree.depth_at(a),
            overwritten_after(tree, region, receiver@) == overwritten_from(
                tree,
                depth,
                j as int,
                receiver@,
            ),
        decreases n - j,
    {
        let d = tree.depth(j);
        if d < depth {
            return false;
        }
        if d == depth && tree.has_mention(j, receiver) && tree.has_mention(
            j,
            UnsafePattern::WriteVec.as_str().as_bytes(),
        ) {
            return true;
        }
        j += 1;
    }
    false
}

} // verus!
