//! The replacement text of each rewrite, built from fragments of the source.
//!
//! Every generated statement ends with a line break.
use vstd::prelude::*;
use vstd::slice::slice_subrange;
use crate::edit::text_view;
use crate::pattern::TargetTypes;
use crate::pattern::UnsafePattern;
use crate::region::declaration_before;
use crate::region::find_declaration;
use crate::text::equals_str;
use crate::text::lit;
use crate::text::push_bytes;
use crate::text::push_str;
use crate::text::start_bound_len;
use crate::text::start_bound_of;
use crate::tree::ChildFilter;
use crate::tree::NodeKind;
use crate::tree::SyntaxTree;

verus! {

/// What a generated statement begins with: the declaration keyword where
/// the statement declares what it binds, nothing where it assigns.
pub open spec fn binding_prefix(let_sign: bool) -> Seq<u8> {
    if let_sign {
        lit("let "@)
    } else {
        Seq::empty()
    }
}

/// A zero-filled buffer of the requested length, declared under the name of
/// the receiver.
pub open spec fn safevec_text(receiver: Seq<u8>, length: Seq<u8>) -> Seq<u8> {
    lit("let mut "@) + receiver + lit(" = vec![0; "@) + length + lit("];"@) + lit("\n"@)
}

/// A call that resizes the receiver to the requested length, filling with
/// zeros.
pub open spec fn resizevec_text(receiver: Seq<u8>, length: Seq<u8>) -> Seq<u8> {
    receiver + lit(".resize("@) + length + lit(", 0);"@) + lit("\n"@)
}

/// A copy inside one buffer: from `start_pos`, up to the bound `count_expr`,
/// to the offset `end_pos`.
pub open spec fn copywithin_text(
    base_expr: Seq<u8>,
    start_pos: Seq<u8>,
    end_pos: Seq<u8>,
    count_expr: Seq<u8>,
) -> Seq<u8> {
    base_expr + lit(".copy_within("@) + start_pos + lit(".."@) + count_expr + lit(", "@) + end_pos
        + lit(");"@) + lit("\n"@)
}

/// A checked access to an element, bound to `target`.
pub open spec fn get_text(
    let_sign: bool,
    target: Seq<u8>,
    receiver: Seq<u8>,
    index: Seq<u8>,
    mutable: bool,
) -> Seq<u8> {
    binding_prefix(let_sign) + target + lit(" = "@) + receiver + (if mutable {
        lit(".get_mut("@)
    } else {
        lit(".get("@)
    }) + index + lit(").unwrap();"@) + lit("\n"@)
}

/// A validated conversion of bytes to text, bound to `target`.
pub open spec fn from_utf8_text(let_sign: bool, target: Seq<u8>, bytes: Seq<u8>) -> Seq<u8> {
    binding_prefix(let_sign) + target + lit(" = str::from_utf8("@) + bytes + lit(").unwrap();"@)
        + lit("\n"@)
}

/// A validated construction of a C string, bound to `pat`.
pub open spec fn cstring_new_text(pat: Seq<u8>, input_argument: Seq<u8>, let_sign: bool) -> Seq<
    u8,
> {
    binding_prefix(let_sign) + pat + lit(" = CString::new("@) + input_argument + lit(
        ").unwrap();"@,
    ) + lit("\n"@)
}

/// The length in bytes of a string, bound to `pat`.
pub open spec fn bytes_len_text(pat: Seq<u8>, input_argument: Seq<u8>, let_sign: bool) -> Seq<u8> {
    binding_prefix(let_sign) + pat + lit(" = "@) + input_argument + lit(".as_bytes().len();"@)
        + lit("\n"@)
}

/// A slice of `base` that holds `count` items from the start bound of
/// `index`; from the beginning where the index names no start.
pub open spec fn slice_text(base: Seq<u8>, index: Seq<u8>, count: Seq<u8>) -> Seq<u8> {
    let start = start_bound_of(index);
    if start.len() == 0 {
        base + lit("["@) + lit(".."@) + count + lit("]"@)
    } else {
        base + lit("["@) + start + lit(".."@) + start + lit(" + "@) + count + lit("]"@)
    }
}

/// A copy of one slice into another.
pub open spec fn copy_from_slice_text(dst: Seq<u8>, src: Seq<u8>) -> Seq<u8> {
    dst + lit(".copy_from_slice(&"@) + src + lit(");"@) + lit("\n"@)
}

/// The method call reads its element mutably.
pub open spec fn is_mut_access(tree: &SyntaxTree, mcall: usize) -> bool {
    match tree.method_name_of(mcall) {
        Some(name) => tree.text_at(name) == lit(UnsafePattern::GetUncheckMut.signature()),
        None => false,
    }
}

/// What [`generate_safevec_format`] yields.
pub open spec fn safevec_format(tree: &SyntaxTree, mcall: usize) -> Option<Seq<u8>> {
    match (tree.first_expr_of(mcall), tree.sole_arg_of(mcall)) {
        (Some(receiver), Some(length)) => Some(
            safevec_text(tree.text_at(receiver), tree.text_at(length)),
        ),
        _ => None,
    }
}

/// What [`generate_resizevec_format`] yields.
pub open spec fn resizevec_format(tree: &SyntaxTree, mcall: usize) -> Option<Seq<u8>> {
    match (tree.first_expr_of(mcall), tree.sole_arg_of(mcall)) {
        (Some(receiver), Some(length)) => Some(
            resizevec_text(tree.text_at(receiver), tree.text_at(length)),
        ),
        _ => None,
    }
}

/// A checked access for the unchecked one in `mcall`, bound to `target`.
pub open spec fn get_format(tree: &SyntaxTree, mcall: usize, target: Option<usize>, let_sign: bool) -> Option<
    Seq<u8>,
> {
    match (tree.first_expr_of(mcall), tree.sole_arg_of(mcall), target) {
        (Some(receiver), Some(index), Some(t)) => Some(
            get_text(
                let_sign,
                tree.text_at(t),
                tree.text_at(receiver),
                tree.text_at(index),
                is_mut_access(tree, mcall),
            ),
        ),
        _ => None,
    }
}

/// A validated conversion of the first argument of `call`, bound to
/// `target`.
pub open spec fn from_utf8_format(tree: &SyntaxTree, call: usize, target: Option<usize>, let_sign: bool) -> Option<
    Seq<u8>,
> {
    match (tree.arg_of(call, 0), target) {
        (Some(bytes), Some(t)) => Some(
            from_utf8_text(let_sign, tree.text_at(t), tree.text_at(bytes)),
        ),
        _ => None,
    }
}

/// The declaration states that it binds borrowed text.
pub open spec fn declares_text(tree: &SyntaxTree, let_expr: usize) -> bool {
    match tree.type_of(let_expr) {
        Some(ty) => tree.text_at(ty) == lit(TargetTypes::String.written()),
        None => false,
    }
}

/// What [`generate_from_transmute`] yields.
pub open spec fn from_transmute_format(tree: &SyntaxTree, call: usize, let_expr: usize) -> Option<
    Seq<u8>,
> {
    if declares_text(tree, let_expr) {
        from_utf8_format(tree, call, tree.pat_of(let_expr), true)
    } else {
        None
    }
}

/// What [`generate_cstring_new_format`] yields.
pub open spec fn cstring_new_format(pat: Seq<u8>, tree: &SyntaxTree, call: usize, let_sign: bool) -> Option<
    Seq<u8>,
> {
    match tree.arg_of(call, 0) {
        Some(input) => Some(cstring_new_text(pat, tree.text_at(input), let_sign)),
        None => None,
    }
}

/// What [`generate_bytes_len_format`] yields: the length of what the first
/// argument of `call` is taken from.
pub open spec fn bytes_len_format(pat: Seq<u8>, tree: &SyntaxTree, call: usize, let_sign: bool) -> Option<
    Seq<u8>,
> {
    match tree.arg_of(call, 0) {
        Some(input) => match tree.child_of(input, ChildFilter::Any, 0) {
            Some(string) => Some(bytes_len_text(pat, tree.text_at(string), let_sign)),
            None => None,
        },
        None => None,
    }
}

/// What [`format_index_expr`] yields.
pub open spec fn index_format(tree: &SyntaxTree, expr_index: usize, count: Seq<u8>) -> Option<
    Seq<u8>,
> {
    match (tree.first_expr_of(expr_index), tree.second_expr_of(expr_index)) {
        (Some(base), Some(index)) => Some(
            slice_text(tree.text_at(base), tree.text_at(index), count),
        ),
        _ => None,
    }
}

/// What [`generate_copy_from_slice_string`] yields.
pub open spec fn copy_from_slice_string(
    tree: &SyntaxTree,
    src_expr: usize,
    dst_expr: usize,
    count: Seq<u8>,
) -> Option<Seq<u8>> {
    match (index_format(tree, dst_expr, count), index_format(tree, src_expr, count)) {
        (Some(dst), Some(src)) => Some(copy_from_slice_text(dst, src)),
        _ => None,
    }
}

/// The index expression written inside argument `index` of `call`: the first
/// in document order.
pub open spec fn inline_operand(tree: &SyntaxTree, call: usize, index: int) -> Option<usize> {
    match tree.arg_of(call, index) {
        Some(arg) => tree.first_of_kind(arg, NodeKind::IndexExpr),
        None => None,
    }
}

/// The index expression that the nearest declaration of `name` before
/// `region` is initialized from.
pub open spec fn declared_operand(tree: &SyntaxTree, region: usize, name: Seq<u8>) -> Option<usize> {
    match declaration_before(tree, region, name) {
        Some(decl) => match tree.first_expr_of(decl) {
            Some(init) => tree.first_of_kind(init, NodeKind::IndexExpr),
            None => None,
        },
        None => None,
    }
}

/// The index expression that argument `index` of `call` names through a
/// declaration before `region`.
pub open spec fn named_operand(tree: &SyntaxTree, call: usize, index: int, region: usize) -> Option<
    usize,
> {
    match tree.arg_of(call, index) {
        Some(arg) => declared_operand(tree, region, tree.text_at(arg)),
        None => None,
    }
}

/// The index expression that argument `index` of `call` stands for: the one
/// written inside it, else the one that a declaration before `region` gives
/// its name.
pub open spec fn operand(tree: &SyntaxTree, call: usize, index: int, region: usize) -> Option<
    usize,
> {
    match inline_operand(tree, call, index) {
        Some(x) => Some(x),
        None => named_operand(tree, call, index, region),
    }
}

/// The fragments of a copy inside one buffer.
pub struct CpyWithinInfo {
    pub base_expr: Vec<u8>,
    pub start_pos: Vec<u8>,
    pub end_pos: Vec<u8>,
    pub count_expr: Vec<u8>,
}

/// The operands of a copy between two buffers.
pub struct CpyNonOverlapInfo {
    pub src_expr: usize,
    pub dst_expr: usize,
    pub count: Vec<u8>,
}

/// What [`generate_copywithin_format`] yields.
pub open spec fn copywithin_format(tree: &SyntaxTree, call: usize, region: usize) -> Option<Seq<u8>> {
    match (operand(tree, call, 0, region), operand(tree, call, 1, region), tree.arg_of(call, 2)) {
        (Some(src), Some(dst), Some(count)) => match (
            tree.first_expr_of(src),
            tree.second_expr_of(src),
            tree.second_expr_of(dst),
        ) {
            (Some(base), Some(from), Some(to)) => Some(
                copywithin_text(
                    tree.text_at(base),
                    start_bound_of(tree.text_at(from)),
                    start_bound_of(tree.text_at(to)),
                    tree.text_at(count),
                ),
            ),
            _ => None,
        },
        _ => None,
    }
}

/// What [`generate_copy_from_slice_format`] yields.
pub open spec fn copy_from_slice_format(tree: &SyntaxTree, call: usize, region: usize) -> Option<
    Seq<u8>,
> {
    match (operand(tree, call, 0, region), operand(tree, call, 1, region), tree.arg_of(call, 2)) {
        (Some(src), Some(dst), Some(count)) => copy_from_slice_string(
            tree,
            src,
            dst,
            tree.text_at(count),
        ),
        _ => None,
    }
}

/// Appends to `buf` what a statement that binds begins with.
fn push_binding_prefix(buf: &mut Vec<u8>, let_sign: bool)
    ensures
        final(buf)@ == old(buf)@ + binding_prefix(let_sign),
{
    if let_sign {
        push_str(buf, "let ");
    } else {
        assert(buf@ + Seq::<u8>::empty() =~= buf@);
    }
}

/// Writes the declaration of a zero-filled buffer that takes the place of
/// the length set by `mcall` and of the declaration of its receiver.
pub fn generate_safevec_format(tree: &SyntaxTree, mcall: usize) -> (r: Option<Vec<u8>>)
    requires
        tree.has(mcall),
    ensures
        text_view(r) == safevec_format(tree, mcall),
{
    let receiver = tree.first_expr(mcall)?;
    let length = tree.sole_arg(mcall)?;
    let mut buf: Vec<u8> = Vec::new();
    push_str(&mut buf, "let mut ");
    push_bytes(&mut buf, tree.node_text(receiver));
    push_str(&mut buf, " = vec![0; ");
    push_bytes(&mut buf, tree.node_text(length));
    push_str(&mut buf, "];");
    push_str(&mut buf, "\n");
    assert(buf@ =~= safevec_text(tree.text_at(receiver), tree.text_at(length)));
    Some(buf)
}

/// Writes the resizing call that takes the place of the length set by
/// `mcall` and of the reservation on its receiver.
pub fn generate_resizevec_format(tree: &SyntaxTree, mcall: usize) -> (r: Option<Vec<u8>>)
    requires
        tree.has(mcall),
    ensures
        text_view(r) == resizevec_format(tree, mcall),
{
    let receiver = tree.first_expr(mcall)?;
    let length = tree.sole_arg(mcall)?;
    let mut buf: Vec<u8> = Vec::new();
    push_bytes(&mut buf, tree.node_text(receiver));
    push_str(&mut buf, ".resize(");
    push_bytes(&mut buf, tree.node_text(length));
    push_str(&mut buf, ", 0);");
    push_str(&mut buf, "\n");
    assert(buf@ =~= resizevec_text(tree.text_at(receiver), tree.text_at(length)));
    Some(buf)
}

/// Writes a copy inside the buffer `base_expr`.
pub fn generate_copywithin_string(
    base_expr: &[u8],
    start_pos: &[u8],
    end_pos: &[u8],
    count_expr: &[u8],
) -> (r: Vec<u8>)
    ensures
        r@ == copywithin_text(base_expr@, start_pos@, end_pos@, count_expr@),
{
    let mut buf: Vec<u8> = Vec::new();
    push_bytes(&mut buf, base_expr);
    push_str(&mut buf, ".copy_within(");
    push_bytes(&mut buf, start_pos);
    push_str(&mut buf, "..");
    push_bytes(&mut buf, count_expr);
    push_str(&mut buf, ", ");
    push_bytes(&mut buf, end_pos);
    push_str(&mut buf, ");");
    push_str(&mut buf, "\n");
    assert(buf@ =~= copywithin_text(base_expr@, start_pos@, end_pos@, count_expr@));
    buf
}

/// The start bound of the text of element `index`.
fn start_bound<'a>(tree: &'a SyntaxTree, index: usize) -> (r: &'a [u8])
    requires
        tree.has(index),
    ensures
        r@ == start_bound_of(tree.text_at(index)),
{
    let text = tree.node_text(index);
    slice_subrange(text, 0, start_bound_len(text))
}

/// Gathers the fragments of a copy inside one buffer from its two operands.
pub fn collect_cpy_within_info(tree: &SyntaxTree, mcall: usize, src_expr: usize, dst_expr: usize) -> (r:
    Option<CpyWithinInfo>)
    requires
        tree.has(mcall),
        tree.has(src_expr),
        tree.has(dst_expr),
    ensures
        match (
            tree.arg_of(mcall, 2),
            tree.first_expr_of(src_expr),
            tree.second_expr_of(src_expr),
            tree.second_expr_of(dst_expr),
        ) {
            (Some(count), Some(base), Some(from), Some(to)) => r is Some && r->0.count_expr@
                == tree.text_at(count) && r->0.base_expr@ == tree.text_at(base)
                && r->0.start_pos@ == start_bound_of(tree.text_at(from)) && r->0.end_pos@
                == start_bound_of(tree.text_at(to)),
            _ => r is None,
        },
{
    let count = tree.arg(mcall, 2)?;
    let base = tree.first_expr(src_expr)?;
    let from = tree.second_expr(src_expr)?;
    let to = tree.second_expr(dst_expr)?;
    let mut count_expr: Vec<u8> = Vec::new();
    push_bytes(&mut count_expr, tree.node_text(count));
    let mut base_expr: Vec<u8> = Vec::new();
    push_bytes(&mut base_expr, tree.node_text(base));
    let mut start_pos: Vec<u8> = Vec::new();
    push_bytes(&mut start_pos, start_bound(tree, from));
    let mut end_pos: Vec<u8> = Vec::new();
    push_bytes(&mut end_pos, start_bound(tree, to));
    assert(Seq::<u8>::empty() + tree.text_at(count) =~= tree.text_at(count));
    assert(Seq::<u8>::empty() + tree.text_at(base) =~= tree.text_at(base));
    assert(Seq::<u8>::empty() + start_bound_of(tree.text_at(from)) =~= start_bound_of(
        tree.text_at(from),
    ));
    assert(Seq::<u8>::empty() + start_bound_of(tree.text_at(to)) =~= start_bound_of(
        tree.text_at(to),
    ));
    Some(CpyWithinInfo { base_expr, start_pos, end_pos, count_expr })
}

/// Finds the index expression that the nearest declaration of `expr_variable`
/// before `unsafe_expr` is initialized from.
pub fn extract_index_expr(tree: &SyntaxTree, unsafe_expr: usize, expr_variable: &[u8]) -> (r: Option<
    usize,
>)
    requires
        tree.has(unsafe_expr),
    ensures
        r == declared_operand(tree, unsafe_expr, expr_variable@),
        r is Some ==> tree.has(r->0),
{
    let decl = find_declaration(tree, unsafe_expr, expr_variable)?;
    let init = tree.first_expr(decl)?;
    tree.first_descendant_of_kind(init, NodeKind::IndexExpr)
}

/// Finds the index expression that argument `index` of `mcall` names through
/// a declaration before `unsafe_expr`.
pub fn collect_ptrcpy_path_info(tree: &SyntaxTree, mcall: usize, index: usize, unsafe_expr: usize) -> (r:
    Option<usize>)
    requires
        tree.has(mcall),
        tree.has(unsafe_expr),
    ensures
        r == named_operand(tree, mcall, index as int, unsafe_expr),
        r is Some ==> tree.has(r->0),
{
    let arg = tree.arg(mcall, index)?;
    extract_index_expr(tree, unsafe_expr, tree.node_text(arg))
}

/// Finds the index expression written inside argument `index` of `mcall`.
pub fn collect_ptrcpy_expr_info(tree: &SyntaxTree, mcall: usize, index: usize) -> (r: Option<usize>)
    requires
        tree.has(mcall),
    ensures
        r == inline_operand(tree, mcall, index as int),
        r is Some ==> tree.has(r->0),
{
    let arg = tree.arg(mcall, index)?;
    tree.first_descendant_of_kind(arg, NodeKind::IndexExpr)
}

/// Finds the index expression that argument `index` of `mcall` stands for.
pub fn resolve_operand(tree: &SyntaxTree, mcall: usize, index: usize, unsafe_expr: usize) -> (r:
    Option<usize>)
    requires
        tree.has(mcall),
        tree.has(unsafe_expr),
    ensures
        r == operand(tree, mcall, index as int, unsafe_expr),
        r is Some ==> tree.has(r->0),
{
    match collect_ptrcpy_expr_info(tree, mcall, index) {
        Some(x) => Some(x),
        None => collect_ptrcpy_path_info(tree, mcall, index, unsafe_expr),
    }
}

/// Writes the copy inside one buffer that takes the place of the raw copy
/// `mcall`.
pub fn generate_copywithin_format(tree: &SyntaxTree, mcall: usize, unsafe_expr: usize) -> (r: Option<
    Vec<u8>,
>)
    requires
        tree.has(mcall),
        tree.has(unsafe_expr),
    ensures
        text_view(r) == copywithin_format(tree, mcall, unsafe_expr),
{
    let src_expr = resolve_operand(tree, mcall, 0, unsafe_expr)?;
    let dst_expr = resolve_operand(tree, mcall, 1, unsafe_expr)?;
    let info = collect_cpy_within_info(tree, mcall, src_expr, dst_expr)?;
    Some(
        generate_copywithin_string(
            info.base_expr.as_slice(),
            info.start_pos.as_slice(),
            info.end_pos.as_slice(),
            info.count_expr.as_slice(),
        ),
    )
}

/// Writes a checked access for the unchecked one in `mcall`, bound to
/// `target`.
fn generate_get(tree: &SyntaxTree, mcall: usize, target: Option<usize>, let_sign: bool) -> (r:
    Option<Vec<u8>>)
    requires
        tree.has(mcall),
        target is Some ==> tree.has(target->0),
    ensures
        text_view(r) == get_format(tree, mcall, target, let_sign),
{
    let receiver = tree.first_expr(mcall)?;
    let index = tree.sole_arg(mcall)?;
    let t = target?;
    let mutable = match tree.method_name(mcall) {
        Some(name) => equals_str(tree.node_text(name), UnsafePattern::GetUncheckMut.as_str()),
        None => false,
    };
    let mut buf: Vec<u8> = Vec::new();
    push_binding_prefix(&mut buf, let_sign);
    push_bytes(&mut buf, tree.node_text(t));
    push_str(&mut buf, " = ");
    push_bytes(&mut buf, tree.node_text(receiver));
    if mutable {
        push_str(&mut buf, ".get_mut(");
    } else {
        push_str(&mut buf, ".get(");
    }
    push_bytes(&mut buf, tree.node_text(index));
    push_str(&mut buf, ").unwrap();");
    push_str(&mut buf, "\n");
    assert(buf@ =~= get_text(
        let_sign,
        tree.text_at(t),
        tree.text_at(receiver),
        tree.text_at(index),
        is_mut_access(tree, mcall),
    ));
    Some(buf)
}

/// Writes the declaration that binds the pattern of `let_expr` to a checked
/// access.
pub fn generate_let_get_mut(tree: &SyntaxTree, mcall: usize, let_expr: usize) -> (r: Option<Vec<u8>>)
    requires
        tree.has(mcall),
        tree.has(let_expr),
    ensures
        text_view(r) == get_format(tree, mcall, tree.pat_of(let_expr), true),
{
    generate_get(tree, mcall, tree.pat(let_expr), true)
}

/// Writes the assignment of a checked access to the left side of `expr`.
pub fn generate_get_mut(tree: &SyntaxTree, mcall: usize, expr: usize) -> (r: Option<Vec<u8>>)
    requires
        tree.has(mcall),
        tree.has(expr),
    ensures
        text_view(r) == get_format(tree, mcall, tree.first_expr_of(expr), false),
{
    generate_get(tree, mcall, tree.first_expr(expr), false)
}

/// Writes a validated conversion of the first argument of `mcall`, bound to
/// `target`.
fn generate_utf8(tree: &SyntaxTree, mcall: usize, target: Option<usize>, let_sign: bool) -> (r:
    Option<Vec<u8>>)
    requires
        tree.has(mcall),
        target is Some ==> tree.has(target->0),
    ensures
        text_view(r) == from_utf8_format(tree, mcall, target, let_sign),
{
    let bytes = tree.arg(mcall, 0)?;
    let t = target?;
    let mut buf: Vec<u8> = Vec::new();
    push_binding_prefix(&mut buf, let_sign);
    push_bytes(&mut buf, tree.node_text(t));
    push_str(&mut buf, " = str::from_utf8(");
    push_bytes(&mut buf, tree.node_text(bytes));
    push_str(&mut buf, ").unwrap();");
    push_str(&mut buf, "\n");
    assert(buf@ =~= from_utf8_text(let_sign, tree.text_at(t), tree.text_at(bytes)));
    Some(buf)
}

/// Writes the assignment of validated text to the left side of `expr`.
pub fn generate_from_utf8(tree: &SyntaxTree, mcall: usize, expr: usize) -> (r: Option<Vec<u8>>)
    requires
        tree.has(mcall),
        tree.has(expr),
    ensures
        text_view(r) == from_utf8_format(tree, mcall, tree.first_expr_of(expr), false),
{
    generate_utf8(tree, mcall, tree.first_expr(expr), false)
}

/// Writes the declaration that binds the pattern of `let_expr` to validated
/// text.
pub fn generate_let_from_utf8(tree: &SyntaxTree, mcall: usize, let_expr: usize) -> (r: Option<
    Vec<u8>,
>)
    requires
        tree.has(mcall),
        tree.has(let_expr),
    ensures
        text_view(r) == from_utf8_format(tree, mcall, tree.pat_of(let_expr), true),
{
    generate_utf8(tree, mcall, tree.pat(let_expr), true)
}

/// Writes the declaration that binds the pattern of `let_expr` to validated
/// text, where `let_expr` states that it binds borrowed text; for any other
/// declared type there is nothing to write.
pub fn generate_from_transmute(tree: &SyntaxTree, mcall: usize, let_expr: usize) -> (r: Option<
    Vec<u8>,
>)
    requires
        tree.has(mcall),
        tree.has(let_expr),
    ensures
        text_view(r) == from_transmute_format(tree, mcall, let_expr),
{
    let ty = tree.declared_type(let_expr)?;
    if !equals_str(tree.node_text(ty), TargetTypes::String.as_str()) {
        return None;
    }
    generate_utf8(tree, mcall, tree.pat(let_expr), true)
}

/// Writes the slice of the base of `expr_index` that holds `count` items from
/// its start bound.
pub fn format_index_expr(tree: &SyntaxTree, expr_index: usize, count: &[u8]) -> (r: Option<Vec<u8>>)
    requires
        tree.has(expr_index),
    ensures
        text_view(r) == index_format(tree, expr_index, count@),
{
    let base = tree.first_expr(expr_index)?;
    let index = tree.second_expr(expr_index)?;
    let lhs = start_bound(tree, index);
    let mut buf: Vec<u8> = Vec::new();
    push_bytes(&mut buf, tree.node_text(base));
    push_str(&mut buf, "[");
    if lhs.len() == 0 {
        push_str(&mut buf, "..");
        push_bytes(&mut buf, count);
    } else {
        push_bytes(&mut buf, lhs);
        push_str(&mut buf, "..");
        push_bytes(&mut buf, lhs);
        push_str(&mut buf, " + ");
        push_bytes(&mut buf, count);
    }
    push_str(&mut buf, "]");
    assert(buf@ =~= slice_text(tree.text_at(base), tree.text_at(index), count@));
    Some(buf)
}

/// Writes the copy of the slice of `src_expr` into the slice of `dst_expr`.
pub fn generate_copy_from_slice_string(
    tree: &SyntaxTree,
    src_expr: usize,
    dst_expr: usize,
    count: &[u8],
) -> (r: Option<Vec<u8>>)
    requires
        tree.has(src_expr),
        tree.has(dst_expr),
    ensures
        text_view(r) == copy_from_slice_string(tree, src_expr, dst_expr, count@),
{
    let dst = format_index_expr(tree, dst_expr, count)?;
    let src = format_index_expr(tree, src_expr, count)?;
    let mut buf: Vec<u8> = Vec::new();
    push_bytes(&mut buf, dst.as_slice());
    push_str(&mut buf, ".copy_from_slice(&");
    push_bytes(&mut buf, src.as_slice());
    push_str(&mut buf, ");");
    push_str(&mut buf, "\n");
    assert(buf@ =~= copy_from_slice_text(dst@, src@));
    Some(buf)
}

/// Gathers the operands of the copy between two buffers in `mcall`.
pub fn collect_cpy_nonoverlap_info(tree: &SyntaxTree, mcall: usize, unsafe_expr: usize) -> (r:
    Option<CpyNonOverlapInfo>)
    requires
        tree.has(mcall),
        tree.has(unsafe_expr),
    ensures
        match (
            operand(tree, mcall, 0, unsafe_expr),
            operand(tree, mcall, 1, unsafe_expr),
            tree.arg_of(mcall, 2),
        ) {
            (Some(src), Some(dst), Some(count)) => r is Some && r->0.src_expr == src
                && r->0.dst_expr == dst && r->0.count@ == tree.text_at(count),
            _ => r is None,
        },
        r is Some ==> tree.has(r->0.src_expr) && tree.has(r->0.dst_expr),
{
    let src_expr = resolve_operand(tree, mcall, 0, unsafe_expr)?;
    let dst_expr = resolve_operand(tree, mcall, 1, unsafe_expr)?;
    let arg = tree.arg(mcall, 2)?;
    let mut count: Vec<u8> = Vec::new();
    push_bytes(&mut count, tree.node_text(arg));
    assert(Seq::<u8>::empty() + tree.text_at(arg) =~= tree.text_at(arg));
    Some(CpyNonOverlapInfo { src_expr, dst_expr, count })
}

/// Writes the slice copy that takes the place of the raw copy `mcall`.
pub fn generate_copy_from_slice_format(tree: &SyntaxTree, mcall: usize, unsafe_expr: usize) -> (r:
    Option<Vec<u8>>)
    requires
        tree.has(mcall),
        tree.has(unsafe_expr),
    ensures
        text_view(r) == copy_from_slice_format(tree, mcall, unsafe_expr),
{
    let info = collect_cpy_nonoverlap_info(tree, mcall, unsafe_expr)?;
    generate_copy_from_slice_string(tree, info.src_expr, info.dst_expr, info.count.as_slice())
}

/// Writes the validated construction of a C string from `input_argument`,
/// bound to `pat`.
pub fn generate_cstring_new_string(pat: &[u8], input_argument: &[u8], let_sign: bool) -> (r: Vec<u8>)
    ensures
        r@ == cstring_new_text(pat@, input_argument@, let_sign),
{
    let mut buf: Vec<u8> = Vec::new();
    push_binding_prefix(&mut buf, let_sign);
    push_bytes(&mut buf, pat);
    push_str(&mut buf, " = CString::new(");
    push_bytes(&mut buf, input_argument);
    push_str(&mut buf, ").unwrap();");
    push_str(&mut buf, "\n");
    assert(buf@ =~= cstring_new_text(pat@, input_argument@, let_sign));
    buf
}

/// Writes the validated construction of a C string from the first argument
/// of `mcall`, bound to `pat`.
pub fn generate_cstring_new_format(pat: &[u8], tree: &SyntaxTree, mcall: usize, let_sign: bool) -> (r:
    Option<Vec<u8>>)
    requires
        tree.has(mcall),
    ensures
        text_view(r) == cstring_new_format(pat@, tree, mcall, let_sign),
{
    let input = tree.arg(mcall, 0)?;
    Some(generate_cstring_new_string(pat, tree.node_text(input), let_sign))
}

/// Writes the length in bytes of `input_argument`, bound to `pat`.
pub fn generate_bytes_len_string(pat: &[u8], input_argument: &[u8], let_sign: bool) -> (r: Vec<u8>)
    ensures
        r@ == bytes_len_text(pat@, input_argument@, let_sign),
{
    let mut buf: Vec<u8> = Vec::new();
    push_binding_prefix(&mut buf, let_sign);
    push_bytes(&mut buf, pat);
    push_str(&mut buf, " = ");
    push_bytes(&mut buf, input_argument);
    push_str(&mut buf, ".as_bytes().len();");
    push_str(&mut buf, "\n");
    assert(buf@ =~= bytes_len_text(pat@, input_argument@, let_sign));
    buf
}

/// Writes the length in bytes of the string that the first argument of
/// `mcall` is taken from, bound to `pat`.
pub fn generate_bytes_len_format(pat: &[u8], tree: &SyntaxTree, mcall: usize, let_sign: bool) -> (r:
    Option<Vec<u8>>)
    requires
        tree.has(mcall),
    ensures
        text_view(r) == bytes_len_format(pat@, tree, mcall, let_sign),
{
    let input = tree.arg(mcall, 0)?;
    let string = tree.child(input, ChildFilter::Any, 0)?;
    Some(generate_bytes_len_string(pat, tree.node_text(string), let_sign))
}

} // verus!
