//! The rewriter on chosen blocks, with the exact edit and the exact text
//! that each yields.
use ra_ap_syntax::ast;
use ra_ap_syntax::AstNode;
use ra_ap_syntax::Edition;
use ra_ap_syntax::NodeOrToken;
use ra_ap_syntax::SourceFile;
use ra_ap_syntax::SyntaxKind;
use ra_ap_syntax::SyntaxNode;
use unsafe_to_safe::convert::convert_unsafe_to_safe;
use unsafe_to_safe::edit::EditPlan;
use unsafe_to_safe::text::TextRange;
use unsafe_to_safe::tree::Element;
use unsafe_to_safe::tree::NodeKind;
use unsafe_to_safe::tree::SyntaxTree;

fn node_kind(kind: SyntaxKind) -> NodeKind {
    match kind {
        SyntaxKind::STMT_LIST => NodeKind::StmtList,
        SyntaxKind::EXPR_STMT => NodeKind::ExprStmt,
        SyntaxKind::LET_STMT => NodeKind::LetStmt,
        SyntaxKind::BLOCK_EXPR => NodeKind::BlockExpr,
        SyntaxKind::CALL_EXPR => NodeKind::CallExpr,
        SyntaxKind::METHOD_CALL_EXPR => NodeKind::MethodCallExpr,
        SyntaxKind::BIN_EXPR => NodeKind::BinExpr,
        SyntaxKind::INDEX_EXPR => NodeKind::IndexExpr,
        SyntaxKind::PATH_EXPR => NodeKind::PathExpr,
        SyntaxKind::ARG_LIST => NodeKind::ArgList,
        SyntaxKind::NAME_REF => NodeKind::NameRef,
        k if ast::Expr::can_cast(k) => NodeKind::OtherExpr,
        k if ast::Pat::can_cast(k) => NodeKind::Pat,
        k if ast::Type::can_cast(k) => NodeKind::Type,
        _ => NodeKind::Other,
    }
}

fn collect(node: &SyntaxNode, depth: usize, out: &mut Vec<Element>) {
    let range = node.text_range();
    out.push(Element {
        kind: node_kind(node.kind()),
        depth,
        range: TextRange::new(range.start().into(), range.end().into()),
    });
    for child in node.children_with_tokens() {
        match child {
            NodeOrToken::Node(inner) => collect(&inner, depth + 1, out),
            NodeOrToken::Token(token) => {
                if token.kind() == SyntaxKind::UNSAFE_KW {
                    let range = token.text_range();
                    out.push(Element {
                        kind: NodeKind::UnsafeKw,
                        depth: depth + 1,
                        range: TextRange::new(range.start().into(), range.end().into()),
                    });
                }
            }
        }
    }
}

fn parse(text: &str) -> SyntaxTree {
    let root = SourceFile::parse(text, Edition::CURRENT).syntax_node();
    let mut elements = Vec::new();
    collect(&root, 0, &mut elements);
    SyntaxTree::new(text.as_bytes().to_vec(), elements).expect("the parser yields a valid tree")
}


/// The edit for the block at the cursor mark of `fixture`.
fn plan_for(fixture: &str) -> Option<EditPlan> {
    let offset = fixture.find("$0").expect("the text marks the cursor");
    let text = fixture.replacen("$0", "", 1);
    convert_unsafe_to_safe(&parse(&text), offset)
}

/// The text of `fixture` after the edit for the block at its cursor mark.
fn rewritten(fixture: &str) -> Option<String> {
    let text = fixture.replacen("$0", "", 1);
    let plan = plan_for(fixture)?;
    let edited = plan.apply(text.as_bytes()).expect("the edit fits the text");
    Some(String::from_utf8(edited).expect("the edit keeps the text valid"))
}

fn span(text: &str, part: &str) -> TextRange {
    let start = text.find(part).expect("the part stands in the text");
    TextRange::new(start, start + part.len())
}

const ZERO_FILL: &str = "fn main() {
    let mut buffer = Vec::with_capacity(cap);
    unsafe$0 {
        buffer.set_len(cap);
    }
}
";

#[test]
fn zero_fill_replaces_declaration_and_length_set() {
    assert_eq!(
        rewritten(ZERO_FILL).unwrap(),
        "fn main() {\n    let mut buffer = vec![0; cap];\n\n    \n}\n"
    );
}

#[test]
fn zero_fill_plan_names_both_spans() {
    let text = ZERO_FILL.replacen("$0", "", 1);
    assert_eq!(
        plan_for(ZERO_FILL).unwrap(),
        EditPlan::DeleteReplace {
            target: span(&text, "unsafe {\n        buffer.set_len(cap);\n    }"),
            companion: span(&text, "let mut buffer = Vec::with_capacity(cap);"),
            text: b"let mut buffer = vec![0; cap];\n".to_vec(),
        }
    );
}

#[test]
fn zero_fill_keeps_the_rest_of_the_block() {
    let fixture = "fn main() {
    let mut buffer = Vec::with_capacity(cap);
    unsafe$0 {
        buffer.set_len(cap);
        foo();
    }
}
";
    assert_eq!(
        rewritten(fixture).unwrap(),
        "fn main() {\n    let mut buffer = vec![0; cap];\n\n    unsafe {\n        \n        foo();\n    }\n}\n"
    );
}

#[test]
fn zero_fill_of_a_closing_expression() {
    let fixture = "fn main() {
    let mut buf = Vec::<u32>::with_capacity(len as usize);
    unsafe$0 { buf.set_len(len as usize) };
}
";
    assert_eq!(
        rewritten(fixture).unwrap(),
        "fn main() {\n    let mut buf = vec![0; len as usize];\n\n    \n}\n"
    );
}

#[test]
fn resize_replaces_reservation_and_length_set() {
    let fixture = "fn main() {
    let mut buf = vec![0; 10];
    buf.reserve(len);
    unsafe$0 {
        buf.set_len(len);
    }
}
";
    assert_eq!(
        rewritten(fixture).unwrap(),
        "fn main() {\n    let mut buf = vec![0; 10];\n    buf.resize(len, 0);\n\n    \n}\n"
    );
}

#[test]
fn nearest_reservation_is_the_companion() {
    let fixture = "fn main() {
    let mut buf = Vec::with_capacity(4);
    buf.reserve(len);
    unsafe$0 {
        buf.set_len(len);
    }
}
";
    assert_eq!(
        rewritten(fixture).unwrap(),
        "fn main() {\n    let mut buf = Vec::with_capacity(4);\n    buf.resize(len, 0);\n\n    \n}\n"
    );
}

#[test]
fn reservation_of_another_buffer_is_no_companion() {
    let fixture = "fn main() {
    let mut other = Vec::with_capacity(cap);
    unsafe$0 {
        buffer.set_len(cap);
    }
}
";
    assert_eq!(plan_for(fixture), None);
}

#[test]
fn length_set_without_reservation_is_left_alone() {
    let fixture = "fn main() {
    let mut buffer = Vec::new();
    unsafe$0 {
        buffer.set_len(cap);
    }
}
";
    assert_eq!(plan_for(fixture), None);
}

#[test]
fn capacity_built_outside_a_declaration_is_not_rewritten() {
    let fixture = "fn main() {
    buffer = Vec::with_capacity(cap);
    unsafe$0 {
        buffer.set_len(cap);
    }
}
";
    assert_eq!(plan_for(fixture), None);
}

#[test]
fn later_full_write_disqualifies_the_length_set() {
    let fixture = "fn main() {
    let mut buffer = Vec::with_capacity(cap);
    unsafe$0 {
        buffer.set_len(cap);
    }
    file.write(&mut buffer);
}
";
    assert_eq!(plan_for(fixture), None);
}

#[test]
fn later_write_of_another_buffer_does_not_disqualify() {
    let fixture = "fn main() {
    let mut buffer = Vec::with_capacity(cap);
    unsafe$0 {
        buffer.set_len(cap);
    }
    file.write(&mut other);
}
";
    assert_eq!(
        rewritten(fixture).unwrap(),
        "fn main() {\n    let mut buffer = vec![0; cap];\n\n    \n    file.write(&mut other);\n}\n"
    );
}

#[test]
fn later_read_does_not_disqualify() {
    let fixture = "fn main() {
    let mut buffer = Vec::with_capacity(cap);
    unsafe$0 {
        buffer.set_len(cap);
    }
    input.read_into(&mut buffer);
}
";
    assert!(plan_for(fixture).is_some());
}

#[test]
fn disqualified_length_set_lets_a_later_operation_through() {
    let fixture = "fn main() {
    let mut buffer = Vec::with_capacity(cap);
    unsafe$0 {
        buffer.set_len(cap);
        let first = buffer.get_unchecked(0);
    }
    file.write(&mut buffer);
}
";
    assert_eq!(
        rewritten(fixture).unwrap(),
        "fn main() {\n    let mut buffer = Vec::with_capacity(cap);\n    let first = buffer.get(0).unwrap();\n\n    unsafe {\n        buffer.set_len(cap);\n        \n    }\n    file.write(&mut buffer);\n}\n"
    );
}

const CHECKED_ACCESS: &str = "fn main() {
    let vec = vec![1,2,3,4,5,6];
    unsafe$0 {
        let index = vec.get_unchecked(5);
    }
}
";

#[test]
fn checked_access_collapses_the_block() {
    assert_eq!(
        rewritten(CHECKED_ACCESS).unwrap(),
        "fn main() {\n    let vec = vec![1,2,3,4,5,6];\n    let index = vec.get(5).unwrap();\n\n}\n"
    );
}

#[test]
fn collapse_is_reported_for_the_whole_block() {
    let text = CHECKED_ACCESS.replacen("$0", "", 1);
    let plan = plan_for(CHECKED_ACCESS).unwrap();
    let block = span(&text, "unsafe {\n        let index = vec.get_unchecked(5);\n    }");
    assert_eq!(plan.target(), block);
    assert_eq!(
        plan,
        EditPlan::Replace { target: block, text: b"let index = vec.get(5).unwrap();\n".to_vec() }
    );
    assert!(!String::from_utf8(plan.text().to_vec()).unwrap().contains("unsafe"));
}

const ACCESS_AMONG_OTHERS: &str = "fn main() {
    let vec = vec![1,2,3,4,5,6];
    unsafe$0 {
        let index = vec.get_unchecked(5);
        foo();
    }
}
";

#[test]
fn checked_access_moves_before_the_block() {
    assert_eq!(
        rewritten(ACCESS_AMONG_OTHERS).unwrap(),
        "fn main() {\n    let vec = vec![1,2,3,4,5,6];\n    let index = vec.get(5).unwrap();\n\n    unsafe {\n        \n        foo();\n    }\n}\n"
    );
}

#[test]
fn splice_plan_deletes_the_statement_and_inserts_before_the_block() {
    let text = ACCESS_AMONG_OTHERS.replacen("$0", "", 1);
    let declaration = span(&text, "let vec = vec![1,2,3,4,5,6];");
    assert_eq!(
        plan_for(ACCESS_AMONG_OTHERS).unwrap(),
        EditPlan::DeleteInsert {
            target: span(&text, "let index = vec.get_unchecked(5);"),
            position: declaration.end,
            text: b"\n    let index = vec.get(5).unwrap();\n".to_vec(),
        }
    );
}

#[test]
fn other_statements_of_the_block_are_kept() {
    let text = ACCESS_AMONG_OTHERS.replacen("$0", "", 1);
    let plan = plan_for(ACCESS_AMONG_OTHERS).unwrap();
    let edited = String::from_utf8(plan.apply(text.as_bytes()).unwrap()).unwrap();
    let kept = text.find("foo();").unwrap();
    let added = plan.text().len();
    let deleted = plan.target().end - plan.target().start;
    let moved = kept + added - deleted;
    assert_eq!(&edited[moved..moved + 6], "foo();");
    let block = edited.find("unsafe {").unwrap();
    let close = edited[block..].find('}').unwrap() + block;
    assert!(block < moved && moved < close);
}

#[test]
fn mutable_access_is_rewritten_to_a_mutable_checked_access() {
    let fixture = "fn main() {
    let mut vec = vec![1,2,3];
    unsafe$0 {
        let slot = vec.get_unchecked_mut(i + 1);
    }
}
";
    assert_eq!(
        rewritten(fixture).unwrap(),
        "fn main() {\n    let mut vec = vec![1,2,3];\n    let slot = vec.get_mut(i + 1).unwrap();\n\n}\n"
    );
}

#[test]
fn assigned_access_is_rewritten_without_a_declaration() {
    let fixture = "fn main() {
    let index;
    unsafe$0 {
        index = vec.get_unchecked(5);
    }
}
";
    assert_eq!(
        rewritten(fixture).unwrap(),
        "fn main() {\n    let index;\n    index = vec.get(5).unwrap();\n\n}\n"
    );
}

#[test]
fn assigned_closing_expression_is_rewritten() {
    let fixture = "fn main() {
    let a = 1;
    unsafe$0 { foo(); x = vec.get_unchecked(5) }
}
";
    assert_eq!(
        rewritten(fixture).unwrap(),
        "fn main() {\n    let a = 1;\n    x = vec.get(5).unwrap();\n\n    unsafe { foo();  }\n}\n"
    );
}

#[test]
fn compound_assignment_is_not_rewritten() {
    let fixture = "fn main() {
    let x;
    unsafe$0 {
        x += vec.get_unchecked(5);
    }
}
";
    assert_eq!(plan_for(fixture), None);
}

#[test]
fn access_that_is_part_of_a_larger_expression_is_not_rewritten() {
    let fixture = "fn main() {
    let x;
    unsafe$0 {
        let y = *vec.get_unchecked(5);
    }
}
";
    assert_eq!(plan_for(fixture), None);
}

#[test]
fn access_with_two_arguments_is_not_rewritten() {
    let fixture = "fn main() {
    let x;
    unsafe$0 {
        let y = vec.get_unchecked(5, 6);
    }
}
";
    assert_eq!(plan_for(fixture), None);
}

#[test]
fn declaration_begins_with_the_keyword_and_assignment_does_not() {
    let declared = plan_for(CHECKED_ACCESS).unwrap();
    assert!(declared.text().starts_with(b"let index"));
    let assigned = plan_for(
        "fn main() {
    let index;
    unsafe$0 {
        index = vec.get_unchecked(5);
    }
}
",
    )
    .unwrap();
    assert!(assigned.text().starts_with(b"index = "));
    assert!(!assigned.text().starts_with(b"let "));
}

#[test]
fn reinterpreted_bytes_become_validated_text() {
    let fixture = "fn main() {
    let bytes = b\"x\";
    unsafe$0 {
        let s: &str = mem::transmute(bytes);
    }
}
";
    assert_eq!(
        rewritten(fixture).unwrap(),
        "fn main() {\n    let bytes = b\"x\";\n    let s = str::from_utf8(bytes).unwrap();\n\n}\n"
    );
}

#[test]
fn reinterpretation_to_another_type_is_left_alone() {
    let fixture = "fn main() {
    let bytes = b\"x\";
    unsafe$0 {
        let s: u32 = mem::transmute(bytes);
    }
}
";
    assert_eq!(plan_for(fixture), None);
}

#[test]
fn reinterpretation_without_a_declared_type_is_left_alone() {
    let fixture = "fn main() {
    let bytes = b\"x\";
    unsafe$0 {
        let s = mem::transmute(bytes);
    }
}
";
    assert_eq!(plan_for(fixture), None);
}

#[test]
fn assigned_reinterpretation_is_left_alone() {
    let fixture = "fn main() {
    let s: &str;
    unsafe$0 {
        s = mem::transmute(bytes);
    }
}
";
    assert_eq!(plan_for(fixture), None);
}

#[test]
fn unchecked_text_becomes_validated_text() {
    let fixture = "fn main() {
    let heart = &[240, 159, 146, 150];
    unsafe$0 {
        let string = str::from_utf8_unchecked(&heart);
    }
}
";
    assert_eq!(
        rewritten(fixture).unwrap(),
        "fn main() {\n    let heart = &[240, 159, 146, 150];\n    let string = str::from_utf8(&heart).unwrap();\n\n}\n"
    );
}

#[test]
fn unchecked_c_string_becomes_validated() {
    let fixture = "fn main() {
    let raw = b\"Hello\".to_vec();
    unsafe$0 {
        c_string = CString::from_vec_unchecked(raw);
    }
}
";
    assert_eq!(
        rewritten(fixture).unwrap(),
        "fn main() {\n    let raw = b\"Hello\".to_vec();\n    c_string = CString::new(raw).unwrap();\n\n}\n"
    );
}

#[test]
fn native_length_becomes_byte_length() {
    let fixture = "fn main() {
    let c_string = CString::new(raw).unwrap();
    unsafe$0 {
        let length = libc::strlen(c_string.as_ptr());
    }
}
";
    assert_eq!(
        rewritten(fixture).unwrap(),
        "fn main() {\n    let c_string = CString::new(raw).unwrap();\n    let length = c_string.as_bytes().len();\n\n}\n"
    );
}

#[test]
fn native_length_of_a_bare_name_measures_the_name() {
    let fixture = "fn main() {
    let p = c_string.as_ptr();
    unsafe$0 {
        let length = libc::strlen(p);
    }
}
";
    assert_eq!(
        plan_for(fixture).unwrap().text(),
        b"let length = p.as_bytes().len();\n"
    );
}

#[test]
fn native_length_of_a_literal_is_left_alone() {
    let fixture = "fn main() {
    let p = c_string.as_ptr();
    unsafe$0 {
        let length = libc::strlen(0);
    }
}
";
    assert_eq!(plan_for(fixture), None);
}

const CROSS_COPY: &str = "fn main() {
    let source = src[1..3].as_ptr();
    let dest = dst[2..3].as_mut_ptr();
    unsafe$0 {
        ptr::copy_nonoverlapping(source, dest, len);
    }
}
";

#[test]
fn cross_slice_copy_through_declarations() {
    assert_eq!(
        rewritten(CROSS_COPY).unwrap(),
        "fn main() {\n    let source = src[1..3].as_ptr();\n    let dest = dst[2..3].as_mut_ptr();\n    dst[2..2 + len].copy_from_slice(&src[1..1 + len]);\n\n}\n"
    );
}

#[test]
fn cross_slice_copy_leaves_the_declarations_untouched() {
    let text = CROSS_COPY.replacen("$0", "", 1);
    let plan = plan_for(CROSS_COPY).unwrap();
    assert_eq!(
        plan,
        EditPlan::Replace {
            target: span(
                &text,
                "unsafe {\n        ptr::copy_nonoverlapping(source, dest, len);\n    }"
            ),
            text: b"dst[2..2 + len].copy_from_slice(&src[1..1 + len]);\n".to_vec(),
        }
    );
    assert!(span(&text, "let dest = dst[2..3].as_mut_ptr();").end <= plan.target().start);
}

#[test]
fn cross_slice_copy_from_the_start_of_a_buffer() {
    let fixture = "fn main() {
    let a = 1;
    unsafe$0 { ptr::copy_nonoverlapping(v[..].as_ptr(), w[a..=b].as_mut_ptr(), n); }
}
";
    assert_eq!(
        rewritten(fixture).unwrap(),
        "fn main() {\n    let a = 1;\n    w[a..a + n].copy_from_slice(&v[..n]);\n\n}\n"
    );
}

#[test]
fn cross_slice_copy_of_an_unknown_name_is_left_alone() {
    let fixture = "fn main() {
    let dest = dst[2..3].as_mut_ptr();
    unsafe$0 {
        ptr::copy_nonoverlapping(source, dest, len);
    }
}
";
    assert_eq!(plan_for(fixture), None);
}

#[test]
fn cross_slice_copy_with_two_arguments_is_left_alone() {
    let fixture = "fn main() {
    let a = 1;
    unsafe$0 {
        ptr::copy_nonoverlapping(src[1..].as_ptr(), dst[2..].as_mut_ptr());
    }
}
";
    assert_eq!(plan_for(fixture), None);
}

#[test]
fn copy_inside_one_buffer() {
    let fixture = "fn main() {
    let mut vec = vec![1,2,3,4,5,6];
    unsafe$0 {
        ptr::copy(vec[0..].as_mut_ptr(), vec[3..].as_mut_ptr(), dst);
    }
}
";
    assert_eq!(
        rewritten(fixture).unwrap(),
        "fn main() {\n    let mut vec = vec![1,2,3,4,5,6];\n    vec.copy_within(0..dst, 3);\n\n}\n"
    );
}

#[test]
fn copy_inside_one_buffer_through_references() {
    let fixture = "fn main() {
    let mut vec = vec![1,2,3,4,5,6];
    unsafe$0 {
        ptr::copy(&vec[0] as *const i32, &mut vec[2] as *mut i32, 4);
    }
}
";
    assert_eq!(
        rewritten(fixture).unwrap(),
        "fn main() {\n    let mut vec = vec![1,2,3,4,5,6];\n    vec.copy_within(0..4, 2);\n\n}\n"
    );
}

#[test]
fn copy_used_as_a_value_is_left_alone() {
    let fixture = "fn main() {
    let a = 1;
    unsafe$0 {
        let n = ptr::copy(vec[0..].as_mut_ptr(), vec[3..].as_mut_ptr(), dst);
    }
}
";
    assert_eq!(plan_for(fixture), None);
}

#[test]
fn block_without_a_known_operation_gets_no_edit_however_often() {
    let fixture = "fn main() {
    let a = 1;
    unsafe$0 {
        foo(a);
        let set_len = bar.len();
    }
}
";
    let offset = fixture.find("$0").unwrap();
    let tree = parse(&fixture.replacen("$0", "", 1));
    assert_eq!(convert_unsafe_to_safe(&tree, offset), None);
    assert_eq!(convert_unsafe_to_safe(&tree, offset), None);
    assert_eq!(convert_unsafe_to_safe(&tree, offset), None);
}

#[test]
fn same_input_gives_the_same_edit() {
    let offset = CHECKED_ACCESS.find("$0").unwrap();
    let tree = parse(&CHECKED_ACCESS.replacen("$0", "", 1));
    let first = convert_unsafe_to_safe(&tree, offset);
    assert!(first.is_some());
    assert_eq!(convert_unsafe_to_safe(&tree, offset), first);
}

#[test]
fn longer_path_is_not_a_known_operation() {
    let fixture = "fn main() {
    let a = 1;
    unsafe$0 {
        std::ptr::copy(vec[0..].as_mut_ptr(), vec[3..].as_mut_ptr(), dst);
    }
}
";
    assert_eq!(plan_for(fixture), None);
}

#[test]
fn only_the_first_operation_is_rewritten() {
    let fixture = "fn main() {
    let vec = vec![1,2,3];
    unsafe$0 {
        let a = vec.get_unchecked(0);
        let b = vec.get_unchecked_mut(1);
    }
}
";
    assert_eq!(
        rewritten(fixture).unwrap(),
        "fn main() {\n    let vec = vec![1,2,3];\n    let a = vec.get(0).unwrap();\n\n    unsafe {\n        \n        let b = vec.get_unchecked_mut(1);\n    }\n}\n"
    );
}

#[test]
fn failed_first_operation_ends_the_search() {
    let fixture = "fn main() {
    let vec = vec![1,2,3];
    unsafe$0 {
        let a = *vec.get_unchecked(0);
        let b = vec.get_unchecked_mut(1);
    }
}
";
    assert_eq!(plan_for(fixture), None);
}

#[test]
fn cursor_may_stand_anywhere_in_the_block() {
    let text = CHECKED_ACCESS.replacen("$0", "", 1);
    let tree = parse(&text);
    let block = span(&text, "unsafe {\n        let index = vec.get_unchecked(5);\n    }");
    let expected = convert_unsafe_to_safe(&tree, block.start);
    assert!(expected.is_some());
    for offset in block.start..block.end {
        assert_eq!(convert_unsafe_to_safe(&tree, offset), expected, "{offset}");
    }
    for offset in (0..block.start).chain(block.end..text.len() + 10) {
        assert_eq!(convert_unsafe_to_safe(&tree, offset), None, "{offset}");
    }
}

#[test]
fn innermost_block_around_the_cursor_is_rewritten() {
    let text = "fn main() {
    let a = 1;
    unsafe {
        let outer = vec.get_unchecked(1);
        let b = 2;
        unsafe {
            let inner = vec.get_unchecked(2);
        }
        rest();
    }
}
";
    let tree = parse(text);
    let inside_inner = text.find("let inner").unwrap();
    assert_eq!(
        convert_unsafe_to_safe(&tree, inside_inner).unwrap(),
        EditPlan::Replace {
            target: span(text, "unsafe {\n            let inner = vec.get_unchecked(2);\n        }"),
            text: b"let inner = vec.get(2).unwrap();\n".to_vec(),
        }
    );
    for part in ["let b", "rest();", "let outer"] {
        let plan = convert_unsafe_to_safe(&tree, text.find(part).unwrap()).unwrap();
        assert_eq!(plan.target(), span(text, "let outer = vec.get_unchecked(1);"), "{part}");
        assert_eq!(plan.text(), b"\n    let outer = vec.get(1).unwrap();\n");
    }
}

#[test]
fn keyword_of_an_unsafe_function_opens_no_block() {
    let fixture = "unsafe$0 fn main() {
    let vec = vec![1,2,3];
    let index = vec.get_unchecked(5);
}
";
    assert_eq!(plan_for(fixture), None);
    let inside = "unsafe fn main() {
    let vec = vec![1,2,3];
    let index$0 = vec.get_unchecked(5);
}
";
    assert_eq!(plan_for(inside), None);
}

#[test]
fn first_statement_with_siblings_has_no_place_before_it() {
    let fixture = "fn main() {
    unsafe$0 {
        let index = vec.get_unchecked(5);
        foo();
    }
}
";
    assert_eq!(plan_for(fixture), None);
}

#[test]
fn first_statement_alone_collapses() {
    let fixture = "fn main() {
    unsafe$0 {
        let index = vec.get_unchecked(5);
    }
}
";
    assert_eq!(
        rewritten(fixture).unwrap(),
        "fn main() {\n    let index = vec.get(5).unwrap();\n\n}\n"
    );
}

#[test]
fn block_that_initializes_a_declaration_goes_with_it() {
    let fixture = "fn main() {
    let a = 1;
    let x = unsafe$0 { let i = vec.get_unchecked(5); };
}
";
    let text = fixture.replacen("$0", "", 1);
    let plan = plan_for(fixture).unwrap();
    assert_eq!(plan.target(), span(&text, "let x = unsafe { let i = vec.get_unchecked(5); };"));
    assert_eq!(
        rewritten(fixture).unwrap(),
        "fn main() {\n    let a = 1;\n    let i = vec.get(5).unwrap();\n\n}\n"
    );
}

#[test]
fn statement_in_an_inner_block_is_moved_out() {
    let fixture = "fn main() {
    let x;
    unsafe$0 {
        if c { x = vec.get_unchecked(5); }
    }
}
";
    assert_eq!(
        rewritten(fixture).unwrap(),
        "fn main() {\n    let x;\n    x = vec.get(5).unwrap();\n\n    unsafe {\n        if c {  }\n    }\n}\n"
    );
}

#[test]
fn inserted_statement_takes_the_indentation_of_the_block() {
    let fixture = "fn main() {
    if c {
          let vec = vec![1];
          unsafe$0 {
              let index = vec.get_unchecked(5);
              foo();
          }
    }
}
";
    let plan = plan_for(fixture).unwrap();
    assert_eq!(plan.text(), b"\n        let index = vec.get(5).unwrap();\n");
}

#[test]
fn every_planned_edit_fits_its_text() {
    for fixture in [ZERO_FILL, CHECKED_ACCESS, ACCESS_AMONG_OTHERS, CROSS_COPY] {
        let text = fixture.replacen("$0", "", 1);
        let plan = plan_for(fixture).unwrap();
        assert!(plan.fits(text.len()));
        assert!(plan.apply(text.as_bytes()).is_some());
    }
}

#[test]
fn offsets_count_bytes_of_text_beyond_ascii() {
    let fixture = "fn main() {
    let name = \"h\u{e9}\u{e9}\u{1f600}\";
    let vec = vec![1];
    unsafe$0 {
        let index = vec.get_unchecked(5);
        greet(\"\u{4f60}\u{597d}\");
    }
}
";
    assert_eq!(
        rewritten(fixture).unwrap(),
        "fn main() {\n    let name = \"h\u{e9}\u{e9}\u{1f600}\";\n    let vec = vec![1];\n    let index = vec.get(5).unwrap();\n\n    unsafe {\n        \n        greet(\"\u{4f60}\u{597d}\");\n    }\n}\n"
    );
}

#[test]
fn long_file_is_rewritten() {
    let mut text = String::from("fn main() {\n");
    for i in 0..4000 {
        text.push_str(&format!("    let v{i} = make(&[{i}, {i} + 1], \"{i}\").field.call(v, w)[{i}];\n"));
    }
    text.push_str("    unsafe$0 {\n        let index = vec.get_unchecked(5);\n    }\n}\n");
    let edited = rewritten(&text).unwrap();
    assert!(edited.ends_with("[3999];\n    let index = vec.get(5).unwrap();\n\n}\n"));
    assert_eq!(edited.len(), text.len() - 2 - "unsafe {\n        let index = vec.get_unchecked(5);\n    }".len() + "let index = vec.get(5).unwrap();\n".len());
}

#[test]
fn broken_source_still_gives_a_valid_tree() {
    let sources = [
        "",
        "unsafe",
        "unsafe {",
        "fn main() { unsafe { let = ; } }",
        "fn main() { let a = 1 unsafe { x = vec.get_unchecked( } }",
        "}}}} unsafe { buffer.set_len( ; ptr::copy(, , ) }",
        "fn f() { unsafe { #[attr] let s: &str = mem::transmute(b); /* note */ } } // end",
        "fn f() { let c = || unsafe { v.get_unchecked(0) }; match x { _ => unsafe { y = v.get_unchecked_mut(1) } } }",
        "macro_rules! m { () => { unsafe { v.set_len(1) } } } m!();",
        "unsafe impl Send for X {} unsafe trait T {} unsafe extern \"C\" {} unsafe fn f() {}",
    ];
    for source in sources {
        let tree = parse(source);
        for offset in 0..source.len() + 2 {
            if let Some(plan) = convert_unsafe_to_safe(&tree, offset) {
                assert!(plan.fits(source.len()), "{source:?} at {offset}");
                let edited = plan.apply(source.as_bytes()).expect("the edit fits the text");
                assert!(String::from_utf8(edited).is_ok(), "{source:?} at {offset}");
            }
        }
    }
}

#[test]
fn block_held_by_another_construct_is_reported_with_it() {
    let arm = "fn f() {\n    match x {\n        _ => unsafe$0 { y = v.get_unchecked_mut(1) },\n    }\n}\n";
    let text = arm.replacen("$0", "", 1);
    let plan = plan_for(arm).unwrap();
    assert_eq!(plan.target(), span(&text, "_ => unsafe { y = v.get_unchecked_mut(1) },"));
    assert_eq!(plan.text(), b"y = v.get_mut(1).unwrap();\n");
}
