//! Scanners and builders of byte text, and the application of edits.
use unsafe_to_safe::edit::delet_insert_source_code;
use unsafe_to_safe::edit::delet_replace_source_code;
use unsafe_to_safe::edit::replace_source_code;
use unsafe_to_safe::edit::EditPlan;
use unsafe_to_safe::text::bytes_eq;
use unsafe_to_safe::text::equals_str;
use unsafe_to_safe::text::is_assignment_operator;
use unsafe_to_safe::text::line_indent;
use unsafe_to_safe::text::push_bytes;
use unsafe_to_safe::text::push_spaces;
use unsafe_to_safe::text::push_str;
use unsafe_to_safe::text::start_bound_len;
use unsafe_to_safe::text::TextRange;

#[test]
fn text_is_appended() {
    let mut buf = b"a".to_vec();
    push_str(&mut buf, "bc");
    push_bytes(&mut buf, b"de");
    push_spaces(&mut buf, 3);
    push_str(&mut buf, "");
    push_bytes(&mut buf, b"");
    push_spaces(&mut buf, 0);
    assert_eq!(buf, b"abcde   ");
}

#[test]
fn fragments_are_compared_byte_by_byte() {
    assert!(bytes_eq(b"abc", b"abc"));
    assert!(bytes_eq(b"", b""));
    assert!(!bytes_eq(b"abc", b"abd"));
    assert!(!bytes_eq(b"abc", b"ab"));
    assert!(!bytes_eq(b"", b"a"));
    assert!(equals_str(b"set_len", "set_len"));
    assert!(!equals_str(b"set_len ", "set_len"));
    assert!(!equals_str(b"Set_len", "set_len"));
}

#[test]
fn start_bound_ends_at_the_first_range_operator() {
    assert_eq!(start_bound_len(b"1..3"), 1);
    assert_eq!(start_bound_len(b"0.."), 1);
    assert_eq!(start_bound_len(b"..3"), 0);
    assert_eq!(start_bound_len(b".."), 0);
    assert_eq!(start_bound_len(b"a.b..c..d"), 3);
    assert_eq!(start_bound_len(b"1..=3"), 1);
    assert_eq!(start_bound_len(b"x.len()"), 7);
    assert_eq!(start_bound_len(b"5"), 1);
    assert_eq!(start_bound_len(b"a."), 2);
    assert_eq!(start_bound_len(b""), 0);
    assert_eq!(start_bound_len(b"a..."), 1);
}

#[test]
fn indentation_is_counted_in_whole_levels() {
    let text = b"fn f() {\n    a;\n      b;\n\tc;\nd;\n             e;";
    let at = |part: &[u8]| text.windows(part.len()).position(|w| w == part).unwrap();
    assert_eq!(line_indent(text, at(b"a;")), 4);
    assert_eq!(line_indent(text, at(b"b;")), 4);
    assert_eq!(line_indent(text, at(b"c;")), 0);
    assert_eq!(line_indent(text, at(b"d;")), 0);
    assert_eq!(line_indent(text, at(b"e;")), 12);
    assert_eq!(line_indent(text, 0), 0);
    assert_eq!(line_indent(text, 3), 0);
    assert_eq!(line_indent(text, at(b"a;") + 1), 4);
    assert_eq!(line_indent(text, at(b"a;") - 2), 0);
    assert_eq!(line_indent(text, text.len()), 12);
    assert_eq!(line_indent(b"        x", 8), 8);
    assert_eq!(line_indent(b"    let a = unsafe {", 12), 4);
    assert_eq!(line_indent(b"", 0), 0);
}

#[test]
fn assignment_operator_stands_alone() {
    assert!(is_assignment_operator(b" = "));
    assert!(is_assignment_operator(b"="));
    assert!(is_assignment_operator(b"\n\t=\r\n  "));
    assert!(!is_assignment_operator(b" += "));
    assert!(!is_assignment_operator(b" == "));
    assert!(!is_assignment_operator(b" = ="));
    assert!(!is_assignment_operator(b" + "));
    assert!(!is_assignment_operator(b"   "));
    assert!(!is_assignment_operator(b""));
    assert!(!is_assignment_operator(b" = /* why */ "));
}

#[test]
fn plans_are_built_from_their_parts() {
    let target = TextRange::new(4, 7);
    assert_eq!(
        replace_source_code(target, b"x".to_vec()),
        EditPlan::Replace { target, text: b"x".to_vec() }
    );
    assert_eq!(
        delet_insert_source_code(target, 2, b"x".to_vec()),
        EditPlan::DeleteInsert { target, position: 2, text: b"x".to_vec() }
    );
    let companion = TextRange::new(1, 3);
    let plan = delet_replace_source_code(companion, target, b"x".to_vec());
    assert_eq!(plan, EditPlan::DeleteReplace { target, companion, text: b"x".to_vec() });
    assert_eq!(plan.target(), target);
    assert_eq!(plan.text(), b"x");
}

#[test]
fn replacement_is_applied() {
    let plan = replace_source_code(TextRange::new(2, 5), b"XY".to_vec());
    assert_eq!(plan.apply(b"0123456789").unwrap(), b"01XY56789");
    let whole = replace_source_code(TextRange::new(0, 10), Vec::new());
    assert_eq!(whole.apply(b"0123456789").unwrap(), b"");
    let nothing = replace_source_code(TextRange::new(10, 10), b"!".to_vec());
    assert_eq!(nothing.apply(b"0123456789").unwrap(), b"0123456789!");
}

#[test]
fn deletion_with_insertion_is_applied() {
    let plan = delet_insert_source_code(TextRange::new(6, 8), 2, b"XY".to_vec());
    assert_eq!(plan.apply(b"0123456789").unwrap(), b"01XY234589");
    let touching = delet_insert_source_code(TextRange::new(6, 8), 6, b"XY".to_vec());
    assert_eq!(touching.apply(b"0123456789").unwrap(), b"012345XY89");
    let at_start = delet_insert_source_code(TextRange::new(0, 1), 0, b"XY".to_vec());
    assert_eq!(at_start.apply(b"0123456789").unwrap(), b"XY123456789");
}

#[test]
fn deletion_with_replacement_is_applied() {
    let plan =
        delet_replace_source_code(TextRange::new(1, 3), TextRange::new(6, 8), b"XY".to_vec());
    assert_eq!(plan.apply(b"0123456789").unwrap(), b"0XY34589");
    let touching =
        delet_replace_source_code(TextRange::new(4, 6), TextRange::new(6, 8), b"XY".to_vec());
    assert_eq!(touching.apply(b"0123456789").unwrap(), b"0123XY89");
}

#[test]
fn edit_that_does_not_fit_is_not_applied() {
    let beyond = replace_source_code(TextRange::new(2, 11), b"XY".to_vec());
    assert!(!beyond.fits(10));
    assert!(beyond.fits(11));
    assert_eq!(beyond.apply(b"0123456789"), None);
    let reversed = replace_source_code(TextRange::new(5, 2), b"XY".to_vec());
    assert_eq!(reversed.apply(b"0123456789"), None);
    let inside = delet_insert_source_code(TextRange::new(2, 5), 3, b"XY".to_vec());
    assert_eq!(inside.apply(b"0123456789"), None);
    let after = delet_insert_source_code(TextRange::new(2, 5), 7, b"XY".to_vec());
    assert_eq!(after.apply(b"0123456789"), None);
    let overlapping =
        delet_replace_source_code(TextRange::new(1, 4), TextRange::new(3, 8), b"XY".to_vec());
    assert_eq!(overlapping.apply(b"0123456789"), None);
    let backwards =
        delet_replace_source_code(TextRange::new(3, 1), TextRange::new(6, 8), b"XY".to_vec());
    assert_eq!(backwards.apply(b"0123456789"), None);
}

#[test]
fn spans_are_plain_pairs() {
    let span = TextRange::new(3, 9);
    assert_eq!(span.start, 3);
    assert_eq!(span.end, 9);
    assert_eq!(span, TextRange { start: 3, end: 9 });
}
