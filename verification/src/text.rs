//! Byte-level text: ranges, fragments, and the small scanners the rewriter needs.
//!
//! Source text is a sequence of bytes and every offset is a byte offset, so a
//! fragment of source is a plain `subrange` of the text.
use vstd::prelude::*;

verus! {

/// A half-open span `start..end` of byte offsets into a source text.
#[derive(Clone, Copy, Debug, PartialEq, Eq, Structural)]
pub struct TextRange {
    pub start: usize,
    pub end: usize,
}

impl TextRange {
    /// The span is not reversed and lies inside a text of `len` bytes.
    pub open spec fn fits(self, len: int) -> bool {
        self.start <= self.end && self.end <= len
    }

    /// The bytes of `text` that the span covers.
    pub open spec fn of(self, text: Seq<u8>) -> Seq<u8> {
        text.subrange(self.start as int, self.end as int)
    }

    /// The span `start..end`.
    pub fn new(start: usize, end: usize) -> (r: TextRange)
        ensures
            r.start == start,
            r.end == end,
    {
        TextRange { start, end }
    }
}

/// The bytes that a piece of fixed template text stands for.
pub open spec fn lit(s: Seq<char>) -> Seq<u8> {
    vstd::utf8::encode_utf8(s)
}

/// Appends fixed template text to `buf`.
pub fn push_str(buf: &mut Vec<u8>, s: &str)
    ensures
        final(buf)@ == old(buf)@ + lit(s@),
{
    push_bytes(buf, s.as_bytes());
}

/// Appends a source fragment to `buf`.
pub fn push_bytes(buf: &mut Vec<u8>, s: &[u8])
    ensures
        final(buf)@ == old(buf)@ + s@,
{
    let n = s.len();
    let mut i: usize = 0;
    while i < n
        invariant
            n == s@.len(),
            i <= n,
            buf@ == old(buf)@ + s@.subrange(0, i as int),
        decreases n - i,
    {
        buf.push(s[i]);
        i += 1;
        assert(buf@ =~= old(buf)@ + s@.subrange(0, i as int));
    }
    assert(s@.subrange(0, n as int) =~= s@);
}

/// Whether two fragments hold the same bytes.
pub fn bytes_eq(a: &[u8], b: &[u8]) -> (r: bool)
    ensures
        r == (a@ == b@),
{
    if a.len() != b.len() {
        return false;
    }
    let n = a.len();
    let mut i: usize = 0;
    while i < n
        invariant
            n == a@.len(),
            n == b@.len(),
            i <= n,
            forall|j: int| 0 <= j < i ==> a@[j] == b@[j],
        decreases n - i,
    {
        if a[i] != b[i] {
            return false;
        }
        i += 1;
    }
    assert(a@ =~= b@);
    true
}

/// Whether a fragment is exactly the fixed text `s`.
pub fn equals_str(a: &[u8], s: &str) -> (r: bool)
    ensures
        r == (a@ == lit(s@)),
{
    bytes_eq(a, s.as_bytes())
}

/// A range operator `..` begins at offset `i` of `s`.
pub open spec fn range_op_at(s: Seq<u8>, i: int) -> bool {
    0 <= i && i + 1 < s.len() && s[i] == 46u8 && s[i + 1] == 46u8
}

/// Offset of the first range operator at or after `i`, or the length of `s`
/// when there is none.
pub open spec fn first_range_op(s: Seq<u8>, i: int) -> int
    decreases s.len() - i,
{
    if i < 0 || i >= s.len() {
        s.len() as int
    } else if range_op_at(s, i) {
        i
    } else {
        first_range_op(s, i + 1)
    }
}

/// The start bound of an index text: everything before its first `..`, or the
/// whole text when it holds no range operator.
pub open spec fn start_bound_of(s: Seq<u8>) -> Seq<u8> {
    s.subrange(0, first_range_op(s, 0))
}

/// `first_range_op` is the least offset that begins a range operator.
pub proof fn lemma_first_range_op(s: Seq<u8>, i: int)
    requires
        0 <= i <= s.len(),
    ensures
        i <= first_range_op(s, i) <= s.len(),
        forall|j: int| i <= j < first_range_op(s, i) ==> !range_op_at(s, j),
        first_range_op(s, i) < s.len() ==> range_op_at(s, first_range_op(s, i)),
    decreases s.len() - i,
{
    if i < s.len() && !range_op_at(s, i) {
        lemma_first_range_op(s, i + 1);
    }
}

/// Length of the start bound of an index text.
pub fn start_bound_len(index: &[u8]) -> (r: usize)
    ensures
        r == first_range_op(index@, 0),
        r <= index@.len(),
{
    let n = index.len();
    let mut i: usize = 0;
    while i < n
        invariant
            n == index@.len(),
            i <= n,
            first_range_op(index@, 0) == first_range_op(index@, i as int),
        decreases n - i,
    {
        if i + 1 < n && index[i] == 46u8 && index[i + 1] == 46u8 {
            return i;
        }
        i += 1;
    }
    n
}

/// Offset at which the line holding `pos` begins: just after the last line
/// break before `pos`, or 0.
pub open spec fn line_start(s: Seq<u8>, pos: int) -> int
    decreases pos,
{
    if pos <= 0 || pos > s.len() {
        0
    } else if s[pos - 1] == 10u8 {
        pos
    } else {
        line_start(s, pos - 1)
    }
}

/// A space or a tab.
pub open spec fn is_blank(b: u8) -> bool {
    b == 32u8 || b == 9u8
}

/// Number of consecutive blanks of `s` from `from`, counted up to `to`.
pub open spec fn leading_blanks(s: Seq<u8>, from: int, to: int) -> int
    decreases to - from,
{
    if from < 0 || from >= to || from >= s.len() || !is_blank(s[from]) {
        0
    } else {
        1 + leading_blanks(s, from + 1, to)
    }
}

/// Width in spaces of the indentation of the line that holds `pos`: the
/// leading blanks of that line, rounded down to a whole number of four-space
/// levels.
pub open spec fn indent_width(s: Seq<u8>, pos: int) -> int {
    (leading_blanks(s, line_start(s, pos), pos) / 4) * 4
}

/// `n` spaces.
pub open spec fn spaces(n: int) -> Seq<u8> {
    Seq::new(n as nat, |i: int| 32u8)
}

/// The line that holds `pos` begins just after the last line break before
/// `pos`, or at the start of the text where there is none.
pub proof fn lemma_line_start(s: Seq<u8>, pos: int)
    requires
        0 <= pos <= s.len(),
    ensures
        0 <= line_start(s, pos) <= pos,
        line_start(s, pos) > 0 ==> s[line_start(s, pos) - 1] == 10u8,
        forall|k: int| line_start(s, pos) <= k < pos ==> s[k] != 10u8,
    decreases pos,
{
    if pos > 0 && s[pos - 1] != 10u8 {
        lemma_line_start(s, pos - 1);
    }
}

/// The leading blanks from `from` are a run of blanks that ends at `to` or
/// before a byte that is no blank.
pub proof fn lemma_leading_blanks(s: Seq<u8>, from: int, to: int)
    requires
        0 <= from <= to <= s.len(),
    ensures
        0 <= leading_blanks(s, from, to) <= to - from,
        forall|k: int| from <= k < from + leading_blanks(s, from, to) ==> is_blank(s[k]),
        from + leading_blanks(s, from, to) < to ==> !is_blank(
            s[from + leading_blanks(s, from, to)],
        ),
    decreases to - from,
{
    if from < to && is_blank(s[from]) {
        lemma_leading_blanks(s, from + 1, to);
    }
}

/// Computes the indentation width of the line that holds `pos`.
pub fn line_indent(text: &[u8], pos: usize) -> (r: usize)
    requires
        pos <= text@.len(),
    ensures
        r == indent_width(text@, pos as int),
        r <= pos,
{
    let mut start: usize = pos;
    while start > 0 && text[start - 1] != 10u8
        invariant
            start <= pos,
            pos <= text@.len(),
            line_start(text@, pos as int) == line_start(text@, start as int),
        decreases start,
    {
        start -= 1;
    }
    let mut count: usize = 0;
    while start + count < pos && (text[start + count] == 32u8 || text[start + count] == 9u8)
        invariant
            start + count <= pos,
            pos <= text@.len(),
            leading_blanks(text@, start as int, pos as int) == count + leading_blanks(
                text@,
                start + count,
                pos as int,
            ),
        decreases pos - start - count,
    {
        count += 1;
    }
    (count / 4) * 4
}

/// Appends `n` spaces to `buf`.
pub fn push_spaces(buf: &mut Vec<u8>, n: usize)
    ensures
        final(buf)@ == old(buf)@ + spaces(n as int),
{
    let mut i: usize = 0;
    while i < n
        invariant
            i <= n,
            buf@ == old(buf)@ + spaces(i as int),
        decreases n - i,
    {
        buf.push(32u8);
        i += 1;
        assert(buf@ =~= old(buf)@ + spaces(i as int));
    }
}

/// A space, a tab or a line break.
pub open spec fn is_space(b: u8) -> bool {
    b == 32u8 || b == 9u8 || b == 10u8 || b == 13u8
}

/// The text between the two sides of an assignment: one `=` and, around it,
/// nothing but space.
pub open spec fn is_assign_op(s: Seq<u8>) -> bool {
    exists|k: int|
        0 <= k < s.len() && #[trigger] s[k] == 61u8 && forall|j: int|
            0 <= j < s.len() && j != k ==> is_space(#[trigger] s[j])
}

/// Whether `s` is the text between the two sides of an assignment.
pub fn is_assignment_operator(s: &[u8]) -> (r: bool)
    ensures
        r == is_assign_op(s@),
{
    let n = s.len();
    let mut found: bool = false;
    let ghost mut at: int = 0;
    let mut i: usize = 0;
    while i < n
        invariant
            i <= n,
            n == s@.len(),
            found ==> 0 <= at < i && s@[at] == 61u8,
            forall|j: int| 0 <= j < i && !(found && j == at) ==> is_space(#[trigger] s@[j]),
        decreases n - i,
    {
        let b = s[i];
        if b == 61u8 {
            if found {
                assert(!is_assign_op(s@)) by {
                    assert(!is_space(s@[at]) && !is_space(s@[i as int]));
                }
                return false;
            }
            found = true;
            proof {
                at = i as int;
            }
        } else if !(b == 32u8 || b == 9u8 || b == 10u8 || b == 13u8) {
            assert(!is_assign_op(s@)) by {
                assert(!is_space(s@[i as int]) && s@[i as int] != 61u8);
            }
            return false;
        }
        i += 1;
    }
    if !found {
        assert(!is_assign_op(s@)) by {
            assert(forall|k: int| 0 <= k < s@.len() ==> is_space(#[trigger] s@[k]));
        }
    }
    found
}

} // verus!
