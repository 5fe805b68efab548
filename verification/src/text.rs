//! Positions in the source text.
//!
//! Offsets are byte offsets into the UTF-8 encoding of the text; positions
//! are zero-based lines and characters. Every character that is not a line
//! break counts one column. The position of an offset counts `\n`, `\r` and
//! a `\r\n` pair each as one line break; the offset of a position counts
//! every `\r` and every `\n` as a line break, so a `\r\n` pair is two there.
use vstd::prelude::*;
use vstd::string::StringSliceAdditionalSpecFns;
use vstd::utf8::is_continuation_byte;

verus! {

/// A zero-based line and character position, as the editor protocol counts them.
#[derive(Clone, Copy, Debug, PartialEq, Eq)]
pub struct Position {
    pub line: u32,
    pub character: u32,
}

/// A range between two positions.
#[derive(Clone, Copy, Debug, PartialEq, Eq)]
pub struct Range {
    pub start: Position,
    pub end: Position,
}

impl Position {
    pub fn new(line: u32, character: u32) -> (p: Position)
        ensures
            p.line == line,
            p.character == character,
    {
        Position { line, character }
    }
}

impl Range {
    pub fn new(start: Position, end: Position) -> (r: Range)
        ensures
            r.start == start,
            r.end == end,
    {
        Range { start, end }
    }
}

/// The range that starts and ends at the first character of the text.
pub fn origin_range() -> (r: Range)
    ensures
        r.start.line == 0 && r.start.character == 0,
        r.end.line == 0 && r.end.character == 0,
{
    Range::new(Position::new(0, 0), Position::new(0, 0))
}

pub open spec fn is_line_break(c: u8) -> bool {
    c == 10u8 || c == 13u8
}

/// The byte is the first byte of a character's encoding.
pub open spec fn starts_char(c: u8) -> bool {
    !is_continuation_byte(c)
}

/// `i` is the end of the text or the offset of the first byte of a character.
pub open spec fn at_char_boundary(b: Seq<u8>, i: int) -> bool {
    i == b.len() || (0 <= i < b.len() && starts_char(b[i]))
}

/// An offset clamped to the length of the text.
pub open spec fn clamp_offset(b: Seq<u8>, o: int) -> int {
    if o < b.len() {
        o
    } else {
        b.len() as int
    }
}

/// The byte at `i` is the `\n` of a `\r\n` pair, which ends no line of its own.
pub open spec fn is_crlf_tail(b: Seq<u8>, i: int) -> bool {
    0 < i < b.len() && b[i] == 10u8 && b[i - 1] == 13u8
}

/// The line and the character at which the byte offset `o` stands. A `\r\n`
/// pair is one line break.
pub open spec fn line_col(b: Seq<u8>, o: int) -> (nat, nat)
    decreases o,
{
    if o <= 0 {
        (0nat, 0nat)
    } else {
        let prev = line_col(b, o - 1);
        if is_crlf_tail(b, o - 1) {
            prev
        } else if is_line_break(b[o - 1]) {
            (prev.0 + 1, 0nat)
        } else if starts_char(b[o - 1]) {
            (prev.0, prev.1 + 1)
        } else {
            prev
        }
    }
}

/// Every position up to offset `o` has a line and a character that fit in a `u32`.
pub open spec fn positions_fit(b: Seq<u8>, o: int) -> bool {
    forall|k: int|
        0 <= k <= o ==> #[trigger] line_col(b, k).0 <= u32::MAX && line_col(b, k).1 <= u32::MAX
}

/// The line and the character at which the byte offset `o` stands when
/// every `\r` and every `\n` ends a line, as reading a position counts them.
pub open spec fn line_col_raw(b: Seq<u8>, o: int) -> (nat, nat)
    decreases o,
{
    if o <= 0 {
        (0nat, 0nat)
    } else {
        let prev = line_col_raw(b, o - 1);
        if is_line_break(b[o - 1]) {
            (prev.0 + 1, 0nat)
        } else if starts_char(b[o - 1]) {
            (prev.0, prev.1 + 1)
        } else {
            prev
        }
    }
}

/// Every position up to offset `o`, counted as reading a position counts
/// them, has a line and a character that fit in a `u32`.
pub open spec fn positions_fit_raw(b: Seq<u8>, o: int) -> bool {
    forall|k: int|
        0 <= k <= o ==> #[trigger] line_col_raw(b, k).0 <= u32::MAX && line_col_raw(b, k).1
            <= u32::MAX
}

/// The character at offset `i` is where a cursor at (`line`, `character`) lands:
/// either at that very position, or at the line break that ends `line`.
/// Here every `\r` and every `\n` ends a line.
pub open spec fn is_hit(b: Seq<u8>, i: int, line: u32, character: u32) -> bool {
    &&& 0 <= i < b.len()
    &&& starts_char(b[i])
    &&& {
        ||| line_col_raw(b, i) == (line as nat, character as nat)
        ||| is_line_break(b[i]) && line_col_raw(b, i).0 == line as int
    }
}

/// The first offset at or after `i` that is a hit, or the length of the text.
pub open spec fn first_hit_from(b: Seq<u8>, i: int, line: u32, character: u32) -> int
    decreases b.len() - i,
{
    if i >= b.len() {
        b.len() as int
    } else if i >= 0 && is_hit(b, i, line, character) {
        i
    } else {
        first_hit_from(b, i + 1, line, character)
    }
}

/// The byte offset of a position: the first character that is a hit, or the
/// length of the text when there is none.
pub open spec fn offset_of_position(b: Seq<u8>, line: u32, character: u32) -> int {
    first_hit_from(b, 0, line, character)
}

proof fn lemma_first_hit_bounds(b: Seq<u8>, i: int, line: u32, character: u32)
    requires
        0 <= i <= b.len(),
    ensures
        i <= first_hit_from(b, i, line, character) <= b.len(),
    decreases b.len() - i,
{
    if i < b.len() && !is_hit(b, i, line, character) {
        lemma_first_hit_bounds(b, i + 1, line, character);
    }
}

proof fn lemma_first_hit_lands(b: Seq<u8>, i: int, line: u32, character: u32)
    requires
        0 <= i <= b.len(),
    ensures
        first_hit_from(b, i, line, character) == b.len() || is_hit(
            b,
            first_hit_from(b, i, line, character),
            line,
            character,
        ),
    decreases b.len() - i,
{
    if i < b.len() && !is_hit(b, i, line, character) {
        lemma_first_hit_lands(b, i + 1, line, character);
    }
}

/// The offset of a position is within the text and on a character boundary.
pub proof fn lemma_offset_on_boundary(b: Seq<u8>, line: u32, character: u32)
    ensures
        0 <= offset_of_position(b, line, character) <= b.len(),
        at_char_boundary(b, offset_of_position(b, line, character)),
{
    lemma_first_hit_bounds(b, 0, line, character);
    lemma_first_hit_lands(b, 0, line, character);
}

/// The position of a byte offset, for any offset up to the end of the text.
pub(crate) fn position_at(bytes: &[u8], o: usize) -> (p: Position)
    requires
        o <= bytes@.len(),
        positions_fit(bytes@, o as int),
    ensures
        p.line as int == line_col(bytes@, o as int).0,
        p.character as int == line_col(bytes@, o as int).1,
{
    let mut line: u32 = 0;
    let mut col: u32 = 0;
    let mut i: usize = 0;
    while i < o
        invariant
            i <= o <= bytes@.len(),
            (line as nat, col as nat) == line_col(bytes@, i as int),
            positions_fit(bytes@, o as int),
        decreases o - i,
    {
        let c = bytes[i];
        assert(line_col(bytes@, i + 1).0 <= u32::MAX && line_col(bytes@, i + 1).1 <= u32::MAX);
        if c == 10 && i > 0 && bytes[i - 1] == 13 {
        } else if c == 10 || c == 13 {
            line = line + 1;
            col = 0;
        } else if c < 0x80 || c > 0xbf {
            col = col + 1;
        }
        i = i + 1;
    }
    Position::new(line, col)
}

/// Convert a byte offset to a zero-based position. An offset past the end of
/// the text is taken as the end of the text.
pub fn offset_to_position(text: &str, offset: usize) -> (p: Position)
    requires
        at_char_boundary(text.spec_bytes(), clamp_offset(text.spec_bytes(), offset as int)),
        positions_fit(text.spec_bytes(), clamp_offset(text.spec_bytes(), offset as int)),
    ensures
        p.line as int == line_col(text.spec_bytes(), clamp_offset(text.spec_bytes(), offset as int)).0,
        p.character as int == line_col(
            text.spec_bytes(),
            clamp_offset(text.spec_bytes(), offset as int),
        ).1,
{
    let bytes = text.as_bytes();
    let end = if offset < bytes.len() {
        offset
    } else {
        bytes.len()
    };
    position_at(bytes, end)
}

/// Convert a zero-based position to a byte offset. A position past the end of
/// its line lands on the line break; a position past the last line lands on
/// the end of the text. Lines are counted with every `\r` and every `\n`
/// ending one.
pub fn position_to_offset(text: &str, pos: Position) -> (r: usize)
    requires
        positions_fit_raw(
            text.spec_bytes(),
            offset_of_position(text.spec_bytes(), pos.line, pos.character),
        ),
    ensures
        r as int == offset_of_position(text.spec_bytes(), pos.line, pos.character),
{
    let bytes = text.as_bytes();
    let ghost b = bytes@;
    let mut line: u32 = 0;
    let mut col: u32 = 0;
    let mut i: usize = 0;
    proof {
        lemma_first_hit_bounds(b, 0, pos.line, pos.character);
    }
    while i < bytes.len()
        invariant
            b == bytes@,
            b == text.spec_bytes(),
            i <= b.len(),
            (line as nat, col as nat) == line_col_raw(b, i as int),
            line <= pos.line,
            first_hit_from(b, i as int, pos.line, pos.character) == offset_of_position(
                b,
                pos.line,
                pos.character,
            ),
            positions_fit_raw(b, offset_of_position(b, pos.line, pos.character)),
        decreases b.len() - i,
    {
        let c = bytes[i];
        if c >= 0x80 && c <= 0xbf {
            i = i + 1;
            continue;
        }
        if line == pos.line && col == pos.character {
            return i;
        }
        if c == 10 || c == 13 {
            if line == pos.line {
                return i;
            }
            line = line + 1;
            col = 0;
        } else {
            proof {
                lemma_first_hit_bounds(b, i + 1, pos.line, pos.character);
            }
            assert(line_col_raw(b, i + 1).1 <= u32::MAX);
            col = col + 1;
        }
        i = i + 1;
    }
    bytes.len()
}

/// Lexicographic order on (line, character) pairs.
pub open spec fn lex_le(p: (nat, nat), q: (nat, nat)) -> bool {
    p.0 < q.0 || (p.0 == q.0 && p.1 <= q.1)
}

proof fn lemma_line_col_raw_monotone(b: Seq<u8>, j: int, k: int)
    requires
        0 <= j <= k <= b.len(),
    ensures
        lex_le(line_col_raw(b, j), line_col_raw(b, k)),
    decreases k - j,
{
    if j < k {
        lemma_line_col_raw_monotone(b, j, k - 1);
    }
}

proof fn lemma_raw_agrees(b: Seq<u8>, k: int)
    requires
        0 <= k <= b.len(),
        forall|j: int| 0 <= j < k ==> !is_crlf_tail(b, j),
    ensures
        line_col_raw(b, k) == line_col(b, k),
    decreases k,
{
    if k > 0 {
        lemma_raw_agrees(b, k - 1);
    }
}

proof fn lemma_first_hit_is(b: Seq<u8>, i: int, o: int, line: u32, character: u32)
    requires
        0 <= i <= o <= b.len(),
        forall|j: int| i <= j < o ==> !is_hit(b, j, line, character),
        o < b.len() ==> is_hit(b, o, line, character),
    ensures
        first_hit_from(b, i, line, character) == o,
    decreases o - i,
{
    if i < o {
        lemma_first_hit_is(b, i + 1, o, line, character);
    }
}

/// Converting a byte offset on a character boundary to a position and back
/// gives the same offset, when no `\r\n` pair comes before it (reading a
/// position counts such a pair as two line breaks).
pub proof fn lemma_position_offset_roundtrip(b: Seq<u8>, o: int)
    requires
        0 <= o <= b.len(),
        at_char_boundary(b, o),
        forall|j: int| 0 <= j < o ==> !is_crlf_tail(b, j),
        positions_fit(b, b.len() as int),
    ensures
        offset_of_position(b, line_col(b, o).0 as u32, line_col(b, o).1 as u32) == o,
{
    let p = line_col(b, o);
    assert(p.0 <= u32::MAX && p.1 <= u32::MAX);
    lemma_raw_agrees(b, o);
    let line = p.0 as u32;
    let character = p.1 as u32;
    assert(line as nat == p.0 && character as nat == p.1);
    assert forall|j: int| 0 <= j < o implies !is_hit(b, j, line, character) by {
        if starts_char(b[j]) {
            lemma_line_col_raw_monotone(b, j + 1, o);
            assert(line_col_raw(b, j + 1) == if is_line_break(b[j]) {
                (line_col_raw(b, j).0 + 1, 0)
            } else {
                (line_col_raw(b, j).0, line_col_raw(b, j).1 + 1)
            });
        }
    }
    lemma_first_hit_is(b, 0, o, line, character);
}

/// The start of the line that holds offset `o`: just after the last `\n`
/// before it, or the start of the text.
pub open spec fn line_start(b: Seq<u8>, o: int) -> int
    decreases o,
{
    if o <= 0 {
        0
    } else if b[o - 1] == 10u8 {
        o
    } else {
        line_start(b, o - 1)
    }
}

/// The first byte at or after `s` that is neither a space nor a tab.
pub open spec fn first_non_blank(b: Seq<u8>, s: int) -> Option<u8>
    decreases b.len() - s,
{
    if s >= b.len() || s < 0 {
        None
    } else if b[s] == 32u8 || b[s] == 9u8 {
        first_non_blank(b, s + 1)
    } else {
        Some(b[s])
    }
}

/// A space or a tab.
pub open spec fn is_blank(c: u8) -> bool {
    c == 32u8 || c == 9u8
}

/// The offset of the first `#` at or after `i` that stands outside double
/// quotes, right after a space or a tab, and before the end of the line,
/// given whether `i` is inside quotes.
pub open spec fn comment_marker(b: Seq<u8>, i: int, in_quote: bool) -> Option<int>
    decreases b.len() - i,
{
    if i >= b.len() || i < 0 {
        None
    } else if b[i] == 34u8 {
        comment_marker(b, i + 1, !in_quote)
    } else if !in_quote && b[i] == 35u8 && i > 0 && is_blank(b[i - 1]) {
        Some(i)
    } else if is_line_break(b[i]) {
        None
    } else {
        comment_marker(b, i + 1, in_quote)
    }
}

/// Offset `o` lies in a comment: its line is a comment line (the first byte
/// that is not a space or a tab, from the start of the line on, is `#`), or
/// `o` is at or past a `#` that follows a space or a tab outside double
/// quotes on its line.
pub open spec fn in_comment(b: Seq<u8>, o: int) -> bool {
    ||| first_non_blank(b, line_start(b, o)) == Some(35u8)
    ||| comment_marker(b, line_start(b, o), false) matches Some(h) && o >= h
}

proof fn lemma_line_start_shift(pre: Seq<u8>, t: Seq<u8>, suf: Seq<u8>, i: int)
    requires
        pre.len() == 0 || pre.last() == 10u8,
        0 <= i <= t.len(),
    ensures
        line_start(pre + t + suf, pre.len() + i) == pre.len() + line_start(t, i),
        0 <= line_start(t, i) <= i,
    decreases i,
{
    let b = pre + t + suf;
    if i > 0 {
        assert(b[pre.len() + i - 1] == t[i - 1]);
        lemma_line_start_shift(pre, t, suf, i - 1);
    } else if pre.len() > 0 {
        assert(b[pre.len() - 1] == pre.last());
    }
}

proof fn lemma_first_non_blank_shift(pre: Seq<u8>, t: Seq<u8>, suf: Seq<u8>, i: int, k: int)
    requires
        0 <= i <= k < t.len(),
        t[k] == 10u8,
    ensures
        first_non_blank(pre + t + suf, pre.len() + i) == first_non_blank(t, i),
    decreases k - i,
{
    let b = pre + t + suf;
    assert(b[pre.len() + i] == t[i]);
    if t[i] == 32u8 || t[i] == 9u8 {
        lemma_first_non_blank_shift(pre, t, suf, i + 1, k);
    }
}

proof fn lemma_comment_marker_shift(
    pre: Seq<u8>,
    t: Seq<u8>,
    suf: Seq<u8>,
    i: int,
    q: bool,
    k: int,
)
    requires
        pre.len() == 0 || pre.last() == 10u8,
        0 <= i <= k < t.len(),
        t[k] == 10u8,
    ensures
        comment_marker(pre + t + suf, pre.len() + i, q) == match comment_marker(t, i, q) {
            Some(h) => Some(pre.len() + h),
            None => None,
        },
    decreases k - i,
{
    let b = pre + t + suf;
    assert(b[pre.len() + i] == t[i]);
    if i > 0 {
        assert(b[pre.len() + i - 1] == t[i - 1]);
    } else if pre.len() > 0 {
        assert(b[pre.len() - 1] == pre.last());
    }
    if i < k && !is_line_break(t[i]) && !(t[i] == 35u8 && !q && i > 0 && is_blank(t[i - 1])) {
        lemma_comment_marker_shift(pre, t, suf, i + 1, if t[i] == 34u8 { !q } else { q }, k);
    }
}

/// Whether an offset lies in a comment depends only on the line that holds
/// it: text before that line (ending in a line break) and text after it
/// change nothing.
pub proof fn lemma_comment_depends_on_line(pre: Seq<u8>, t: Seq<u8>, suf: Seq<u8>, o: int, k: int)
    requires
        pre.len() == 0 || pre.last() == 10u8,
        0 <= o <= k < t.len(),
        t[k] == 10u8,
    ensures
        in_comment(pre + t + suf, pre.len() + o) == in_comment(t, o),
{
    lemma_line_start_shift(pre, t, suf, o);
    let ls = line_start(t, o);
    lemma_first_non_blank_shift(pre, t, suf, ls, k);
    lemma_comment_marker_shift(pre, t, suf, ls, false, k);
}

/// How many `"` bytes lie in `b[i..h]`.
pub open spec fn quote_count(b: Seq<u8>, i: int, h: int) -> nat
    decreases h - i,
{
    if i >= h {
        0
    } else {
        (if b[i] == 34u8 {
            1nat
        } else {
            0nat
        }) + quote_count(b, i + 1, h)
    }
}

proof fn lemma_marker_facts(b: Seq<u8>, i: int, q: bool)
    requires
        0 <= i,
    ensures
        comment_marker(b, i, q) matches Some(h) ==> {
            &&& i <= h < b.len()
            &&& b[h] == 35u8
            &&& h > 0 && is_blank(b[h - 1])
            &&& (quote_count(b, i, h) + if q {
                1nat
            } else {
                0nat
            }) % 2 == 0
            &&& forall|j: int| i <= j < h ==> !is_line_break(#[trigger] b[j])
        },
    decreases b.len() - i,
{
    if i < b.len() {
        lemma_marker_facts(b, i + 1, if b[i] == 34u8 {
            !q
        } else {
            q
        });
    }
}

/// An inline comment starts only at a `#` that follows a space or a tab and
/// stands outside double quotes: when an offset lies in a comment on a line
/// that is not a comment line, there is such a `#` on its line, at or
/// before the offset, with an even number of `"` between the start of the
/// line and it.
pub proof fn lemma_inline_comment_outside_quotes(b: Seq<u8>, o: int)
    requires
        0 <= o <= b.len(),
        in_comment(b, o),
        first_non_blank(b, line_start(b, o)) != Some(35u8),
    ensures
        exists|h: int|
            {
                &&& line_start(b, o) <= h <= o
                &&& #[trigger] b[h] == 35u8
                &&& h > 0 && is_blank(b[h - 1])
                &&& quote_count(b, line_start(b, o), h) % 2 == 0
                &&& forall|j: int| line_start(b, o) <= j < h ==> !is_line_break(#[trigger] b[j])
            },
{
    let ls = line_start(b, o);
    lemma_line_start_bounds(b, o);
    lemma_marker_facts(b, ls, false);
    let h = comment_marker(b, ls, false)->0;
    assert(b[h] == 35u8);
}

proof fn lemma_line_start_bounds(b: Seq<u8>, o: int)
    ensures
        o >= 0 ==> 0 <= line_start(b, o) <= o,
    decreases o,
{
    if o > 0 && b[o - 1] != 10u8 {
        lemma_line_start_bounds(b, o - 1);
    }
}

/// Check whether a byte offset falls within a comment: a full comment line or
/// an inline comment.
pub fn is_in_comment(text: &str, offset: usize) -> (r: bool)
    requires
        offset <= text.spec_bytes().len(),
        at_char_boundary(text.spec_bytes(), offset as int),
    ensures
        r == in_comment(text.spec_bytes(), offset as int),
{
    let bytes = text.as_bytes();
    let ghost b = bytes@;
    let mut ls = offset;
    while ls > 0 && bytes[ls - 1] != 10
        invariant
            b == bytes@,
            ls <= offset <= b.len(),
            line_start(b, offset as int) == line_start(b, ls as int),
        decreases ls,
    {
        ls = ls - 1;
    }
    assert(line_start(b, ls as int) == ls as int);
    let mut k = ls;
    while k < bytes.len() && (bytes[k] == 32 || bytes[k] == 9)
        invariant
            b == bytes@,
            ls <= k <= b.len(),
            line_start(b, offset as int) == ls as int,
            first_non_blank(b, ls as int) == first_non_blank(b, k as int),
        decreases b.len() - k,
    {
        k = k + 1;
    }
    if k < bytes.len() && bytes[k] == 35 {
        return true;
    }
    let mut in_quote = false;
    let mut i = ls;
    while i < bytes.len()
        invariant
            b == bytes@,
            ls <= i <= b.len(),
            b == text.spec_bytes(),
            line_start(b, offset as int) == ls as int,
            first_non_blank(b, ls as int) != Some(35u8),
            comment_marker(b, ls as int, false) == comment_marker(b, i as int, in_quote),
        decreases b.len() - i,
    {
        let c = bytes[i];
        if c == 34 {
            in_quote = !in_quote;
        } else if !in_quote && c == 35 && i > 0 && (bytes[i - 1] == 32 || bytes[i - 1] == 9) {
            return offset >= i;
        } else if c == 10 || c == 13 {
            return false;
        }
        i = i + 1;
    }
    false
}

} // verus!
