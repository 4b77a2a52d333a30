//! Text helpers: regex escaping, splitting source into stored lines, and
//! byte offsets to editor positions.

use vstd::prelude::*;
use vstd::string::*;
use vstd::utf8::{encode_utf8, is_char_boundary};

verus! {

/// Relies on String::push: appends one character.
#[verifier::external_body]
pub(crate) fn push_char(s: &mut String, c: char)
    ensures
        final(s)@ == old(s)@.push(c),
{
    s.push(c)
}

/// Whether `c` has a meaning of its own in a regular expression.
pub open spec fn is_regex_meta(c: char) -> bool {
    c == '\\' || c == '.' || c == '+' || c == '*' || c == '?' || c == '(' || c == ')' || c == '|'
        || c == '[' || c == ']' || c == '{' || c == '}' || c == '^' || c == '$'
}

/// `s` with a backslash before each regex metacharacter.
pub open spec fn escaped(s: Seq<char>) -> Seq<char>
    decreases s.len(),
{
    if s.len() == 0 {
        Seq::empty()
    } else {
        let c = s.last();
        escaped(s.drop_last()) + if is_regex_meta(c) {
            seq!['\\', c]
        } else {
            seq![c]
        }
    }
}

/// Escapes `s` so that a regular expression matches it literally.
pub fn escape_regex(s: &str) -> (r: String)
    ensures
        r@ == escaped(s@),
{
    let n = s.unicode_len();
    let mut r = String::new();
    let mut i: usize = 0;
    while i < n
        invariant
            n == s@.len(),
            i <= n,
            r@ == escaped(s@.subrange(0, i as int)),
        decreases n - i,
    {
        let c = s.get_char(i);
        let ghost before = r@;
        if c == '\\' || c == '.' || c == '+' || c == '*' || c == '?' || c == '(' || c == ')' || c
            == '|' || c == '[' || c == ']' || c == '{' || c == '}' || c == '^' || c == '$' {
            push_char(&mut r, '\\');
            push_char(&mut r, c);
        } else {
            push_char(&mut r, c);
        }
        proof {
            let p = s@.subrange(0, i + 1);
            assert(p.drop_last() =~= s@.subrange(0, i as int));
            assert(p.last() == c);
            if is_regex_meta(c) {
                assert(r@ =~= before + seq!['\\', c]);
            } else {
                assert(r@ =~= before + seq![c]);
            }
        }
        i = i + 1;
    }
    assert(s@.subrange(0, n as int) =~= s@);
    r
}

/// The pieces joined back together, in order.
pub open spec fn joined(lines: Seq<Seq<char>>) -> Seq<char>
    decreases lines.len(),
{
    if lines.len() == 0 {
        Seq::empty()
    } else {
        joined(lines.drop_last()) + lines.last()
    }
}

/// Stored lines of a non-empty source: they join back to the source, each
/// but the last ends with its one newline, and the last holds none.
pub open spec fn is_line_split(source: Seq<char>, lines: Seq<Seq<char>>) -> bool {
    &&& lines.len() >= 1
    &&& joined(lines) == source
    &&& forall|i: int|
        0 <= i < lines.len() - 1 ==> #[trigger] lines[i].len() >= 1 && lines[i].last() == '\n'
            && !lines[i].drop_last().contains('\n')
    &&& !lines.last().contains('\n')
}

/// Splits a source into the lines a notebook file stores: after each
/// newline, keeping it. An empty source has no lines.
pub fn source_to_lines(source: &str) -> (r: Vec<String>)
    ensures
        source@.len() == 0 ==> r@.len() == 0,
        source@.len() > 0 ==> is_line_split(source@, r@.map_values(|l: String| l@)),
{
    let n = source.unicode_len();
    let mut r: Vec<String> = Vec::new();
    if n == 0 {
        return r;
    }
    let mut cur = String::new();
    let mut i: usize = 0;
    while i < n
        invariant
            n == source@.len(),
            i <= n,
            joined(r@.map_values(|l: String| l@)) + cur@ == source@.subrange(0, i as int),
            forall|k: int|
                0 <= k < r@.len() ==> #[trigger] r@[k]@.len() >= 1 && r@[k]@.last() == '\n'
                    && !r@[k]@.drop_last().contains('\n'),
            !cur@.contains('\n'),
        decreases n - i,
    {
        let c = source.get_char(i);
        let ghost lines0 = r@.map_values(|l: String| l@);
        let ghost cur0 = cur@;
        push_char(&mut cur, c);
        if c == '\n' {
            let done = cur;
            cur = String::new();
            r.push(done);
            proof {
                let lines1 = r@.map_values(|l: String| l@);
                assert(lines1.drop_last() =~= lines0);
                assert(lines1.last() == cur0.push('\n'));
                assert(cur0.push('\n').drop_last() =~= cur0);
                assert(cur@ =~= Seq::<char>::empty());
                assert(joined(lines1) + cur@ =~= joined(lines0) + cur0.push('\n'));
            }
        } else {
            proof {
                assert(!cur@.contains('\n')) by {
                    if cur@.contains('\n') {
                        let k = choose|k: int| 0 <= k < cur@.len() && cur@[k] == '\n';
                        assert(k < cur0.len());
                        assert(cur0[k] == '\n');
                    }
                }
            }
        }
        proof {
            assert(source@.subrange(0, i + 1) =~= source@.subrange(0, i as int).push(c));
            assert(joined(r@.map_values(|l: String| l@)) + cur@ =~= source@.subrange(0, i + 1));
        }
        i = i + 1;
    }
    let ghost lines0 = r@.map_values(|l: String| l@);
    let ghost last = cur@;
    r.push(cur);
    proof {
        let lines1 = r@.map_values(|l: String| l@);
        assert(lines1.drop_last() =~= lines0);
        assert(source@.subrange(0, n as int) =~= source@);
        assert forall|k: int| 0 <= k < lines1.len() - 1 implies #[trigger] lines1[k].len() >= 1
            && lines1[k].last() == '\n' && !lines1[k].drop_last().contains('\n') by {
            assert(lines1[k] == r@[k]@);
        }
    }
    r
}

/// Bytes that `c` takes in UTF-8.
pub open spec fn utf8_width(c: char) -> int {
    if (c as u32) < 0x80 {
        1
    } else if (c as u32) < 0x800 {
        2
    } else if (c as u32) < 0x10000 {
        3
    } else {
        4
    }
}

/// How many characters of `s` start before byte `offset`.
pub open spec fn chars_before(s: Seq<char>, offset: int) -> int
    decreases s.len(),
{
    if s.len() == 0 || offset <= 0 {
        0
    } else {
        1 + chars_before(s.drop_first(), offset - utf8_width(s[0]))
    }
}

/// Row and column (in characters) just after the text `p`.
pub open spec fn end_position(p: Seq<char>) -> (int, int)
    decreases p.len(),
{
    if p.len() == 0 {
        (0, 0)
    } else {
        let (row, col) = end_position(p.drop_last());
        if p.last() == '\n' {
            (row + 1, 0)
        } else {
            (row, col + 1)
        }
    }
}

/// The (row, column) of the character at byte `offset` of `s`, columns
/// counted in characters; past the end, the position after the last one.
pub fn byte_offset_to_row_col(s: &str, offset: usize) -> (r: (usize, usize))
    ensures
        (r.0 as int, r.1 as int) == end_position(s@.subrange(0, chars_before(s@, offset as int))),
{
    let n = s.unicode_len();
    let mut row: usize = 0;
    let mut col: usize = 0;
    let mut b: usize = 0;
    let mut i: usize = 0;
    assert(s@.subrange(0, n as int) =~= s@);
    while i < n && b < offset
        invariant
            n == s@.len(),
            i <= n,
            b <= offset,
            chars_before(s@, offset as int) == i + chars_before(
                s@.subrange(i as int, n as int),
                offset - b,
            ),
            (row as int, col as int) == end_position(s@.subrange(0, i as int)),
            row <= i,
            col <= i,
        decreases n - i,
    {
        let c = s.get_char(i);
        let code = c as u32;
        let w: usize = if code < 0x80 {
            1
        } else if code < 0x800 {
            2
        } else if code < 0x10000 {
            3
        } else {
            4
        };
        proof {
            let rest = s@.subrange(i as int, n as int);
            assert(rest[0] == c);
            assert(rest.drop_first() =~= s@.subrange(i + 1, n as int));
            assert(s@.subrange(0, i + 1).drop_last() =~= s@.subrange(0, i as int));
            assert(s@.subrange(0, i + 1).last() == c);
        }
        if c == '\n' {
            row = row + 1;
            col = 0;
        } else {
            col = col + 1;
        }
        if w >= offset - b {
            proof {
                let rest = s@.subrange(i + 1, n as int);
                assert(chars_before(rest, offset - b - w as int) == 0);
                assert(chars_before(rest, 0) == 0);
            }
            b = offset;
        } else {
            b = b + w;
        }
        i = i + 1;
    }
    proof {
        if i == n {
            assert(s@.subrange(i as int, n as int).len() == 0);
        }
        assert(chars_before(s@.subrange(i as int, n as int), offset - b) == 0);
    }
    (row, col)
}

/// Bytes before line `k` of an editor buffer: each line and its newline.
pub open spec fn bytes_before_line(lines: Seq<Seq<char>>, k: int) -> int
    decreases k,
{
    if k <= 0 || k > lines.len() {
        0
    } else {
        bytes_before_line(lines, k - 1) + encode_utf8(lines[k - 1]).len() + 1
    }
}

/// The byte offset of (`row`, `col`) in the lines joined by newlines,
/// `col` counted as bytes; past the last line, the length of them all and
/// their newlines.
pub open spec fn cursor_offset(lines: Seq<Seq<char>>, row: int, col: int) -> int {
    if row < lines.len() {
        bytes_before_line(lines, row) + col
    } else {
        bytes_before_line(lines, lines.len() as int)
    }
}

/// The byte offset a completion request is sent with for the cursor at
/// (`row`, `col`) of `lines`; `None` when it does not fit in a `usize`.
pub fn cursor_byte_offset(lines: &Vec<String>, row: usize, col: usize) -> (r: Option<usize>)
    ensures
        cursor_offset(lines@.map_values(|l: String| l@), row as int, col as int) <= usize::MAX
            ==> r == Some(
            cursor_offset(lines@.map_values(|l: String| l@), row as int, col as int) as usize,
        ),
        cursor_offset(lines@.map_values(|l: String| l@), row as int, col as int) > usize::MAX
            ==> r is None,
{
    let ghost lv = lines@.map_values(|l: String| l@);
    let mut offset: usize = 0;
    let mut i: usize = 0;
    while i < lines.len()
        invariant
            lv == lines@.map_values(|l: String| l@),
            i <= lines@.len(),
            i <= row,
            offset as int == bytes_before_line(lv, i as int),
        decreases lines@.len() - i,
    {
        if i == row {
            proof {
                assert(cursor_offset(lv, row as int, col as int) == offset + col);
            }
            if col > usize::MAX - offset {
                return None;
            }
            return Some(offset + col);
        }
        let n = lines[i].as_str().as_bytes().len();
        assert(lv[i as int] == lines@[i as int]@);
        proof {
            assert(bytes_before_line(lv, i + 1) == offset + n + 1);
            lemma_bytes_before_grow(lv, i + 1, lines@.len() as int);
            if row < lines@.len() {
                lemma_bytes_before_grow(lv, i + 1, row as int);
            }
        }
        if n >= usize::MAX - offset {
            return None;
        }
        offset = offset + n + 1;
        i = i + 1;
    }
    Some(offset)
}

proof fn lemma_bytes_before_grow(lines: Seq<Seq<char>>, k: int, m: int)
    requires
        0 <= k <= m <= lines.len(),
    ensures
        bytes_before_line(lines, k) <= bytes_before_line(lines, m),
    decreases m - k,
{
    if k < m {
        lemma_bytes_before_grow(lines, k, m - 1);
    }
}

proof fn lemma_encode_concat(a: Seq<char>, b: Seq<char>)
    ensures
        encode_utf8(a + b) == encode_utf8(a) + encode_utf8(b),
    decreases a.len(),
{
    if a.len() > 0 {
        assert((a + b).drop_first() =~= a.drop_first() + b);
        lemma_encode_concat(a.drop_first(), b);
        assert((a + b)[0] == a[0]);
        assert(encode_utf8(a + b) =~= encode_utf8(a) + encode_utf8(b));
    } else {
        assert(a + b =~= b);
        assert(encode_utf8(a) =~= Seq::<u8>::empty());
        assert(encode_utf8(a) + encode_utf8(b) =~= encode_utf8(b));
    }
}

/// Whether a completion may replace bytes `start..end` of `source`: the
/// range lies in the source, on character boundaries, and the cursor after
/// the inserted text is a byte offset that fits.
pub open spec fn completion_applies(source: Seq<u8>, start: int, end: int, inserted: Seq<u8>) -> bool {
    &&& 0 <= start <= end <= source.len()
    &&& is_char_boundary(source, start)
    &&& is_char_boundary(source, end)
    &&& start + inserted.len() <= usize::MAX
}

/// Replaces bytes `start..end` of `source` with `completion`, and gives the
/// new text with the (row, column) of the cursor just after the inserted
/// text. `None` when the range does not apply (see `completion_applies`).
pub fn apply_completion_text(source: &str, start: usize, end: usize, completion: &str) -> (r: Option<
    (String, usize, usize),
>)
    ensures
        completion_applies(
            source.spec_bytes(),
            start as int,
            end as int,
            completion.spec_bytes(),
        ) ==> (r matches Some((text, row, col)) && {
            &&& encode_utf8(text@) == source.spec_bytes().subrange(0, start as int)
                + completion.spec_bytes() + source.spec_bytes().subrange(
                end as int,
                source.spec_bytes().len() as int,
            )
            &&& (row as int, col as int) == end_position(
                text@.subrange(
                    0,
                    chars_before(text@, start + completion.spec_bytes().len()),
                ),
            )
        }),
        !completion_applies(
            source.spec_bytes(),
            start as int,
            end as int,
            completion.spec_bytes(),
        ) ==> r is None,
{
    let len = source.as_bytes().len();
    if !(start <= end && end <= len) {
        return None;
    }
    if !source.is_char_boundary(start) || !source.is_char_boundary(end) {
        return None;
    }
    let clen = completion.as_bytes().len();
    if clen > usize::MAX - start {
        return None;
    }
    let (head, rest) = source.split_at(start);
    assert(is_char_boundary(source.spec_bytes(), end as int));
    let (_, tail) = source.split_at(end);
    let mut text = String::from_str(head);
    text.append(completion);
    text.append(tail);
    proof {
        lemma_encode_concat(head@, completion@);
        lemma_encode_concat(head@ + completion@, tail@);
        assert(text@ == head@ + completion@ + tail@);
    }
    let cursor = start + clen;
    let (row, col) = byte_offset_to_row_col(text.as_str(), cursor);
    Some((text, row, col))
}

} // verus!
