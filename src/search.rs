//! Finding a search pattern in a cell's source, ignoring case.

use vstd::prelude::*;
use vstd::string::*;
use vstd::utf8::encode_utf8;
use crate::model::lines_view;

verus! {

/// What `str::to_lowercase` gives for `s`.
pub uninterp spec fn lower_of(s: Seq<char>) -> Seq<char>;

/// Relies on str::to_lowercase: the lowercase form, which depends on the
/// characters alone.
#[verifier::external_body]
fn lowercase(s: &str) -> (r: String)
    ensures
        r@ == lower_of(s@),
{
    s.to_lowercase()
}

/// The pieces of `s` after each newline, the newline kept; no empty piece
/// at the end.
pub open spec fn newline_pieces(s: Seq<char>) -> Seq<Seq<char>>
    decreases s.len(),
{
    if s.len() == 0 {
        Seq::empty()
    } else {
        let p = newline_pieces(s.drop_last());
        if p.len() == 0 || p.last().last() == '\n' {
            p.push(seq![s.last()])
        } else {
            p.update(p.len() - 1, p.last().push(s.last()))
        }
    }
}

/// A piece without its line ending: `\n`, or `\r\n`.
pub open spec fn strip_line_end(l: Seq<char>) -> Seq<char> {
    if l.len() > 0 && l.last() == '\n' {
        let m = l.drop_last();
        if m.len() > 0 && m.last() == '\r' {
            m.drop_last()
        } else {
            m
        }
    } else {
        l
    }
}

/// The lines of `s` as `str::lines` yields them.
pub open spec fn std_lines(s: Seq<char>) -> Seq<Seq<char>> {
    newline_pieces(s).map_values(|l: Seq<char>| strip_line_end(l))
}

/// Relies on str::lines: split after each `\n`, without the line ending
/// (`\n` or `\r\n`), and with no empty line for a final line ending.
#[verifier::external_body]
fn text_lines(s: &str) -> (r: Vec<String>)
    ensures
        lines_view(r@) == std_lines(s@),
{
    s.lines().map(|l| l.to_string()).collect()
}

/// Whether `p` occurs in `h` at character position `k`.
pub open spec fn matches_at(h: Seq<char>, p: Seq<char>, k: int) -> bool {
    0 <= k && k + p.len() <= h.len() && h.subrange(k, k + p.len()) == p
}

/// The first position at or after `k` where `p` occurs in `h`.
pub open spec fn first_match_from(h: Seq<char>, p: Seq<char>, k: int) -> Option<int>
    decreases h.len() + 1 - k,
{
    if k < 0 || k > h.len() {
        None
    } else if matches_at(h, p, k) {
        Some(k)
    } else {
        first_match_from(h, p, k + 1)
    }
}

/// The last position before `k` where `p` occurs in `h`.
pub open spec fn last_match_below(h: Seq<char>, p: Seq<char>, k: int) -> Option<int>
    decreases k,
{
    if k <= 0 {
        None
    } else if matches_at(h, p, k - 1) {
        Some(k - 1)
    } else {
        last_match_below(h, p, k - 1)
    }
}

/// Bytes that `s` takes in UTF-8.
pub open spec fn byte_col(s: Seq<char>) -> usize {
    encode_utf8(s).len() as usize
}

fn at(h: &str, p: &String, k: usize) -> (r: bool)
    requires
        k <= h@.len(),
    ensures
        r == matches_at(h@, p@, k as int),
{
    let m = p.as_str().unicode_len();
    let n = h.unicode_len();
    if m > n - k {
        return false;
    }
    let piece = String::from_str(h.substring_char(k, k + m));
    piece.eq(p)
}

/// Character position of the first occurrence of `p` in `h`.
fn find_chars(h: &str, p: &String) -> (r: Option<usize>)
    ensures
        r matches Some(k) ==> first_match_from(h@, p@, 0) == Some(k as int) && k <= h@.len(),
        r is None ==> first_match_from(h@, p@, 0) is None,
{
    let n = h.unicode_len();
    let mut k: usize = 0;
    while k < n
        invariant
            n == h@.len(),
            k <= n,
            first_match_from(h@, p@, 0) == first_match_from(h@, p@, k as int),
        decreases n - k,
    {
        if at(h, p, k) {
            return Some(k);
        }
        k = k + 1;
    }
    if at(h, p, n) {
        Some(n)
    } else {
        assert(first_match_from(h@, p@, n + 1) is None);
        None
    }
}

/// Character position of the last occurrence of `p` in `h`.
fn rfind_chars(h: &str, p: &String) -> (r: Option<usize>)
    ensures
        r matches Some(k) ==> last_match_below(h@, p@, h@.len() as int + 1) == Some(k as int)
            && k <= h@.len(),
        r is None ==> last_match_below(h@, p@, h@.len() as int + 1) is None,
{
    let n = h.unicode_len();
    let mut k: usize = n;
    while k > 0
        invariant
            n == h@.len(),
            k <= n,
            last_match_below(h@, p@, n + 1) == last_match_below(h@, p@, k + 1),
        decreases k,
    {
        if at(h, p, k) {
            return Some(k);
        }
        k = k - 1;
    }
    if at(h, p, 0) {
        Some(0)
    } else {
        assert(last_match_below(h@, p@, 0) is None);
        None
    }
}

fn prefix_bytes(s: &str, k: usize) -> (r: usize)
    requires
        k <= s@.len(),
    ensures
        r == byte_col(s@.subrange(0, k as int)),
{
    s.substring_char(0, k).len()
}

/// Searching forward from line `row`: the first line whose lowercase form
/// holds the pattern gives (line, byte column of the match). For the
/// current cell, a match at the very start of the first line is passed
/// over for the next match on that line (found in the lowercase form of
/// the line after its first character), or else for the next lines.
pub open spec fn forward_match(
    lines: Seq<Seq<char>>,
    lower: Seq<Seq<char>>,
    pat: Seq<char>,
    tail: Seq<char>,
    current: bool,
    row: int,
) -> Option<(usize, usize)>
    decreases lines.len() - row,
{
    if row < 0 || row >= lines.len() || row >= lower.len() {
        None
    } else {
        match first_match_from(lower[row], pat, 0) {
            None => forward_match(lines, lower, pat, tail, current, row + 1),
            Some(k) => if current && row == 0 && k == 0 {
                if lines[0].len() > 0 && first_match_from(tail, pat, 0) is Some {
                    Some(
                        (
                            0usize,
                            byte_col(
                                lines[0].subrange(0, 1) + tail.subrange(
                                    0,
                                    first_match_from(tail, pat, 0)->0,
                                ),
                            ),
                        ),
                    )
                } else {
                    forward_match(lines, lower, pat, tail, current, row + 1)
                }
            } else {
                Some((row as usize, byte_col(lower[row].subrange(0, k))))
            },
        }
    }
}

/// Searching backward from the lines before `row`: the last line whose
/// lowercase form holds the pattern gives (line, byte column of its last
/// match).
pub open spec fn backward_match(lower: Seq<Seq<char>>, pat: Seq<char>, row: int) -> Option<
    (usize, usize),
>
    decreases row,
{
    if row <= 0 || row > lower.len() {
        None
    } else {
        match last_match_below(lower[row - 1], pat, lower[row - 1].len() as int + 1) {
            Some(k) => Some(((row - 1) as usize, byte_col(lower[row - 1].subrange(0, k)))),
            None => backward_match(lower, pat, row - 1),
        }
    }
}

/// The search on lines already lowercased: `lower` holds the lowercase
/// form of each of `lines`, `pattern` is lowercase, and `tail` is the
/// lowercase form of the first line after its first character.
pub fn find_in_lowered(
    lines: &Vec<String>,
    lower: &Vec<String>,
    pattern: &String,
    tail: &String,
    is_current_cell: bool,
    forward: bool,
) -> (r: Option<(usize, usize)>)
    requires
        lower@.len() == lines@.len(),
    ensures
        forward ==> r == forward_match(
            lines_view(lines@),
            lines_view(lower@),
            pattern@,
            tail@,
            is_current_cell,
            0,
        ),
        !forward ==> r == backward_match(lines_view(lower@), pattern@, lower@.len() as int),
{
    let ghost lv = lines_view(lines@);
    let ghost lw = lines_view(lower@);
    if forward {
        let mut row: usize = 0;
        while row < lines.len()
            invariant
                forward,
                lower@.len() == lines@.len(),
                lv == lines_view(lines@),
                lw == lines_view(lower@),
                row <= lines@.len(),
                forward_match(lv, lw, pattern@, tail@, is_current_cell, 0) == forward_match(
                    lv,
                    lw,
                    pattern@,
                    tail@,
                    is_current_cell,
                    row as int,
                ),
            decreases lines@.len() - row,
        {
            let line_lower = lower[row].as_str();
            assert(line_lower@ == lw[row as int]);
            if let Some(k) = find_chars(line_lower, pattern) {
                if is_current_cell && row == 0 && k == 0 {
                    let first = lines[0].as_str();
                    assert(first@ == lv[0]);
                    let n = first.unicode_len();
                    if n > 0 {
                        if let Some(k2) = find_chars(tail.as_str(), pattern) {
                            let mut s = String::from_str(first.substring_char(0, 1));
                            let ghost head = s@;
                            s.append(tail.as_str().substring_char(0, k2));
                            proof {
                                assert(s@ == lv[0].subrange(0, 1) + tail@.subrange(0, k2 as int));
                            }
                            return Some((0, s.as_str().len()));
                        }
                    }
                } else {
                    return Some((row, prefix_bytes(line_lower, k)));
                }
            }
            row = row + 1;
        }
        None
    } else {
        let mut row: usize = lower.len();
        while row > 0
            invariant
                !forward,
                lw == lines_view(lower@),
                row <= lower@.len(),
                backward_match(lw, pattern@, lower@.len() as int) == backward_match(
                    lw,
                    pattern@,
                    row as int,
                ),
            decreases row,
        {
            let line_lower = lower[row - 1].as_str();
            assert(line_lower@ == lw[row - 1]);
            if let Some(k) = rfind_chars(line_lower, pattern) {
                return Some((row - 1, prefix_bytes(line_lower, k)));
            }
            row = row - 1;
        }
        None
    }
}

/// What `find_pattern_in_text` looks at in `source`: its lines, their
/// lowercase forms, and the lowercase form of the first line after its
/// first character (empty when there is none).
pub open spec fn first_tail(lines: Seq<Seq<char>>) -> Seq<char> {
    if lines.len() > 0 && lines[0].len() > 0 {
        lower_of(lines[0].drop_first())
    } else {
        Seq::empty()
    }
}

/// Where `find_pattern_in_text` finds `pattern` in `source`.
pub open spec fn pattern_found(source: Seq<char>, pattern: Seq<char>, current: bool, forward: bool) -> Option<
    (usize, usize),
> {
    let lines = std_lines(source);
    let lower = lines.map_values(|l: Seq<char>| lower_of(l));
    if forward {
        forward_match(lines, lower, lower_of(pattern), first_tail(lines), current, 0)
    } else {
        backward_match(lower, lower_of(pattern), lines.len() as int)
    }
}

/// Finds `pattern` in `source`, ignoring case: forward, the first line
/// holding it; backward, the last line and its last match. Returns the
/// line and the byte column of the match in the line's lowercase form.
pub fn find_pattern_in_text(source: &str, pattern: &str, is_current_cell: bool, forward: bool) -> (r:
    Option<(usize, usize)>)
    ensures
        r == pattern_found(source@, pattern@, is_current_cell, forward),
{
    let lines = text_lines(source);
    let ghost lv = lines_view(lines@);
    let mut lower: Vec<String> = Vec::new();
    let mut i: usize = 0;
    while i < lines.len()
        invariant
            lv == lines_view(lines@),
            i <= lines@.len(),
            lower@.len() == i,
            forall|j: int| 0 <= j < i ==> #[trigger] lower@[j]@ == lower_of(lv[j]),
        decreases lines@.len() - i,
    {
        lower.push(lowercase(lines[i].as_str()));
        i = i + 1;
    }
    assert(lines_view(lower@) =~= lv.map_values(|l: Seq<char>| lower_of(l)));
    let pat = lowercase(pattern);
    let tail = if lines.len() > 0 && lines[0].as_str().unicode_len() > 0 {
        let first = lines[0].as_str();
        let n = first.unicode_len();
        let rest = first.substring_char(1, n);
        assert(rest@ =~= lv[0].drop_first());
        lowercase(rest)
    } else {
        String::new()
    };
    find_in_lowered(&lines, &lower, &pat, &tail, is_current_cell, forward)
}

/// Every match of `p` in the line `h` before character position `k`, as
/// (cell, line, byte column, `plen`), in order; matches may overlap.
pub open spec fn line_hits(
    cell: usize,
    row: usize,
    h: Seq<char>,
    p: Seq<char>,
    plen: usize,
    k: int,
) -> Seq<(usize, usize, usize, usize)>
    decreases k,
{
    if k <= 0 {
        Seq::empty()
    } else {
        line_hits(cell, row, h, p, plen, k - 1) + if matches_at(h, p, k - 1) {
            seq![(cell, row, byte_col(h.subrange(0, k - 1)), plen)]
        } else {
            Seq::empty()
        }
    }
}

/// The matches in the first `rows` of the lowercased lines of one cell.
pub open spec fn cell_hits(
    cell: usize,
    lower: Seq<Seq<char>>,
    p: Seq<char>,
    plen: usize,
    rows: int,
) -> Seq<(usize, usize, usize, usize)>
    decreases rows,
{
    if rows <= 0 || rows > lower.len() {
        Seq::empty()
    } else {
        cell_hits(cell, lower, p, plen, rows - 1) + line_hits(
            cell,
            (rows - 1) as usize,
            lower[rows - 1],
            p,
            plen,
            lower[rows - 1].len() as int + 1,
        )
    }
}

/// The lowercase forms of the lines of `source`.
pub open spec fn lowered_lines(source: Seq<char>) -> Seq<Seq<char>> {
    std_lines(source).map_values(|l: Seq<char>| lower_of(l))
}

/// The matches in the first `cells` of `sources`.
pub open spec fn all_hits(sources: Seq<Seq<char>>, p: Seq<char>, plen: usize, cells: int) -> Seq<
    (usize, usize, usize, usize),
>
    decreases cells,
{
    if cells <= 0 || cells > sources.len() {
        Seq::empty()
    } else {
        all_hits(sources, p, plen, cells - 1) + cell_hits(
            (cells - 1) as usize,
            lowered_lines(sources[cells - 1]),
            p,
            plen,
            lowered_lines(sources[cells - 1]).len() as int,
        )
    }
}

/// Every match of the lowercase pattern `pattern` in the lowercased line
/// `line`, as (cell, line, byte column, `plen`).
pub fn line_matches(cell: usize, row: usize, line: &str, pattern: &String, plen: usize) -> (r: Vec<
    (usize, usize, usize, usize),
>)
    ensures
        r@ == line_hits(cell, row, line@, pattern@, plen, line@.len() as int + 1),
{
    let n = line.unicode_len();
    let mut r: Vec<(usize, usize, usize, usize)> = Vec::new();
    let mut k: usize = 0;
    while k < n
        invariant
            n == line@.len(),
            k <= n,
            r@ == line_hits(cell, row, line@, pattern@, plen, k as int),
        decreases n - k,
    {
        let ghost before = r@;
        if at(line, pattern, k) {
            r.push((cell, row, prefix_bytes(line, k), plen));
        }
        assert(r@ =~= line_hits(cell, row, line@, pattern@, plen, k + 1));
        k = k + 1;
    }
    if at(line, pattern, n) {
        r.push((cell, row, prefix_bytes(line, n), plen));
    }
    assert(r@ =~= line_hits(cell, row, line@, pattern@, plen, n + 1));
    r
}

/// Every match of `pattern` in the cells, ignoring case, for highlighting:
/// (cell, line, byte column in the lowercased line, byte length of the
/// pattern), cell by cell and line by line.
pub fn find_all_matches_in_cells(sources: &Vec<String>, pattern: &str) -> (r: Vec<
    (usize, usize, usize, usize),
>)
    ensures
        r@ == all_hits(
            lines_view(sources@),
            lower_of(pattern@),
            byte_col(pattern@),
            sources@.len() as int,
        ),
{
    let pat = lowercase(pattern);
    let plen = pattern.len();
    let ghost sv = lines_view(sources@);
    let mut r: Vec<(usize, usize, usize, usize)> = Vec::new();
    let mut c: usize = 0;
    while c < sources.len()
        invariant
            sv == lines_view(sources@),
            c <= sources@.len(),
            pat@ == lower_of(pattern@),
            plen == byte_col(pattern@),
            r@ == all_hits(sv, pat@, plen, c as int),
        decreases sources@.len() - c,
    {
        let lines = text_lines(sources[c].as_str());
        let ghost lw = lowered_lines(sv[c as int]);
        assert(lines_view(lines@) == std_lines(sv[c as int]));
        let ghost base = r@;
        let mut row: usize = 0;
        while row < lines.len()
            invariant
                sv == lines_view(sources@),
                c < sources@.len(),
                pat@ == lower_of(pattern@),
                lw == lowered_lines(sv[c as int]),
                lines_view(lines@) == std_lines(sv[c as int]),
                row <= lines@.len(),
                r@ == base + cell_hits(c, lw, pat@, plen, row as int),
            decreases lines@.len() - row,
        {
            let lower = lowercase(lines[row].as_str());
            assert(lower@ == lw[row as int]);
            let mut hits = line_matches(c, row, lower.as_str(), &pat, plen);
            r.append(&mut hits);
            assert(r@ =~= base + cell_hits(c, lw, pat@, plen, row + 1));
            row = row + 1;
        }
        assert(r@ =~= all_hits(sv, pat@, plen, c + 1));
        c = c + 1;
    }
    r
}

/// The cell `offset` steps from `start` among `n`, going forward or
/// backward and wrapping around.
pub open spec fn cyclic_index(start: int, n: int, offset: int, forward: bool) -> int {
    if forward {
        (start + offset) % n
    } else {
        (start + n - offset) % n
    }
}

/// Searching the cells from the one after `start` (before it, backward),
/// wrapping around and ending with `start` itself: the first cell whose
/// source holds `pattern`, ignoring case.
pub fn next_cell_with_match(sources: &Vec<String>, start: usize, pattern: &str, forward: bool) -> (r:
    Option<usize>)
    requires
        start < sources@.len(),
    ensures
        r matches Some(i) ==> exists|offset: int|
            1 <= offset <= sources@.len() && i == cyclic_index(
                start as int,
                sources@.len() as int,
                offset,
                forward,
            ) && pattern_found(sources@[i as int]@, pattern@, false, forward) is Some && forall|
                o: int,
            |
                1 <= o < offset ==> pattern_found(
                    #[trigger] sources@[cyclic_index(
                        start as int,
                        sources@.len() as int,
                        o,
                        forward,
                    )]@,
                    pattern@,
                    false,
                    forward,
                ) is None,
        r is None ==> forall|o: int|
            1 <= o <= sources@.len() ==> pattern_found(
                #[trigger] sources@[cyclic_index(start as int, sources@.len() as int, o, forward)]@,
                pattern@,
                false,
                forward,
            ) is None,
{
    let n = sources.len();
    let mut step: usize = 0;
    while step < n
        invariant
            n == sources@.len(),
            start < n,
            step <= n,
            forall|o: int|
                1 <= o <= step ==> pattern_found(
                    #[trigger] sources@[cyclic_index(start as int, n as int, o, forward)]@,
                    pattern@,
                    false,
                    forward,
                ) is None,
        decreases n - step,
    {
        let offset = step + 1;
        let idx = if forward {
            if offset < n - start {
                start + offset
            } else {
                offset - (n - start)
            }
        } else {
            if offset <= start {
                start - offset
            } else {
                n - (offset - start)
            }
        };
        proof {
            let (s0, n0, o0) = (start as int, n as int, offset as int);
            if forward {
                if o0 < n0 - s0 {
                    assert((s0 + o0) % n0 == s0 + o0) by (nonlinear_arith)
                        requires
                            0 <= s0 + o0 < n0,
                    ;
                } else {
                    assert((s0 + o0) % n0 == s0 + o0 - n0) by (nonlinear_arith)
                        requires
                            n0 <= s0 + o0 < 2 * n0,
                    ;
                }
            } else {
                if o0 <= s0 {
                    assert((s0 + n0 - o0) % n0 == s0 - o0) by (nonlinear_arith)
                        requires
                            n0 <= s0 + n0 - o0 < 2 * n0,
                    ;
                } else {
                    assert((s0 + n0 - o0) % n0 == n0 - (o0 - s0)) by (nonlinear_arith)
                        requires
                            0 <= s0 + n0 - o0 < n0,
                    ;
                }
            }
        }
        assert(idx == cyclic_index(start as int, n as int, offset as int, forward));
        if find_pattern_in_text(sources[idx].as_str(), pattern, false, forward).is_some() {
            return Some(idx);
        }
        step = step + 1;
    }
    None
}

} // verus!
