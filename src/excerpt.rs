//! Reduces a possibly large side of a conflicted file to a bounded excerpt
//! centred on its conflict markers.

use vstd::prelude::*;

use crate::text::{chars_of, push_char};

verus! {

/// Largest excerpt, in characters, before the truncation note is appended.
pub const MAX_EXCERPT_CHARS: usize = 500;

/// Lines kept on each side of the marked region.
pub const CONTEXT_LINES: usize = 3;

/// Length of a conflict marker run (`<<<<<<<`, `>>>>>>>`).
pub const MARKER_LEN: usize = 7;

/// Appended to an excerpt that was cut at `MAX_EXCERPT_CHARS`.
pub const TRUNCATION_NOTE: &'static str = "... (truncated)";

/// The lines of `s`: the pieces between newline characters, one more than
/// there are newlines. A text that ends with a newline has an empty last
/// line, so joining the lines with newlines gives the text back.
pub open spec fn text_lines(s: Seq<char>) -> Seq<Seq<char>>
    decreases s.len(),
{
    if s.len() == 0 {
        seq![Seq::<char>::empty()]
    } else {
        let prev = text_lines(s.drop_last());
        if s.last() == '\n' {
            prev.push(Seq::<char>::empty())
        } else {
            prev.update(prev.len() - 1, prev.last().push(s.last()))
        }
    }
}

proof fn lemma_lines_nonempty(s: Seq<char>)
    ensures
        text_lines(s).len() >= 1,
    decreases s.len(),
{
    if s.len() > 0 {
        lemma_lines_nonempty(s.drop_last());
    }
}

/// A line of `chars`, as a half-open range of positions.
pub open spec fn range_text(chars: Seq<char>, r: (usize, usize)) -> Seq<char> {
    chars.subrange(r.0 as int, r.1 as int)
}

pub open spec fn ranges_are_lines(chars: Seq<char>, ranges: Seq<(usize, usize)>) -> bool {
    &&& ranges.len() == text_lines(chars).len()
    &&& forall|j: int| #![trigger ranges[j]] 0 <= j < ranges.len() ==> ranges[j].0 <= ranges[j].1 <= chars.len()
    &&& forall|j: int|
        0 <= j < ranges.len() ==> #[trigger] range_text(chars, ranges[j]) == text_lines(chars)[j]
}

/// The lines of `chars`, each as the range of positions it occupies.
pub fn line_ranges(chars: &Vec<char>) -> (ranges: Vec<(usize, usize)>)
    ensures
        ranges_are_lines(chars@, ranges@),
{
    let n = chars.len();
    let mut ranges: Vec<(usize, usize)> = Vec::new();
    let mut cur: usize = 0;
    let mut i: usize = 0;
    proof {
        assert(chars@.take(0) =~= Seq::<char>::empty());
    }
    while i < n
        invariant
            n == chars.len(),
            cur <= i <= n,
            text_lines(chars@.take(i as int)).len() == ranges.len() + 1,
            forall|j: int| 0 <= j < ranges.len() ==> #[trigger] ranges[j].0 <= ranges[j].1 <= cur,
            forall|j: int|
                0 <= j < ranges.len() ==> #[trigger] range_text(chars@, ranges[j]) == text_lines(
                    chars@.take(i as int),
                )[j],
            text_lines(chars@.take(i as int)).last() == chars@.subrange(cur as int, i as int),
        decreases n - i,
    {
        let c = chars[i];
        let ghost before = chars@.take(i as int);
        let ghost after = chars@.take(i + 1);
        proof {
            assert(after.drop_last() =~= before);
            assert(after.last() == c);
        }
        if c == '\n' {
            let ghost old_ranges = ranges@;
            let ghost old_cur = cur;
            ranges.push((cur, i));
            cur = i + 1;
            proof {
                let prev = text_lines(before);
                let next = text_lines(after);
                assert(next == prev.push(Seq::<char>::empty()));
                assert(chars@.subrange(cur as int, i + 1) =~= Seq::<char>::empty());
                assert forall|j: int| 0 <= j < ranges.len() implies #[trigger] ranges[j].0
                    <= ranges[j].1 <= cur by {
                    if j < old_ranges.len() {
                        assert(ranges[j] == old_ranges[j]);
                        assert(old_ranges[j].0 <= old_ranges[j].1 <= old_cur);
                    } else {
                        assert(j == old_ranges.len());
                        assert(ranges[j] == (old_cur, i));
                    }
                }
                assert forall|j: int| 0 <= j < ranges.len() implies {
                    #[trigger] range_text(chars@, ranges[j]) == next[j]
                } by {
                    if j < old_ranges.len() {
                        assert(ranges[j] == old_ranges[j]);
                        assert(next[j] == prev[j]);
                        assert(range_text(chars@, old_ranges[j]) == prev[j]);
                    }
                }
            }
        } else {
            proof {
                lemma_lines_nonempty(before);
                let prev = text_lines(before);
                let next = text_lines(after);
                assert(next == prev.update(prev.len() - 1, prev.last().push(c)));
                assert(chars@.subrange(cur as int, i + 1) =~= chars@.subrange(
                    cur as int,
                    i as int,
                ).push(c));
                assert forall|j: int| 0 <= j < ranges.len() implies {
                    #[trigger] range_text(chars@, ranges[j]) == next[j]
                } by {
                    assert(next[j] == prev[j]);
                    assert(range_text(chars@, ranges[j]) == prev[j]);
                }
            }
        }
        i = i + 1;
        proof {
            assert(chars@.take(i as int) == after);
        }
    }
    proof {
        assert(chars@.take(n as int) =~= chars@);
    }
    let ghost old_ranges = ranges@;
    ranges.push((cur, n));
    proof {
        let lines = text_lines(chars@);
        assert forall|j: int| 0 <= j < ranges.len() implies #[trigger] ranges[j].0
            <= ranges[j].1 <= chars.len() by {
            if j < old_ranges.len() {
                assert(ranges[j] == old_ranges[j]);
                assert(old_ranges[j].0 <= old_ranges[j].1 <= cur);
            }
        }
        assert forall|j: int| 0 <= j < ranges.len() implies #[trigger] range_text(
            chars@,
            ranges[j],
        ) == lines[j] by {
            if j < old_ranges.len() {
                assert(ranges[j] == old_ranges[j]);
                assert(range_text(chars@, old_ranges[j]) == lines[j]);
            }
        }
    }
    ranges
}

/// A run of `MARKER_LEN` copies of `c` starts at position `i` of `line`.
pub open spec fn run_at(line: Seq<char>, i: int, c: char) -> bool {
    &&& 0 <= i
    &&& i + MARKER_LEN <= line.len()
    &&& forall|k: int| i <= k < i + MARKER_LEN ==> line[k] == c
}

/// `line` holds `MARKER_LEN` consecutive copies of `c` somewhere.
pub open spec fn has_marker(line: Seq<char>, c: char) -> bool {
    exists|i: int| run_at(line, i, c)
}

/// A line that opens a conflict (`<<<<<<<`).
pub open spec fn opens_conflict(line: Seq<char>) -> bool {
    has_marker(line, '<')
}

/// A line that closes a conflict (`>>>>>>>`) and does not open one.
pub open spec fn closes_conflict(line: Seq<char>) -> bool {
    has_marker(line, '>') && !has_marker(line, '<')
}

/// Index of the last line that opens a conflict.
pub open spec fn last_open(lines: Seq<Seq<char>>) -> Option<int>
    decreases lines.len(),
{
    if lines.len() == 0 {
        None
    } else if opens_conflict(lines.last()) {
        Some(lines.len() - 1)
    } else {
        last_open(lines.drop_last())
    }
}

/// Index of the last line that closes a conflict.
pub open spec fn last_close(lines: Seq<Seq<char>>) -> Option<int>
    decreases lines.len(),
{
    if lines.len() == 0 {
        None
    } else if closes_conflict(lines.last()) {
        Some(lines.len() - 1)
    } else {
        last_close(lines.drop_last())
    }
}

proof fn lemma_last_in_bounds(lines: Seq<Seq<char>>)
    ensures
        last_open(lines) is Some ==> 0 <= last_open(lines)->0 < lines.len() && opens_conflict(
            lines[last_open(lines)->0],
        ),
        last_close(lines) is Some ==> 0 <= last_close(lines)->0 < lines.len() && closes_conflict(
            lines[last_close(lines)->0],
        ),
        (forall|j: int| 0 <= j < lines.len() ==> !opens_conflict(#[trigger] lines[j])) ==> last_open(
            lines,
        ) is None,
        (forall|j: int| 0 <= j < lines.len() ==> !closes_conflict(#[trigger] lines[j]))
            ==> last_close(lines) is None,
    decreases lines.len(),
{
    if lines.len() > 0 {
        let prev = lines.drop_last();
        lemma_last_in_bounds(prev);
        assert forall|j: int| 0 <= j < prev.len() implies prev[j] == lines[j] by {}
        if forall|j: int| 0 <= j < lines.len() ==> !opens_conflict(#[trigger] lines[j]) {
            assert(!opens_conflict(lines[lines.len() - 1]));
        }
        if forall|j: int| 0 <= j < lines.len() ==> !closes_conflict(#[trigger] lines[j]) {
            assert(!closes_conflict(lines[lines.len() - 1]));
        }
    }
}

/// First line of the window around a conflict opened at line `open`.
pub open spec fn window_start(open: int) -> int {
    if open >= CONTEXT_LINES {
        open - CONTEXT_LINES
    } else {
        0
    }
}

/// One past the last line of the window around a conflict closed at line
/// `close`, in a text of `n` lines.
pub open spec fn window_end(n: int, close: int) -> int {
    if close + CONTEXT_LINES + 1 <= n {
        close + CONTEXT_LINES + 1
    } else {
        n
    }
}

/// The lines from `CONTEXT_LINES` before `open` through `CONTEXT_LINES` after
/// `close`, clamped to the text; empty when the markers are out of order.
pub open spec fn marked_window(lines: Seq<Seq<char>>, open: int, close: int) -> Seq<Seq<char>> {
    let lo = window_start(open);
    let hi = window_end(lines.len() as int, close);
    if lo < hi {
        lines.subrange(lo, hi)
    } else {
        Seq::empty()
    }
}

/// The lines joined with `'\n'` between them.
pub open spec fn join_lines(ls: Seq<Seq<char>>) -> Seq<char>
    decreases ls.len(),
{
    if ls.len() == 0 {
        Seq::empty()
    } else if ls.len() == 1 {
        ls[0]
    } else {
        join_lines(ls.drop_last()) + seq!['\n'] + ls.last()
    }
}

/// Text over `MAX_EXCERPT_CHARS` characters is cut there and marked.
pub open spec fn truncate_excerpt(t: Seq<char>) -> Seq<char> {
    if t.len() > MAX_EXCERPT_CHARS {
        t.take(MAX_EXCERPT_CHARS as int) + TRUNCATION_NOTE@
    } else {
        t
    }
}

/// The excerpt of a side of a conflicted file: the window of lines around its
/// markers when it has both, the whole text otherwise, bounded either way.
pub open spec fn excerpt(s: Seq<char>) -> Seq<char> {
    let lines = text_lines(s);
    if last_open(lines) is Some && last_close(lines) is Some {
        truncate_excerpt(
            join_lines(marked_window(lines, last_open(lines)->0, last_close(lines)->0)),
        )
    } else {
        truncate_excerpt(s)
    }
}

/// Text in which no line opens a conflict, or no line closes one, is kept
/// whole when it has at most `MAX_EXCERPT_CHARS` characters; longer text
/// becomes exactly its first `MAX_EXCERPT_CHARS` characters followed by the
/// truncation note.
pub proof fn lemma_unmarked_text_bounded(s: Seq<char>)
    requires
        (forall|j: int|
            0 <= j < text_lines(s).len() ==> !opens_conflict(#[trigger] text_lines(s)[j])) || (
        forall|j: int|
            0 <= j < text_lines(s).len() ==> !closes_conflict(#[trigger] text_lines(s)[j])),
    ensures
        s.len() <= MAX_EXCERPT_CHARS ==> excerpt(s) == s,
        s.len() > MAX_EXCERPT_CHARS ==> excerpt(s) == s.take(MAX_EXCERPT_CHARS as int)
            + TRUNCATION_NOTE@,
        s.len() > MAX_EXCERPT_CHARS ==> excerpt(s).len() == MAX_EXCERPT_CHARS
            + TRUNCATION_NOTE@.len(),
{
    lemma_last_in_bounds(text_lines(s));
}

/// In text whose last opening marker line `a` comes no later than its last
/// closing marker line `b`, the excerpt is built from one contiguous run of
/// the text's lines that starts at most `CONTEXT_LINES` before `a` and ends at
/// most `CONTEXT_LINES` after `b`, includes both marker lines, and is kept
/// whole when it fits in `MAX_EXCERPT_CHARS` characters.
pub proof fn lemma_marked_window_keeps_markers(s: Seq<char>)
    requires
        last_open(text_lines(s)) is Some,
        last_close(text_lines(s)) is Some,
        last_open(text_lines(s))->0 <= last_close(text_lines(s))->0,
    ensures
        ({
            let lines = text_lines(s);
            let a = last_open(lines)->0;
            let b = last_close(lines)->0;
            let lo = window_start(a);
            let hi = window_end(lines.len() as int, b);
            let w = marked_window(lines, a, b);
            &&& 0 <= lo <= a <= b < hi <= lines.len()
            &&& a - lo <= CONTEXT_LINES
            &&& hi - b <= CONTEXT_LINES + 1
            &&& w == lines.subrange(lo, hi)
            &&& opens_conflict(w[a - lo]) && w[a - lo] == lines[a]
            &&& closes_conflict(w[b - lo]) && w[b - lo] == lines[b]
            &&& join_lines(w).len() <= MAX_EXCERPT_CHARS ==> excerpt(s) == join_lines(w)
        }),
{
    lemma_last_in_bounds(text_lines(s));
}

proof fn lemma_join_extend_last(ls: Seq<Seq<char>>, c: char)
    requires
        ls.len() >= 1,
    ensures
        join_lines(ls.update(ls.len() - 1, ls.last().push(c))) == join_lines(ls).push(c),
{
    let up = ls.update(ls.len() - 1, ls.last().push(c));
    if ls.len() == 1 {
        assert(up[0] == ls[0].push(c));
    } else {
        assert(up.drop_last() =~= ls.drop_last());
        assert(join_lines(up) =~= join_lines(ls).push(c));
    }
}

proof fn lemma_join_lines_inverse(s: Seq<char>)
    ensures
        join_lines(text_lines(s)) == s,
    decreases s.len(),
{
    if s.len() == 0 {
        assert(join_lines(text_lines(s)) =~= s);
    } else {
        let p = s.drop_last();
        lemma_join_lines_inverse(p);
        lemma_lines_nonempty(p);
        let prev = text_lines(p);
        if s.last() == '\n' {
            let ls = prev.push(Seq::<char>::empty());
            assert(ls.drop_last() =~= prev);
            assert(join_lines(ls) =~= s);
        } else {
            lemma_join_extend_last(prev, s.last());
            assert(p.push(s.last()) =~= s);
        }
    }
}

/// Joining the lines of a text with newlines gives the text back; so a
/// marked text whose window reaches its first and last lines, and that fits
/// in `MAX_EXCERPT_CHARS` characters, is its own excerpt.
pub proof fn lemma_whole_window_unchanged(s: Seq<char>)
    requires
        last_open(text_lines(s)) is Some,
        last_close(text_lines(s)) is Some,
        last_open(text_lines(s))->0 <= CONTEXT_LINES,
        last_close(text_lines(s))->0 + CONTEXT_LINES + 1 >= text_lines(s).len(),
        s.len() <= MAX_EXCERPT_CHARS,
    ensures
        join_lines(text_lines(s)) == s,
        excerpt(s) == s,
{
    let lines = text_lines(s);
    lemma_join_lines_inverse(s);
    lemma_lines_nonempty(s);
    lemma_last_in_bounds(lines);
    assert(lines.subrange(0, lines.len() as int) =~= lines);
}

/// Whether the line occupying `r` holds a marker run of `c`.
fn range_has_marker(chars: &Vec<char>, r: (usize, usize), c: char) -> (found: bool)
    requires
        r.0 <= r.1 <= chars.len(),
    ensures
        found == has_marker(range_text(chars@, r), c),
{
    let lo = r.0;
    let hi = r.1;
    let ghost line = range_text(chars@, r);
    let mut p: usize = lo;
    while hi - p >= MARKER_LEN
        invariant
            lo <= p <= hi,
            hi <= chars.len(),
            line == chars@.subrange(lo as int, hi as int),
            line == range_text(chars@, r),
            forall|q: int| 0 <= q < p - lo ==> !#[trigger] run_at(line, q, c),
        decreases hi - p,
    {
        let mut k: usize = 0;
        let mut all = true;
        while k < MARKER_LEN
            invariant
                k <= MARKER_LEN,
                p + MARKER_LEN <= hi <= chars.len(),
                all == forall|t: int| p <= t < p + k ==> chars@[t] == c,
            decreases MARKER_LEN - k,
        {
            if chars[p + k] != c {
                all = false;
            }
            k = k + 1;
        }
        if all {
            proof {
                let q = p - lo;
                assert forall|x: int| q <= x < q + MARKER_LEN implies line[x] == c by {
                    assert(chars@[lo + x] == c);
                }
                assert(run_at(line, q, c));
                assert(has_marker(line, c));
            }
            return true;
        }
        proof {
            let q = p - lo;
            assert(!run_at(line, q, c)) by {
                if run_at(line, q, c) {
                    assert forall|t: int| p <= t < p + MARKER_LEN implies chars@[t] == c by {
                        assert(line[t - lo] == c);
                    }
                }
            }
        }
        p = p + 1;
    }
    proof {
        assert forall|q: int| !run_at(line, q, c) by {
            if 0 <= q < p - lo {
            }
        }
    }
    false
}

pub open spec fn index_of(o: Option<usize>) -> Option<int> {
    match o {
        Some(x) => Some(x as int),
        None => None,
    }
}

/// The last opening and the last closing line among `ranges`.
fn find_markers(chars: &Vec<char>, ranges: &Vec<(usize, usize)>) -> (r: (
    Option<usize>,
    Option<usize>,
))
    requires
        ranges_are_lines(chars@, ranges@),
    ensures
        index_of(r.0) == last_open(text_lines(chars@)),
        index_of(r.1) == last_close(text_lines(chars@)),
{
    let ghost lines = text_lines(chars@);
    let mut open: Option<usize> = None;
    let mut close: Option<usize> = None;
    let mut j: usize = 0;
    proof {
        assert(lines.take(0) =~= Seq::<Seq<char>>::empty());
    }
    while j < ranges.len()
        invariant
            j <= ranges.len(),
            ranges_are_lines(chars@, ranges@),
            lines == text_lines(chars@),
            index_of(open) == last_open(lines.take(j as int)),
            index_of(close) == last_close(lines.take(j as int)),
        decreases ranges.len() - j,
    {
        let r = ranges[j];
        proof {
            assert(r.0 <= r.1 <= chars.len());
            assert(range_text(chars@, r) == lines[j as int]);
            assert(lines.take(j + 1).drop_last() =~= lines.take(j as int));
            assert(lines.take(j + 1).last() == lines[j as int]);
        }
        if range_has_marker(chars, r, '<') {
            open = Some(j);
        } else if range_has_marker(chars, r, '>') {
            close = Some(j);
        }
        j = j + 1;
    }
    proof {
        assert(lines.take(j as int) =~= lines);
    }
    (open, close)
}

/// The lines `ranges[lo..hi]` joined with newlines.
fn join_ranges(chars: &Vec<char>, ranges: &Vec<(usize, usize)>, lo: usize, hi: usize) -> (r: Vec<
    char,
>)
    requires
        ranges_are_lines(chars@, ranges@),
        lo <= hi <= ranges.len(),
    ensures
        r@ == join_lines(text_lines(chars@).subrange(lo as int, hi as int)),
{
    let ghost lines = text_lines(chars@);
    let mut joined: Vec<char> = Vec::new();
    let mut w: usize = lo;
    proof {
        assert(lines.subrange(lo as int, lo as int) =~= Seq::<Seq<char>>::empty());
    }
    while w < hi
        invariant
            lo <= w <= hi <= ranges.len(),
            ranges_are_lines(chars@, ranges@),
            lines == text_lines(chars@),
            joined@ == join_lines(lines.subrange(lo as int, w as int)),
        decreases hi - w,
    {
        let ghost before = joined@;
        if w > lo {
            joined.push('\n');
        }
        let ghost prefix = joined@;
        let a = ranges[w].0;
        let b = ranges[w].1;
        proof {
            assert(a <= b <= chars.len());
        }
        let mut k: usize = a;
        while k < b
            invariant
                a <= k <= b <= chars.len(),
                joined@ == prefix + chars@.subrange(a as int, k as int),
            decreases b - k,
        {
            joined.push(chars[k]);
            proof {
                assert(chars@.subrange(a as int, k + 1) =~= chars@.subrange(a as int, k as int).push(
                    chars@[k as int],
                ));
            }
            k = k + 1;
        }
        proof {
            let ls = lines.subrange(lo as int, w + 1);
            assert(range_text(chars@, ranges[w as int]) == lines[w as int]);
            assert(ls.drop_last() =~= lines.subrange(lo as int, w as int));
            assert(ls.last() == lines[w as int]);
            if w > lo {
                assert(joined@ =~= before + seq!['\n'] + lines[w as int]);
            } else {
                assert(before =~= Seq::<char>::empty());
                assert(joined@ =~= ls[0]);
            }
        }
        w = w + 1;
    }
    joined
}

/// `t` as a string, cut at `MAX_EXCERPT_CHARS` characters and marked when it
/// is longer.
fn bounded_text(t: &Vec<char>) -> (r: String)
    ensures
        r@ == truncate_excerpt(t@),
{
    let m: usize = if t.len() > MAX_EXCERPT_CHARS {
        MAX_EXCERPT_CHARS
    } else {
        t.len()
    };
    let mut out = String::new();
    let mut k: usize = 0;
    while k < m
        invariant
            k <= m <= t.len(),
            out@ == t@.take(k as int),
        decreases m - k,
    {
        push_char(&mut out, t[k]);
        proof {
            assert(t@.take(k + 1) =~= t@.take(k as int).push(t@[k as int]));
        }
        k = k + 1;
    }
    if t.len() > MAX_EXCERPT_CHARS {
        out.append(TRUNCATION_NOTE);
    } else {
        proof {
            assert(t@.take(m as int) =~= t@);
        }
    }
    out
}

/// Reduces one side of a conflicted file to a bounded excerpt: the lines from
/// `CONTEXT_LINES` before the last opening marker through `CONTEXT_LINES` after
/// the last closing marker, or the whole text when either marker is missing;
/// either way cut at `MAX_EXCERPT_CHARS` characters with `TRUNCATION_NOTE`
/// appended.
pub fn extract_conflict_content(content: &str) -> (r: String)
    ensures
        r@ == excerpt(content@),
{
    let chars = chars_of(content);
    let ranges = line_ranges(&chars);
    let (open, close) = find_markers(&chars, &ranges);
    match (open, close) {
        (Some(a), Some(b)) => {
            let lo: usize = if a >= CONTEXT_LINES {
                a - CONTEXT_LINES
            } else {
                0
            };
            proof {
                lemma_last_in_bounds(text_lines(chars@));
            }
            let hi: usize = if CONTEXT_LINES + 1 <= ranges.len() - b {
                b + CONTEXT_LINES + 1
            } else {
                ranges.len()
            };
            let joined = if lo < hi {
                join_ranges(&chars, &ranges, lo, hi)
            } else {
                proof {
                    assert(join_lines(Seq::<Seq<char>>::empty()) == Seq::<char>::empty());
                }
                Vec::new()
            };
            bounded_text(&joined)
        },
        _ => bounded_text(&chars),
    }
}

} // verus!
