//! Pattern search over the document's lines.

use vstd::prelude::*;
use crate::cursor::Cursor;
use crate::model::MAX_LINE_LEN;

verus! {

/// A compiled regular expression, carried opaque.
#[verifier::external_type_specification]
#[verifier::external_body]
pub struct ExRegex(regex::Regex);

/// Whether the regular-expression engine accepts `pattern`.
pub uninterp spec fn pattern_compiles(pattern: Seq<char>) -> bool;

/// The character index at which each successive non-overlapping match of
/// `pattern` in `line` starts, leftmost first.
pub uninterp spec fn match_starts(pattern: Seq<char>, line: Seq<char>) -> Seq<usize>;

/// Relies on `regex::Regex::new`: whether it accepts a pattern depends on
/// the pattern alone.
#[verifier::external_body]
fn compile(pattern: &str) -> (r: Option<regex::Regex>)
    ensures
        r is Some == pattern_compiles(pattern@),
{
    regex::Regex::new(pattern).ok()
}

/// A compiled search pattern together with its source text. The fields are
/// private and `new` is the only constructor, so `re` is always the
/// compilation of `source`.
pub struct SearchPattern {
    source: String,
    re: regex::Regex,
}

impl View for SearchPattern {
    type V = Seq<char>;

    closed spec fn view(&self) -> Seq<char> {
        self.source@
    }
}

/// Relies on `regex::Regex::find_iter`: the successive non-overlapping
/// matches of the pattern in `line`, each start turned from a byte offset
/// into the index of the character that begins there. Successive matches do
/// not overlap and an empty match is never followed by another at the same
/// place, so the starts strictly increase.
#[verifier::external_body]
fn find_starts(p: &SearchPattern, line: &str) -> (r: Vec<usize>)
    ensures
        r@ == match_starts(p@, line@),
        forall|i: int| 0 <= i < r@.len() ==> r@[i] <= line@.len(),
        forall|i: int, j: int| 0 <= i < j < r@.len() ==> r@[i] < r@[j],
{
    p.re.find_iter(line).map(|m| line[..m.start()].chars().count()).collect()
}

impl SearchPattern {
    /// Compiles `pattern`; `None` where the engine refuses it.
    pub fn new(pattern: &str) -> (r: Option<SearchPattern>)
        ensures
            r is Some == pattern_compiles(pattern@),
            r is Some ==> r->0@ == pattern@,
    {
        match compile(pattern) {
            Some(re) => Some(SearchPattern { source: pattern.to_string(), re }),
            None => None,
        }
    }

    /// Where the pattern matches in `line`, as character indices.
    pub fn starts_in(&self, line: &str) -> (r: Vec<usize>)
        ensures
            r@ == match_starts(self@, line@),
            forall|i: int| 0 <= i < r@.len() ==> r@[i] <= line@.len(),
            forall|i: int, j: int| 0 <= i < j < r@.len() ==> r@[i] < r@[j],
    {
        find_starts(self, line)
    }
}

/// Column of the first match start whose column (start + 1) exceeds
/// `min_col`.
pub open spec fn first_start_after(starts: Seq<usize>, min_col: int) -> Option<int>
    decreases starts.len(),
{
    if starts.len() == 0 {
        None
    } else if starts[0] + 1 > min_col {
        Some(starts[0] + 1)
    } else {
        first_start_after(starts.drop_first(), min_col)
    }
}

/// Column of the last match start whose column is below `max_col`: with
/// increasing starts, the nearest one left of `max_col`.
pub open spec fn last_start_before(starts: Seq<usize>, max_col: int) -> Option<int>
    decreases starts.len(),
{
    if starts.len() == 0 {
        None
    } else if starts.last() + 1 < max_col {
        Some(starts.last() + 1)
    } else {
        last_start_before(starts.drop_last(), max_col)
    }
}

/// A column bound above every column on a line.
pub open spec fn beyond_any_col() -> int {
    MAX_LINE_LEN + 2
}

/// Forward search from line index `i` on: the first match after the cursor
/// on the cursor's own line, else the first match on a later line.
pub open spec fn search_forward_from(
    pattern: Seq<char>,
    ls: Seq<Seq<char>>,
    c: Cursor,
    i: int,
) -> Option<Cursor>
    decreases ls.len() - i,
{
    if i < 0 || i >= ls.len() {
        None
    } else {
        let min = if i == c.line - 1 {
            c.col as int
        } else {
            0
        };
        match first_start_after(match_starts(pattern, ls[i]), min) {
            Some(col) => Some(Cursor { line: (i + 1) as i32, col: col as i32 }),
            None => search_forward_from(pattern, ls, c, i + 1),
        }
    }
}

/// Backward search from line index `i` up: on the cursor's own line the
/// last match before the cursor, on an earlier line its last match.
pub open spec fn search_backward_from(
    pattern: Seq<char>,
    ls: Seq<Seq<char>>,
    c: Cursor,
    i: int,
) -> Option<Cursor>
    decreases i + 1,
{
    if i < 0 || i >= ls.len() {
        None
    } else {
        let max = if i == c.line - 1 {
            c.col as int
        } else {
            beyond_any_col()
        };
        match last_start_before(match_starts(pattern, ls[i]), max) {
            Some(col) => Some(Cursor { line: (i + 1) as i32, col: col as i32 }),
            None => search_backward_from(pattern, ls, c, i - 1),
        }
    }
}

/// The column of the first match start in `starts` whose column exceeds
/// `min_col`.
pub fn first_match_after(starts: &Vec<usize>, min_col: i32) -> (r: Option<i32>)
    requires
        forall|i: int| 0 <= i < starts@.len() ==> starts@[i] <= MAX_LINE_LEN,
    ensures
        r == (match first_start_after(starts@, min_col as int) {
            Some(c) => Some(c as i32),
            None => None,
        }),
{
    let mut i: usize = 0;
    proof {
        assert(starts@.subrange(0, starts@.len() as int) =~= starts@);
    }
    while i < starts.len()
        invariant
            i <= starts@.len(),
            forall|j: int| 0 <= j < starts@.len() ==> starts@[j] <= MAX_LINE_LEN,
            first_start_after(starts@, min_col as int) == first_start_after(
                starts@.subrange(i as int, starts@.len() as int),
                min_col as int,
            ),
        decreases starts@.len() - i,
    {
        proof {
            let rest = starts@.subrange(i as int, starts@.len() as int);
            assert(rest.drop_first() =~= starts@.subrange(i as int + 1, starts@.len() as int));
        }
        let col = starts[i] as i32 + 1;
        if col > min_col {
            return Some(col);
        }
        i = i + 1;
    }
    None
}

/// The column of the last match start in `starts` whose column is below
/// `max_col`.
pub fn last_match_before(starts: &Vec<usize>, max_col: i32) -> (r: Option<i32>)
    requires
        forall|i: int| 0 <= i < starts@.len() ==> starts@[i] <= MAX_LINE_LEN,
    ensures
        r == (match last_start_before(starts@, max_col as int) {
            Some(c) => Some(c as i32),
            None => None,
        }),
{
    let mut i: usize = starts.len();
    proof {
        assert(starts@.subrange(0, starts@.len() as int) =~= starts@);
    }
    while i > 0
        invariant
            i <= starts@.len(),
            forall|j: int| 0 <= j < starts@.len() ==> starts@[j] <= MAX_LINE_LEN,
            last_start_before(starts@, max_col as int) == last_start_before(
                starts@.subrange(0, i as int),
                max_col as int,
            ),
        decreases i,
    {
        proof {
            let front = starts@.subrange(0, i as int);
            assert(front.drop_last() =~= starts@.subrange(0, i as int - 1));
            assert(front.last() == starts@[i - 1]);
        }
        let col = starts[i - 1] as i32 + 1;
        if col < max_col {
            return Some(col);
        }
        i = i - 1;
    }
    None
}

} // verus!
