//! The shape of `git diff` text that the diff view hands to the `patch`
//! parser.
//!
//! `patch::Patch::from_single` panics on two kinds of input instead of
//! failing: a hunk header number larger than a `u64` holds, and text left
//! over after the hunks that is not the missing-newline marker followed by
//! blank lines. [`patch_input_ok`] refuses the texts on which either can
//! happen, following the parser's own reading. The parser skips everything
//! before the first `---`; the line holding it and the next one are the file
//! headers, and the hunks are read from the line after them. So nothing
//! before that line is looked at. If that line does not open a hunk
//! (`@@ -`), the parser fails there, and the text is admitted. Otherwise,
//! from that line on, the text must be hunks (a header followed by at least
//! one `+`, `-` or ` ` line), then at most one missing-newline marker, then
//! blank lines. Every such line ends with a newline (a `\r` may stand only
//! just before it), except that the marker may end the text. Numbers in a
//! hunk header fit in a `u64`. A text refused here is one the parser does
//! not read: it panics on it, or fails.

use vstd::prelude::*;
use crate::text::{split_on, split_spec};

verus! {

/// Whether `pat` stands in `s` from position `at`.
pub open spec fn at_spec(s: Seq<char>, at: int, pat: Seq<char>) -> bool {
    0 <= at && at + pat.len() <= s.len() && s.subrange(at, at + pat.len()) == pat
}

/// Whether `pat` stands in `s` from character `at`.
pub fn matches_at(s: &str, at: usize, pat: &str) -> (r: bool)
    ensures
        r == at_spec(s@, at as int, pat@),
{
    let n = s.unicode_len();
    let m = pat.unicode_len();
    if at > n || m > n - at {
        return false;
    }
    let mut k: usize = 0;
    while k < m
        invariant
            n == s@.len(),
            m == pat@.len(),
            at + m <= n,
            k <= m,
            forall|j: int| 0 <= j < k ==> s@[at + j] == pat@[j],
        decreases m - k,
    {
        if s.get_char(at + k) != pat.get_char(k) {
            assert(s@.subrange(at as int, at + m)[k as int] != pat@[k as int]);
            return false;
        }
        k = k + 1;
    }
    assert(s@.subrange(at as int, at + m) =~= pat@);
    true
}

pub open spec fn is_ascii_digit(c: char) -> bool {
    '0' <= c && c <= '9'
}

/// How many ASCII digits follow one another in `s` from position `i`.
pub open spec fn digits_len(s: Seq<char>, i: int) -> nat
    decreases s.len() - i,
{
    if 0 <= i < s.len() && is_ascii_digit(s[i]) {
        1 + digits_len(s, i + 1)
    } else {
        0
    }
}

/// The value of a run of decimal digits.
pub open spec fn decimal_value(ds: Seq<char>) -> int
    decreases ds.len(),
{
    if ds.len() == 0 {
        0
    } else {
        decimal_value(ds.drop_last()) * 10 + (ds.last() as int - '0' as int)
    }
}

/// Where a number that `u64` holds, written from position `i`, ends; `None`
/// when no digit stands there or the number is too large.
pub open spec fn number_end(s: Seq<char>, i: int) -> Option<int> {
    let d = digits_len(s, i);
    if d >= 1 && decimal_value(s.subrange(i, i + d)) <= u64::MAX {
        Some(i + d)
    } else {
        None
    }
}

/// Where a hunk range (`start` or `start,count`, each a number that `u64`
/// holds) that begins at `i` ends, or `None` when none begins there.
pub open spec fn range_end(s: Seq<char>, i: int) -> Option<int> {
    match number_end(s, i) {
        None => None,
        Some(j) => if j < s.len() && s[j] == ',' { number_end(s, j + 1) } else { Some(j) },
    }
}

fn read_number(s: &str, i: usize) -> (r: Option<usize>)
    requires
        i <= s@.len(),
    ensures
        match r {
            Some(j) => number_end(s@, i as int) == Some(j as int),
            None => number_end(s@, i as int) is None,
        },
        r matches Some(j) ==> j <= s@.len(),
{
    let n = s.unicode_len();
    let mut j: usize = i;
    let mut v: u64 = 0;
    let mut fits = true;
    assert(s@.subrange(i as int, i as int) =~= Seq::<char>::empty());
    while j < n && '0' <= s.get_char(j) && s.get_char(j) <= '9'
        invariant
            n == s@.len(),
            i <= j <= n,
            digits_len(s@, i as int) == (j - i) + digits_len(s@, j as int),
            forall|k: int| i <= k < j ==> is_ascii_digit(#[trigger] s@[k]),
            fits ==> v == decimal_value(s@.subrange(i as int, j as int)),
            !fits ==> decimal_value(s@.subrange(i as int, j as int)) > u64::MAX,
        decreases n - j,
    {
        let c = s.get_char(j);
        let ghost before = s@.subrange(i as int, j as int);
        assert(s@.subrange(i as int, j + 1).drop_last() =~= before);
        assert(s@.subrange(i as int, j + 1).last() == c);
        if fits {
            let digit = (c as u32 - '0' as u32) as u64;
            match v.checked_mul(10) {
                Some(t) => match t.checked_add(digit) {
                    Some(w) => {
                        v = w;
                    }
                    None => {
                        fits = false;
                    }
                },
                None => {
                    fits = false;
                }
            }
        }
        j = j + 1;
    }
    proof {
        lemma_digits_within(s@, i as int);
    }
    if j > i && fits {
        Some(j)
    } else {
        None
    }
}

fn hunk_range_end(s: &str, i: usize) -> (r: Option<usize>)
    requires
        i <= s@.len(),
    ensures
        match r {
            Some(j) => range_end(s@, i as int) == Some(j as int),
            None => range_end(s@, i as int) is None,
        },
        r matches Some(j) ==> j <= s@.len(),
{
    let n = s.unicode_len();
    match read_number(s, i) {
        None => None,
        Some(j) => {
            proof {
                lemma_digits_within(s@, i as int);
            }
            if j < n && s.get_char(j) == ',' {
                read_number(s, j + 1)
            } else {
                Some(j)
            }
        }
    }
}

proof fn lemma_digits_within(s: Seq<char>, i: int)
    requires
        0 <= i <= s.len(),
    ensures
        i + digits_len(s, i) <= s.len(),
    decreases s.len() - i,
{
    if i < s.len() && is_ascii_digit(s[i]) {
        lemma_digits_within(s, i + 1);
    }
}

/// Whether a carriage return stands in `s` nowhere but as its last character.
pub open spec fn cr_only_at_end(s: Seq<char>) -> bool {
    forall|i: int| 0 <= i < s.len() - 1 ==> s[i] != '\r'
}

fn cr_only_at_end_exec(s: &str) -> (r: bool)
    ensures
        r == cr_only_at_end(s@),
{
    let n = s.unicode_len();
    if n == 0 {
        return true;
    }
    let mut i: usize = 0;
    while i < n - 1
        invariant
            n == s@.len(),
            n >= 1,
            forall|j: int| 0 <= j < i ==> s@[j] != '\r',
        decreases n - i,
    {
        if s.get_char(i) == '\r' {
            return false;
        }
        i = i + 1;
    }
    true
}

/// A hunk header: `@@ -` range ` +` range ` @@`, then anything.
pub open spec fn is_hunk_header(s: Seq<char>) -> bool {
    &&& cr_only_at_end(s)
    &&& at_spec(s, 0, "@@ -"@)
    &&& match range_end(s, 4) {
        Some(j) => at_spec(s, j, " +"@) && match range_end(s, j + 2) {
            Some(k) => at_spec(s, k, " @@"@),
            None => false,
        },
        None => false,
    }
}

fn is_hunk_header_exec(s: &str) -> (r: bool)
    ensures
        r == is_hunk_header(s@),
{
    let n = s.unicode_len();
    if !cr_only_at_end_exec(s) || !matches_at(s, 0, "@@ -") {
        return false;
    }
    proof {
        reveal_strlit("@@ -");
    }
    match hunk_range_end(s, 4) {
        Some(j) => {
            if !matches_at(s, j, " +") {
                return false;
            }
            proof {
                reveal_strlit(" +");
            }
            assert(j + 2 <= n);
            match hunk_range_end(s, j + 2) {
                Some(k) => matches_at(s, k, " @@"),
                None => false,
            }
        }
        None => false,
    }
}

/// A line of a hunk: an added (`+`, but not `+++ `), removed (`-`, but not
/// `--- `) or context (` `) line.
pub open spec fn is_hunk_line(s: Seq<char>) -> bool {
    &&& cr_only_at_end(s)
    &&& s.len() >= 1
    &&& (s[0] == ' ' || (s[0] == '+' && !at_spec(s, 0, "+++ "@)) || (s[0] == '-' && !at_spec(s, 0, "--- "@)))
}

fn is_hunk_line_exec(s: &str) -> (r: bool)
    ensures
        r == is_hunk_line(s@),
{
    if s.unicode_len() == 0 || !cr_only_at_end_exec(s) {
        return false;
    }
    let c = s.get_char(0);
    c == ' ' || (c == '+' && !matches_at(s, 0, "+++ ")) || (c == '-' && !matches_at(s, 0, "--- "))
}

/// An empty line, or one holding only a carriage return.
pub open spec fn is_blank(s: Seq<char>) -> bool {
    s.len() == 0 || (s.len() == 1 && s[0] == '\r')
}

/// The marker `git diff` writes after a last line that has no newline.
pub open spec fn no_newline_marker() -> Seq<char> {
    "\\ No newline at end of file"@
}

/// The marker line, possibly followed by a carriage return.
pub open spec fn is_marker_line(s: Seq<char>) -> bool {
    let m = no_newline_marker();
    at_spec(s, 0, m) && (s.len() == m.len() || (s.len() == m.len() + 1 && s[s.len() - 1] == '\r'))
}

fn is_marker_line_exec(s: &str) -> (r: bool)
    ensures
        r == is_marker_line(s@),
{
    let marker = "\\ No newline at end of file";
    let m = marker.unicode_len();
    let n = s.unicode_len();
    matches_at(s, 0, marker) && (n == m || (n == m + 1 && s.get_char(n - 1) == '\r'))
}

/// Where the reading of a diff text stands.
#[derive(Clone, Copy, Debug, PartialEq, Eq, Structural)]
pub enum DiffScan {
    /// On the line after the file headers, where the hunks begin.
    Start,
    /// The parser stops before any hunk; what follows does not matter.
    Free,
    /// Just after a hunk header: a hunk line must follow.
    Header,
    /// Within a hunk, after at least one of its lines.
    Body,
    /// After the missing-newline marker.
    Marker,
    /// After the blank lines that may end the text.
    Trailing,
}

/// The state after a line that ends with a newline, or `None` when the line
/// may not stand there.
pub open spec fn scan_line(st: DiffScan, l: Seq<char>) -> Option<DiffScan> {
    match st {
        DiffScan::Start => if at_spec(l, 0, "@@ -"@) {
            if is_hunk_header(l) { Some(DiffScan::Header) } else { None }
        } else {
            Some(DiffScan::Free)
        },
        DiffScan::Free => Some(DiffScan::Free),
        DiffScan::Header => if is_hunk_line(l) { Some(DiffScan::Body) } else { None },
        DiffScan::Body => if is_hunk_line(l) {
            Some(DiffScan::Body)
        } else if is_hunk_header(l) {
            Some(DiffScan::Header)
        } else if is_marker_line(l) {
            Some(DiffScan::Marker)
        } else if is_blank(l) {
            Some(DiffScan::Trailing)
        } else {
            None
        },
        DiffScan::Marker | DiffScan::Trailing => if is_blank(l) { Some(DiffScan::Trailing) } else { None },
    }
}

/// Whether the text may end, in state `st`, with `l` (what follows the last
/// newline).
pub open spec fn scan_end(st: DiffScan, l: Seq<char>) -> bool {
    if l.len() == 0 {
        st != DiffScan::Header
    } else {
        match st {
            DiffScan::Start => !at_spec(l, 0, "@@ -"@),
            DiffScan::Free => true,
            DiffScan::Body => l == no_newline_marker(),
            _ => false,
        }
    }
}

/// Whether the pieces of a text between its newlines read, from state `st`,
/// as the shape this module describes.
pub open spec fn scan_pieces(st: DiffScan, ps: Seq<Seq<char>>) -> bool
    decreases ps.len(),
{
    if ps.len() <= 1 {
        ps.len() == 1 && scan_end(st, ps[0])
    } else {
        match scan_line(st, ps[0]) {
            Some(next) => scan_pieces(next, ps.drop_first()),
            None => false,
        }
    }
}

/// Whether `---` stands somewhere in `l`.
pub open spec fn has_dashes(l: Seq<char>) -> bool {
    exists|j: int| at_spec(l, j, "---"@)
}

/// The first of the pieces `ps`, from `i` on, that holds `---`.
pub open spec fn first_dashes(ps: Seq<Seq<char>>, i: int) -> Option<int>
    decreases ps.len() - i,
{
    if i < 0 || i >= ps.len() {
        None
    } else if has_dashes(ps[i]) {
        Some(i)
    } else {
        first_dashes(ps, i + 1)
    }
}

/// Whether `text` is one the `patch` parser reads without panicking (see
/// the module's documentation): the lines from the one after the file
/// headers on are scanned; a text without `---`, or whose headers end the
/// text, has no hunks for the parser to read.
pub open spec fn patch_input_ok(text: Seq<char>) -> bool {
    let ps = split_spec(text, '\n');
    match first_dashes(ps, 0) {
        None => true,
        Some(k) => k + 2 >= ps.len() || scan_pieces(DiffScan::Start, ps.skip(k + 2)),
    }
}

fn has_dashes_exec(l: &str) -> (r: bool)
    ensures
        r == has_dashes(l@),
{
    let n = l.unicode_len();
    proof {
        reveal_strlit("---");
    }
    let mut i: usize = 0;
    while i < n
        invariant
            n == l@.len(),
            i <= n,
            forall|j: int| 0 <= j < i ==> !at_spec(l@, j, "---"@),
        decreases n - i,
    {
        if matches_at(l, i, "---") {
            return true;
        }
        i = i + 1;
    }
    assert forall|j: int| !at_spec(l@, j, "---"@) by {
        if 0 <= j < i {
        }
    }
    false
}

fn scan_line_exec(st: DiffScan, l: &str) -> (r: Option<DiffScan>)
    ensures
        r == scan_line(st, l@),
{
    match st {
        DiffScan::Start => if matches_at(l, 0, "@@ -") {
            if is_hunk_header_exec(l) { Some(DiffScan::Header) } else { None }
        } else {
            Some(DiffScan::Free)
        },
        DiffScan::Free => Some(DiffScan::Free),
        DiffScan::Header => if is_hunk_line_exec(l) { Some(DiffScan::Body) } else { None },
        DiffScan::Body => if is_hunk_line_exec(l) {
            Some(DiffScan::Body)
        } else if is_hunk_header_exec(l) {
            Some(DiffScan::Header)
        } else if is_marker_line_exec(l) {
            Some(DiffScan::Marker)
        } else if l.unicode_len() == 0 || (l.unicode_len() == 1 && l.get_char(0) == '\r') {
            Some(DiffScan::Trailing)
        } else {
            None
        },
        DiffScan::Marker | DiffScan::Trailing => if l.unicode_len() == 0 || (l.unicode_len() == 1 && l.get_char(0) == '\r') {
            Some(DiffScan::Trailing)
        } else {
            None
        },
    }
}

fn scan_end_exec(st: DiffScan, l: &str) -> (r: bool)
    ensures
        r == scan_end(st, l@),
{
    if l.unicode_len() == 0 {
        return st != DiffScan::Header;
    }
    match st {
        DiffScan::Start => !matches_at(l, 0, "@@ -"),
        DiffScan::Free => true,
        DiffScan::Body => crate::text::str_eq(l, "\\ No newline at end of file"),
        _ => false,
    }
}

proof fn lemma_split_nonempty(s: Seq<char>, sep: char)
    ensures
        split_spec(s, sep).len() >= 1,
{
    reveal(split_spec);
}

/// Whether the `patch` parser can be handed `text` (see [`patch_input_ok`]).
pub fn patch_input_screened(text: &str) -> (r: bool)
    ensures
        r == patch_input_ok(text@),
{
    let pieces = split_on(text, '\n');
    let ghost ps = pieces@.map_values(|p: String| p@);
    proof {
        lemma_split_nonempty(text@, '\n');
    }
    let n = pieces.len();
    let mut k: usize = 0;
    while k < n && !has_dashes_exec(pieces[k].as_str())
        invariant
            ps == pieces@.map_values(|p: String| p@),
            ps == split_spec(text@, '\n'),
            n == ps.len(),
            k <= n,
            first_dashes(ps, 0) == first_dashes(ps, k as int),
        decreases n - k,
    {
        proof {
            assert(ps[k as int] == pieces@[k as int]@);
        }
        k = k + 1;
    }
    proof {
        if k < n {
            assert(ps[k as int] == pieces@[k as int]@);
        }
    }
    if k >= n || n - k <= 2 {
        return true;
    }
    let mut st = DiffScan::Start;
    let mut i: usize = k + 2;
    proof {
        assert(ps.skip(i as int).len() >= 1);
    }
    while i + 1 < n
        invariant
            ps == pieces@.map_values(|p: String| p@),
            ps == split_spec(text@, '\n'),
            n == ps.len(),
            k + 2 <= i,
            i + 1 <= n,
            first_dashes(ps, 0) == Some(k as int),
            patch_input_ok(text@) == scan_pieces(st, ps.skip(i as int)),
        decreases n - i,
    {
        let line = pieces[i].as_str();
        proof {
            assert(ps.skip(i as int).drop_first() =~= ps.skip(i + 1));
            assert(ps.skip(i as int)[0] == line@);
        }
        match scan_line_exec(st, line) {
            Some(next) => {
                st = next;
            }
            None => {
                return false;
            }
        }
        i = i + 1;
    }
    assert(ps.skip(i as int).len() == 1);
    assert(ps.skip(i as int)[0] == pieces@[i as int]@);
    scan_end_exec(st, pieces[i].as_str())
}

} // verus!
