//! Decisions an editor tab makes about its text: its title, where the
//! cursor goes, and which match a search or a replacement picks.

use vstd::prelude::*;
use vstd::string::StringSliceAdditionalSpecFns;
use crate::config::{regex_matches, spec_regex_matches, FindRegex};
use crate::menu::parent_name_spec;
use crate::paths::{path_file_name, path_parent, spec_file_name};
use crate::text::{char_start, char_utf8_len, concat3, lemma_char_start_ends, lemma_char_start_step, str_eq, utf8_len};

verus! {

/// A cursor position in a document.
#[derive(Clone, Copy, Debug, PartialEq, Eq, Structural)]
pub struct CursorPosition {
    /// Line number (0-indexed).
    pub line: usize,
    /// Byte index within the line.
    pub index: usize,
}

impl CursorPosition {
    /// A new cursor position.
    pub fn new(line: usize, index: usize) -> (r: Self)
        ensures
            r.line == line,
            r.index == index,
    {
        CursorPosition { line, index }
    }
}

impl Default for CursorPosition {
    fn default() -> (r: Self)
        ensures
            r.line == 0 && r.index == 0,
    {
        CursorPosition { line: 0, index: 0 }
    }
}

/// `<parent>/<file name>` when the path has a parent directory with a name,
/// else the file name alone.
pub open spec fn title_with_parent_spec(path: Seq<char>, file_name: Seq<char>) -> Seq<char> {
    match parent_name_spec(path) {
        Some(p) => p + seq!['/'] + file_name,
        None => file_name,
    }
}

/// A title that includes the parent directory's name, which tells apart files
/// of the same name such as Rust's `mod.rs`.
pub fn title_with_parent(path: &str, file_name: &str) -> (r: String)
    ensures
        r@ == title_with_parent_spec(path@, file_name@),
{
    let parent = path_parent(path);
    let parent_name = match &parent {
        Some(p) => path_file_name(p.as_str()),
        None => None,
    };
    match parent_name {
        Some(p) => {
            let slash = "/";
            proof {
                reveal_strlit("/");
            }
            assert(slash@ =~= seq!['/']);
            concat3(p.as_str(), slash, file_name)
        }
        None => String::from_str(file_name),
    }
}

/// A tab's title: `new_document_label` for an untitled document; else the
/// file name, with its parent for `mod.rs`; else the whole path.
pub open spec fn tab_title_spec(path_opt: Option<Seq<char>>, new_document_label: Seq<char>) -> Seq<char> {
    match path_opt {
        None => new_document_label,
        Some(p) => match spec_file_name(p) {
            Some(f) => if f == "mod.rs"@ { title_with_parent_spec(p, f) } else { f },
            None => p,
        },
    }
}

/// The title of an editor tab (see [`tab_title_spec`]).
pub fn tab_title(path_opt: Option<&str>, new_document_label: &str) -> (r: String)
    ensures
        r@ == tab_title_spec(match path_opt { Some(p) => Some(p@), None => None }, new_document_label@),
{
    match path_opt {
        None => String::from_str(new_document_label),
        Some(p) => match path_file_name(p) {
            Some(f) => {
                if str_eq(f.as_str(), "mod.rs") {
                    title_with_parent(p, f.as_str())
                } else {
                    f
                }
            }
            None => String::from_str(p),
        },
    }
}

/// The first character of `s` that starts at byte `index` or later (the
/// number of characters when none does).
pub open spec fn first_start_at_or_after(s: Seq<char>, index: int, from: int) -> int
    decreases s.len() - from,
{
    if from >= s.len() || char_start(s, from) >= index {
        from
    } else {
        first_start_at_or_after(s, index, from + 1)
    }
}

/// The character boundary of `s` closest to byte `index`: the nearest
/// character start at or after `index` (or the end of the line), unless the
/// nearest start before `index` is strictly closer.
pub open spec fn closest_boundary_spec(s: Seq<char>, index: int) -> int {
    let p = first_start_at_or_after(s, index, 0);
    let after = char_start(s, p) as int;
    if p > 0 && index - char_start(s, p - 1) < after - index {
        char_start(s, p - 1) as int
    } else {
        after
    }
}

/// Moves byte `index` of line `text` to the closest character boundary,
/// preferring the later one on a tie. `index` lies within the line (the
/// subtraction for the later boundary would underflow otherwise).
pub fn closest_cursor_index(text: &str, index: usize) -> (r: usize)
    requires
        index <= text.spec_bytes().len() || text@.len() == 0,
    ensures
        r == closest_boundary_spec(text@, index as int),
{
    let n = text.unicode_len();
    let total = text.as_bytes().len();
    proof {
        lemma_char_start_ends(text@);
    }
    let mut i: usize = 0;
    let mut off: usize = 0;
    let mut prev: usize = 0;
    while i < n && off < index
        invariant
            n == text@.len(),
            i <= n,
            off == char_start(text@, i as int),
            i > 0 ==> prev == char_start(text@, i - 1),
            i > 0 ==> prev < index,
            forall|j: int| 0 <= j < i ==> char_start(text@, j) < index,
            first_start_at_or_after(text@, index as int, 0) == first_start_at_or_after(text@, index as int, i as int),
            char_start(text@, n as int) == text.spec_bytes().len(),
            total == text.spec_bytes().len(),
            index <= text.spec_bytes().len() || n == 0,
        decreases n - i,
    {
        let c = text.get_char(i);
        proof {
            lemma_char_start_step(text@, i as int);
            lemma_char_start_monotone(text@, i + 1, n as int);
        }
        prev = off;
        off = off + char_utf8_len(c);
        i = i + 1;
    }
    if n == 0 {
        proof {
            lemma_char_start_ends(text@);
        }
        return 0;
    }
    if i > 0 && index - prev < off - index {
        prev
    } else {
        off
    }
}

pub proof fn lemma_char_start_monotone(s: Seq<char>, i: int, j: int)
    requires
        0 <= i <= j <= s.len(),
    ensures
        char_start(s, i) <= char_start(s, j),
    decreases j - i,
{
    if i < j {
        lemma_char_start_step(s, i);
        lemma_char_start_monotone(s, i + 1, j);
    }
}

/// The last character boundary of `s` at or before byte `index`, looking
/// from character `i` on.
pub open spec fn floor_start_from(s: Seq<char>, index: int, i: int) -> int
    decreases s.len() - i,
{
    if 0 <= i < s.len() && char_start(s, i + 1) <= index {
        floor_start_from(s, index, i + 1)
    } else {
        char_start(s, i) as int
    }
}

/// The last character boundary of `s` at or before byte `index`.
pub open spec fn floor_boundary(s: Seq<char>, index: int) -> int {
    floor_start_from(s, index, 0)
}

/// Whether byte `index` is where a character of `s` starts (or its end).
pub open spec fn is_char_boundary(s: Seq<char>, index: int) -> bool {
    exists|k: int| 0 <= k <= s.len() && char_start(s, k) == index
}

proof fn lemma_floor_start(s: Seq<char>, index: int, i: int)
    requires
        0 <= i <= s.len(),
        char_start(s, i) <= index,
    ensures
        char_start(s, i) <= floor_start_from(s, index, i) <= index,
        exists|k: int| i <= k <= s.len() && char_start(s, k) == floor_start_from(s, index, i),
        forall|k: int| i <= k <= s.len() && char_start(s, k) <= index ==> char_start(s, k) <= floor_start_from(s, index, i),
    decreases s.len() - i,
{
    if i < s.len() && char_start(s, i + 1) <= index {
        lemma_char_start_monotone(s, i, i + 1);
        lemma_floor_start(s, index, i + 1);
    } else {
        assert(char_start(s, i) == floor_start_from(s, index, i));
        assert forall|k: int| i <= k <= s.len() && char_start(s, k) <= index implies char_start(s, k) <= floor_start_from(s, index, i) by {
            if k > i {
                lemma_char_start_monotone(s, i + 1, k);
            }
        }
    }
}

/// What the floor boundary is: a boundary at or before `index`, the
/// greatest one, and `index` itself when that is a boundary.
pub proof fn lemma_floor_boundary(s: Seq<char>, index: int)
    requires
        0 <= index,
    ensures
        is_char_boundary(s, floor_boundary(s, index)),
        0 <= floor_boundary(s, index) <= index,
        is_char_boundary(s, index) ==> floor_boundary(s, index) == index,
{
    lemma_char_start_ends(s);
    lemma_floor_start(s, index, 0);
    if is_char_boundary(s, index) {
        let k = choose|k: int| 0 <= k <= s.len() && char_start(s, k) == index;
        assert(char_start(s, k) <= floor_start_from(s, index, 0));
    }
}

/// The last character boundary of `text` at or before byte `index`.
pub fn floor_char_boundary(text: &str, index: usize) -> (r: usize)
    ensures
        r == floor_boundary(text@, index as int),
{
    let n = text.unicode_len();
    proof {
        lemma_char_start_ends(text@);
    }
    let total = text.as_bytes().len();
    let mut i: usize = 0;
    let mut off: usize = 0;
    loop
        invariant
            n == text@.len(),
            i <= n,
            off == char_start(text@, i as int),
            off <= index,
            char_start(text@, n as int) == total,
            floor_boundary(text@, index as int) == floor_start_from(text@, index as int, i as int),
        decreases n - i,
    {
        if i >= n {
            return off;
        }
        let c = text.get_char(i);
        proof {
            lemma_char_start_step(text@, i as int);
            lemma_char_start_monotone(text@, i + 1, n as int);
        }
        let w = char_utf8_len(c);
        if off + w > index {
            return off;
        }
        off = off + w;
        i = i + 1;
    }
}

/// The cursor clamped to the document: the last line at most, within that
/// line's byte length, and moved back to the start of the character it
/// falls in. `None` for a document without lines.
pub open spec fn clamp_cursor_spec(lines: Seq<Seq<char>>, line: int, index: int) -> Option<CursorPosition> {
    if lines.len() == 0 {
        None
    } else {
        let safe_line = if line < lines.len() - 1 { line } else { lines.len() - 1 };
        let len = vstd::utf8::encode_utf8(lines[safe_line]).len() as int;
        let clamped = if index < len { index } else { len };
        Some(CursorPosition { line: safe_line as usize, index: floor_boundary(lines[safe_line], clamped) as usize })
    }
}

/// Clamps a requested cursor position to a document with the given lines,
/// so that it names a line and a character boundary of it.
pub fn clamp_cursor(lines: &Vec<String>, line: usize, index: usize) -> (r: Option<CursorPosition>)
    ensures
        r == clamp_cursor_spec(lines@.map_values(|s: String| s@), line as int, index as int),
        r matches Some(c) ==> c.line < lines@.len() && is_char_boundary(lines@[c.line as int]@, c.index as int),
        r matches Some(c) ==> c.index <= index,
        r matches Some(c) ==> ({
            let len = vstd::utf8::encode_utf8(lines@[c.line as int]@).len() as int;
            let clamped = if index < len { index as int } else { len };
            is_char_boundary(lines@[c.line as int]@, clamped) ==> c.index == clamped
        }),
{
    if lines.len() == 0 {
        return None;
    }
    let max_line = lines.len() - 1;
    let safe_line = if line < max_line { line } else { max_line };
    let text = lines[safe_line].as_str();
    proof {
        lemma_char_start_ends(text@);
    }
    let line_len = text.as_bytes().len();
    let clamped = if index < line_len { index } else { line_len };
    let at = floor_char_boundary(text, clamped);
    proof {
        lemma_floor_boundary(text@, clamped as int);
        assert(lines@.map_values(|s: String| s@)[safe_line as int] == text@);
    }
    Some(CursorPosition { line: safe_line, index: at })
}

/// Where the cursor goes after a file is reloaded: onto the last line at
/// most, at the character boundary closest to its old byte index.
pub open spec fn reload_cursor_spec(lines: Seq<Seq<char>>, cursor: CursorPosition) -> CursorPosition {
    let last = if lines.len() == 0 { 0 } else { lines.len() - 1 };
    let line = if cursor.line < last { cursor.line as int } else { last };
    if line < lines.len() {
        CursorPosition { line: line as usize, index: closest_boundary_spec(lines[line], cursor.index as int) as usize }
    } else {
        CursorPosition { line: line as usize, index: 0 }
    }
}

/// Moves the cursor onto reloaded text (see [`reload_cursor_spec`]). The
/// cursor's byte index must not lie past the end of its new line unless
/// that line is empty.
pub fn reload_cursor(lines: &Vec<String>, cursor: CursorPosition) -> (r: CursorPosition)
    requires
        ({
            let last = if lines@.len() == 0 { 0 } else { lines@.len() - 1 };
            let line = if cursor.line < last { cursor.line as int } else { last };
            line < lines@.len() ==> (cursor.index <= vstd::utf8::encode_utf8(lines@[line]@).len() || lines@[line]@.len() == 0)
        }),
    ensures
        r == reload_cursor_spec(lines@.map_values(|s: String| s@), cursor),
{
    let last = if lines.len() == 0 { 0 } else { lines.len() - 1 };
    let line = if cursor.line < last { cursor.line } else { last };
    if line < lines.len() {
        let index = closest_cursor_index(lines[line].as_str(), cursor.index);
        CursorPosition { line, index }
    } else {
        CursorPosition { line, index: 0 }
    }
}

/// Whether a match starting at byte `m_start` of `line` may be taken by a
/// forward search from `cursor`: on another line any match may; on the
/// cursor's line only one after the cursor, one at the cursor when nothing
/// is selected, or, once the search has wrapped, one before it.
pub open spec fn forward_accepts(m_start: int, line: int, cursor: CursorPosition, has_selection: bool, wrapped: bool) -> bool {
    line != cursor.line || m_start > cursor.index || (m_start == cursor.index && !has_selection)
        || (m_start < cursor.index && wrapped)
}

/// The mirror image for a backward search.
pub open spec fn backward_accepts(m_start: int, line: int, cursor: CursorPosition, has_selection: bool, wrapped: bool) -> bool {
    line != cursor.line || m_start < cursor.index || (m_start == cursor.index && !has_selection)
        || (m_start > cursor.index && wrapped)
}

/// Whether a replacement may take a match: on the cursor's line only one at
/// or after the cursor, unless the search has wrapped.
pub open spec fn replace_accepts(m_start: int, line: int, cursor: CursorPosition, wrapped: bool) -> bool {
    line != cursor.line || m_start >= cursor.index || (m_start < cursor.index && wrapped)
}

/// Which of the three searches is run.
#[derive(Clone, Copy, Debug, PartialEq, Eq, Structural)]
pub enum SearchKind {
    Forward,
    Backward,
    Replace,
}

pub open spec fn accepts(kind: SearchKind, m_start: int, line: int, cursor: CursorPosition, has_selection: bool, wrapped: bool) -> bool {
    match kind {
        SearchKind::Forward => forward_accepts(m_start, line, cursor, has_selection, wrapped),
        SearchKind::Backward => backward_accepts(m_start, line, cursor, has_selection, wrapped),
        SearchKind::Replace => replace_accepts(m_start, line, cursor, wrapped),
    }
}

/// The first match of a line (matches are `(start, end)` byte pairs in text
/// order) that the search accepts.
pub open spec fn first_accepted(ms: Seq<(usize, usize)>, kind: SearchKind, line: int, cursor: CursorPosition, has_selection: bool, wrapped: bool) -> Option<(usize, usize)>
    decreases ms.len(),
{
    if ms.len() == 0 {
        None
    } else if accepts(kind, ms[0].0 as int, line, cursor, has_selection, wrapped) {
        Some(ms[0])
    } else {
        first_accepted(ms.drop_first(), kind, line, cursor, has_selection, wrapped)
    }
}

/// The last accepted match of a line.
pub open spec fn last_accepted(ms: Seq<(usize, usize)>, kind: SearchKind, line: int, cursor: CursorPosition, has_selection: bool, wrapped: bool) -> Option<(usize, usize)>
    decreases ms.len(),
{
    if ms.len() == 0 {
        None
    } else if accepts(kind, ms.last().0 as int, line, cursor, has_selection, wrapped) {
        Some(ms.last())
    } else {
        last_accepted(ms.drop_last(), kind, line, cursor, has_selection, wrapped)
    }
}

/// A forward search (or a replacement) continued at `line`: lines are tried
/// downwards; past the last line it starts over once from the top when it
/// may wrap around.
pub open spec fn search_down(lines: Seq<Seq<(usize, usize)>>, kind: SearchKind, line: int, wrapped: bool, cursor: CursorPosition, has_selection: bool, wrap_around: bool) -> Option<(int, usize, usize)>
    decreases (if wrapped { 0int } else { 1int }), lines.len() - line,
{
    if line < 0 {
        None
    } else if line >= lines.len() {
        if wrap_around && !wrapped {
            search_down(lines, kind, 0, true, cursor, has_selection, wrap_around)
        } else {
            None
        }
    } else {
        match first_accepted(lines[line], kind, line, cursor, has_selection, wrapped) {
            Some(m) => Some((line, m.0, m.1)),
            None => search_down(lines, kind, line + 1, wrapped, cursor, has_selection, wrap_around),
        }
    }
}

/// A backward search continued at `line`: lines are tried upwards; above the
/// first line it starts over once from the bottom when it may wrap around.
pub open spec fn search_up(lines: Seq<Seq<(usize, usize)>>, line: int, wrapped: bool, cursor: CursorPosition, has_selection: bool, wrap_around: bool) -> Option<(int, usize, usize)>
    decreases (if wrapped { 0int } else { 1int }), line,
{
    if line < 0 || line >= lines.len() {
        None
    } else {
        match last_accepted(lines[line], SearchKind::Backward, line, cursor, has_selection, wrapped) {
            Some(m) => Some((line, m.0, m.1)),
            None => if line == 0 {
                if wrap_around && !wrapped {
                    search_up(lines, lines.len() - 1, true, cursor, has_selection, wrap_around)
                } else {
                    None
                }
            } else {
                search_up(lines, line - 1, wrapped, cursor, has_selection, wrap_around)
            },
        }
    }
}

/// The match a search from `cursor` selects: `(line, start, end)`.
pub open spec fn find_match_spec(lines: Seq<Seq<(usize, usize)>>, cursor: CursorPosition, has_selection: bool, forwards: bool, wrap_around: bool) -> Option<(int, usize, usize)> {
    if forwards {
        if cursor.line >= lines.len() {
            None
        } else {
            search_down(lines, SearchKind::Forward, cursor.line as int, false, cursor, has_selection, wrap_around)
        }
    } else {
        search_up(lines, cursor.line as int, false, cursor, has_selection, wrap_around)
    }
}

fn first_accepted_exec(ms: &Vec<(usize, usize)>, kind: SearchKind, line: usize, cursor: CursorPosition, has_selection: bool, wrapped: bool) -> (r: Option<(usize, usize)>)
    ensures
        r == first_accepted(ms@, kind, line as int, cursor, has_selection, wrapped),
{
    let mut i: usize = 0;
    assert(ms@.skip(0) =~= ms@);
    while i < ms.len()
        invariant
            i <= ms@.len(),
            first_accepted(ms@, kind, line as int, cursor, has_selection, wrapped) == first_accepted(ms@.skip(i as int), kind, line as int, cursor, has_selection, wrapped),
        decreases ms@.len() - i,
    {
        let m = ms[i];
        assert(ms@.skip(i as int)[0] == m);
        assert(ms@.skip(i as int).drop_first() =~= ms@.skip(i + 1));
        let ok = match kind {
            SearchKind::Forward => line != cursor.line || m.0 > cursor.index || (m.0 == cursor.index && !has_selection) || (m.0 < cursor.index && wrapped),
            SearchKind::Backward => line != cursor.line || m.0 < cursor.index || (m.0 == cursor.index && !has_selection) || (m.0 > cursor.index && wrapped),
            SearchKind::Replace => line != cursor.line || m.0 >= cursor.index || (m.0 < cursor.index && wrapped),
        };
        if ok {
            return Some(m);
        }
        i = i + 1;
    }
    assert(ms@.skip(i as int) =~= Seq::<(usize, usize)>::empty());
    None
}

fn last_accepted_exec(ms: &Vec<(usize, usize)>, kind: SearchKind, line: usize, cursor: CursorPosition, has_selection: bool, wrapped: bool) -> (r: Option<(usize, usize)>)
    ensures
        r == last_accepted(ms@, kind, line as int, cursor, has_selection, wrapped),
{
    let mut i: usize = ms.len();
    assert(ms@.take(ms@.len() as int) =~= ms@);
    while i > 0
        invariant
            i <= ms@.len(),
            last_accepted(ms@, kind, line as int, cursor, has_selection, wrapped) == last_accepted(ms@.take(i as int), kind, line as int, cursor, has_selection, wrapped),
        decreases i,
    {
        let m = ms[i - 1];
        assert(ms@.take(i as int).last() == m);
        assert(ms@.take(i as int).drop_last() =~= ms@.take(i - 1));
        let ok = match kind {
            SearchKind::Forward => line != cursor.line || m.0 > cursor.index || (m.0 == cursor.index && !has_selection) || (m.0 < cursor.index && wrapped),
            SearchKind::Backward => line != cursor.line || m.0 < cursor.index || (m.0 == cursor.index && !has_selection) || (m.0 > cursor.index && wrapped),
            SearchKind::Replace => line != cursor.line || m.0 >= cursor.index || (m.0 < cursor.index && wrapped),
        };
        if ok {
            return Some(m);
        }
        i = i - 1;
    }
    assert(ms@.take(0) =~= Seq::<(usize, usize)>::empty());
    None
}

fn search_down_exec(lines: &Vec<Vec<(usize, usize)>>, kind: SearchKind, cursor: CursorPosition, has_selection: bool, wrap_around: bool) -> (r: Option<(usize, usize, usize)>)
    requires
        cursor.line < lines@.len(),
    ensures
        match r {
            Some(t) => search_down(lines@.map_values(|v: Vec<(usize, usize)>| v@), kind, cursor.line as int, false, cursor, has_selection, wrap_around) == Some((t.0 as int, t.1, t.2)),
            None => search_down(lines@.map_values(|v: Vec<(usize, usize)>| v@), kind, cursor.line as int, false, cursor, has_selection, wrap_around) is None,
        },
{
    let ghost ls = lines@.map_values(|v: Vec<(usize, usize)>| v@);
    let n = lines.len();
    let mut line: usize = cursor.line;
    let mut wrapped = false;
    while line < n
        invariant
            n == lines@.len(),
            ls == lines@.map_values(|v: Vec<(usize, usize)>| v@),
            line <= n,
            search_down(ls, kind, cursor.line as int, false, cursor, has_selection, wrap_around)
                == search_down(ls, kind, line as int, wrapped, cursor, has_selection, wrap_around),
            line == n ==> !(wrap_around && !wrapped),
        decreases (if wrapped { 0int } else { 1int }), n - line,
    {
        let found = first_accepted_exec(&lines[line], kind, line, cursor, has_selection, wrapped);
        assert(ls[line as int] == lines@[line as int]@);
        match found {
            Some(m) => {
                return Some((line, m.0, m.1));
            }
            None => {}
        }
        assert(search_down(ls, kind, line as int, wrapped, cursor, has_selection, wrap_around)
            == search_down(ls, kind, line + 1, wrapped, cursor, has_selection, wrap_around));
        line = line + 1;
        if wrap_around && !wrapped && line == n {
            assert(search_down(ls, kind, n as int, false, cursor, has_selection, wrap_around)
                == search_down(ls, kind, 0, true, cursor, has_selection, wrap_around));
            line = 0;
            wrapped = true;
        }
    }
    assert(search_down(ls, kind, line as int, wrapped, cursor, has_selection, wrap_around) is None);
    None
}

fn search_up_exec(lines: &Vec<Vec<(usize, usize)>>, cursor: CursorPosition, has_selection: bool, wrap_around: bool) -> (r: Option<(usize, usize, usize)>)
    requires
        cursor.line < lines@.len(),
    ensures
        match r {
            Some(t) => search_up(lines@.map_values(|v: Vec<(usize, usize)>| v@), cursor.line as int, false, cursor, has_selection, wrap_around) == Some((t.0 as int, t.1, t.2)),
            None => search_up(lines@.map_values(|v: Vec<(usize, usize)>| v@), cursor.line as int, false, cursor, has_selection, wrap_around) is None,
        },
{
    let ghost ls = lines@.map_values(|v: Vec<(usize, usize)>| v@);
    let n = lines.len();
    let mut line: usize = cursor.line + 1;
    let mut wrapped = false;
    while line > 0
        invariant
            n == lines@.len(),
            ls == lines@.map_values(|v: Vec<(usize, usize)>| v@),
            line <= n,
            line > 0 ==> search_up(ls, cursor.line as int, false, cursor, has_selection, wrap_around)
                == search_up(ls, line - 1, wrapped, cursor, has_selection, wrap_around),
            line == 0 ==> search_up(ls, cursor.line as int, false, cursor, has_selection, wrap_around) is None,
        decreases (if wrapped { 0int } else { 1int }), line,
    {
        line = line - 1;
        let found = last_accepted_exec(&lines[line], SearchKind::Backward, line, cursor, has_selection, wrapped);
        assert(ls[line as int] == lines@[line as int]@);
        match found {
            Some(m) => {
                return Some((line, m.0, m.1));
            }
            None => {}
        }
        if wrap_around && !wrapped && line == 0 {
            assert(search_up(ls, 0, false, cursor, has_selection, wrap_around)
                == search_up(ls, n - 1, true, cursor, has_selection, wrap_around));
            line = n;
            wrapped = true;
        } else if line > 0 {
            assert(search_up(ls, line as int, wrapped, cursor, has_selection, wrap_around)
                == search_up(ls, line - 1, wrapped, cursor, has_selection, wrap_around));
        }
    }
    None
}

/// Finds the match a search from `cursor` selects, given the matches of each
/// line as `(start, end)` byte pairs in text order (see [`find_match_spec`]).
/// A backward search starts from an existing line.
pub fn find_match(line_matches: &Vec<Vec<(usize, usize)>>, cursor: CursorPosition, has_selection: bool, forwards: bool, wrap_around: bool) -> (r: Option<(usize, usize, usize)>)
    requires
        !forwards ==> cursor.line < line_matches@.len(),
    ensures
        match r {
            Some(t) => find_match_spec(line_matches@.map_values(|v: Vec<(usize, usize)>| v@), cursor, has_selection, forwards, wrap_around) == Some((t.0 as int, t.1, t.2)),
            None => find_match_spec(line_matches@.map_values(|v: Vec<(usize, usize)>| v@), cursor, has_selection, forwards, wrap_around) is None,
        },
{
    if forwards {
        if cursor.line >= line_matches.len() {
            return None;
        }
        search_down_exec(line_matches, SearchKind::Forward, cursor, has_selection, wrap_around)
    } else {
        search_up_exec(line_matches, cursor, has_selection, wrap_around)
    }
}

/// The text a replacement from `cursor` overwrites, from its first position
/// to its last: the first accepted match from the cursor on (see
/// [`replace_accepts`]). An empty match at the start of a line stands for an
/// empty line, whose line break goes too: the range then starts at the end
/// of the line above, or, on the first line, ends at the start of the next.
pub open spec fn replace_range_spec(lines: Seq<Seq<(usize, usize)>>, line_lens: Seq<usize>, cursor: CursorPosition, wrap_around: bool) -> Option<(CursorPosition, CursorPosition)> {
    if cursor.line >= lines.len() {
        None
    } else {
        match search_down(lines, SearchKind::Replace, cursor.line as int, false, cursor, false, wrap_around) {
            None => None,
            Some((l, s, e)) => if s == 0 && e == 0 {
                if l > 0 {
                    Some((CursorPosition { line: (l - 1) as usize, index: line_lens[l - 1] }, CursorPosition { line: l as usize, index: 0 }))
                } else if l + 1 < lines.len() {
                    Some((CursorPosition { line: l as usize, index: 0 }, CursorPosition { line: (l + 1) as usize, index: 0 }))
                } else {
                    Some((CursorPosition { line: l as usize, index: 0 }, CursorPosition { line: l as usize, index: 0 }))
                }
            } else {
                Some((CursorPosition { line: l as usize, index: s }, CursorPosition { line: l as usize, index: e }))
            },
        }
    }
}

/// Finds what a replacement from `cursor` overwrites, given each line's
/// matches and byte length (see [`replace_range_spec`]).
pub fn replace_range(line_matches: &Vec<Vec<(usize, usize)>>, line_lens: &Vec<usize>, cursor: CursorPosition, wrap_around: bool) -> (r: Option<(CursorPosition, CursorPosition)>)
    requires
        line_lens@.len() == line_matches@.len(),
    ensures
        r == replace_range_spec(line_matches@.map_values(|v: Vec<(usize, usize)>| v@), line_lens@, cursor, wrap_around),
{
    let n = line_matches.len();
    if cursor.line >= n {
        return None;
    }
    match search_down_exec(line_matches, SearchKind::Replace, cursor, false, wrap_around) {
        None => None,
        Some((l, s, e)) => {
            proof {
                lemma_search_down_line_bound(line_matches@.map_values(|v: Vec<(usize, usize)>| v@), SearchKind::Replace, cursor.line as int, false, cursor, false, wrap_around);
            }
            if s == 0 && e == 0 {
                if l > 0 {
                    Some((CursorPosition { line: l - 1, index: line_lens[l - 1] }, CursorPosition { line: l, index: 0 }))
                } else if l + 1 < n {
                    Some((CursorPosition { line: l, index: 0 }, CursorPosition { line: l + 1, index: 0 }))
                } else {
                    Some((CursorPosition { line: l, index: 0 }, CursorPosition { line: l, index: 0 }))
                }
            } else {
                Some((CursorPosition { line: l, index: s }, CursorPosition { line: l, index: e }))
            }
        }
    }
}

/// A search only ever stops on an existing line, at one of that line's matches.
pub proof fn lemma_search_down_line_bound(lines: Seq<Seq<(usize, usize)>>, kind: SearchKind, line: int, wrapped: bool, cursor: CursorPosition, has_selection: bool, wrap_around: bool)
    ensures
        search_down(lines, kind, line, wrapped, cursor, has_selection, wrap_around) matches Some(t)
            ==> 0 <= t.0 < lines.len() && lines[t.0].contains((t.1, t.2)),
    decreases (if wrapped { 0int } else { 1int }), lines.len() - line,
{
    if line < 0 {
    } else if line >= lines.len() {
        if wrap_around && !wrapped {
            lemma_search_down_line_bound(lines, kind, 0, true, cursor, has_selection, wrap_around);
        }
    } else {
        lemma_first_accepted_in(lines[line], kind, line, cursor, has_selection, wrapped);
        lemma_search_down_line_bound(lines, kind, line + 1, wrapped, cursor, has_selection, wrap_around);
    }
}

proof fn lemma_first_accepted_in(ms: Seq<(usize, usize)>, kind: SearchKind, line: int, cursor: CursorPosition, has_selection: bool, wrapped: bool)
    ensures
        first_accepted(ms, kind, line, cursor, has_selection, wrapped) matches Some(m) ==> ms.contains(m),
    decreases ms.len(),
{
    if ms.len() > 0 {
        lemma_first_accepted_in(ms.drop_first(), kind, line, cursor, has_selection, wrapped);
        if let Some(m) = first_accepted(ms.drop_first(), kind, line, cursor, has_selection, wrapped) {
            let k = choose|k: int| 0 <= k < ms.drop_first().len() && ms.drop_first()[k] == m;
            assert(ms[k + 1] == m);
        }
        assert(ms[0] == ms[0]);
    }
}

proof fn lemma_last_accepted_in(ms: Seq<(usize, usize)>, kind: SearchKind, line: int, cursor: CursorPosition, has_selection: bool, wrapped: bool)
    ensures
        last_accepted(ms, kind, line, cursor, has_selection, wrapped) matches Some(m) ==> ms.contains(m),
    decreases ms.len(),
{
    if ms.len() > 0 {
        lemma_last_accepted_in(ms.drop_last(), kind, line, cursor, has_selection, wrapped);
        if let Some(m) = last_accepted(ms.drop_last(), kind, line, cursor, has_selection, wrapped) {
            let k = choose|k: int| 0 <= k < ms.drop_last().len() && ms.drop_last()[k] == m;
            assert(ms[k] == m);
        }
        assert(ms[ms.len() - 1] == ms.last());
    }
}

proof fn lemma_search_up_is_match(lines: Seq<Seq<(usize, usize)>>, line: int, wrapped: bool, cursor: CursorPosition, has_selection: bool, wrap_around: bool)
    ensures
        search_up(lines, line, wrapped, cursor, has_selection, wrap_around) matches Some(t)
            ==> 0 <= t.0 < lines.len() && lines[t.0].contains((t.1, t.2)),
    decreases (if wrapped { 0int } else { 1int }), line,
{
    if 0 <= line < lines.len() {
        lemma_last_accepted_in(lines[line], SearchKind::Backward, line, cursor, has_selection, wrapped);
        if line == 0 {
            if wrap_around && !wrapped {
                lemma_search_up_is_match(lines, lines.len() - 1, true, cursor, has_selection, wrap_around);
            }
        } else {
            lemma_search_up_is_match(lines, line - 1, wrapped, cursor, has_selection, wrap_around);
        }
    }
}

/// Law: whatever a search selects is one of the matches found on an existing line.
pub proof fn lemma_find_match_is_a_match(lines: Seq<Seq<(usize, usize)>>, cursor: CursorPosition, has_selection: bool, forwards: bool, wrap_around: bool)
    ensures
        find_match_spec(lines, cursor, has_selection, forwards, wrap_around) matches Some(t)
            ==> 0 <= t.0 < lines.len() && lines[t.0].contains((t.1, t.2)),
{
    if forwards {
        lemma_search_down_line_bound(lines, SearchKind::Forward, cursor.line as int, false, cursor, has_selection, wrap_around);
    } else {
        lemma_search_up_is_match(lines, cursor.line as int, false, cursor, has_selection, wrap_around);
    }
}

proof fn lemma_search_down_from(lines: Seq<Seq<(usize, usize)>>, kind: SearchKind, line: int, cursor: CursorPosition, has_selection: bool)
    ensures
        search_down(lines, kind, line, false, cursor, has_selection, false) matches Some(t) ==> t.0 >= line,
    decreases lines.len() - line,
{
    if 0 <= line < lines.len() {
        lemma_search_down_from(lines, kind, line + 1, cursor, has_selection);
    }
}

proof fn lemma_search_up_from(lines: Seq<Seq<(usize, usize)>>, line: int, cursor: CursorPosition, has_selection: bool)
    ensures
        search_up(lines, line, false, cursor, has_selection, false) matches Some(t) ==> t.0 <= line,
    decreases line,
{
    if 0 < line < lines.len() {
        lemma_search_up_from(lines, line - 1, cursor, has_selection);
    }
}

/// Law: a search that may not wrap around never goes back past the cursor's
/// line: forwards it finds a match on that line or below, backwards on that
/// line or above.
pub proof fn lemma_search_without_wrap_keeps_direction(lines: Seq<Seq<(usize, usize)>>, cursor: CursorPosition, has_selection: bool, forwards: bool)
    ensures
        find_match_spec(lines, cursor, has_selection, forwards, false) matches Some(t)
            ==> (if forwards { t.0 >= cursor.line } else { t.0 <= cursor.line }),
{
    if forwards {
        lemma_search_down_from(lines, SearchKind::Forward, cursor.line as int, cursor, has_selection);
    } else {
        lemma_search_up_from(lines, cursor.line as int, cursor, has_selection);
    }
}

/// Law: in a document without matches a search finds nothing, wrapping or not.
pub proof fn lemma_no_matches_nothing_found(lines: Seq<Seq<(usize, usize)>>, cursor: CursorPosition, has_selection: bool, forwards: bool, wrap_around: bool)
    requires
        forall|l: int| 0 <= l < lines.len() ==> (#[trigger] lines[l]).len() == 0,
    ensures
        find_match_spec(lines, cursor, has_selection, forwards, wrap_around) is None,
{
    lemma_find_match_is_a_match(lines, cursor, has_selection, forwards, wrap_around);
}

proof fn lemma_first_accepted_some(ms: Seq<(usize, usize)>, kind: SearchKind, line: int, cursor: CursorPosition, has_selection: bool, wrapped: bool, k: int)
    requires
        0 <= k < ms.len(),
        accepts(kind, ms[k].0 as int, line, cursor, has_selection, wrapped),
    ensures
        first_accepted(ms, kind, line, cursor, has_selection, wrapped) is Some,
    decreases ms.len(),
{
    if !accepts(kind, ms[0].0 as int, line, cursor, has_selection, wrapped) {
        assert(ms.drop_first()[k - 1] == ms[k]);
        lemma_first_accepted_some(ms.drop_first(), kind, line, cursor, has_selection, wrapped, k - 1);
    }
}

proof fn lemma_last_accepted_some(ms: Seq<(usize, usize)>, kind: SearchKind, line: int, cursor: CursorPosition, has_selection: bool, wrapped: bool, k: int)
    requires
        0 <= k < ms.len(),
        accepts(kind, ms[k].0 as int, line, cursor, has_selection, wrapped),
    ensures
        last_accepted(ms, kind, line, cursor, has_selection, wrapped) is Some,
    decreases ms.len(),
{
    if !accepts(kind, ms.last().0 as int, line, cursor, has_selection, wrapped) {
        assert(ms.drop_last()[k] == ms[k]);
        lemma_last_accepted_some(ms.drop_last(), kind, line, cursor, has_selection, wrapped, k);
    }
}

/// Whether a match at `(l, start)` is one that a search may stop on: any
/// match but one that starts exactly at the cursor while text is selected
/// (that one is the selection itself).
pub open spec fn selectable_match(l: int, start: int, cursor: CursorPosition, has_selection: bool) -> bool {
    !(l == cursor.line && start == cursor.index && has_selection)
}

proof fn lemma_search_up_after_wrap(lines: Seq<Seq<(usize, usize)>>, line: int, cursor: CursorPosition, has_selection: bool, wrap_around: bool, l: int, k: int)
    requires
        0 <= l <= line < lines.len(),
        0 <= k < lines[l].len(),
        selectable_match(l, lines[l][k].0 as int, cursor, has_selection),
    ensures
        search_up(lines, line, true, cursor, has_selection, wrap_around) is Some,
    decreases line,
{
    if last_accepted(lines[line], SearchKind::Backward, line, cursor, has_selection, true) is None {
        if l == line {
            lemma_last_accepted_some(lines[l], SearchKind::Backward, l, cursor, has_selection, true, k);
        }
        lemma_search_up_after_wrap(lines, line - 1, cursor, has_selection, wrap_around, l, k);
    }
}

proof fn lemma_search_up_wrapping(lines: Seq<Seq<(usize, usize)>>, line: int, cursor: CursorPosition, has_selection: bool, l: int, k: int)
    requires
        0 <= line < lines.len(),
        0 <= l < lines.len(),
        0 <= k < lines[l].len(),
        selectable_match(l, lines[l][k].0 as int, cursor, has_selection),
    ensures
        search_up(lines, line, false, cursor, has_selection, true) is Some,
    decreases line,
{
    if last_accepted(lines[line], SearchKind::Backward, line, cursor, has_selection, false) is None {
        if line == 0 {
            lemma_search_up_after_wrap(lines, lines.len() - 1, cursor, has_selection, true, l, k);
        } else {
            lemma_search_up_wrapping(lines, line - 1, cursor, has_selection, l, k);
        }
    }
}

proof fn lemma_search_down_after_wrap(lines: Seq<Seq<(usize, usize)>>, line: int, cursor: CursorPosition, has_selection: bool, wrap_around: bool, l: int, k: int)
    requires
        0 <= line <= l < lines.len(),
        0 <= k < lines[l].len(),
        selectable_match(l, lines[l][k].0 as int, cursor, has_selection),
    ensures
        search_down(lines, SearchKind::Forward, line, true, cursor, has_selection, wrap_around) is Some,
    decreases lines.len() - line,
{
    if first_accepted(lines[line], SearchKind::Forward, line, cursor, has_selection, true) is None {
        if l == line {
            lemma_first_accepted_some(lines[l], SearchKind::Forward, l, cursor, has_selection, true, k);
        }
        lemma_search_down_after_wrap(lines, line + 1, cursor, has_selection, wrap_around, l, k);
    }
}

proof fn lemma_search_down_wrapping(lines: Seq<Seq<(usize, usize)>>, line: int, cursor: CursorPosition, has_selection: bool, l: int, k: int)
    requires
        0 <= line <= lines.len(),
        0 <= l < lines.len(),
        0 <= k < lines[l].len(),
        selectable_match(l, lines[l][k].0 as int, cursor, has_selection),
    ensures
        search_down(lines, SearchKind::Forward, line, false, cursor, has_selection, true) is Some,
    decreases lines.len() - line,
{
    if line >= lines.len() {
        lemma_search_down_after_wrap(lines, 0, cursor, has_selection, true, l, k);
    } else if first_accepted(lines[line], SearchKind::Forward, line, cursor, has_selection, false) is None {
        lemma_search_down_wrapping(lines, line + 1, cursor, has_selection, l, k);
    }
}

/// Law: a search that may wrap around finds a match whenever the document
/// holds one it may stop on, in either direction: from a cursor on an
/// existing line, if line `l` has a match `k` (other than the selection
/// itself, a match starting at the cursor while text is selected), the
/// search finds something. In particular a match after the cursor on its
/// own line is found by a backward search, and one before it by a forward
/// search, once they wrap.
pub proof fn lemma_wrapping_search_finds_a_match(lines: Seq<Seq<(usize, usize)>>, cursor: CursorPosition, has_selection: bool, forwards: bool, l: int, k: int)
    requires
        cursor.line < lines.len(),
        0 <= l < lines.len(),
        0 <= k < lines[l].len(),
        selectable_match(l, lines[l][k].0 as int, cursor, has_selection),
    ensures
        find_match_spec(lines, cursor, has_selection, forwards, true) is Some,
{
    if forwards {
        lemma_search_down_wrapping(lines, cursor.line as int, cursor, has_selection, l, k);
    } else {
        lemma_search_up_wrapping(lines, cursor.line as int, cursor, has_selection, l, k);
    }
}

/// How a line of a document ends.
#[derive(Clone, Copy, Debug, PartialEq, Eq, Structural)]
pub enum LineEnding {
    Lf,
    CrLf,
    Cr,
    LfCr,
    /// The last line, which has no ending.
    NoEnding,
}

/// The characters of a line ending.
pub open spec fn ending_spec(e: LineEnding) -> Seq<char> {
    match e {
        LineEnding::Lf => seq!['\n'],
        LineEnding::CrLf => seq!['\r', '\n'],
        LineEnding::Cr => seq!['\r'],
        LineEnding::LfCr => seq!['\n', '\r'],
        LineEnding::NoEnding => Seq::empty(),
    }
}

/// The characters of a line ending.
pub fn ending_str(e: LineEnding) -> (r: &'static str)
    ensures
        r@ == ending_spec(e),
{
    match e {
        LineEnding::Lf => {
            proof { reveal_strlit("\n"); }
            "\n"
        }
        LineEnding::CrLf => {
            proof { reveal_strlit("\r\n"); }
            "\r\n"
        }
        LineEnding::Cr => {
            proof { reveal_strlit("\r"); }
            "\r"
        }
        LineEnding::LfCr => {
            proof { reveal_strlit("\n\r"); }
            "\n\r"
        }
        LineEnding::NoEnding => {
            proof { reveal_strlit(""); }
            ""
        }
    }
}

/// The text of a document given its lines: each line followed by its ending.
pub open spec fn document_text_spec(lines: Seq<(Seq<char>, LineEnding)>) -> Seq<char>
    decreases lines.len(),
{
    if lines.len() == 0 {
        Seq::empty()
    } else {
        document_text_spec(lines.drop_last()) + lines.last().0 + ending_spec(lines.last().1)
    }
}

pub open spec fn lines_view(lines: Seq<(String, LineEnding)>) -> Seq<(Seq<char>, LineEnding)> {
    lines.map_values(|l: (String, LineEnding)| (l.0@, l.1))
}

/// The text of a document, as it is saved (see [`document_text_spec`]).
pub fn document_text(lines: &Vec<(String, LineEnding)>) -> (r: String)
    ensures
        r@ == document_text_spec(lines_view(lines@)),
{
    let ghost v = lines_view(lines@);
    let mut text = String::new();
    let n: usize = lines.len();
    let mut i: usize = 0;
    while i < n
        invariant
            n == lines@.len(),
            v == lines_view(lines@),
            i <= n,
            text@ == document_text_spec(v.take(i as int)),
        decreases n - i,
    {
        let ghost before = text@;
        text.append(lines[i].0.as_str());
        text.append(ending_str(lines[i].1));
        assert(v.take(i + 1).drop_last() =~= v.take(i as int));
        assert(v.take(i + 1).last() == v[i as int]);
        assert(text@ =~= document_text_spec(v.take(i + 1)));
        i = i + 1;
    }
    assert(v.take(n as int) =~= v);
    text
}

/// Whether a document's text is what was last saved, judged by the hash of
/// the saved text: if so the document counts as unchanged again.
pub fn content_unchanged(saved_content_hash: Option<u64>, text: &str) -> (r: bool)
    ensures
        r == (saved_content_hash == Some(crate::backup::fnv1a(text.spec_bytes()))),
{
    let current = crate::backup::compute_content_hash(text);
    match saved_content_hash {
        Some(h) => h == current,
        None => false,
    }
}

/// The first open tab showing the file at `path` (paths compared as `Path`
/// compares them), which is activated instead of opening the file again.
pub fn existing_tab(tab_paths: &Vec<Option<String>>, path: &str) -> (r: Option<usize>)
    ensures
        match r {
            Some(i) => i < tab_paths@.len() && (tab_paths@[i as int] matches Some(p) && crate::paths::spec_path_eq(p@, path@))
                && forall|j: int| 0 <= j < i ==> !(#[trigger] tab_paths@[j] matches Some(p) && crate::paths::spec_path_eq(p@, path@)),
            None => forall|j: int| 0 <= j < tab_paths@.len() ==> !(#[trigger] tab_paths@[j] matches Some(p) && crate::paths::spec_path_eq(p@, path@)),
        },
{
    let n: usize = tab_paths.len();
    let mut i: usize = 0;
    while i < n
        invariant
            n == tab_paths@.len(),
            i <= n,
            forall|j: int| 0 <= j < i ==> !(#[trigger] tab_paths@[j] matches Some(p) && crate::paths::spec_path_eq(p@, path@)),
        decreases n - i,
    {
        match &tab_paths[i] {
            Some(p) => {
                if crate::paths::path_eq(p.as_str(), path) {
                    return Some(i);
                }
            }
            None => {}
        }
        i = i + 1;
    }
    None
}

/// The matches of a find pattern on each line of a document.
pub open spec fn document_matches(re: FindRegex, lines: Seq<Seq<char>>) -> Seq<Seq<(usize, usize)>> {
    Seq::new(lines.len(), |i: int| spec_regex_matches(re.pattern(), re.case_insensitive(), lines[i]))
}

pub open spec fn text_lines(lines: Seq<String>) -> Seq<Seq<char>> {
    lines.map_values(|s: String| s@)
}

/// Finds the matches of `re` on every line of the document.
pub fn line_matches(re: &FindRegex, lines: &Vec<String>) -> (r: Vec<Vec<(usize, usize)>>)
    ensures
        r@.map_values(|v: Vec<(usize, usize)>| v@) == document_matches(*re, text_lines(lines@)),
{
    let ghost want = document_matches(*re, text_lines(lines@));
    let n: usize = lines.len();
    let mut out: Vec<Vec<(usize, usize)>> = Vec::new();
    let mut i: usize = 0;
    while i < n
        invariant
            n == lines@.len(),
            want == document_matches(*re, text_lines(lines@)),
            i <= n,
            out@.map_values(|v: Vec<(usize, usize)>| v@) == want.take(i as int),
        decreases n - i,
    {
        let ms = regex_matches(re, lines[i].as_str());
        let ghost before = out@.map_values(|v: Vec<(usize, usize)>| v@);
        let ghost msv = ms@;
        out.push(ms);
        assert(want[i as int] == spec_regex_matches(re.pattern(), re.case_insensitive(), lines@[i as int]@));
        assert(msv == want[i as int]);
        assert(out@.map_values(|v: Vec<(usize, usize)>| v@) =~= before.push(msv));
        assert(out@.map_values(|v: Vec<(usize, usize)>| v@) =~= want.take(i + 1));
        i = i + 1;
    }
    assert(want.take(n as int) =~= want);
    out
}

/// The match a search of the document `lines` for `re` selects from
/// `cursor`, as `(line, start, end)` (see [`find_match_spec`]). A backward
/// search starts on an existing line.
pub fn search_document(re: &FindRegex, lines: &Vec<String>, cursor: CursorPosition, has_selection: bool, forwards: bool, wrap_around: bool) -> (r: Option<(usize, usize, usize)>)
    requires
        !forwards ==> cursor.line < lines@.len(),
    ensures
        match r {
            Some(t) => find_match_spec(document_matches(*re, text_lines(lines@)), cursor, has_selection, forwards, wrap_around) == Some((t.0 as int, t.1, t.2)),
            None => find_match_spec(document_matches(*re, text_lines(lines@)), cursor, has_selection, forwards, wrap_around) is None,
        },
{
    let ms = line_matches(re, lines);
    find_match(&ms, cursor, has_selection, forwards, wrap_around)
}

/// The range a replacement of `re` from `cursor` overwrites in the document
/// `lines` (see [`replace_range_spec`]).
pub fn replace_target(re: &FindRegex, lines: &Vec<String>, cursor: CursorPosition, wrap_around: bool) -> (r: Option<(CursorPosition, CursorPosition)>)
    ensures
        r == replace_range_spec(document_matches(*re, text_lines(lines@)), line_byte_lens(lines@), cursor, wrap_around),
{
    let ms = line_matches(re, lines);
    let n: usize = lines.len();
    let mut lens: Vec<usize> = Vec::new();
    let mut i: usize = 0;
    while i < n
        invariant
            n == lines@.len(),
            i <= n,
            lens@ == line_byte_lens(lines@).take(i as int),
        decreases n - i,
    {
        let len: usize = lines[i].as_str().as_bytes().len();
        assert(len == vstd::utf8::encode_utf8(lines@[i as int]@).len());
        lens.push(len);
        assert(lens@ =~= line_byte_lens(lines@).take(i + 1));
        i = i + 1;
    }
    assert(line_byte_lens(lines@).take(n as int) =~= line_byte_lens(lines@));
    replace_range(&ms, &lens, cursor, wrap_around)
}

/// The byte length of each line.
pub open spec fn line_byte_lens(lines: Seq<String>) -> Seq<usize> {
    Seq::new(lines.len(), |i: int| vstd::utf8::encode_utf8(lines[i]@).len() as usize)
}

} // verus!
