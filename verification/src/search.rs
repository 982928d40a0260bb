//! Searching the open projects: which lines of a file match, and how the
//! results of one search replace those of the last.

use vstd::prelude::*;
use grep::matcher::Matcher;

verus! {

#[verifier::external_type_specification]
#[verifier::external_body]
pub struct ExRegexMatcher(grep::regex::RegexMatcher);

#[verifier::external_type_specification]
#[verifier::external_body]
pub struct ExGrepError(grep::regex::Error);

/// Whether `grep`'s default regex configuration accepts `pattern`.
pub uninterp spec fn spec_grep_pattern_ok(pattern: Seq<char>) -> bool;

/// The byte range of the first match of `pattern` in `text`, as `grep`'s
/// regex matcher reports it.
pub uninterp spec fn spec_grep_find(pattern: Seq<char>, text: Seq<char>) -> Option<(usize, usize)>;

/// A compiled search pattern, together with the pattern it was built from.
pub struct LineMatcher {
    matcher: grep::regex::RegexMatcher,
    pattern: String,
}

impl LineMatcher {
    pub closed spec fn pattern(&self) -> Seq<char> {
        self.pattern@
    }

    /// The `grep` matcher built from [`LineMatcher::pattern`], for the
    /// searcher that reads the files.
    pub fn regex_matcher(&self) -> &grep::regex::RegexMatcher {
        &self.matcher
    }
}

/// Calls `grep::regex::RegexMatcher::new`. Whether the pattern is accepted
/// is named, not stated (it is the regex syntax); the matcher keeps the
/// pattern it was built from.
#[verifier::external_body]
fn new_matcher(pattern: &str) -> (r: Result<LineMatcher, grep::regex::Error>)
    ensures
        r is Ok <==> spec_grep_pattern_ok(pattern@),
        r matches Ok(m) ==> m.pattern() == pattern@,
{
    match grep::regex::RegexMatcher::new(pattern) {
        Ok(matcher) => Ok(LineMatcher { matcher, pattern: pattern.to_string() }),
        Err(e) => Err(e),
    }
}

/// Calls `Matcher::find` on the bytes of `text`. Its error type is
/// `NoError`, so it always answers; where the first match lies is named,
/// not stated. The crate's `Match` is built only with `start <= end`.
#[verifier::external_body]
fn first_match(m: &LineMatcher, text: &str) -> (r: Option<(usize, usize)>)
    ensures
        r == spec_grep_find(m.pattern(), text@),
        r matches Some(p) ==> p.0 <= p.1,
{
    match m.matcher.find(text.as_bytes()) {
        Ok(Some(found)) => Some((found.start(), found.end())),
        _ => None,
    }
}

/// Builds the matcher for a project search, or `None` when the pattern is
/// refused.
pub fn search_matcher(pattern: &str) -> (r: Option<LineMatcher>)
    ensures
        r is Some <==> spec_grep_pattern_ok(pattern@),
        r matches Some(m) ==> m.pattern() == pattern@,
{
    match new_matcher(pattern) {
        Ok(m) => Some(m),
        Err(_) => None,
    }
}

/// A byte range `start..end` of a line.
#[derive(Clone, Copy, Debug, PartialEq, Eq, Structural)]
pub struct MatchRange {
    pub start: usize,
    pub end: usize,
}

/// One matching line: its number (from one), its text, and the byte range
/// of its first match.
#[derive(Clone, Debug, PartialEq, Eq)]
pub struct LineSearchResult {
    pub number: usize,
    pub text: String,
    pub first: MatchRange,
}

/// The matching lines of one file.
#[derive(Clone, Debug, PartialEq, Eq)]
pub struct FileSearchResult {
    pub path: String,
    pub lines: Vec<LineSearchResult>,
}

/// A project search: its pattern, whether it still runs, and what it found.
#[derive(Clone, Debug, PartialEq, Eq)]
pub struct ProjectSearchResult {
    pub value: String,
    pub in_progress: bool,
    pub files: Vec<FileSearchResult>,
}

/// What a line reported by the searcher (its number and text) contributes:
/// nothing when its number does not fit a `usize` or no match is found in it.
pub open spec fn line_result_spec(pattern: Seq<char>, line: (u64, Seq<char>)) -> Option<(usize, Seq<char>, (usize, usize))> {
    if line.0 > usize::MAX {
        None
    } else {
        match spec_grep_find(pattern, line.1) {
            Some(first) => Some((line.0 as usize, line.1, first)),
            None => None,
        }
    }
}

pub open spec fn line_view(l: LineSearchResult) -> (usize, Seq<char>, (usize, usize)) {
    (l.number, l.text@, (l.first.start, l.first.end))
}

/// The results of the reported lines, in order.
pub open spec fn lines_spec(pattern: Seq<char>, lines: Seq<(u64, Seq<char>)>) -> Seq<(usize, Seq<char>, (usize, usize))>
    decreases lines.len(),
{
    if lines.len() == 0 {
        Seq::empty()
    } else {
        let rest = lines_spec(pattern, lines.drop_last());
        match line_result_spec(pattern, lines.last()) {
            Some(r) => rest.push(r),
            None => rest,
        }
    }
}

pub open spec fn reported_view(lines: Seq<(u64, String)>) -> Seq<(u64, Seq<char>)> {
    lines.map_values(|l: (u64, String)| (l.0, l.1@))
}

/// The result for the file at `path`, given the lines the searcher reported
/// in it: those in which a first match is found, or `None` when there are none.
pub fn file_search_result(matcher: &LineMatcher, path: String, reported: Vec<(u64, String)>) -> (r: Option<FileSearchResult>)
    ensures
        lines_spec(matcher.pattern(), reported_view(reported@)).len() == 0 ==> r is None,
        lines_spec(matcher.pattern(), reported_view(reported@)).len() > 0 ==> (r matches Some(f) && f.path@ == path@
            && f.lines@.map_values(|l: LineSearchResult| line_view(l)) == lines_spec(matcher.pattern(), reported_view(reported@))),
{
    let ghost pattern = matcher.pattern();
    let ghost all = reported_view(reported@);
    let mut lines: Vec<LineSearchResult> = Vec::new();
    let mut i: usize = 0;
    let n: usize = reported.len();
    while i < n
        invariant
            n == reported@.len(),
            all == reported_view(reported@),
            i <= n,
            lines@.map_values(|l: LineSearchResult| line_view(l)) == lines_spec(pattern, all.take(i as int)),
            pattern == matcher.pattern(),
        decreases n - i,
    {
        let number = reported[i].0;
        let text: &String = &reported[i].1;
        assert(all[i as int] == (number, text@));
        assert(all.take(i + 1).drop_last() =~= all.take(i as int));
        assert(all.take(i + 1).last() == all[i as int]);
        let ghost before = lines@.map_values(|l: LineSearchResult| line_view(l));
        if number <= usize::MAX as u64 {
            match first_match(matcher, text.as_str()) {
                Some(first) => {
                    let item = LineSearchResult { number: number as usize, text: text.clone(), first: MatchRange { start: first.0, end: first.1 } };
                    lines.push(item);
                    assert(lines@.map_values(|l: LineSearchResult| line_view(l)) =~= before.push(line_view(item)));
                }
                None => {}
            }
        }
        i = i + 1;
    }
    assert(all.take(n as int) =~= all);
    if lines.len() == 0 {
        None
    } else {
        Some(FileSearchResult { path, lines })
    }
}

pub open spec fn string_views(r: Seq<String>) -> Seq<Seq<char>> {
    r.map_values(|s: String| s@)
}

pub open spec fn project_paths(projects: Seq<(String, String)>) -> Seq<Seq<char>> {
    projects.map_values(|p: (String, String)| p.1@)
}

/// The distinct project folders to walk, each once, in the order first given.
pub fn unique_roots(projects: &Vec<(String, String)>) -> (r: Vec<String>)
    ensures
        string_views(r@).no_duplicates(),
        forall|k: int| 0 <= k < projects@.len() ==> string_views(r@).contains(#[trigger] project_paths(projects@)[k]),
        forall|j: int| 0 <= j < r@.len() ==> project_paths(projects@).contains(#[trigger] string_views(r@)[j]),
{
    let ghost paths = project_paths(projects@);
    let mut roots: Vec<String> = Vec::new();
    let mut i: usize = 0;
    while i < projects.len()
        invariant
            paths == project_paths(projects@),
            i <= projects@.len(),
            string_views(roots@).no_duplicates(),
            forall|k: int| 0 <= k < i ==> string_views(roots@).contains(#[trigger] paths[k]),
            forall|j: int| 0 <= j < roots@.len() ==> paths.contains(#[trigger] string_views(roots@)[j]),
        decreases projects@.len() - i,
    {
        let path: &String = &projects[i].1;
        assert(paths[i as int] == path@);
        let present = crate::backup::contains_string(&roots, path.as_str());
        let ghost before = string_views(roots@);
        if !present {
            roots.push(path.clone());
            proof {
                let after = string_views(roots@);
                assert(after =~= before.push(path@));
                assert forall|a: int, b: int| 0 <= a < after.len() && 0 <= b < after.len() && a != b implies after[a] != after[b] by {
                    if a < before.len() && b < before.len() {
                        assert(after[a] == before[a] && after[b] == before[b]);
                    } else if a < before.len() {
                        assert(after[a] == before[a]);
                    } else {
                        assert(after[b] == before[b]);
                    }
                }
                assert forall|k: int| 0 <= k < i + 1 implies after.contains(#[trigger] paths[k]) by {
                    if k < i {
                        assert(before.contains(paths[k]));
                        let m = choose|m: int| 0 <= m < before.len() && before[m] == paths[k];
                        assert(after[m] == before[m]);
                    } else {
                        assert(after[before.len() as int] == path@);
                    }
                }
                assert forall|j: int| 0 <= j < roots@.len() implies paths.contains(#[trigger] after[j]) by {
                    if j < before.len() {
                        assert(after[j] == before[j]);
                    } else {
                        assert(after[j] == paths[i as int]);
                    }
                }
            }
        } else {
            proof {
                let m = choose|m: int| 0 <= m < roots@.len() && roots@[m]@ == path@;
                assert(before[m] == path@);
                assert forall|k: int| 0 <= k < i + 1 implies before.contains(#[trigger] paths[k]) by {
                    if k == i {
                        assert(before[m] == paths[k]);
                    }
                }
            }
        }
        i = i + 1;
    }
    roots
}

/// What a project search runs with: the matcher for its pattern and the
/// distinct project folders to walk (see [`unique_roots`]). `None` when the
/// pattern is refused or there is no folder; the search then ends with its
/// earlier results kept (see [`ProjectSearchResult::finish`]).
pub fn search_plan(value: &str, projects: &Vec<(String, String)>) -> (r: Option<(LineMatcher, Vec<String>)>)
    ensures
        r is Some <==> spec_grep_pattern_ok(value@) && projects@.len() > 0,
        r matches Some(p) ==> p.0.pattern() == value@ && p.1@.len() > 0
            && string_views(p.1@).no_duplicates()
            && (forall|k: int| 0 <= k < projects@.len() ==> string_views(p.1@).contains(#[trigger] project_paths(projects@)[k]))
            && (forall|j: int| 0 <= j < p.1@.len() ==> project_paths(projects@).contains(#[trigger] string_views(p.1@)[j])),
{
    let matcher = match search_matcher(value) {
        Some(m) => m,
        None => return None,
    };
    let roots = unique_roots(projects);
    if roots.len() == 0 {
        proof {
            if projects@.len() > 0 {
                assert(string_views(roots@).contains(project_paths(projects@)[0]));
            }
        }
        return None;
    }
    proof {
        assert(project_paths(projects@).contains(string_views(roots@)[0]));
    }
    Some((matcher, roots))
}

impl ProjectSearchResult {
    /// A new search for `value`, not yet run.
    pub fn new(value: String) -> (r: Self)
        ensures
            r.value@ == value@,
            r.in_progress,
            r.files@.len() == 0,
    {
        ProjectSearchResult { value, in_progress: true, files: Vec::new() }
    }

    /// A search for the text typed in the project search box; nothing is
    /// searched for an empty box.
    pub fn submit(value: String) -> (r: Option<Self>)
        ensures
            value@.len() == 0 ==> r is None,
            value@.len() > 0 ==> (r matches Some(s) && s.value@ == value@ && s.in_progress && s.files@.len() == 0),
    {
        if value.unicode_len() == 0 {
            None
        } else {
            Some(ProjectSearchResult::new(value))
        }
    }

    /// Ends the search. When the folders were walked (`found` is `Some`),
    /// what they gave replaces the earlier results; otherwise (the pattern
    /// was refused, or there was nothing to walk) the earlier results stay.
    pub fn finish(&mut self, found: Option<Vec<FileSearchResult>>)
        ensures
            !final(self).in_progress,
            final(self).value == old(self).value,
            match found {
                Some(files) => final(self).files == files,
                None => final(self).files == old(self).files,
            },
    {
        match found {
            Some(files) => {
                self.files = files;
            }
            None => {}
        }
        self.in_progress = false;
    }
}

/// Where opening result `line_i` of file `file_i` goes: that file, with the
/// cursor at the start of the line's first match (lines count from one, the
/// cursor's from zero). `None` when there is no such result.
pub fn search_result_target(result: &ProjectSearchResult, file_i: usize, line_i: usize) -> (r: Option<(String, crate::tab::CursorPosition)>)
    ensures
        file_i < result.files@.len() && line_i < result.files@[file_i as int].lines@.len() ==> ({
            let f = result.files@[file_i as int];
            let l = f.lines@[line_i as int];
            r matches Some(t) && t.0 == f.path
                && t.1 == crate::tab::CursorPosition { line: if l.number > 0 { (l.number - 1) as usize } else { 0 }, index: l.first.start }
        }),
        !(file_i < result.files@.len() && line_i < result.files@[file_i as int].lines@.len()) ==> r is None,
{
    if file_i >= result.files.len() {
        return None;
    }
    let f = &result.files[file_i];
    if line_i >= f.lines.len() {
        return None;
    }
    let l = &f.lines[line_i];
    Some((f.path.clone(), crate::tab::CursorPosition { line: l.number.saturating_sub(1), index: l.first.start }))
}

} // verus!
