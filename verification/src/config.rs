//! The editor's settings, the list of recently opened paths, and the search
//! pattern built from the find box.

use std::collections::VecDeque;
use vstd::prelude::*;
use vstd::string::StringSliceAdditionalSpecFns;

verus! {

/// Which colour theme the editor uses.
#[derive(Clone, Copy, Debug, PartialEq, Eq, Structural)]
pub enum AppTheme {
    Dark,
    Light,
    System,
}

/// The position of a theme in the settings page's theme list.
pub open spec fn app_theme_index_spec(theme: AppTheme) -> usize {
    match theme {
        AppTheme::System => 0,
        AppTheme::Dark => 1,
        AppTheme::Light => 2,
    }
}

/// The theme chosen at a position of the theme list (any other position
/// means following the system).
pub open spec fn app_theme_from_index_spec(index: usize) -> AppTheme {
    if index == 1 {
        AppTheme::Dark
    } else if index == 2 {
        AppTheme::Light
    } else {
        AppTheme::System
    }
}

impl AppTheme {
    /// The theme's position in the settings page's theme list.
    pub fn index(&self) -> (r: usize)
        ensures
            r == app_theme_index_spec(*self),
    {
        match self {
            AppTheme::System => 0,
            AppTheme::Dark => 1,
            AppTheme::Light => 2,
        }
    }

    /// The theme selected at `index` in the settings page's theme list.
    pub fn from_index(index: usize) -> (r: AppTheme)
        ensures
            r == app_theme_from_index_spec(index),
    {
        if index == 1 {
            AppTheme::Dark
        } else if index == 2 {
            AppTheme::Light
        } else {
            AppTheme::System
        }
    }
}

/// Law: the theme list shows the configured theme, and choosing what it
/// shows gives that theme back.
pub proof fn lemma_app_theme_index_round_trip(theme: AppTheme)
    ensures
        app_theme_from_index_spec(app_theme_index_spec(theme)) == theme,
        app_theme_index_spec(theme) < 3,
{
}

/// The editor's settings.
#[derive(Clone, Debug, PartialEq, Eq)]
pub struct Config {
    pub app_theme: AppTheme,
    pub auto_indent: bool,
    pub find_case_sensitive: bool,
    pub find_use_regex: bool,
    pub font_name: String,
    pub font_size: u16,
    pub highlight_current_line: bool,
    pub line_numbers: bool,
    pub syntax_theme_dark: String,
    pub syntax_theme_light: String,
    pub tab_width: u16,
    pub vim_bindings: bool,
    pub word_wrap: bool,
}

impl Default for Config {
    fn default() -> (r: Self)
        ensures
            r.app_theme == AppTheme::System,
            r.auto_indent,
            !r.find_case_sensitive,
            !r.find_use_regex,
            r.font_name@ == "Fira Mono"@,
            r.font_size == 14,
            r.highlight_current_line,
            r.line_numbers,
            r.syntax_theme_dark@ == "COSMIC Dark"@,
            r.syntax_theme_light@ == "COSMIC Light"@,
            r.tab_width == 4,
            !r.vim_bindings,
            r.word_wrap,
    {
        Config {
            app_theme: AppTheme::System,
            auto_indent: true,
            find_case_sensitive: false,
            find_use_regex: false,
            font_name: String::from_str("Fira Mono"),
            font_size: 14,
            highlight_current_line: true,
            line_numbers: true,
            syntax_theme_dark: String::from_str("COSMIC Dark"),
            syntax_theme_light: String::from_str("COSMIC Light"),
            tab_width: 4,
            vim_bindings: false,
            word_wrap: true,
        }
    }
}

/// The characters that have a meaning in a regular expression.
pub open spec fn is_regex_meta(c: char) -> bool {
    c == '\\' || c == '.' || c == '+' || c == '*' || c == '?' || c == '(' || c == ')' || c == '|' || c == '['
        || c == ']' || c == '{' || c == '}' || c == '^' || c == '$' || c == '#' || c == '&' || c == '-' || c == '~'
}

/// `text` with a backslash put before every meta character, so that a
/// regular expression made of it matches `text` literally.
pub open spec fn regex_escape_spec(text: Seq<char>) -> Seq<char>
    decreases text.len(),
{
    if text.len() == 0 {
        Seq::empty()
    } else {
        regex_escape_spec(text.drop_last()) + if is_regex_meta(text.last()) { seq!['\\', text.last()] } else { seq![text.last()] }
    }
}

/// Calls `regex::escape`, which puts a backslash before each of the meta
/// characters listed in [`is_regex_meta`] (the list of
/// `regex_syntax::is_meta_character`, which that crate keeps fixed).
#[verifier::external_body]
fn regex_escape(text: &str) -> (r: String)
    ensures
        r@ == regex_escape_spec(text@),
{
    regex::escape(text)
}

#[verifier::external_type_specification]
#[verifier::external_body]
pub struct ExRegex(regex::Regex);

#[verifier::external_type_specification]
#[verifier::external_body]
pub struct ExRegexError(regex::Error);

/// Whether `regex::RegexBuilder` accepts `pattern` with the given case setting.
pub uninterp spec fn spec_regex_builds(pattern: Seq<char>, case_insensitive: bool) -> bool;

/// The byte ranges of the successive non-overlapping matches of `pattern`
/// in `text`, as `regex::Regex::find_iter` reports them.
pub uninterp spec fn spec_regex_matches(pattern: Seq<char>, case_insensitive: bool, text: Seq<char>) -> Seq<(usize, usize)>;

/// A compiled find pattern, together with the pattern and case setting it was built from.
pub struct FindRegex {
    regex: regex::Regex,
    pattern: String,
    case_insensitive: bool,
}

impl FindRegex {
    pub closed spec fn pattern(&self) -> Seq<char> {
        self.pattern@
    }

    pub closed spec fn case_insensitive(&self) -> bool {
        self.case_insensitive
    }
}

/// Calls `regex::RegexBuilder::new(pattern).case_insensitive(..).build()`.
/// Whether it succeeds is named, not stated: it is up to the regex parser.
/// The compiled regex keeps the pattern and setting it was built from.
#[verifier::external_body]
fn build_regex(pattern: &str, case_insensitive: bool) -> (r: Result<FindRegex, regex::Error>)
    ensures
        r is Ok <==> spec_regex_builds(pattern@, case_insensitive),
        r matches Ok(re) ==> re.pattern() == pattern@ && re.case_insensitive() == case_insensitive,
{
    let regex = regex::RegexBuilder::new(pattern).case_insensitive(case_insensitive).build()?;
    Ok(FindRegex { regex, pattern: pattern.to_string(), case_insensitive })
}

/// Calls `regex::Regex::find_iter` on `text` and collects each match's byte
/// range. Where the matches fall is named, not stated; as the crate
/// documents, each range runs forwards and ends within the text.
#[verifier::external_body]
pub(crate) fn regex_matches(re: &FindRegex, text: &str) -> (r: Vec<(usize, usize)>)
    ensures
        r@ == spec_regex_matches(re.pattern(), re.case_insensitive(), text@),
        forall|i: int| 0 <= i < r@.len() ==> (#[trigger] r@[i]).0 <= r@[i].1 <= text.spec_bytes().len(),
{
    re.regex.find_iter(text).map(|m| (m.start(), m.end())).collect()
}

/// Calls `regex::Regex::is_match`: whether the pattern matches somewhere in
/// `text`, which is whether `find_iter` finds any match.
#[verifier::external_body]
fn regex_is_match(re: &FindRegex, text: &str) -> (r: bool)
    ensures
        r == (spec_regex_matches(re.pattern(), re.case_insensitive(), text@).len() > 0),
{
    re.regex.is_match(text)
}

impl FindRegex {
    /// Whether the pattern matches somewhere in `text`.
    pub fn is_match(&self, text: &str) -> (r: bool)
        ensures
            r == (spec_regex_matches(self.pattern(), self.case_insensitive(), text@).len() > 0),
    {
        regex_is_match(self, text)
    }
}

/// The regular expression the find box searches for: its text as typed when
/// regular expressions are on, else the text escaped to match literally.
pub open spec fn find_pattern_spec(use_regex: bool, pattern: Seq<char>) -> Seq<char> {
    if use_regex { pattern } else { regex_escape_spec(pattern) }
}

impl Config {
    /// The syntax theme for the current appearance: the dark one when the
    /// interface is dark, else the light one.
    pub fn syntax_theme(&self, dark: bool) -> (r: &str)
        ensures
            r@ == (if dark { self.syntax_theme_dark@ } else { self.syntax_theme_light@ }),
    {
        if dark {
            self.syntax_theme_dark.as_str()
        } else {
            self.syntax_theme_light.as_str()
        }
    }

    /// The pattern a search for `pattern` compiles (see [`find_pattern_spec`]).
    pub fn find_pattern(&self, pattern: &str) -> (r: String)
        ensures
            r@ == find_pattern_spec(self.find_use_regex, pattern@),
    {
        if self.find_use_regex {
            String::from_str(pattern)
        } else {
            regex_escape(pattern)
        }
    }

    /// Compiles the search for `pattern`: the pattern of [`Config::find_pattern`],
    /// ignoring case unless the search is case sensitive.
    pub fn find_regex(&self, pattern: &str) -> (r: Result<FindRegex, regex::Error>)
        ensures
            r is Ok <==> spec_regex_builds(find_pattern_spec(self.find_use_regex, pattern@), !self.find_case_sensitive),
            r matches Ok(re) ==> re.pattern() == find_pattern_spec(self.find_use_regex, pattern@)
                && re.case_insensitive() == !self.find_case_sensitive,
    {
        let p = self.find_pattern(pattern);
        build_regex(p.as_str(), !self.find_case_sensitive)
    }
}

/// The recently opened files and projects, most recent first.
#[derive(Clone, Debug, PartialEq, Eq)]
pub struct ConfigState {
    pub recent_files: VecDeque<String>,
    pub recent_projects: VecDeque<String>,
}

impl Default for ConfigState {
    fn default() -> (r: Self)
        ensures
            r.recent_files@.len() == 0,
            r.recent_projects@.len() == 0,
    {
        ConfigState { recent_files: VecDeque::new(), recent_projects: VecDeque::new() }
    }
}

/// At most this many recent files and projects are remembered.
pub const RECENT_LIMIT: usize = 10;

pub open spec fn views(list: Seq<String>) -> Seq<Seq<char>> {
    list.map_values(|s: String| s@)
}

/// Every entry that does not name the path `path` (compared as paths are,
/// component by component).
pub open spec fn other_than(path: Seq<char>) -> spec_fn(Seq<char>) -> bool {
    |x: Seq<char>| !crate::paths::spec_path_eq(x, path)
}

/// The recent list after opening `path`: `path` first, then the earlier
/// entries that name another path, cut to ten entries.
pub open spec fn push_recent_spec(list: Seq<Seq<char>>, path: Seq<char>) -> Seq<Seq<char>> {
    let l = seq![path] + list.filter(other_than(path));
    l.take(if l.len() > 10 { 10 } else { l.len() as int })
}

/// Records that `path` was opened (see [`push_recent_spec`]).
pub fn push_recent(list: &mut VecDeque<String>, path: String)
    ensures
        views(final(list)@) == push_recent_spec(views(old(list)@), path@),
{
    let ghost old_views = views(list@);
    let mut kept: VecDeque<String> = VecDeque::new();
    let n = list.len();
    let mut i: usize = 0;
    while i < n
        invariant
            n == list@.len(),
            old_views == views(list@),
            i <= n,
            views(kept@) == old_views.take(i as int).filter(other_than(path@)),
        decreases n - i,
    {
        proof {
            reveal_with_fuel(Seq::filter, 1);
            assert(old_views.take(i + 1).drop_last() =~= old_views.take(i as int));
        }
        let item = &list[i];
        let ghost before = views(kept@);
        if !crate::paths::path_eq(item.as_str(), path.as_str()) {
            kept.push_back(item.clone());
            assert(views(kept@) =~= before.push(item@));
        } else {
            assert(views(kept@) =~= before);
        }
        i = i + 1;
    }
    assert(old_views.take(n as int) =~= old_views);
    let ghost kv = views(kept@);
    kept.push_front(path);
    assert(views(kept@) =~= seq![path@] + kv);
    kept.truncate(RECENT_LIMIT);
    assert(views(kept@) =~= (seq![path@] + kv).take(if (seq![path@] + kv).len() > 10 { 10 } else { (seq![path@] + kv).len() as int }));
    *list = kept;
}

/// Law: after opening a path it comes first in the recent list, no later
/// entry names the same path, and the list never grows past ten entries.
pub proof fn lemma_push_recent_properties(list: Seq<Seq<char>>, path: Seq<char>)
    ensures
        push_recent_spec(list, path).len() <= 10,
        push_recent_spec(list, path).len() >= 1,
        push_recent_spec(list, path)[0] == path,
        forall|i: int| 1 <= i < push_recent_spec(list, path).len() ==> !crate::paths::spec_path_eq(#[trigger] push_recent_spec(list, path)[i], path),
{
    let f = list.filter(other_than(path));
    let l = seq![path] + f;
    let k = if l.len() > 10 { 10 } else { l.len() as int };
    let r = push_recent_spec(list, path);
    assert(r == l.take(k));
    assert(r.len() == k);
    assert(l[0] == path);
    assert forall|i: int| 1 <= i < r.len() implies !crate::paths::spec_path_eq(#[trigger] r[i], path) by {
        assert(r[i] == l[i]);
        assert(l[i] == f[i - 1]);
        list.lemma_filter_pred(other_than(path), i - 1);
    }
}

proof fn lemma_filter_keeps_unique(list: Seq<Seq<char>>, path: Seq<char>)
    requires
        list.no_duplicates(),
    ensures
        list.filter(other_than(path)).no_duplicates(),
    decreases list.len(),
{
    reveal_with_fuel(Seq::filter, 1);
    if list.len() > 0 {
        let rest = list.drop_last();
        assert(rest.no_duplicates());
        lemma_filter_keeps_unique(rest, path);
        let f = rest.filter(other_than(path));
        if f.contains(list.last()) {
            rest.lemma_filter_contains_rev(other_than(path), list.last());
            let k = choose|k: int| 0 <= k < rest.len() && rest[k] == list.last();
            assert(list[k] == list[list.len() - 1]);
        }
    }
}

proof fn lemma_filter_all_kept(list: Seq<Seq<char>>, path: Seq<char>)
    requires
        forall|i: int| 0 <= i < list.len() ==> !crate::paths::spec_path_eq(#[trigger] list[i], path),
    ensures
        list.filter(other_than(path)) == list,
    decreases list.len(),
{
    reveal_with_fuel(Seq::filter, 1);
    if list.len() > 0 {
        lemma_filter_all_kept(list.drop_last(), path);
        assert(list.drop_last().push(list.last()) =~= list);
    }
}

/// Law: a recent list without repeated entries keeps none after a path is
/// opened (a path names itself: `Path`'s `==` holds of equal paths).
pub proof fn lemma_push_recent_keeps_unique(list: Seq<Seq<char>>, path: Seq<char>)
    requires
        list.no_duplicates(),
        crate::paths::spec_path_eq(path, path),
    ensures
        push_recent_spec(list, path).no_duplicates(),
{
    lemma_filter_keeps_unique(list, path);
    lemma_push_recent_properties(list, path);
    let f = list.filter(other_than(path));
    let l = seq![path] + f;
    assert forall|i: int| 0 <= i < f.len() implies f[i] != path by {
        list.lemma_filter_pred(other_than(path), i);
        assert(!crate::paths::spec_path_eq(f[i], path));
    }
    assert forall|i: int, j: int| 0 <= i < l.len() && 0 <= j < l.len() && i != j implies l[i] != l[j] by {
        if i > 0 && j > 0 {
            assert(l[i] == f[i - 1] && l[j] == f[j - 1]);
        } else if i == 0 {
            assert(l[j] == f[j - 1]);
        } else {
            assert(l[i] == f[i - 1]);
        }
    }
}

/// Law: opening the path that is already first in the recent list leaves
/// the list as it is (a path names itself: `Path`'s `==` holds of equal
/// paths).
pub proof fn lemma_push_recent_idempotent(list: Seq<Seq<char>>, path: Seq<char>)
    requires
        crate::paths::spec_path_eq(path, path),
    ensures
        push_recent_spec(push_recent_spec(list, path), path) == push_recent_spec(list, path),
{
    lemma_push_recent_properties(list, path);
    let r = push_recent_spec(list, path);
    let rest = r.drop_first();
    assert(r =~= seq![path] + rest);
    assert forall|i: int| 0 <= i < rest.len() implies !crate::paths::spec_path_eq(#[trigger] rest[i], path) by {
        assert(rest[i] == r[i + 1]);
    }
    lemma_filter_all_kept(rest, path);
    Seq::filter_distributes_over_add(seq![path], rest, other_than(path));
    reveal_with_fuel(Seq::filter, 2);
    assert(seq![path].filter(other_than(path)) =~= Seq::<Seq<char>>::empty()) by {
        assert(seq![path].drop_last() =~= Seq::<Seq<char>>::empty());
    }
    assert(r.filter(other_than(path)) =~= rest);
    lemma_push_recent_properties(r, path);
    assert((seq![path] + r.filter(other_than(path))) =~= r);
}

} // verus!
