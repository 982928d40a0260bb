//! Labels of the "open recent" menu entries: paths shortened to fit a
//! one-line menu row.

use vstd::prelude::*;
use crate::paths::{path_file_name, path_parent, path_strip_prefix, spec_file_name, spec_parent, spec_strip_prefix};
use crate::text::{concat2, concat3};

verus! {

/// Recent-path labels are kept to at most this many characters.
pub const RECENT_MENU_LABEL_MAX_CHARS: usize = 40;

pub open spec fn min_int(a: int, b: int) -> int {
    if a <= b { a } else { b }
}

/// Number of characters (not bytes) in `value`.
pub fn char_count(value: &str) -> (r: usize)
    ensures
        r == value@.len(),
{
    value.unicode_len()
}

/// The first `count` characters of `value` (all of it when shorter).
pub fn take_prefix_chars(value: &str, count: usize) -> (r: String)
    ensures
        r@ == value@.take(min_int(count as int, value@.len() as int)),
{
    let n = value.unicode_len();
    let k = if count < n { count } else { n };
    String::from_str(value.substring_char(0, k))
}

/// The last `count` characters of `value` (all of it when shorter).
pub fn take_suffix_chars(value: &str, count: usize) -> (r: String)
    ensures
        r@ == value@.skip(value@.len() - min_int(count as int, value@.len() as int)),
{
    let total = char_count(value);
    if count >= total {
        assert(value@.skip(0) =~= value@);
        String::from_str(value)
    } else {
        String::from_str(value.substring_char(total - count, total))
    }
}

pub open spec fn ellipsis() -> Seq<char> {
    seq!['.', '.', '.']
}

/// `value` cut to `max_chars` characters: unchanged when it fits; else its
/// start when there is no room for `...` and two characters; else its start,
/// `...` and its end, the start getting the smaller half of what is left.
pub open spec fn truncate_middle_spec(value: Seq<char>, max_chars: int) -> Seq<char> {
    if value.len() <= max_chars {
        value
    } else if max_chars <= 5 {
        value.take(max_chars)
    } else {
        let prefix_len = (max_chars - 3) / 2;
        let suffix_len = max_chars - 3 - prefix_len;
        value.take(prefix_len) + ellipsis() + value.skip(value.len() - suffix_len)
    }
}

/// Shortens `value` in the middle to at most `max_chars` characters.
pub fn truncate_middle(value: &str, max_chars: usize) -> (r: String)
    ensures
        r@ == truncate_middle_spec(value@, max_chars as int),
{
    if char_count(value) <= max_chars {
        return String::from_str(value);
    }
    if max_chars <= 5 {
        return take_prefix_chars(value, max_chars);
    }
    let prefix_len = (max_chars - 3) / 2;
    let suffix_len = max_chars - 3 - prefix_len;
    let prefix = take_prefix_chars(value, prefix_len);
    let suffix = take_suffix_chars(value, suffix_len);
    let dots = "...";
    proof {
        reveal_strlit("...");
    }
    assert(dots@ =~= ellipsis());
    concat3(prefix.as_str(), dots, suffix.as_str())
}

/// Law: a middle-truncated value has exactly as many characters as the
/// limit allows, or fewer when it already fit.
pub proof fn lemma_truncate_middle_length(value: Seq<char>, max_chars: int)
    requires
        max_chars >= 0,
    ensures
        truncate_middle_spec(value, max_chars).len() == min_int(value.len() as int, max_chars),
{
}

/// How a recent path is shown before shortening: relative to the home
/// directory as `~/<rest>` when it lies inside it, else as it is.
pub open spec fn display_spec(path: Seq<char>, home_relative: Option<Seq<char>>) -> Seq<char> {
    match home_relative {
        Some(rest) => seq!['~', '/'] + rest,
        None => path,
    }
}

/// The ends of a path the label may keep after `...`, preferred first:
/// `/<parent>/<file>`, then `/<file>`.
pub open spec fn tails_spec(file_name: Option<Seq<char>>, parent_name: Option<Seq<char>>) -> Seq<Seq<char>> {
    match file_name {
        Some(f) => match parent_name {
            Some(p) => seq![seq!['/'] + p + seq!['/'] + f, seq!['/'] + f],
            None => seq![seq!['/'] + f],
        },
        None => Seq::empty(),
    }
}

/// Whether a tail can follow `...` in a label: what is left for the start
/// of the path must be at least six characters.
pub open spec fn tail_fits(tail: Seq<char>) -> bool {
    tail.len() + 3 < 40 && 40 - 3 - tail.len() >= 6
}

/// The label built from the first tail in `tails` that fits, if any.
pub open spec fn first_fitting_label(display: Seq<char>, tails: Seq<Seq<char>>) -> Option<Seq<char>>
    decreases tails.len(),
{
    if tails.len() == 0 {
        None
    } else if tail_fits(tails[0]) {
        Some(display.take(40 - 3 - tails[0].len()) + ellipsis() + tails[0])
    } else {
        first_fitting_label(display, tails.drop_first())
    }
}

/// The label of a recent path given how it is displayed, its file name and
/// its parent directory's name: the display when it fits in 40 characters;
/// else its start, `...` and the first fitting tail; else the display cut in
/// the middle.
pub open spec fn recent_menu_label_spec(display: Seq<char>, file_name: Option<Seq<char>>, parent_name: Option<Seq<char>>) -> Seq<char> {
    if display.len() <= 40 {
        display
    } else {
        match first_fitting_label(display, tails_spec(file_name, parent_name)) {
            Some(l) => l,
            None => truncate_middle_spec(display, 40),
        }
    }
}

/// Law: a recent-path label always fits the menu row (at most 40 characters).
pub proof fn lemma_recent_menu_label_fits(display: Seq<char>, file_name: Option<Seq<char>>, parent_name: Option<Seq<char>>)
    ensures
        recent_menu_label_spec(display, file_name, parent_name).len() <= 40,
{
    if display.len() > 40 {
        let tails = tails_spec(file_name, parent_name);
        lemma_first_fitting_label_len(display, tails);
        lemma_truncate_middle_length(display, 40);
    }
}

proof fn lemma_first_fitting_label_len(display: Seq<char>, tails: Seq<Seq<char>>)
    requires
        display.len() > 40,
    ensures
        first_fitting_label(display, tails) matches Some(l) ==> l.len() == 40,
    decreases tails.len(),
{
    if tails.len() > 0 && !tail_fits(tails[0]) {
        lemma_first_fitting_label_len(display, tails.drop_first());
    }
}

fn opt_str(s: &Option<String>) -> (r: Option<&str>)
    ensures
        match s {
            Some(v) => r is Some && r->0@ == v@,
            None => r is None,
        },
{
    match s {
        Some(v) => Some(v.as_str()),
        None => None,
    }
}

/// Builds a recent-path label from its display form, file name and parent
/// name (see [`recent_menu_label_spec`]).
pub fn recent_menu_label(display: &str, file_name: Option<&str>, parent_name: Option<&str>) -> (r: String)
    ensures
        r@ == recent_menu_label_spec(
            display@,
            match file_name { Some(f) => Some(f@), None => None },
            match parent_name { Some(p) => Some(p@), None => None },
        ),
{
    let ghost fs = match file_name { Some(f) => Some(f@), None => None };
    let ghost ps = match parent_name { Some(p) => Some(p@), None => None };
    if char_count(display) <= RECENT_MENU_LABEL_MAX_CHARS {
        return String::from_str(display);
    }
    let slash = "/";
    let dots = "...";
    proof {
        reveal_strlit("/");
        reveal_strlit("...");
    }
    assert(slash@ =~= seq!['/']);
    assert(dots@ =~= ellipsis());
    let mut tails: Vec<String> = Vec::new();
    if let Some(f) = file_name {
        tails.push(concat2(slash, f));
        if let Some(p) = parent_name {
            let a = concat3(slash, p, slash);
            tails.push(concat2(a.as_str(), f));
        }
    }
    let ghost spec_tails = tails_spec(fs, ps);
    assert(tails@.len() == spec_tails.len());
    assert(forall|j: int| 0 <= j < tails@.len() ==> tails@[j]@ == spec_tails[tails@.len() - 1 - j]);
    let mut i: usize = tails.len();
    assert(spec_tails.skip(0) =~= spec_tails);
    while i > 0
        invariant
            i <= tails@.len(),
            tails@.len() == spec_tails.len(),
            spec_tails == tails_spec(fs, ps),
            fs == (match file_name { Some(f) => Some(f@), None => None }),
            ps == (match parent_name { Some(p) => Some(p@), None => None }),
            display@.len() > 40,
            dots@ == ellipsis(),
            forall|j: int| 0 <= j < tails@.len() ==> tails@[j]@ == spec_tails[tails@.len() - 1 - j],
            first_fitting_label(display@, spec_tails) == first_fitting_label(display@, spec_tails.skip(tails@.len() - i)),
        decreases i,
    {
        let k = tails.len() - i;
        let tail = tails[i - 1].as_str();
        let tail_len = char_count(tail);
        let ghost rest = spec_tails.skip(k as int);
        assert(rest[0] == spec_tails[k as int]);
        assert(rest.drop_first() =~= spec_tails.skip(k + 1));
        assert(tail@ == rest[0]);
        if tail_len < RECENT_MENU_LABEL_MAX_CHARS - 3 && RECENT_MENU_LABEL_MAX_CHARS - 3 - tail_len >= 6 {
            let prefix_len = RECENT_MENU_LABEL_MAX_CHARS - 3 - tail_len;
            let prefix = take_prefix_chars(display, prefix_len);
            assert(tail_fits(rest[0]));
            assert(first_fitting_label(display@, rest) == Some(display@.take(40 - 3 - rest[0].len()) + ellipsis() + rest[0]));
            assert(prefix@ == display@.take(prefix_len as int));
            let label = concat3(prefix.as_str(), dots, tail);
            assert(label@ == display@.take(40 - 3 - rest[0].len()) + ellipsis() + rest[0]);
            assert(first_fitting_label(display@, spec_tails) == Some(label@));
            assert(spec_tails == tails_spec(fs, ps));
            assert(recent_menu_label_spec(display@, fs, ps) == label@);
            return label;
        }
        assert(!tail_fits(rest[0]));
        i = i - 1;
    }
    assert(spec_tails.skip(tails@.len() as int) =~= Seq::<Seq<char>>::empty());
    truncate_middle(display, RECENT_MENU_LABEL_MAX_CHARS)
}

/// How a recent path is displayed, given what stripping the home directory
/// off it gave.
pub fn home_relative_display(path: &str, home_relative: Option<&str>) -> (r: String)
    ensures
        r@ == display_spec(path@, match home_relative { Some(h) => Some(h@), None => None }),
{
    match home_relative {
        Some(rest) => {
            let home = "~/";
            proof {
                reveal_strlit("~/");
            }
            assert(home@ =~= seq!['~', '/']);
            concat2(home, rest)
        }
        None => String::from_str(path),
    }
}

/// The name of the directory holding `path`, as `path.parent().file_name()` gives it.
pub open spec fn parent_name_spec(path: Seq<char>) -> Option<Seq<char>> {
    match spec_parent(path) {
        Some(p) => spec_file_name(p),
        None => None,
    }
}

/// The menu label of a recent file or project at `path`, given the home
/// directory when known.
pub fn format_recent_menu_path(path: &str, home_dir_opt: Option<&str>) -> (r: String)
    ensures
        ({
            let home_relative = match home_dir_opt {
                Some(h) => spec_strip_prefix(path@, h@),
                None => None,
            };
            r@ == recent_menu_label_spec(display_spec(path@, home_relative), spec_file_name(path@), parent_name_spec(path@))
        }),
{
    let stripped = match home_dir_opt {
        Some(h) => path_strip_prefix(path, h),
        None => None,
    };
    let display = home_relative_display(path, opt_str(&stripped));
    let file_name = path_file_name(path);
    let parent = path_parent(path);
    let parent_name = match &parent {
        Some(p) => path_file_name(p.as_str()),
        None => None,
    };
    recent_menu_label(display.as_str(), opt_str(&file_name), opt_str(&parent_name))
}

} // verus!
