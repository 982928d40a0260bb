//! Replacing text in a document held as lines: one replacement from the
//! cursor, and "replace all".

use vstd::prelude::*;
use vstd::string::StringSliceAdditionalSpecFns;
use crate::config::FindRegex;
use crate::tab::{document_matches, line_byte_lens, replace_range_spec, replace_target, text_lines, CursorPosition};
use crate::text::{
    char_start, char_utf8_len, concat2, concat3, lemma_char_start_ends, lemma_char_start_step, split_on, split_spec,
    string_from_chars, to_chars,
};

verus! {

/// The character of `s`, from `i` on, that starts at byte `b`; `None` when
/// no character starts there (and `b` is not the end of `s`).
pub open spec fn char_index_from(s: Seq<char>, b: int, i: int) -> Option<int>
    decreases s.len() - i,
{
    if i < 0 || i > s.len() || char_start(s, i) > b {
        None
    } else if char_start(s, i) == b {
        Some(i)
    } else if i == s.len() {
        None
    } else {
        char_index_from(s, b, i + 1)
    }
}

/// The character of `s` that starts at byte `b` (see [`char_index_from`]).
pub open spec fn char_index(s: Seq<char>, b: int) -> Option<int> {
    char_index_from(s, b, 0)
}

proof fn lemma_char_index_from(s: Seq<char>, b: int, i: int)
    requires
        0 <= i <= s.len(),
    ensures
        char_index_from(s, b, i) matches Some(k) ==> i <= k <= s.len() && char_start(s, k) == b,
    decreases s.len() - i,
{
    if i < s.len() && char_start(s, i) < b {
        lemma_char_index_from(s, b, i + 1);
    }
}

/// The character of `text` that starts at byte `b`, or `None`.
pub fn char_index_of(text: &str, b: usize) -> (r: Option<usize>)
    ensures
        match r {
            Some(k) => char_index(text@, b as int) == Some(k as int),
            None => char_index(text@, b as int) is None,
        },
        r matches Some(k) ==> k <= text@.len(),
{
    let n = text.unicode_len();
    proof {
        lemma_char_start_ends(text@);
        lemma_char_index_from(text@, b as int, 0);
    }
    let total = text.as_bytes().len();
    let mut i: usize = 0;
    let mut off: usize = 0;
    loop
        invariant
            n == text@.len(),
            i <= n,
            off == char_start(text@, i as int),
            off <= b,
            char_start(text@, n as int) == total,
            char_index(text@, b as int) == char_index_from(text@, b as int, i as int),
        decreases n - i,
    {
        if off == b {
            return Some(i);
        }
        if i >= n {
            return None;
        }
        let c = text.get_char(i);
        proof {
            lemma_char_start_step(text@, i as int);
            crate::tab::lemma_char_start_monotone(text@, i + 1, n as int);
        }
        let w = char_utf8_len(c);
        if off + w > b {
            proof {
                assert(char_index_from(text@, b as int, i + 1) is None);
            }
            return None;
        }
        off = off + w;
        i = i + 1;
    }
}

/// The byte length of each line.
pub open spec fn byte_lens(lines: Seq<Seq<char>>) -> Seq<usize> {
    Seq::new(lines.len(), |i: int| vstd::utf8::encode_utf8(lines[i]).len() as usize)
}

/// The document after the text from `start` to `end` is replaced by `text`,
/// with the cursor just after the inserted text. The text's line breaks
/// become line breaks of the document: its first line joins the part of the
/// start line before `start`, its last line the part of the end line after
/// `end`. `None` when a position lies outside the document, off a character
/// boundary, or `end` comes before `start`.
pub open spec fn replace_span_spec(lines: Seq<Seq<char>>, start: CursorPosition, end: CursorPosition, text: Seq<char>) -> Option<(Seq<Seq<char>>, CursorPosition)> {
    if !(start.line <= end.line && end.line < lines.len()) {
        None
    } else {
        match (char_index(lines[start.line as int], start.index as int), char_index(lines[end.line as int], end.index as int)) {
            (Some(a), Some(b)) => if start.line == end.line && a > b {
                None
            } else {
                let prefix = lines[start.line as int].take(a);
                let suffix = lines[end.line as int].skip(b);
                let ts = split_spec(text, '\n');
                let m = ts.len() - 1;
                let middle = if m == 0 {
                    seq![prefix + ts[0] + suffix]
                } else {
                    seq![prefix + ts[0]] + ts.subrange(1, m) + seq![ts[m] + suffix]
                };
                let last = if m == 0 { prefix + ts[0] } else { ts[m] };
                Some((
                    lines.take(start.line as int) + middle + lines.skip(end.line + 1),
                    CursorPosition { line: (start.line + m) as usize, index: vstd::utf8::encode_utf8(last).len() as usize },
                ))
            },
            _ => None,
        }
    }
}

pub open spec fn views(v: Seq<String>) -> Seq<Seq<char>> {
    v.map_values(|s: String| s@)
}

fn push_clones(out: &mut Vec<String>, src: &Vec<String>, from: usize, to: usize)
    requires
        from <= to <= src@.len(),
    ensures
        views(final(out)@) == views(old(out)@) + views(src@).subrange(from as int, to as int),
{
    let ghost start = views(out@);
    let mut i: usize = from;
    while i < to
        invariant
            from <= i <= to,
            to <= src@.len(),
            views(out@) == start + views(src@).subrange(from as int, i as int),
        decreases to - i,
    {
        let s = src[i].clone();
        let ghost before = views(out@);
        out.push(s);
        assert(views(out@) =~= before.push(src@[i as int]@));
        assert(views(src@).subrange(from as int, i + 1) =~= views(src@).subrange(from as int, i as int).push(src@[i as int]@));
        assert(start + views(src@).subrange(from as int, i + 1) =~= (start + views(src@).subrange(from as int, i as int)).push(src@[i as int]@));
        i = i + 1;
    }
}

proof fn lemma_split_nonempty(s: Seq<char>)
    ensures
        split_spec(s, '\n').len() >= 1,
{
    reveal(split_spec);
}

/// Replaces the text from `start` to `end` of the document `lines` by
/// `text` (see [`replace_span_spec`]).
pub fn replace_span(lines: &Vec<String>, start: CursorPosition, end: CursorPosition, text: &str) -> (r: Option<(Vec<String>, CursorPosition)>)
    ensures
        match r {
            Some(p) => replace_span_spec(views(lines@), start, end, text@) == Some((views(p.0@), p.1)),
            None => replace_span_spec(views(lines@), start, end, text@) is None,
        },
{
    let ghost ls = views(lines@);
    if !(start.line <= end.line && end.line < lines.len()) {
        return None;
    }
    let sline = lines[start.line].as_str();
    let eline = lines[end.line].as_str();
    assert(ls[start.line as int] == sline@ && ls[end.line as int] == eline@);
    let a = match char_index_of(sline, start.index) {
        Some(a) => a,
        None => return None,
    };
    let b = match char_index_of(eline, end.index) {
        Some(b) => b,
        None => return None,
    };
    if start.line == end.line && a > b {
        return None;
    }
    let schars = to_chars(sline);
    let echars = to_chars(eline);
    let prefix = string_from_chars(&schars, 0, a);
    let suffix = string_from_chars(&echars, b, echars.len());
    assert(prefix@ =~= ls[start.line as int].take(a as int));
    assert(suffix@ =~= ls[end.line as int].skip(b as int));
    let ts = split_on(text, '\n');
    let ghost tv = split_spec(text@, '\n');
    proof {
        lemma_split_nonempty(text@);
        assert(views(ts@) =~= tv);
    }
    let m = ts.len() - 1;
    let mut out: Vec<String> = Vec::new();
    push_clones(&mut out, lines, 0, start.line);
    let ghost head = views(out@);
    assert(head =~= ls.take(start.line as int));
    let last_len: usize;
    if m == 0 {
        assert(ts@[0]@ == tv[0]);
        let joined = concat3(prefix.as_str(), ts[0].as_str(), suffix.as_str());
        let before_cursor = concat2(prefix.as_str(), ts[0].as_str());
        last_len = before_cursor.as_str().as_bytes().len();
        out.push(joined);
        assert(views(out@) =~= head + seq![prefix@ + tv[0] + suffix@]);
    } else {
        assert(ts@[0]@ == tv[0] && ts@[m as int]@ == tv[m as int]);
        let first = concat2(prefix.as_str(), ts[0].as_str());
        let lastl = concat2(ts[m].as_str(), suffix.as_str());
        last_len = ts[m].as_str().as_bytes().len();
        out.push(first);
        let ghost h1 = views(out@);
        assert(h1 =~= head + seq![prefix@ + tv[0]]);
        push_clones(&mut out, &ts, 1, m);
        let ghost h2 = views(out@);
        out.push(lastl);
        assert(views(out@) =~= h2.push(tv[m as int] + suffix@));
        assert(views(out@) =~= head + (seq![prefix@ + tv[0]] + tv.subrange(1, m as int) + seq![tv[m as int] + suffix@]));
    }
    let ghost mid = views(out@);
    push_clones(&mut out, lines, end.line + 1, lines.len());
    assert(views(lines@).subrange(end.line + 1, lines@.len() as int) =~= ls.skip(end.line + 1));
    let total = out.len();
    assert(views(out@).len() == start.line + m + 1 + (lines@.len() - end.line - 1));
    assert(start.line + m < total);
    let cursor = CursorPosition { line: start.line + m, index: last_len };
    proof {
        let want = replace_span_spec(ls, start, end, text@);
        assert(want matches Some(w) && w.0 =~= views(out@) && w.1 == cursor);
    }
    Some((out, cursor))
}

/// Law: a replacement removes the line breaks between its two positions and
/// adds those of the inserted text, and leaves the cursor on the line where
/// the inserted text ends.
pub proof fn lemma_replace_span_lines(lines: Seq<Seq<char>>, start: CursorPosition, end: CursorPosition, text: Seq<char>)
    requires
        replace_span_spec(lines, start, end, text) is Some,
        start.line + split_spec(text, '\n').len() <= usize::MAX,
    ensures
        ({
            let (after, c) = replace_span_spec(lines, start, end, text).unwrap();
            let breaks = split_spec(text, '\n').len() - 1;
            &&& after.len() == lines.len() - (end.line - start.line) + breaks
            &&& c.line == start.line + breaks
            &&& c.line < after.len()
            &&& after.take(start.line as int) == lines.take(start.line as int)
        }),
{
    lemma_split_nonempty(text);
    let (after, c) = replace_span_spec(lines, start, end, text).unwrap();
    let a = char_index(lines[start.line as int], start.index as int).unwrap();
    let b = char_index(lines[end.line as int], end.index as int).unwrap();
    let prefix = lines[start.line as int].take(a);
    let suffix = lines[end.line as int].skip(b);
    let ts = split_spec(text, '\n');
    let m = ts.len() - 1;
    let middle = if m == 0 {
        seq![prefix + ts[0] + suffix]
    } else {
        seq![prefix + ts[0]] + ts.subrange(1, m) + seq![ts[m] + suffix]
    };
    assert(middle.len() == m + 1);
    assert(after == lines.take(start.line as int) + middle + lines.skip(end.line + 1));
    assert(after.take(start.line as int) =~= lines.take(start.line as int));
}

/// One replacement from `cursor`: the range [`replace_range_spec`] picks,
/// replaced by `text` (see [`replace_span_spec`]). `None` when there is
/// nothing to replace.
pub open spec fn replace_once_spec(re: FindRegex, lines: Seq<Seq<char>>, cursor: CursorPosition, text: Seq<char>, wrap_around: bool) -> Option<(Seq<Seq<char>>, CursorPosition)> {
    match replace_range_spec(document_matches(re, lines), byte_lens(lines), cursor, wrap_around) {
        Some((a, b)) => replace_span_spec(lines, a, b, text),
        None => None,
    }
}

/// Replaces the next match of `re` from `cursor` in `lines` by `text`,
/// giving the new lines and the cursor after the inserted text (see
/// [`replace_once_spec`]).
pub fn replace_once(re: &FindRegex, lines: &Vec<String>, cursor: CursorPosition, text: &str, wrap_around: bool) -> (r: Option<(Vec<String>, CursorPosition)>)
    ensures
        match r {
            Some(p) => replace_once_spec(*re, views(lines@), cursor, text@, wrap_around) == Some((views(p.0@), p.1)),
            None => replace_once_spec(*re, views(lines@), cursor, text@, wrap_around) is None,
        },
{
    proof {
        assert(text_lines(lines@) =~= views(lines@));
        assert(line_byte_lens(lines@) =~= byte_lens(views(lines@)));
    }
    match replace_target(re, lines, cursor, wrap_around) {
        Some((a, b)) => replace_span(lines, a, b, text),
        None => None,
    }
}

/// Replace all, as the editor runs it: from the start of the document, one
/// replacement after another without wrapping, each from the cursor the
/// last one left, until none is left or `steps` have been made. Gives the
/// document and the number of replacements made. (A pattern that keeps
/// matching where the cursor stands would never run out: `steps` bounds it.)
pub open spec fn replace_all_spec(re: FindRegex, lines: Seq<Seq<char>>, cursor: CursorPosition, text: Seq<char>, steps: nat) -> (Seq<Seq<char>>, nat)
    decreases steps,
{
    if steps == 0 {
        (lines, 0)
    } else {
        match replace_once_spec(re, lines, cursor, text, false) {
            Some((next, c)) => {
                let rest = replace_all_spec(re, next, c, text, (steps - 1) as nat);
                (rest.0, rest.1 + 1)
            },
            None => (lines, 0),
        }
    }
}

/// Replaces every match of `re` in `lines` by `text`, at most `steps`
/// times (see [`replace_all_spec`]).
pub fn replace_all(re: &FindRegex, lines: Vec<String>, text: &str, steps: usize) -> (r: (Vec<String>, usize))
    ensures
        (views(r.0@), r.1 as nat) == replace_all_spec(*re, views(lines@), CursorPosition { line: 0, index: 0 }, text@, steps as nat),
{
    let ghost l0 = views(lines@);
    let mut doc = lines;
    let mut cursor = CursorPosition { line: 0, index: 0 };
    let mut done: usize = 0;
    while done < steps
        invariant
            done <= steps,
            l0 == views(lines@),
            ({
                let rest = replace_all_spec(*re, views(doc@), cursor, text@, (steps - done) as nat);
                replace_all_spec(*re, l0, CursorPosition { line: 0, index: 0 }, text@, steps as nat) == (rest.0, (rest.1 + done) as nat)
            }),
        decreases steps - done,
    {
        match replace_once(re, &doc, cursor, text, false) {
            Some((next, c)) => {
                doc = next;
                cursor = c;
                done = done + 1;
            }
            None => {
                assert(replace_all_spec(*re, views(doc@), cursor, text@, (steps - done) as nat) == (views(doc@), 0nat));
                return (doc, done);
            }
        }
    }
    (doc, done)
}

} // verus!
