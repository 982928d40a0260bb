//! Document statistics: words, characters (as grapheme clusters), characters
//! other than white space, and lines.

use vstd::prelude::*;
use unicode_segmentation::UnicodeSegmentation;

verus! {

/// The extended grapheme clusters of `text`, as `UnicodeSegmentation::graphemes` splits it.
pub uninterp spec fn spec_graphemes(text: Seq<char>) -> Seq<Seq<char>>;

/// Calls `UnicodeSegmentation::graphemes(text, true)` and collects the clusters.
/// Where the boundaries fall (UAX #29) is named, not stated; what the crate's
/// iterator shows of every result is stated: the clusters are consecutive,
/// non-empty slices of `text`, so together they give `text` back.
#[verifier::external_body]
fn graphemes(text: &str) -> (r: Vec<String>)
    ensures
        r@.map_values(|g: String| g@) == spec_graphemes(text@),
        r@.map_values(|g: String| g@).flatten() == text@,
        forall|i: int| 0 <= i < r@.len() ==> (#[trigger] r@[i])@.len() > 0,
{
    text.graphemes(true).map(|g| g.to_string()).collect()
}

/// Unicode's `White_Space` property, which `char::is_whitespace` tests.
pub open spec fn is_white_space(c: char) -> bool {
    ('\u{9}' <= c && c <= '\u{d}') || c == ' ' || c == '\u{85}' || c == '\u{a0}' || c == '\u{1680}'
        || ('\u{2000}' <= c && c <= '\u{200a}') || c == '\u{2028}' || c == '\u{2029}'
        || c == '\u{202f}' || c == '\u{205f}' || c == '\u{3000}'
}

/// Whether `c` has the `White_Space` property.
pub fn is_whitespace(c: char) -> (r: bool)
    ensures
        r == is_white_space(c),
{
    ('\u{9}' <= c && c <= '\u{d}') || c == ' ' || c == '\u{85}' || c == '\u{a0}' || c == '\u{1680}'
        || ('\u{2000}' <= c && c <= '\u{200a}') || c == '\u{2028}' || c == '\u{2029}'
        || c == '\u{202f}' || c == '\u{205f}' || c == '\u{3000}'
}

/// A cluster counts as a space when all its characters are white space.
pub open spec fn is_blank(g: Seq<char>) -> bool {
    forall|i: int| 0 <= i < g.len() ==> is_white_space(#[trigger] g[i])
}

/// The clusters of a line that are not spaces.
pub open spec fn non_blank_count(gs: Seq<Seq<char>>) -> nat
    decreases gs.len(),
{
    if gs.len() == 0 {
        0
    } else {
        non_blank_count(gs.drop_last()) + if is_blank(gs.last()) { 0nat } else { 1nat }
    }
}

/// Whether cluster `i` of a line begins a word: it is no space, and it comes
/// first or after a space.
pub open spec fn starts_word(gs: Seq<Seq<char>>, i: int) -> bool {
    !is_blank(gs[i]) && (i == 0 || is_blank(gs[i - 1]))
}

/// The words of a line: the clusters that begin one.
pub open spec fn word_count(gs: Seq<Seq<char>>) -> nat
    decreases gs.len(),
{
    if gs.len() == 0 {
        0
    } else {
        word_count(gs.drop_last()) + if starts_word(gs, gs.len() - 1) { 1nat } else { 0nat }
    }
}

/// All clusters of a document given line by line.
pub open spec fn total_clusters(ls: Seq<Seq<Seq<char>>>) -> nat
    decreases ls.len(),
{
    if ls.len() == 0 {
        0
    } else {
        total_clusters(ls.drop_last()) + ls.last().len()
    }
}

pub open spec fn total_non_blank(ls: Seq<Seq<Seq<char>>>) -> nat
    decreases ls.len(),
{
    if ls.len() == 0 {
        0
    } else {
        total_non_blank(ls.drop_last()) + non_blank_count(ls.last())
    }
}

pub open spec fn total_words(ls: Seq<Seq<Seq<char>>>) -> nat
    decreases ls.len(),
{
    if ls.len() == 0 {
        0
    } else {
        total_words(ls.drop_last()) + word_count(ls.last())
    }
}

/// All characters of the given lines.
pub open spec fn total_chars(texts: Seq<Seq<char>>) -> nat
    decreases texts.len(),
{
    if texts.len() == 0 {
        0
    } else {
        total_chars(texts.drop_last()) + texts.last().len()
    }
}

/// The clusters of each line.
pub open spec fn graphemes_of_lines(texts: Seq<Seq<char>>) -> Seq<Seq<Seq<char>>> {
    Seq::new(texts.len(), |k: int| spec_graphemes(texts[k]))
}

pub open spec fn cluster_view(lines: Seq<Vec<String>>) -> Seq<Seq<Seq<char>>> {
    Seq::new(lines.len(), |k: int| lines[k]@.map_values(|g: String| g@))
}

pub open spec fn text_view(lines: Seq<String>) -> Seq<Seq<char>> {
    lines.map_values(|s: String| s@)
}

/// The figures the editor shows for a document.
#[derive(Clone, Copy, Debug, PartialEq, Eq, Structural)]
pub struct DocumentStatistics {
    pub word_count: usize,
    pub character_count: usize,
    pub character_count_no_spaces: usize,
    pub line_count: usize,
}

/// Whether `s` gives the figures of the document whose lines split into the clusters `ls`.
pub open spec fn describes(s: DocumentStatistics, ls: Seq<Seq<Seq<char>>>) -> bool {
    &&& s.line_count == ls.len()
    &&& s.character_count == total_clusters(ls)
    &&& s.character_count_no_spaces == total_non_blank(ls)
    &&& s.word_count == total_words(ls)
}

/// In a line, no more words than clusters that are no space, and no more of those than clusters.
pub proof fn lemma_line_counts_bounded(gs: Seq<Seq<char>>)
    ensures
        word_count(gs) <= non_blank_count(gs) <= gs.len(),
    decreases gs.len(),
{
    if gs.len() > 0 {
        lemma_line_counts_bounded(gs.drop_last());
    }
}

/// A document never has more words than characters other than spaces, nor
/// more of those than characters.
pub proof fn lemma_statistics_bounded(ls: Seq<Seq<Seq<char>>>)
    ensures
        total_words(ls) <= total_non_blank(ls) <= total_clusters(ls),
    decreases ls.len(),
{
    if ls.len() > 0 {
        lemma_statistics_bounded(ls.drop_last());
        lemma_line_counts_bounded(ls.last());
    }
}

proof fn lemma_total_prefix(ls: Seq<Seq<Seq<char>>>, i: int)
    requires
        0 <= i <= ls.len(),
    ensures
        total_clusters(ls.take(i)) <= total_clusters(ls),
    decreases ls.len(),
{
    if i < ls.len() {
        assert(ls.take(i) =~= ls.drop_last().take(i));
        lemma_total_prefix(ls.drop_last(), i);
    } else {
        assert(ls.take(i) =~= ls);
    }
}

proof fn lemma_clusters_le_chars(gs: Seq<Seq<char>>)
    requires
        forall|i: int| 0 <= i < gs.len() ==> (#[trigger] gs[i]).len() > 0,
    ensures
        gs.len() <= gs.flatten().len(),
    decreases gs.len(),
{
    if gs.len() > 0 {
        assert forall|i: int| 0 <= i < gs.drop_first().len() implies (#[trigger] gs.drop_first()[i]).len() > 0 by {
            assert(gs.drop_first()[i] == gs[i + 1]);
        }
        lemma_clusters_le_chars(gs.drop_first());
        assert(gs[0].len() > 0);
    }
}

proof fn lemma_total_le_chars(ls: Seq<Seq<Seq<char>>>, texts: Seq<Seq<char>>)
    requires
        ls.len() == texts.len(),
        forall|k: int| 0 <= k < ls.len() ==> (#[trigger] ls[k]).len() <= texts[k].len(),
    ensures
        total_clusters(ls) <= total_chars(texts),
    decreases ls.len(),
{
    if ls.len() > 0 {
        let n = ls.len() - 1;
        assert forall|k: int| 0 <= k < ls.drop_last().len() implies (#[trigger] ls.drop_last()[k]).len() <= texts.drop_last()[k].len() by {
            assert(ls.drop_last()[k] == ls[k]);
            assert(texts.drop_last()[k] == texts[k]);
        }
        lemma_total_le_chars(ls.drop_last(), texts.drop_last());
        assert(ls[n].len() <= texts[n].len());
    }
}

/// Whether every character of `g` is white space.
fn blank(g: &str) -> (r: bool)
    ensures
        r == is_blank(g@),
{
    let chars = crate::text::to_chars(g);
    let mut i: usize = 0;
    while i < chars.len()
        invariant
            chars@ == g@,
            i <= chars.len(),
            forall|k: int| 0 <= k < i ==> is_white_space(#[trigger] g@[k]),
        decreases chars.len() - i,
    {
        if !is_whitespace(chars[i]) {
            assert(!is_white_space(g@[i as int]));
            return false;
        }
        i = i + 1;
    }
    true
}

/// The statistics of a document whose lines have been split into the
/// clusters `lines` (one vector of clusters per line). Words are counted
/// per line: a word begins at each cluster that is no space and comes first
/// or after a space.
pub fn statistics_of_clusters(lines: &Vec<Vec<String>>) -> (r: DocumentStatistics)
    requires
        total_clusters(cluster_view(lines@)) <= usize::MAX,
    ensures
        describes(r, cluster_view(lines@)),
{
    let ghost ls = cluster_view(lines@);
    proof {
        lemma_statistics_bounded(ls);
    }
    let mut characters: usize = 0;
    let mut no_spaces: usize = 0;
    let mut words: usize = 0;
    let mut i: usize = 0;
    while i < lines.len()
        invariant
            ls == cluster_view(lines@),
            total_clusters(ls) <= usize::MAX,
            i <= lines.len(),
            characters == total_clusters(ls.take(i as int)),
            no_spaces == total_non_blank(ls.take(i as int)),
            words == total_words(ls.take(i as int)),
        decreases lines.len() - i,
    {
        let line: &Vec<String> = &lines[i];
        let ghost gs = ls[i as int];
        assert(gs == line@.map_values(|g: String| g@));
        proof {
            lemma_total_prefix(ls, i + 1);
            assert(ls.take(i + 1).drop_last() =~= ls.take(i as int));
            assert(ls.take(i + 1).last() == gs);
            lemma_statistics_bounded(ls.take(i as int));
        }
        let mut last_blank = true;
        let mut j: usize = 0;
        while j < line.len()
            invariant
                gs == line@.map_values(|g: String| g@),
                total_clusters(ls.take(i as int)) + gs.len() <= usize::MAX,
                total_non_blank(ls.take(i as int)) <= total_clusters(ls.take(i as int)),
                total_words(ls.take(i as int)) <= total_non_blank(ls.take(i as int)),
                j <= line.len(),
                characters == total_clusters(ls.take(i as int)) + j,
                no_spaces == total_non_blank(ls.take(i as int)) + non_blank_count(gs.take(j as int)),
                words == total_words(ls.take(i as int)) + word_count(gs.take(j as int)),
                last_blank == (j == 0 || is_blank(gs[j - 1])),
            decreases line.len() - j,
        {
            let g: &String = &line[j];
            assert(g@ == gs[j as int]);
            let b = blank(g.as_str());
            let ghost next = gs.take(j + 1);
            proof {
                assert(next.drop_last() =~= gs.take(j as int));
                assert(next.last() == gs[j as int]);
                lemma_line_counts_bounded(gs.take(j as int));
                if j > 0 {
                    assert(next[j - 1] == gs[j - 1]);
                }
            }
            characters = characters + 1;
            if !b {
                no_spaces = no_spaces + 1;
                if last_blank {
                    words = words + 1;
                }
            }
            last_blank = b;
            j = j + 1;
        }
        assert(gs.take(j as int) =~= gs);
        i = i + 1;
    }
    assert(ls.take(i as int) =~= ls);
    DocumentStatistics {
        word_count: words,
        character_count: characters,
        character_count_no_spaces: no_spaces,
        line_count: lines.len(),
    }
}

/// The statistics of the document made of `lines`, each split into extended
/// grapheme clusters. The line texts must not together hold more characters
/// than a `usize` counts.
pub fn document_statistics(lines: &Vec<String>) -> (r: DocumentStatistics)
    requires
        total_chars(text_view(lines@)) <= usize::MAX,
    ensures
        describes(r, graphemes_of_lines(text_view(lines@))),
{
    let ghost texts = text_view(lines@);
    let mut all: Vec<Vec<String>> = Vec::new();
    let mut i: usize = 0;
    while i < lines.len()
        invariant
            texts == text_view(lines@),
            i <= lines.len(),
            all@.len() == i,
            forall|k: int| 0 <= k < i ==> (#[trigger] all@[k])@.map_values(|g: String| g@) == spec_graphemes(texts[k]),
            forall|k: int| 0 <= k < i ==> (#[trigger] all@[k])@.len() <= texts[k].len(),
        decreases lines.len() - i,
    {
        let gs = graphemes(lines[i].as_str());
        proof {
            let v = gs@.map_values(|g: String| g@);
            assert forall|m: int| 0 <= m < v.len() implies (#[trigger] v[m]).len() > 0 by {
                assert(v[m] == gs@[m]@);
            }
            lemma_clusters_le_chars(v);
        }
        all.push(gs);
        i = i + 1;
    }
    let ghost ls = cluster_view(all@);
    proof {
        assert(ls =~= graphemes_of_lines(texts));
        lemma_total_le_chars(ls, texts);
    }
    let r = statistics_of_clusters(&all);
    r
}

} // verus!
