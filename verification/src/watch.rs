//! Which paths the editor watches for changes on disk: each open project
//! with everything in it, and each open file outside the projects.

use vstd::prelude::*;
use crate::paths::{path_eq, path_starts_with, spec_path_eq, spec_path_starts_with};

verus! {

/// A watched path and whether everything below it is watched too.
pub type Watch = (String, bool);

pub open spec fn watch_view(w: Watch) -> (Seq<char>, bool) {
    (w.0@, w.1)
}

pub open spec fn watches_view(ws: Seq<Watch>) -> Seq<(Seq<char>, bool)> {
    ws.map_values(|w: Watch| watch_view(w))
}

/// Whether two paths name the same place: the same text, or equal as `Path` compares them.
pub open spec fn same_path(a: Seq<char>, b: Seq<char>) -> bool {
    a == b || spec_path_eq(a, b)
}

fn same_path_exec(a: &str, b: &str) -> (r: bool)
    ensures
        r == same_path(a@, b@),
{
    crate::text::str_eq(a, b) || path_eq(a, b)
}

/// Whether `ws` holds a watch equal to `w`: the same path and the same mode.
pub open spec fn holds(ws: Seq<(Seq<char>, bool)>, w: (Seq<char>, bool)) -> bool {
    exists|i: int| 0 <= i < ws.len() && same_path(#[trigger] ws[i].0, w.0) && ws[i].1 == w.1
}

/// Whether the file at `path` lies in one of the projects.
pub open spec fn in_some_project(path: Seq<char>, projects: Seq<(String, String)>) -> bool {
    exists|k: int| 0 <= k < projects.len() && spec_path_starts_with(path, (#[trigger] projects[k]).1@)
}

/// The watches the open projects and files ask for: every project folder,
/// recursively, and every file that lies in no project, alone.
pub open spec fn wanted(w: (Seq<char>, bool), projects: Seq<(String, String)>, files: Seq<String>) -> bool {
    ||| (w.1 && exists|k: int| 0 <= k < projects.len() && (#[trigger] projects[k]).1@ == w.0)
    ||| (!w.1 && exists|k: int| 0 <= k < files.len() && (#[trigger] files[k])@ == w.0 && !in_some_project(w.0, projects))
}

fn holds_exec(ws: &Vec<Watch>, path: &str, recursive: bool) -> (r: bool)
    ensures
        r == holds(watches_view(ws@), (path@, recursive)),
{
    let ghost v = watches_view(ws@);
    let n: usize = ws.len();
    let mut i: usize = 0;
    while i < n
        invariant
            n == ws@.len(),
            v == watches_view(ws@),
            i <= n,
            forall|j: int| 0 <= j < i ==> !(same_path(#[trigger] v[j].0, path@) && v[j].1 == recursive),
        decreases n - i,
    {
        assert(v[i as int] == (ws@[i as int].0@, ws@[i as int].1));
        if ws[i].1 == recursive && same_path_exec(ws[i].0.as_str(), path) {
            assert(same_path(v[i as int].0, path@) && v[i as int].1 == recursive);
            return true;
        }
        i = i + 1;
    }
    false
}

fn add_watch(ws: &mut Vec<Watch>, path: &String, recursive: bool)
    ensures
        holds(watches_view(old(ws)@), (path@, recursive)) ==> final(ws)@ == old(ws)@,
        !holds(watches_view(old(ws)@), (path@, recursive)) ==> final(ws)@ == old(ws)@.push((*path, recursive)),
{
    if !holds_exec(ws, path.as_str(), recursive) {
        ws.push((path.clone(), recursive));
    }
}

fn in_some_project_exec(path: &str, projects: &Vec<(String, String)>) -> (r: bool)
    ensures
        r == in_some_project(path@, projects@),
{
    let n: usize = projects.len();
    let mut k: usize = 0;
    while k < n
        invariant
            n == projects@.len(),
            k <= n,
            forall|j: int| 0 <= j < k ==> !spec_path_starts_with(path@, (#[trigger] projects@[j]).1@),
        decreases n - k,
    {
        if path_starts_with(path, projects[k].1.as_str()) {
            return true;
        }
        k = k + 1;
    }
    false
}

/// No two watches are the same path (as paths compare) in the same mode.
pub open spec fn distinct_watches(ws: Seq<(Seq<char>, bool)>) -> bool {
    forall|i: int, j: int| 0 <= i < j < ws.len() ==> !(same_path(#[trigger] ws[i].0, #[trigger] ws[j].0) && ws[i].1 == ws[j].1)
}

/// The watches for the open projects and the open files' paths: each wanted
/// watch once (see [`wanted`]), projects first.
pub fn watch_list(projects: &Vec<(String, String)>, files: &Vec<String>) -> (r: Vec<Watch>)
    ensures
        forall|i: int| 0 <= i < r@.len() ==> wanted(#[trigger] watches_view(r@)[i], projects@, files@),
        forall|k: int| 0 <= k < projects@.len() ==> holds(watches_view(r@), ((#[trigger] projects@[k]).1@, true)),
        forall|k: int| 0 <= k < files@.len() && !in_some_project((#[trigger] files@[k])@, projects@) ==> holds(watches_view(r@), (files@[k]@, false)),
        distinct_watches(watches_view(r@)),
{
    let mut ws: Vec<Watch> = Vec::new();
    let np: usize = projects.len();
    let mut k: usize = 0;
    while k < np
        invariant
            np == projects@.len(),
            k <= np,
            forall|i: int| 0 <= i < ws@.len() ==> wanted(#[trigger] watches_view(ws@)[i], projects@, files@),
            forall|j: int| 0 <= j < k ==> holds(watches_view(ws@), ((#[trigger] projects@[j]).1@, true)),
            distinct_watches(watches_view(ws@)),
        decreases np - k,
    {
        let ghost before = ws@;
        add_watch(&mut ws, &projects[k].1, true);
        proof {
            lemma_add_keeps(before, ws@, projects@[k as int].1, true);
            if ws@ != before {
                let v = watches_view(ws@);
                assert(v[v.len() - 1] == (projects@[k as int].1@, true));
                assert(wanted(v[v.len() - 1], projects@, files@));
            }
        }
        k = k + 1;
    }
    let nf: usize = files.len();
    let mut f: usize = 0;
    while f < nf
        invariant
            np == projects@.len(),
            nf == files@.len(),
            f <= nf,
            forall|i: int| 0 <= i < ws@.len() ==> wanted(#[trigger] watches_view(ws@)[i], projects@, files@),
            forall|j: int| 0 <= j < np ==> holds(watches_view(ws@), ((#[trigger] projects@[j]).1@, true)),
            forall|j: int| 0 <= j < f && !in_some_project((#[trigger] files@[j])@, projects@) ==> holds(watches_view(ws@), (files@[j]@, false)),
            distinct_watches(watches_view(ws@)),
        decreases nf - f,
    {
        if !in_some_project_exec(files[f].as_str(), projects) {
            let ghost before = ws@;
            add_watch(&mut ws, &files[f], false);
            proof {
                lemma_add_keeps(before, ws@, files@[f as int], false);
                if ws@ != before {
                    let v = watches_view(ws@);
                    assert(v[v.len() - 1] == (files@[f as int]@, false));
                    assert(wanted(v[v.len() - 1], projects@, files@));
                }
            }
        }
        f = f + 1;
    }
    ws
}

proof fn lemma_add_keeps(before: Seq<Watch>, after: Seq<Watch>, path: String, recursive: bool)
    requires
        holds(watches_view(before), (path@, recursive)) ==> after == before,
        !holds(watches_view(before), (path@, recursive)) ==> after == before.push((path, recursive)),
        distinct_watches(watches_view(before)),
    ensures
        holds(watches_view(after), (path@, recursive)),
        forall|w: (Seq<char>, bool)| holds(watches_view(before), w) ==> holds(watches_view(after), w),
        distinct_watches(watches_view(after)),
        after == before || after == before.push((path, recursive)),
        forall|i: int| 0 <= i < before.len() ==> watches_view(after)[i] == watches_view(before)[i],
{
    let vb = watches_view(before);
    let va = watches_view(after);
    if !holds(vb, (path@, recursive)) {
        assert(va =~= vb.push((path@, recursive)));
        assert(va[vb.len() as int] == (path@, recursive));
        assert(same_path(va[vb.len() as int].0, path@));
        assert forall|w: (Seq<char>, bool)| holds(vb, w) implies holds(va, w) by {
            let i = choose|i: int| 0 <= i < vb.len() && same_path(#[trigger] vb[i].0, w.0) && vb[i].1 == w.1;
            assert(va[i] == vb[i]);
        }
    }
}

/// The entries of `from` that `other` does not hold, in order.
pub open spec fn missing_from(from: Seq<(Seq<char>, bool)>, other: Seq<(Seq<char>, bool)>) -> Seq<(Seq<char>, bool)>
    decreases from.len(),
{
    if from.len() == 0 {
        Seq::empty()
    } else {
        missing_from(from.drop_last(), other) + if holds(other, from.last()) { Seq::empty() } else { seq![from.last()] }
    }
}

fn missing(from: &Vec<Watch>, other: &Vec<Watch>) -> (r: Vec<Watch>)
    ensures
        watches_view(r@) == missing_from(watches_view(from@), watches_view(other@)),
{
    let ghost f = watches_view(from@);
    let ghost o = watches_view(other@);
    let n: usize = from.len();
    let mut r: Vec<Watch> = Vec::new();
    let mut i: usize = 0;
    while i < n
        invariant
            n == from@.len(),
            f == watches_view(from@),
            o == watches_view(other@),
            i <= n,
            watches_view(r@) == missing_from(f.take(i as int), o),
        decreases n - i,
    {
        let w: &Watch = &from[i];
        assert(f[i as int] == (w.0@, w.1));
        assert(f.take(i + 1).drop_last() =~= f.take(i as int));
        assert(f.take(i + 1).last() == f[i as int]);
        let ghost before = watches_view(r@);
        if !holds_exec(other, w.0.as_str(), w.1) {
            r.push((w.0.clone(), w.1));
            assert(watches_view(r@) =~= before.push((w.0@, w.1)));
        }
        assert(watches_view(r@) =~= missing_from(f.take(i + 1), o));
        i = i + 1;
    }
    assert(f.take(n as int) =~= f);
    r
}

/// What changes between watching `old` and watching `new`: the paths to stop
/// watching (entries of `old` that `new` does not hold) and the watches to
/// start (entries of `new` that `old` does not hold).
pub fn watch_changes(old: &Vec<Watch>, new: &Vec<Watch>) -> (r: (Vec<String>, Vec<Watch>))
    ensures
        r.0@.map_values(|s: String| s@) == missing_from(watches_view(old@), watches_view(new@)).map_values(|w: (Seq<char>, bool)| w.0),
        watches_view(r.1@) == missing_from(watches_view(new@), watches_view(old@)),
{
    let gone = missing(old, new);
    let ghost g = watches_view(gone@);
    let mut paths: Vec<String> = Vec::new();
    let n: usize = gone.len();
    let mut i: usize = 0;
    while i < n
        invariant
            n == gone@.len(),
            g == watches_view(gone@),
            i <= n,
            paths@.map_values(|s: String| s@) == g.take(i as int).map_values(|w: (Seq<char>, bool)| w.0),
        decreases n - i,
    {
        let ghost before = paths@.map_values(|s: String| s@);
        let p = gone[i].0.clone();
        assert(p == gone@[i as int].0);
        paths.push(p);
        assert(g[i as int] == (gone@[i as int].0@, gone@[i as int].1));
        assert(g.take(i + 1) =~= g.take(i as int).push(g[i as int]));
        assert(paths@.map_values(|s: String| s@) =~= before.push(gone@[i as int].0@));
        assert(paths@.map_values(|s: String| s@) =~= g.take(i + 1).map_values(|w: (Seq<char>, bool)| w.0));
        i = i + 1;
    }
    assert(g.take(n as int) =~= g);
    (paths, missing(new, old))
}

/// Law: what is already watched in the same mode is neither stopped nor
/// started again; a list compared with itself changes nothing.
pub proof fn lemma_unchanged_watches(ws: Seq<(Seq<char>, bool)>)
    ensures
        missing_from(ws, ws).len() == 0,
    decreases ws.len(),
{
    if ws.len() > 0 {
        let rest = ws.drop_last();
        assert forall|w: (Seq<char>, bool)| holds(rest, w) implies holds(ws, w) by {
            let i = choose|i: int| 0 <= i < rest.len() && same_path(#[trigger] rest[i].0, w.0) && rest[i].1 == w.1;
            assert(ws[i] == rest[i]);
        }
        lemma_missing_from_superset(rest, rest, ws);
        lemma_unchanged_watches(rest);
        assert(same_path(ws[ws.len() - 1].0, ws.last().0));
    }
}

proof fn lemma_missing_from_superset(from: Seq<(Seq<char>, bool)>, small: Seq<(Seq<char>, bool)>, big: Seq<(Seq<char>, bool)>)
    requires
        forall|w: (Seq<char>, bool)| holds(small, w) ==> holds(big, w),
    ensures
        missing_from(from, big).len() <= missing_from(from, small).len(),
    decreases from.len(),
{
    if from.len() > 0 {
        lemma_missing_from_superset(from.drop_last(), small, big);
    }
}

} // verus!
