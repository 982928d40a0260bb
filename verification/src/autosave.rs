//! The auto-saver's bookkeeping: which tabs are waiting to be saved and
//! when. The waiting itself (timers, channels) is the caller's; this module
//! decides what a request changes and which tab is due next.

use vstd::prelude::*;

verus! {

/// The tabs waiting to be saved, each with the time (in seconds) at which
/// it is due, and the delay given to tabs registered from now on.
pub struct AutoSaver {
    pending: Vec<(u64, u64)>,
    save_secs: u64,
}

/// The deadlines held in `s`, by tab.
pub open spec fn deadlines(s: Seq<(u64, u64)>) -> Map<u64, u64>
    decreases s.len(),
{
    if s.len() == 0 {
        Map::empty()
    } else {
        deadlines(s.drop_last()).insert(s.last().0, s.last().1)
    }
}

/// No tab is listed twice.
pub open spec fn tabs_unique(s: Seq<(u64, u64)>) -> bool {
    forall|i: int, j: int| 0 <= i < j < s.len() ==> (#[trigger] s[i]).0 != (#[trigger] s[j]).0
}

proof fn lemma_deadlines(s: Seq<(u64, u64)>)
    requires
        tabs_unique(s),
    ensures
        forall|e: u64| deadlines(s).dom().contains(e) <==> exists|i: int| 0 <= i < s.len() && (#[trigger] s[i]).0 == e,
        forall|i: int| 0 <= i < s.len() ==> deadlines(s)[(#[trigger] s[i]).0] == s[i].1,
    decreases s.len(),
{
    if s.len() > 0 {
        let t = s.drop_last();
        assert(tabs_unique(t)) by {
            assert forall|i: int, j: int| 0 <= i < j < t.len() implies (#[trigger] t[i]).0 != (#[trigger] t[j]).0 by {
                assert(t[i] == s[i] && t[j] == s[j]);
            }
        }
        lemma_deadlines(t);
        let last = s.last();
        assert(s[s.len() - 1] == last);
        assert forall|e: u64| #[trigger] deadlines(s).dom().contains(e) <==> exists|i: int| 0 <= i < s.len() && (#[trigger] s[i]).0 == e by {
            if e == last.0 {
                assert(deadlines(s).dom().contains(e));
            } else {
                assert(deadlines(s).dom().contains(e) == deadlines(t).dom().contains(e));
                if deadlines(t).dom().contains(e) {
                    let i = choose|i: int| 0 <= i < t.len() && (#[trigger] t[i]).0 == e;
                    assert(s[i] == t[i]);
                }
                if exists|i: int| 0 <= i < s.len() && (#[trigger] s[i]).0 == e {
                    let i = choose|i: int| 0 <= i < s.len() && (#[trigger] s[i]).0 == e;
                    assert(i < t.len());
                    assert(t[i] == s[i]);
                }
            }
        }
        assert forall|i: int| 0 <= i < s.len() implies deadlines(s)[(#[trigger] s[i]).0] == s[i].1 by {
            if i < t.len() {
                assert(t[i] == s[i]);
                assert(s[i].0 != s[s.len() - 1].0);
            }
        }
    }
}

impl AutoSaver {
    /// Which tab is due when.
    pub closed spec fn due(&self) -> Map<u64, u64> {
        deadlines(self.pending@)
    }

    /// The delay, in seconds, for tabs registered from now on.
    pub closed spec fn delay(&self) -> u64 {
        self.save_secs
    }

    pub closed spec fn wf(&self) -> bool {
        tabs_unique(self.pending@) && self.save_secs > 0
    }

    /// An auto-saver with nothing waiting that saves `save_secs` after a change.
    pub fn new(save_secs: u64) -> (r: Self)
        requires
            save_secs > 0,
        ensures
            r.wf(),
            r.due() == Map::<u64, u64>::empty(),
            r.delay() == save_secs,
    {
        let r = AutoSaver { pending: Vec::new(), save_secs };
        assert(r.due() =~= Map::<u64, u64>::empty());
        r
    }

    fn position(&self, tab: u64) -> (r: Option<usize>)
        ensures
            match r {
                Some(i) => i < self.pending@.len() && self.pending@[i as int].0 == tab,
                None => forall|i: int| 0 <= i < self.pending@.len() ==> (#[trigger] self.pending@[i]).0 != tab,
            },
    {
        let mut i: usize = 0;
        while i < self.pending.len()
            invariant
                i <= self.pending@.len(),
                forall|j: int| 0 <= j < i ==> (#[trigger] self.pending@[j]).0 != tab,
            decreases self.pending@.len() - i,
        {
            if self.pending[i].0 == tab {
                return Some(i);
            }
            i = i + 1;
        }
        None
    }

    /// A tab changed at time `now`: it is due `delay` seconds later, whether
    /// it was waiting already (its wait starts over) or not. A deadline past
    /// the largest time stays at the largest time.
    pub fn register(&mut self, tab: u64, now: u64)
        requires
            old(self).wf(),
        ensures
            final(self).wf(),
            final(self).delay() == old(self).delay(),
            final(self).due() == old(self).due().insert(tab, now.saturating_add(old(self).delay())),
    {
        proof {
            lemma_deadlines(self.pending@);
        }
        let ghost before = self.pending@;
        let due_at = now.saturating_add(self.save_secs);
        match self.position(tab) {
            Some(i) => {
                self.pending.set(i, (tab, due_at));
                proof {
                    let s = self.pending@;
                    assert forall|a: int, b: int| 0 <= a < b < s.len() implies (#[trigger] s[a]).0 != (#[trigger] s[b]).0 by {
                        assert(s[a].0 == before[a].0 && s[b].0 == before[b].0);
                    }
                    lemma_deadlines(s);
                    assert forall|e: u64| #![trigger self.due().dom().contains(e)] self.due().dom().contains(e) <==> with_deadline(before, tab, due_at).dom().contains(e) by {
                        if exists|k: int| 0 <= k < before.len() && (#[trigger] before[k]).0 == e {
                            let k = choose|k: int| 0 <= k < before.len() && (#[trigger] before[k]).0 == e;
                            assert(s[k].0 == e);
                        }
                        if exists|k: int| 0 <= k < s.len() && (#[trigger] s[k]).0 == e {
                            let k = choose|k: int| 0 <= k < s.len() && (#[trigger] s[k]).0 == e;
                            assert(before[k].0 == e);
                        }
                    }
                    assert forall|e: u64| #![trigger self.due()[e]] self.due().dom().contains(e) implies self.due()[e] == with_deadline(before, tab, due_at)[e] by {
                        let k = choose|k: int| 0 <= k < s.len() && (#[trigger] s[k]).0 == e;
                        assert(before[k].0 == e);
                    }
                    assert(self.due() =~= with_deadline(before, tab, due_at));
                }
            }
            None => {
                self.pending.push((tab, due_at));
                proof {
                    let s = self.pending@;
                    assert(s.drop_last() =~= before);
                    assert forall|a: int, b: int| 0 <= a < b < s.len() implies (#[trigger] s[a]).0 != (#[trigger] s[b]).0 by {
                        if b < before.len() {
                            assert(s[a] == before[a] && s[b] == before[b]);
                        } else {
                            assert(s[a] == before[a]);
                        }
                    }
                }
            }
        }
    }

    /// A tab is no longer to be saved (it was saved or closed).
    pub fn cancel(&mut self, tab: u64)
        requires
            old(self).wf(),
        ensures
            final(self).wf(),
            final(self).delay() == old(self).delay(),
            final(self).due() == old(self).due().remove(tab),
    {
        proof {
            lemma_deadlines(self.pending@);
        }
        let ghost before = self.pending@;
        match self.position(tab) {
            Some(i) => {
                self.pending.remove(i);
                proof {
                    let s = self.pending@;
                    assert forall|a: int, b: int| 0 <= a < b < s.len() implies (#[trigger] s[a]).0 != (#[trigger] s[b]).0 by {
                        let a2 = if a < i { a } else { a + 1 };
                        let b2 = if b < i { b } else { b + 1 };
                        assert(s[a] == before[a2] && s[b] == before[b2]);
                    }
                    lemma_deadlines(s);
                    let want = deadlines(before).remove(tab);
                    assert forall|e: u64| #![trigger self.due().dom().contains(e)] self.due().dom().contains(e) <==> want.dom().contains(e) by {
                        if exists|k: int| 0 <= k < before.len() && (#[trigger] before[k]).0 == e {
                            let k = choose|k: int| 0 <= k < before.len() && (#[trigger] before[k]).0 == e;
                            if e != tab {
                                let k2 = if k < i { k } else { k - 1 };
                                assert(s[k2] == before[k]);
                            }
                        }
                        if exists|k: int| 0 <= k < s.len() && (#[trigger] s[k]).0 == e {
                            let k = choose|k: int| 0 <= k < s.len() && (#[trigger] s[k]).0 == e;
                            let k2 = if k < i { k } else { k + 1 };
                            assert(s[k] == before[k2]);
                        }
                    }
                    assert forall|e: u64| #![trigger self.due()[e]] self.due().dom().contains(e) implies self.due()[e] == want[e] by {
                        let k = choose|k: int| 0 <= k < s.len() && (#[trigger] s[k]).0 == e;
                        let k2 = if k < i { k } else { k + 1 };
                        assert(s[k] == before[k2]);
                    }
                    assert(self.due() =~= want);
                }
            }
            None => {
                proof {
                    assert(!deadlines(before).dom().contains(tab));
                    assert(self.due() =~= deadlines(before).remove(tab));
                }
            }
        }
    }

    /// Tabs registered from now on are due `save_secs` after their change;
    /// those waiting keep their time.
    pub fn set_delay(&mut self, save_secs: u64)
        requires
            old(self).wf(),
            save_secs > 0,
        ensures
            final(self).wf(),
            final(self).delay() == save_secs,
            final(self).due() == old(self).due(),
    {
        self.save_secs = save_secs;
    }

    /// The tab due first and its time, or `None` when no tab waits.
    pub fn next_due(&self) -> (r: Option<(u64, u64)>)
        requires
            self.wf(),
        ensures
            match r {
                Some(p) => self.due().dom().contains(p.0) && self.due()[p.0] == p.1
                    && forall|e: u64| #[trigger] self.due().dom().contains(e) ==> p.1 <= self.due()[e],
                None => self.due() == Map::<u64, u64>::empty(),
            },
    {
        proof {
            lemma_deadlines(self.pending@);
        }
        let n = self.pending.len();
        if n == 0 {
            assert(self.due() =~= Map::<u64, u64>::empty());
            return None;
        }
        let mut best: usize = 0;
        let mut i: usize = 1;
        while i < n
            invariant
                n == self.pending@.len(),
                1 <= i <= n,
                best < n,
                forall|j: int| 0 <= j < i ==> self.pending@[best as int].1 <= (#[trigger] self.pending@[j]).1,
            decreases n - i,
        {
            if self.pending[i].1 < self.pending[best].1 {
                best = i;
            }
            i = i + 1;
        }
        let p = self.pending[best];
        proof {
            assert forall|e: u64| #[trigger] self.due().dom().contains(e) implies p.1 <= self.due()[e] by {
                let k = choose|k: int| 0 <= k < self.pending@.len() && (#[trigger] self.pending@[k]).0 == e;
                assert(self.due()[self.pending@[k].0] == self.pending@[k].1);
            }
        }
        Some(p)
    }
}

/// What taking the tab due by `now` does to the deadlines `due`: the tab
/// due first goes, when its time has come; otherwise nothing changes.
pub open spec fn pop_outcome(due: Map<u64, u64>, now: u64, r: Option<u64>, after: Map<u64, u64>) -> bool {
    match r {
        Some(t) => due.dom().contains(t) && due[t] <= now
            && (forall|e: u64| #[trigger] due.dom().contains(e) ==> due[t] <= due[e])
            && after == due.remove(t),
        None => (forall|e: u64| #[trigger] due.dom().contains(e) ==> now < due[e]) && after == due,
    }
}

impl AutoSaver {
    /// The timer has run to `now`: the tab due first is taken off the list
    /// and handed back to be saved, when its time has come.
    pub fn pop_due(&mut self, now: u64) -> (r: Option<u64>)
        requires
            old(self).wf(),
        ensures
            final(self).wf(),
            final(self).delay() == old(self).delay(),
            pop_outcome(old(self).due(), now, r, final(self).due()),
    {
        match self.next_due() {
            Some((tab, at)) => {
                if at <= now {
                    self.cancel(tab);
                    Some(tab)
                } else {
                    None
                }
            }
            None => None,
        }
    }
}

/// Law: a tab changed at `changed_at` is saved no sooner than `delay`
/// seconds later (a deadline past the largest time stays there), and once:
/// when the timer hands it out it leaves the list, and until then it waits
/// with that deadline. A later change starts its wait over, so the wait runs
/// from the last change (see [`lemma_last_change_counts`]).
pub proof fn lemma_saved_after_delay_once(due: Map<u64, u64>, tab: u64, changed_at: u64, delay: u64, now: u64, r: Option<u64>, after: Map<u64, u64>)
    requires
        pop_outcome(due.insert(tab, changed_at.saturating_add(delay)), now, r, after),
    ensures
        r == Some(tab) ==> changed_at.saturating_add(delay) <= now && !after.dom().contains(tab),
        r != Some(tab) ==> after.dom().contains(tab) && after[tab] == changed_at.saturating_add(delay),
{
}

/// Law: a second change before the save replaces the first deadline; the
/// tab waits once, from its last change.
pub proof fn lemma_last_change_counts(due: Map<u64, u64>, tab: u64, first: u64, last: u64)
    ensures
        due.insert(tab, first).insert(tab, last) == due.insert(tab, last),
{
    assert(due.insert(tab, first).insert(tab, last) =~= due.insert(tab, last));
}

/// Law: the timer never hands out a tab that is not waiting, so a tab
/// cancelled (or already saved) is not saved again until it changes again.
pub proof fn lemma_only_waiting_tabs_are_saved(due: Map<u64, u64>, now: u64, r: Option<u64>, after: Map<u64, u64>, tab: u64)
    requires
        pop_outcome(due, now, r, after),
        !due.dom().contains(tab),
    ensures
        r != Some(tab),
        !after.dom().contains(tab),
{
}

spec fn with_deadline(before: Seq<(u64, u64)>, tab: u64, due_at: u64) -> Map<u64, u64> {
    deadlines(before).insert(tab, due_at)
}

/// Law: a tab registered and then cancelled no longer waits, whatever else waits.
pub proof fn lemma_register_then_cancel(due: Map<u64, u64>, tab: u64, at: u64)
    ensures
        !due.insert(tab, at).remove(tab).dom().contains(tab),
        due.insert(tab, at).remove(tab) == due.remove(tab),
{
    assert(due.insert(tab, at).remove(tab) =~= due.remove(tab));
}

} // verus!
