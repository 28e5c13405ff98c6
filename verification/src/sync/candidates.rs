//! What is kept in memory of each segment.

use vstd::prelude::*;

use crate::sync::segments::{candidate_views, CandidateView, SegmentCandidate};
use crate::sync::ledger::contains_candidate;

verus! {

/// What the entries hold for each segment.
pub open spec fn entry_map<T>(entries: Seq<(SegmentCandidate, T)>) -> Map<CandidateView, T>
    decreases entries.len(),
{
    if entries.len() == 0 {
        Map::empty()
    } else {
        entry_map(entries.drop_last()).insert(entries.last().0@, entries.last().1)
    }
}

/// No segment has two entries.
pub open spec fn keys_differ<T>(entries: Seq<(SegmentCandidate, T)>) -> bool {
    forall|i: int, j: int|
        0 <= i < j < entries.len() ==> (#[trigger] entries[i]).0@ != (#[trigger] entries[j]).0@
}

proof fn lemma_entry_of<T>(entries: Seq<(SegmentCandidate, T)>, i: int)
    requires
        keys_differ(entries),
        0 <= i < entries.len(),
    ensures
        entry_map(entries).dom().contains(entries[i].0@),
        entry_map(entries)[entries[i].0@] == entries[i].1,
    decreases entries.len(),
{
    if i < entries.len() - 1 {
        let before = entries.drop_last();
        assert(before[i] == entries[i]);
        assert forall|a: int, b: int| 0 <= a < b < before.len() implies (#[trigger] before[a]).0@ != (
        #[trigger] before[b]).0@ by {
            assert(before[a] == entries[a] && before[b] == entries[b]);
        }
        lemma_entry_of(before, i);
        assert(entries[i].0@ != entries[entries.len() - 1].0@);
    }
}

proof fn lemma_entry_exists<T>(entries: Seq<(SegmentCandidate, T)>, c: CandidateView)
    ensures
        entry_map(entries).dom().contains(c) <==> exists|i: int|
            0 <= i < entries.len() && (#[trigger] entries[i]).0@ == c,
    decreases entries.len(),
{
    if entries.len() > 0 {
        let before = entries.drop_last();
        lemma_entry_exists(before, c);
        if entry_map(before).dom().contains(c) {
            let i = choose|i: int| 0 <= i < before.len() && (#[trigger] before[i]).0@ == c;
            assert(entries[i].0@ == c);
        }
        if entries.last().0@ == c {
            assert(entries[entries.len() - 1].0@ == c);
        }
        if exists|i: int| 0 <= i < entries.len() && (#[trigger] entries[i]).0@ == c {
            let i = choose|i: int| 0 <= i < entries.len() && (#[trigger] entries[i]).0@ == c;
            if i < entries.len() - 1 {
                assert(before[i].0@ == c);
            }
        }
    }
}

proof fn lemma_entry_count<T>(entries: Seq<(SegmentCandidate, T)>)
    requires
        keys_differ(entries),
    ensures
        entry_map(entries).dom().finite(),
        entry_map(entries).dom().len() == entries.len(),
    decreases entries.len(),
{
    if entries.len() > 0 {
        let before = entries.drop_last();
        assert forall|a: int, b: int| 0 <= a < b < before.len() implies (#[trigger] before[a]).0@ != (
        #[trigger] before[b]).0@ by {
            assert(before[a] == entries[a] && before[b] == entries[b]);
        }
        lemma_entry_count(before);
        lemma_entry_exists(before, entries.last().0@);
        assert(!entry_map(before).dom().contains(entries.last().0@)) by {
            if entry_map(before).dom().contains(entries.last().0@) {
                let i = choose|i: int|
                    0 <= i < before.len() && (#[trigger] before[i]).0@ == entries.last().0@;
                assert(entries[i].0@ == entries[entries.len() - 1].0@);
            }
        }
        assert(entry_map(entries).dom() =~= entry_map(before).dom().insert(entries.last().0@));
    }
}

proof fn lemma_entry_removed<T>(entries: Seq<(SegmentCandidate, T)>, k: int)
    requires
        keys_differ(entries),
        0 <= k < entries.len(),
    ensures
        keys_differ(entries.remove(k)),
        entry_map(entries.remove(k)) == entry_map(entries).remove(entries[k].0@),
{
    let after = entries.remove(k);
    assert forall|a: int, b: int| 0 <= a < b < after.len() implies (#[trigger] after[a]).0@ != (
    #[trigger] after[b]).0@ by {
        let x = if a < k {
            a
        } else {
            a + 1
        };
        let y = if b < k {
            b
        } else {
            b + 1
        };
        assert(after[a] == entries[x] && after[b] == entries[y]);
    }
    let expected = entry_map(entries).remove(entries[k].0@);
    assert forall|c: CandidateView|
        (#[trigger] entry_map(after).dom().contains(c) == expected.dom().contains(c)) && (entry_map(
            after,
        ).dom().contains(c) ==> entry_map(after)[c] == expected[c]) by {
        lemma_entry_exists(after, c);
        lemma_entry_exists(entries, c);
        if entry_map(after).dom().contains(c) {
            let i = choose|i: int| 0 <= i < after.len() && (#[trigger] after[i]).0@ == c;
            let x = if i < k {
                i
            } else {
                i + 1
            };
            assert(after[i] == entries[x]);
            lemma_entry_of(after, i);
            lemma_entry_of(entries, x);
        }
        if expected.dom().contains(c) {
            let i = choose|i: int| 0 <= i < entries.len() && (#[trigger] entries[i]).0@ == c;
            let x = if i < k {
                i
            } else {
                i - 1
            };
            assert(after[x] == entries[i]);
        }
    }
    assert(entry_map(after).dom() =~= expected.dom());
    assert(entry_map(after) =~= expected);
}

proof fn lemma_entry_set<T>(
    entries: Seq<(SegmentCandidate, T)>,
    k: int,
    candidate: SegmentCandidate,
    value: T,
)
    requires
        keys_differ(entries),
        0 <= k < entries.len(),
        entries[k].0@ == candidate@,
    ensures
        keys_differ(entries.update(k, (candidate, value))),
        entry_map(entries.update(k, (candidate, value))) == entry_map(entries).insert(
            candidate@,
            value,
        ),
{
    let after = entries.update(k, (candidate, value));
    assert forall|a: int, b: int| 0 <= a < b < after.len() implies (#[trigger] after[a]).0@ != (
    #[trigger] after[b]).0@ by {
        assert(after[a].0@ == entries[a].0@ && after[b].0@ == entries[b].0@);
    }
    let expected = entry_map(entries).insert(candidate@, value);
    assert forall|c: CandidateView|
        (#[trigger] entry_map(after).dom().contains(c) == expected.dom().contains(c)) && (entry_map(
            after,
        ).dom().contains(c) ==> entry_map(after)[c] == expected[c]) by {
        lemma_entry_exists(after, c);
        lemma_entry_exists(entries, c);
        if entry_map(after).dom().contains(c) {
            let i = choose|i: int| 0 <= i < after.len() && (#[trigger] after[i]).0@ == c;
            assert(entries[i].0@ == c);
            lemma_entry_of(after, i);
            lemma_entry_of(entries, i);
        }
        if expected.dom().contains(c) {
            if c == candidate@ {
                assert(after[k].0@ == c);
            } else {
                let i = choose|i: int| 0 <= i < entries.len() && (#[trigger] entries[i]).0@ == c;
                assert(after[i].0@ == c);
            }
        }
    }
    assert(entry_map(after).dom() =~= expected.dom());
    assert(entry_map(after) =~= expected);
}

proof fn lemma_entry_pushed<T>(
    entries: Seq<(SegmentCandidate, T)>,
    candidate: SegmentCandidate,
    value: T,
)
    requires
        keys_differ(entries),
        forall|i: int| 0 <= i < entries.len() ==> (#[trigger] entries[i]).0@ != candidate@,
    ensures
        keys_differ(entries.push((candidate, value))),
        entry_map(entries.push((candidate, value))) == entry_map(entries).insert(
            candidate@,
            value,
        ),
{
    let after = entries.push((candidate, value));
    assert forall|a: int, b: int| 0 <= a < b < after.len() implies (#[trigger] after[a]).0@ != (
    #[trigger] after[b]).0@ by {
        assert(after[a] == entries[a]);
        if b < entries.len() {
            assert(after[b] == entries[b]);
        }
    }
    assert(after.drop_last() =~= entries);
}

/// One value for each segment that has one.
#[derive(Debug)]
pub struct CandidateMap<T> {
    entries: Vec<(SegmentCandidate, T)>,
}

impl<T> View for CandidateMap<T> {
    type V = Map<CandidateView, T>;

    closed spec fn view(&self) -> Map<CandidateView, T> {
        entry_map(self.entries@)
    }
}

pub open spec fn lookup<T>(values: Map<CandidateView, T>, c: CandidateView) -> Option<T> {
    if values.dom().contains(c) {
        Some(values[c])
    } else {
        None
    }
}

impl<T> CandidateMap<T> {
    #[verifier::type_invariant]
    spec fn well_formed(self) -> bool {
        keys_differ(self.entries@)
    }

    pub fn new() -> (r: Self)
        ensures
            r@ == Map::<CandidateView, T>::empty(),
    {
        CandidateMap { entries: Vec::new() }
    }

    fn position(&self, candidate: &SegmentCandidate) -> (r: Option<usize>)
        ensures
            match r {
                Some(i) => i < self.entries@.len() && self.entries@[i as int].0@ == candidate@,
                None => forall|i: int|
                    0 <= i < self.entries@.len() ==> (#[trigger] self.entries@[i]).0@ != candidate@,
            },
    {
        let mut i: usize = 0;
        while i < self.entries.len()
            invariant
                i <= self.entries@.len(),
                forall|j: int| 0 <= j < i ==> (#[trigger] self.entries@[j]).0@ != candidate@,
            decreases self.entries@.len() - i,
        {
            if self.entries[i].0.same(candidate) {
                return Some(i);
            }
            i = i + 1;
        }
        None
    }

    pub fn get(&self, candidate: &SegmentCandidate) -> (r: Option<&T>)
        ensures
            match r {
                Some(value) => lookup(self@, candidate@) == Some(*value),
                None => lookup(self@, candidate@) is None,
            },
    {
        proof {
            use_type_invariant(self);
            lemma_entry_exists(self.entries@, candidate@);
        }
        match self.position(candidate) {
            Some(i) => {
                proof {
                    lemma_entry_of(self.entries@, i as int);
                }
                Some(&self.entries[i].1)
            },
            None => None,
        }
    }

    pub fn insert(&mut self, candidate: SegmentCandidate, value: T)
        ensures
            final(self)@ == old(self)@.insert(candidate@, value),
    {
        proof {
            use_type_invariant(&*self);
        }
        let at = self.position(&candidate);
        let mut entries = self.take_entries();
        match at {
            Some(i) => {
                proof {
                    lemma_entry_set(entries@, i as int, candidate, value);
                }
                entries.set(i, (candidate, value));
            },
            None => {
                proof {
                    lemma_entry_pushed(entries@, candidate, value);
                }
                entries.push((candidate, value));
            },
        }
        *self = CandidateMap { entries };
    }

    pub fn remove(&mut self, candidate: &SegmentCandidate)
        ensures
            final(self)@ == old(self)@.remove(candidate@),
    {
        proof {
            use_type_invariant(&*self);
            lemma_entry_exists(self.entries@, candidate@);
        }
        match self.position(candidate) {
            Some(i) => {
                let mut entries = self.take_entries();
                proof {
                    lemma_entry_removed(entries@, i as int);
                }
                entries.remove(i);
                *self = CandidateMap { entries };
            },
            None => {
                proof {
                    assert(self@.remove(candidate@) =~= self@);
                }
            },
        }
    }

    /// The entries, with none left behind.
    fn take_entries(&mut self) -> (r: Vec<(SegmentCandidate, T)>)
        ensures
            r@ == old(self).entries@,
            keys_differ(r@),
    {
        let mut taken = CandidateMap { entries: Vec::new() };
        std::mem::swap(self, &mut taken);
        proof {
            use_type_invariant(&taken);
        }
        taken.entries
    }

    /// Keeps the values of the segments in `kept` alone.
    pub fn retain(&mut self, kept: &Vec<SegmentCandidate>)
        ensures
            final(self)@ == old(self)@.restrict(
                Set::new(|c: CandidateView| candidate_views(kept@).contains(c)),
            ),
    {
        let ghost wanted = Set::new(|c: CandidateView| candidate_views(kept@).contains(c));
        let mut entries = self.take_entries();
        let mut i: usize = 0;
        while i < entries.len()
            invariant
                i <= entries@.len(),
                keys_differ(entries@),
                wanted == Set::new(|c: CandidateView| candidate_views(kept@).contains(c)),
                entry_map(entries@).restrict(wanted) == old(self)@.restrict(wanted),
                forall|j: int| 0 <= j < i ==> wanted.contains((#[trigger] entries@[j]).0@),
            decreases entries@.len() - i,
        {
            if contains_candidate(kept, &entries[i].0) {
                i = i + 1;
            } else {
                let ghost before = entries@;
                proof {
                    lemma_entry_removed(entries@, i as int);
                }
                entries.remove(i);
                proof {
                    assert(entry_map(before).remove(before[i as int].0@).restrict(wanted)
                        =~= entry_map(before).restrict(wanted));
                }
            }
        }
        proof {
            let all = entries@;
            assert forall|c: CandidateView| entry_map(all).dom().contains(c) implies wanted.contains(
                c,
            ) by {
                lemma_entry_exists(all, c);
                let j = choose|j: int| 0 <= j < all.len() && (#[trigger] all[j]).0@ == c;
                assert(wanted.contains(all[j].0@));
            }
            assert(entry_map(all).restrict(wanted) =~= entry_map(all));
        }
        *self = CandidateMap { entries };
    }

    pub fn len(&self) -> (r: usize)
        ensures
            r == self@.dom().len(),
    {
        proof {
            use_type_invariant(self);
            lemma_entry_count(self.entries@);
        }
        self.entries.len()
    }
}

} // verus!
