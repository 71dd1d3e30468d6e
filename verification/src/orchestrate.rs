//! The refresh orchestrator. A run first asks the cache store for fresh
//! view rows; a hit is returned as-is, with no remote call. On a miss the
//! shell fetches the favorite courses, then one assignment list per
//! course, feeding each into a `Refresh` which normalizes and accumulates;
//! when every course is in, `finish` sorts the merged rows, saves them,
//! and hands them back. Any fetch failure simply drops the `Refresh`:
//! nothing but `finish` ever writes the row snapshot, so a failed refresh
//! leaves the previously cached snapshot untouched.

use vstd::prelude::*;
use crate::cache::{CacheStore, spec_lookup, CACHE_WINDOW_SECS};
use crate::model::{Assignment, Course, MissingDuePolicy, Output};
use crate::normalize::{normalize, spec_normalize};
use crate::sort::{sort_rows, spec_sort};

verus! {

/// A refresh in progress: the fetched course list, how many courses have
/// had their assignments supplied, and the rows accumulated so far.
pub struct Refresh {
    pub courses: Vec<Course>,
    pub next: usize,
    pub acc: Vec<Output>,
    pub now: i64,
    pub policy: MissingDuePolicy,
}

impl Refresh {
    /// Start a refresh from a freshly fetched course list. No rows are
    /// accumulated yet and no course's assignments have been supplied.
    pub fn begin(courses: Vec<Course>, now: i64, policy: MissingDuePolicy) -> (r: Refresh)
        ensures
            r.courses == courses,
            r.next == 0,
            r.acc@ == Seq::<Output>::empty(),
            r.now == now,
            r.policy == policy,
    {
        Refresh { courses, next: 0, acc: Vec::new(), now, policy }
    }

    /// The course whose assignments must be fetched next, or `None` once
    /// every course has been supplied and the refresh can finish.
    pub fn next_course(&self) -> (r: Option<&Course>)
        requires
            self.next <= self.courses.len(),
        ensures
            r is Some <==> self.next < self.courses.len(),
            r matches Some(c) ==> *c == self.courses@[self.next as int],
    {
        if self.next < self.courses.len() {
            Some(&self.courses[self.next])
        } else {
            None
        }
    }

    /// Feed in the assignments fetched for the current course: they are
    /// normalized against this refresh's time and policy and appended to
    /// the accumulated rows, and the cursor moves to the next course.
    pub fn supply_assignments(&mut self, assignments: &Vec<Assignment>)
        requires
            old(self).next < old(self).courses.len(),
        ensures
            final(self).courses == old(self).courses,
            final(self).now == old(self).now,
            final(self).policy == old(self).policy,
            final(self).next == old(self).next + 1,
            final(self).acc@ == old(self).acc@ + spec_normalize(
                old(self).courses@[old(self).next as int].name,
                assignments@,
                old(self).now as int,
                old(self).policy,
            ),
    {
        let mut rows = normalize(&self.courses[self.next].name, assignments, self.now, self.policy);
        self.acc.append(&mut rows);
        self.next = self.next + 1;
    }

    /// Complete a refresh that has every course's assignments: sort the
    /// merged rows stably by days remaining, save them as the new row
    /// snapshot stamped with this refresh's time, and return them. The
    /// course snapshot is untouched. This is the only way a refresh ever
    /// writes the store.
    pub fn finish(self, store: &mut CacheStore) -> (rows: Vec<Output>)
        requires
            self.next == self.courses.len(),
        ensures
            rows@ == spec_sort(self.acc@),
            final(store).rows matches Some(s) && s.saved_at == self.now && s.value@ == rows@,
            final(store).courses == old(store).courses,
    {
        let rows = sort_rows(self.acc);
        let copy = clone_rows(&rows);
        store.save_rows(copy, self.now);
        rows
    }
}

/// An element-wise copy of a row vector, equal to it row for row.
fn clone_rows(v: &Vec<Output>) -> (r: Vec<Output>)
    ensures
        r@ == v@,
{
    let mut r: Vec<Output> = Vec::new();
    let mut i: usize = 0;
    while i < v.len()
        invariant
            i <= v.len(),
            r@ == v@.take(i as int),
        decreases v.len() - i,
    {
        r.push(v[i].clone());
        proof {
            assert(v@.take(i + 1 as int) =~= v@.take(i as int).push(v@[i as int]));
        }
        i += 1;
    }
    proof {
        assert(v@.take(v@.len() as int) =~= v@);
    }
    r
}

/// After a successful refresh finished at time `T`, any run within the
/// staleness window finds the row snapshot fresh: the cache answers it and
/// no remote call is needed the second time.
pub proof fn lemma_no_refetch_within_window(store: CacheStore, t: int)
    requires
        store.rows matches Some(s) && s.saved_at <= t < s.saved_at + CACHE_WINDOW_SECS,
    ensures
        spec_lookup(store.rows, t) == Some(store.rows->0.value),
{
}

} // verus!
