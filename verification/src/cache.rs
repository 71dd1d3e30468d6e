//! The time-bounded cache: a snapshot of the last computed result, stamped
//! with the time it was saved. A snapshot answers a load only while the
//! query time is within the staleness window of its stamp; after that the
//! store reports a miss, never an error, and the caller refreshes. The
//! shell persists the store to disk; a missing or corrupt file simply
//! becomes an empty store, i.e. a miss.

use vstd::prelude::*;
use crate::model::{Course, Output};

verus! {

/// How long a saved snapshot keeps answering loads, in seconds. Courses
/// and assignment rows have historically shared one ten-minute window.
pub const CACHE_WINDOW_SECS: i64 = 600;

/// A snapshot saved at `saved_at` still answers a load at `now`. Times are
/// seconds since the Unix epoch; a snapshot from the future is trusted.
pub open spec fn spec_fresh(saved_at: int, now: int) -> bool {
    now - saved_at < CACHE_WINDOW_SECS
}

/// A cached value together with the time it was saved.
pub struct Snapshot<T> {
    pub saved_at: i64,
    pub value: T,
}

/// What a load of a snapshot yields at time `now`: the value while fresh,
/// a miss once the window has passed or when nothing was ever saved.
pub open spec fn spec_lookup<T>(snap: Option<Snapshot<T>>, now: int) -> Option<T> {
    match snap {
        Some(s) => if spec_fresh(s.saved_at as int, now) {
            Some(s.value)
        } else {
            None
        },
        None => None,
    }
}

/// The two independently cached kinds: the favorite-course list and the
/// computed assignment view rows.
pub struct CacheStore {
    pub courses: Option<Snapshot<Vec<Course>>>,
    pub rows: Option<Snapshot<Vec<Output>>>,
}

impl CacheStore {
    /// The empty store: what a missing or unreadable cache file becomes.
    pub fn new() -> (s: Self)
        ensures
            s.courses is None,
            s.rows is None,
    {
        CacheStore { courses: None, rows: None }
    }

    /// Load the cached course list, a miss unless a snapshot exists and is
    /// still fresh at `now`.
    pub fn try_load_courses(&self, now: i64) -> (r: Option<&Vec<Course>>)
        ensures
            r is Some <==> spec_lookup(self.courses, now as int) is Some,
            r matches Some(v) ==> spec_lookup(self.courses, now as int) == Some(*v),
    {
        match &self.courses {
            Some(snap) => {
                if (now as i128) - (snap.saved_at as i128) < CACHE_WINDOW_SECS as i128 {
                    Some(&snap.value)
                } else {
                    None
                }
            },
            None => None,
        }
    }

    /// Load the cached view rows, a miss unless a snapshot exists and is
    /// still fresh at `now`.
    pub fn try_load_rows(&self, now: i64) -> (r: Option<&Vec<Output>>)
        ensures
            r is Some <==> spec_lookup(self.rows, now as int) is Some,
            r matches Some(v) ==> spec_lookup(self.rows, now as int) == Some(*v),
    {
        match &self.rows {
            Some(snap) => {
                if (now as i128) - (snap.saved_at as i128) < CACHE_WINDOW_SECS as i128 {
                    Some(&snap.value)
                } else {
                    None
                }
            },
            None => None,
        }
    }

    /// Overwrite the course snapshot with `value`, stamped `now`; the row
    /// snapshot is left as it was.
    pub fn save_courses(&mut self, value: Vec<Course>, now: i64)
        ensures
            final(self).courses == Some(Snapshot { saved_at: now, value }),
            final(self).rows == old(self).rows,
    {
        self.courses = Some(Snapshot { saved_at: now, value });
    }

    /// Overwrite the row snapshot with `value`, stamped `now`; the course
    /// snapshot is left as it was.
    pub fn save_rows(&mut self, value: Vec<Output>, now: i64)
        ensures
            final(self).rows == Some(Snapshot { saved_at: now, value }),
            final(self).courses == old(self).courses,
    {
        self.rows = Some(Snapshot { saved_at: now, value });
    }
}

/// Round trip: a value saved at time `now` is exactly what a load at that
/// same time returns.
pub proof fn lemma_save_then_load<T>(value: T, now: i64)
    ensures
        spec_lookup(Some(Snapshot { saved_at: now, value }), now as int) == Some(value),
{
}

/// Staleness: a snapshot saved at time `T` answers every load in
/// `[T, T + window)` with its value and every load at or after
/// `T + window` with a miss.
pub proof fn lemma_staleness<T>(s: Snapshot<T>, t: int)
    ensures
        s.saved_at <= t < s.saved_at + CACHE_WINDOW_SECS ==> spec_lookup(Some(s), t) == Some(
            s.value,
        ),
        t >= s.saved_at + CACHE_WINDOW_SECS ==> spec_lookup(Some(s), t) is None,
{
}

} // verus!
