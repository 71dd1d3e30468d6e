use canvas::cache::{CacheStore, CACHE_WINDOW_SECS};
use canvas::model::{Assignment, Course, Error, MissingDuePolicy, Output};
use canvas::normalize::normalize;
use canvas::orchestrate::Refresh;
use canvas::sort::sort_rows;

fn course(id: u64, name: &str) -> Course {
    Course { id, name: name.to_string() }
}

fn assignment(id: u64, name: &str, due_at: Option<i64>) -> Assignment {
    Assignment { id, name: name.to_string(), due_at, description: None }
}

fn row(course: &str, name: &str, date: Option<i64>, days_left: i64) -> Output {
    Output {
        course_name: course.to_string(),
        assignment_name: name.to_string(),
        date,
        days_left,
    }
}

fn eq_rows(a: &[Output], b: &[Output]) -> bool {
    a.len() == b.len()
        && a.iter().zip(b.iter()).all(|(x, y)| {
            x.course_name == y.course_name
                && x.assignment_name == y.assignment_name
                && x.date == y.date
                && x.days_left == y.days_left
        })
}

#[test]
fn normalize_keeps_future_drops_past_and_dateless() {
    let now = 1_000_000;
    let assignments = vec![
        assignment(10, "HW1", Some(now + 2 * 86_400)),
        assignment(11, "HW2", Some(now - 86_400)),
        assignment(12, "HW3", None),
    ];
    let rows = normalize(&"Math".to_string(), &assignments, now, MissingDuePolicy::Omit);
    assert!(eq_rows(
        &rows,
        &[row("Math", "HW1", Some((now + 2 * 86_400) / 86_400), 2)],
    ));
}

#[test]
fn normalize_due_right_now_is_kept_with_zero_days() {
    let now = 1_000_000;
    let assignments = vec![assignment(1, "due-now", Some(now))];
    let rows = normalize(&"C".to_string(), &assignments, now, MissingDuePolicy::Omit);
    assert!(eq_rows(&rows, &[row("C", "due-now", Some(now / 86_400), 0)]));
}

#[test]
fn normalize_keep_as_zero_keeps_dateless_rows() {
    let now = 1_000_000;
    let assignments = vec![assignment(12, "HW3", None)];
    let rows = normalize(&"Math".to_string(), &assignments, now, MissingDuePolicy::KeepAsZero);
    assert!(eq_rows(&rows, &[row("Math", "HW3", None, 0)]));
}

#[test]
fn normalize_of_empty_list_is_empty() {
    let rows = normalize(&"Math".to_string(), &Vec::new(), 0, MissingDuePolicy::Omit);
    assert!(rows.is_empty());
}

#[test]
fn sort_orders_by_days_remaining() {
    let rows = vec![
        row("A", "late", None, 9),
        row("A", "soon", None, 1),
        row("A", "mid", None, 4),
    ];
    let sorted = sort_rows(rows);
    assert!(eq_rows(
        &sorted,
        &[
            row("A", "soon", None, 1),
            row("A", "mid", None, 4),
            row("A", "late", None, 9),
        ],
    ));
}

#[test]
fn sort_is_stable_on_equal_keys() {
    let rows = vec![
        row("A", "first-of-three", None, 3),
        row("B", "second-of-three", None, 3),
        row("C", "zero", None, 0),
        row("D", "third-of-three", None, 3),
    ];
    let sorted = sort_rows(rows);
    assert!(eq_rows(
        &sorted,
        &[
            row("C", "zero", None, 0),
            row("A", "first-of-three", None, 3),
            row("B", "second-of-three", None, 3),
            row("D", "third-of-three", None, 3),
        ],
    ));
}

#[test]
fn sort_of_empty_is_empty() {
    assert!(sort_rows(Vec::new()).is_empty());
}

#[test]
fn cache_save_then_load_returns_equal_value() {
    let mut store = CacheStore::new();
    let now = 5_000;
    store.save_rows(vec![row("M", "HW", Some(1), 1)], now);
    let loaded = store.try_load_rows(now).expect("fresh snapshot must hit");
    assert!(eq_rows(loaded, &[row("M", "HW", Some(1), 1)]));

    store.save_courses(vec![course(7, "Math")], now);
    let cs = store.try_load_courses(now).expect("fresh snapshot must hit");
    assert_eq!(cs.len(), 1);
    assert_eq!(cs[0].id, 7);
    assert_eq!(cs[0].name, "Math");
}

#[test]
fn cache_hits_inside_window_and_misses_at_its_edge() {
    let mut store = CacheStore::new();
    let t = 10_000;
    store.save_rows(vec![row("M", "HW", None, 0)], t);
    assert!(store.try_load_rows(t).is_some());
    assert!(store.try_load_rows(t + CACHE_WINDOW_SECS - 1).is_some());
    assert!(store.try_load_rows(t + CACHE_WINDOW_SECS).is_none());
    assert!(store.try_load_rows(t + 2 * CACHE_WINDOW_SECS).is_none());
}

#[test]
fn cache_empty_store_misses() {
    let store = CacheStore::new();
    assert!(store.try_load_rows(0).is_none());
    assert!(store.try_load_courses(0).is_none());
}

#[test]
fn refresh_merges_normalizes_sorts_and_saves() {
    let now = 1_000_000;
    let mut store = CacheStore::new();
    let courses = vec![course(1, "Math"), course(2, "History")];
    let mut refresh = Refresh::begin(courses, now, MissingDuePolicy::Omit);

    let c = refresh.next_course().expect("first course pending");
    assert_eq!(c.id, 1);
    refresh.supply_assignments(&vec![
        assignment(10, "HW1", Some(now + 5 * 86_400)),
        assignment(11, "HW2", Some(now - 86_400)),
    ]);

    let c = refresh.next_course().expect("second course pending");
    assert_eq!(c.id, 2);
    refresh.supply_assignments(&vec![assignment(20, "Essay", Some(now + 86_400))]);

    assert!(refresh.next_course().is_none());
    let rows = refresh.finish(&mut store);
    assert!(eq_rows(
        &rows,
        &[
            row("History", "Essay", Some((now + 86_400) / 86_400), 1),
            row("Math", "HW1", Some((now + 5 * 86_400) / 86_400), 5),
        ],
    ));

    let cached = store.try_load_rows(now).expect("just-saved snapshot must hit");
    assert!(eq_rows(cached, &rows));
}

#[test]
fn end_to_end_single_course_example() {
    let now = 1_000_000;
    let mut store = CacheStore::new();
    let mut refresh = Refresh::begin(vec![course(1, "Math")], now, MissingDuePolicy::Omit);
    refresh.supply_assignments(&vec![
        assignment(10, "HW1", Some(now + 2 * 86_400)),
        assignment(11, "HW2", Some(now - 86_400)),
        assignment(12, "HW3", None),
    ]);
    let rows = refresh.finish(&mut store);
    assert!(eq_rows(
        &rows,
        &[row("Math", "HW1", Some((now + 2 * 86_400) / 86_400), 2)],
    ));
}

#[test]
fn refresh_with_no_courses_saves_empty_rows() {
    let now = 42;
    let mut store = CacheStore::new();
    let refresh = Refresh::begin(Vec::new(), now, MissingDuePolicy::Omit);
    let rows = refresh.finish(&mut store);
    assert!(rows.is_empty());
    let cached = store.try_load_rows(now).expect("fresh snapshot must hit");
    assert!(cached.is_empty());
}

#[test]
fn failed_refresh_leaves_previous_snapshot_untouched() {
    let old_now = 1_000;
    let mut store = CacheStore::new();
    store.save_rows(vec![row("Old", "Kept", None, 0)], old_now);
    store.save_courses(vec![course(9, "OldCourse")], old_now);

    // A later run misses the (by then stale) snapshot and refreshes.
    let now = old_now + 2 * CACHE_WINDOW_SECS;
    let courses = vec![course(1, "A"), course(2, "B"), course(3, "C")];
    let mut refresh = Refresh::begin(courses, now, MissingDuePolicy::Omit);
    refresh.supply_assignments(&vec![assignment(10, "HW", Some(now + 86_400))]);
    // Fetching assignments for the 2nd of 3 courses fails: the refresh is
    // dropped without reaching `finish`, so nothing was written.
    drop(refresh);

    let snap = store.rows.as_ref().expect("snapshot still present");
    assert_eq!(snap.saved_at, old_now);
    assert!(eq_rows(&snap.value, &[row("Old", "Kept", None, 0)]));
    let courses_snap = store.courses.as_ref().expect("course snapshot still present");
    assert_eq!(courses_snap.saved_at, old_now);
    assert_eq!(courses_snap.value[0].name, "OldCourse");
}

#[test]
fn second_run_within_window_is_served_from_cache() {
    let now = 1_000_000;
    let mut store = CacheStore::new();
    let mut refresh = Refresh::begin(vec![course(1, "Math")], now, MissingDuePolicy::Omit);
    refresh.supply_assignments(&vec![assignment(10, "HW1", Some(now + 86_400))]);
    let rows = refresh.finish(&mut store);

    // A second run one minute later: the cache answers, so the run never
    // reaches `Refresh::begin` and issues no remote call.
    let later = now + 60;
    let cached = store.try_load_rows(later).expect("second run must hit the cache");
    assert!(eq_rows(cached, &rows));
}

#[test]
fn error_variants_are_distinct_values() {
    let all = [
        Error::ConfigMissing,
        Error::Unauthenticated,
        Error::Transport,
        Error::Decode,
        Error::PersistFailure,
    ];
    for (i, a) in all.iter().enumerate() {
        for (j, b) in all.iter().enumerate() {
            assert_eq!(i == j, a == b);
        }
    }
}
