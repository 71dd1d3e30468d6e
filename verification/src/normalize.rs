//! Normalization: turning one course's raw assignment records into view
//! rows. An assignment with a due date becomes a row carrying its UTC due
//! day and the whole days remaining until it, and is dropped when it is
//! already past due; an assignment without a due date is dropped or kept
//! with zero days remaining, according to the configured policy.

use vstd::prelude::*;
use crate::days::{
    spec_days_between,
    spec_epoch_day,
    days_between,
    epoch_day,
    lemma_days_between_in_range,
};
use crate::model::{Assignment, MissingDuePolicy, Output};

verus! {

/// The row a single assignment of course `course_name` contributes at time
/// `now`, if any: `None` exactly when the assignment is past due or has no
/// due date under the `Omit` policy.
pub open spec fn spec_row(
    course_name: String,
    a: Assignment,
    now: int,
    policy: MissingDuePolicy,
) -> Option<Output> {
    match a.due_at {
        Some(due) => if spec_days_between(due as int, now) >= 0 {
            Some(
                Output {
                    course_name: course_name,
                    assignment_name: a.name,
                    date: Some(spec_epoch_day(due as int) as i64),
                    days_left: spec_days_between(due as int, now) as i64,
                },
            )
        } else {
            None
        },
        None => match policy {
            MissingDuePolicy::Omit => None,
            MissingDuePolicy::KeepAsZero => Some(
                Output {
                    course_name: course_name,
                    assignment_name: a.name,
                    date: None,
                    days_left: 0,
                },
            ),
        },
    }
}

/// The rows one course's assignments contribute at time `now`, in fetch
/// order, each given by `spec_row`.
pub open spec fn spec_normalize(
    course_name: String,
    assignments: Seq<Assignment>,
    now: int,
    policy: MissingDuePolicy,
) -> Seq<Output>
    decreases assignments.len(),
{
    if assignments.len() == 0 {
        Seq::empty()
    } else {
        let init = spec_normalize(course_name, assignments.drop_last(), now, policy);
        match spec_row(course_name, assignments.last(), now, policy) {
            Some(r) => init.push(r),
            None => init,
        }
    }
}

/// Build the view rows for one course: exactly `spec_normalize` of the
/// assignment list.
pub fn normalize(
    course_name: &String,
    assignments: &Vec<Assignment>,
    now: i64,
    policy: MissingDuePolicy,
) -> (rows: Vec<Output>)
    ensures
        rows@ == spec_normalize(*course_name, assignments@, now as int, policy),
{
    let mut rows: Vec<Output> = Vec::new();
    let mut i: usize = 0;
    while i < assignments.len()
        invariant
            i <= assignments.len(),
            rows@ == spec_normalize(
                *course_name,
                assignments@.take(i as int),
                now as int,
                policy,
            ),
        decreases assignments.len() - i,
    {
        let a = &assignments[i];
        match a.due_at {
            Some(due) => {
                let d = days_between(due, now);
                if d >= 0 {
                    let day = epoch_day(due);
                    rows.push(
                        Output {
                            course_name: course_name.clone(),
                            assignment_name: a.name.clone(),
                            date: Some(day),
                            days_left: d,
                        },
                    );
                }
            },
            None => {
                match policy {
                    MissingDuePolicy::Omit => {},
                    MissingDuePolicy::KeepAsZero => {
                        rows.push(
                            Output {
                                course_name: course_name.clone(),
                                assignment_name: a.name.clone(),
                                date: None,
                                days_left: 0,
                            },
                        );
                    },
                }
            },
        }
        proof {
            assert(assignments@.take(i + 1 as int).drop_last() =~= assignments@.take(i as int));
            assert(assignments@.take(i + 1 as int).last() == assignments@[i as int]);
        }
        i += 1;
    }
    proof {
        assert(assignments@.take(assignments@.len() as int) =~= assignments@);
    }
    rows
}

/// Every row the normalizer emits has a non-negative days-remaining
/// count, and under the `Omit` policy every row carries a due day: no
/// past-due or dateless row survives into the view.
pub proof fn lemma_normalize_rows_wf(
    course_name: String,
    assignments: Seq<Assignment>,
    now: int,
    policy: MissingDuePolicy,
)
    requires
        -0x8000_0000_0000_0000 <= now < 0x8000_0000_0000_0000,
    ensures
        forall|i: int|
            0 <= i < spec_normalize(course_name, assignments, now, policy).len()
                ==> #[trigger] spec_normalize(course_name, assignments, now, policy)[i].days_left
                >= 0,
        policy == MissingDuePolicy::Omit ==> forall|i: int|
            0 <= i < spec_normalize(course_name, assignments, now, policy).len()
                ==> #[trigger] spec_normalize(course_name, assignments, now, policy)[i].date
                is Some,
    decreases assignments.len(),
{
    if assignments.len() > 0 {
        lemma_normalize_rows_wf(course_name, assignments.drop_last(), now, policy);
        match assignments.last().due_at {
            Some(due) => {
                lemma_days_between_in_range(due as int, now);
            },
            None => {},
        }
    }
}

/// The normalized view holds a row for exactly those assignments whose
/// `spec_row` is present: every present `spec_row` appears among the
/// output rows, and every output row is some assignment's `spec_row`.
/// With `lemma_row_membership` this makes the output the rows of exactly
/// the assignments that are not past due, under the `Omit` policy.
pub proof fn lemma_normalize_members(
    course_name: String,
    assignments: Seq<Assignment>,
    now: int,
    policy: MissingDuePolicy,
)
    ensures
        forall|j: int|
            0 <= j < assignments.len() && #[trigger] spec_row(
                course_name,
                assignments[j],
                now,
                policy,
            ) is Some ==> spec_normalize(course_name, assignments, now, policy).contains(
                spec_row(course_name, assignments[j], now, policy)->0,
            ),
        forall|i: int|
            #![trigger spec_normalize(course_name, assignments, now, policy)[i]]
            0 <= i < spec_normalize(course_name, assignments, now, policy).len() ==> exists|j: int|
                0 <= j < assignments.len() && #[trigger] spec_row(
                    course_name,
                    assignments[j],
                    now,
                    policy,
                ) == Some(spec_normalize(course_name, assignments, now, policy)[i]),
    decreases assignments.len(),
{
    if assignments.len() > 0 {
        let rest = assignments.drop_last();
        let out_rest = spec_normalize(course_name, rest, now, policy);
        let out = spec_normalize(course_name, assignments, now, policy);
        lemma_normalize_members(course_name, rest, now, policy);
        assert forall|x: Output| out_rest.contains(x) implies out.contains(x) by {
            let k = choose|k: int| 0 <= k < out_rest.len() && out_rest[k] == x;
            assert(out[k] == x);
        }
        assert forall|j: int|
            0 <= j < assignments.len() && #[trigger] spec_row(
                course_name,
                assignments[j],
                now,
                policy,
            ) is Some implies out.contains(spec_row(course_name, assignments[j], now, policy)->0) by {
            if j < assignments.len() - 1 {
                assert(rest[j] == assignments[j]);
                assert(out_rest.contains(spec_row(course_name, rest[j], now, policy)->0));
            } else {
                let r = spec_row(course_name, assignments.last(), now, policy)->0;
                assert(out == out_rest.push(r));
                assert(out[out.len() - 1] == r);
            }
        }
        assert forall|i: int|
            #![trigger out[i]]
            0 <= i < out.len() implies exists|j: int|
            0 <= j < assignments.len() && #[trigger] spec_row(
                course_name,
                assignments[j],
                now,
                policy,
            ) == Some(out[i]) by {
            match spec_row(course_name, assignments.last(), now, policy) {
                Some(r) => {
                    if i < out_rest.len() {
                        let j = choose|j: int|
                            0 <= j < rest.len() && #[trigger] spec_row(
                                course_name,
                                rest[j],
                                now,
                                policy,
                            ) == Some(out_rest[i]);
                        assert(assignments[j] == rest[j]);
                        assert(spec_row(course_name, assignments[j], now, policy) == Some(out[i]));
                    } else {
                        assert(out[i] == r);
                        assert(spec_row(
                            course_name,
                            assignments[assignments.len() - 1],
                            now,
                            policy,
                        ) == Some(out[i]));
                    }
                },
                None => {
                    let j = choose|j: int|
                        0 <= j < rest.len() && #[trigger] spec_row(
                            course_name,
                            rest[j],
                            now,
                            policy,
                        ) == Some(out_rest[i]);
                    assert(assignments[j] == rest[j]);
                    assert(spec_row(course_name, assignments[j], now, policy) == Some(out[i]));
                },
            }
        }
    }
}

/// An assignment with a due date `due` yields a row iff `now` is not yet a
/// whole day past `due`; the row then shows exactly the floored whole-day
/// distance and the UTC day of `due`. Under the `Omit` policy an
/// assignment without a due date yields no row.
pub proof fn lemma_row_membership(
    course_name: String,
    a: Assignment,
    now: int,
    policy: MissingDuePolicy,
)
    ensures
        a.due_at matches Some(due) ==> (spec_row(course_name, a, now, policy) is Some
            <==> spec_days_between(due as int, now) >= 0),
        a.due_at matches Some(due) ==> (spec_days_between(due as int, now) >= 0
            ==> spec_row(course_name, a, now, policy) == Some(
            Output {
                course_name: course_name,
                assignment_name: a.name,
                date: Some(spec_epoch_day(due as int) as i64),
                days_left: spec_days_between(due as int, now) as i64,
            },
        )),
        a.due_at is None && policy == MissingDuePolicy::Omit ==> spec_row(
            course_name,
            a,
            now,
            policy,
        ) is None,
{
}

} // verus!
