//! Plain records for everything the core works on. Remote timestamps are
//! held as whole seconds since the Unix epoch (UTC), and calendar dates as
//! whole days since the Unix epoch, so that all date arithmetic is integer
//! arithmetic the verifier can reason about; the I/O shell converts to and
//! from its own representations at the boundary.

use vstd::prelude::*;

verus! {

/// The stored credential: an opaque bearer token. Written wholesale on
/// login, read before every authenticated call, never edited in place.
pub struct Config {
    pub token: String,
}

impl Clone for Config {
    fn clone(&self) -> (res: Self)
        ensures
            res == *self,
    {
        Config { token: self.token.clone() }
    }
}

/// A favorite course as the remote API reports it.
#[derive(Debug)]
pub struct Course {
    pub id: u64,
    pub name: String,
}

impl Clone for Course {
    fn clone(&self) -> (res: Self)
        ensures
            res == *self,
    {
        Course { id: self.id, name: self.name.clone() }
    }
}

/// An assignment as the remote API reports it. `due_at` is the due
/// timestamp in seconds since the Unix epoch, absent when the assignment
/// has no due date; the free-text description is carried along unused.
#[derive(Debug)]
pub struct Assignment {
    pub id: u64,
    pub name: String,
    pub due_at: Option<i64>,
    pub description: Option<String>,
}

/// One row of the normalized assignment view: which course, which
/// assignment, the UTC calendar day it is due (days since the Unix epoch,
/// absent when the assignment has no due date), and how many whole days
/// remain until then.
#[derive(Debug)]
pub struct Output {
    pub course_name: String,
    pub assignment_name: String,
    pub date: Option<i64>,
    pub days_left: i64,
}

impl Clone for Output {
    fn clone(&self) -> (res: Self)
        ensures
            res == *self,
    {
        Output {
            course_name: self.course_name.clone(),
            assignment_name: self.assignment_name.clone(),
            date: self.date,
            days_left: self.days_left,
        }
    }
}

/// What can go wrong while refreshing: the error taxonomy the orchestrator
/// propagates unchanged to the caller. A corrupt or missing cache file is
/// not an error at all — it is treated as a cache miss by the shell.
#[derive(Debug, Clone, Copy, PartialEq, Eq, Structural)]
pub enum Error {
    /// No credential is stored; the user must log in first.
    ConfigMissing,
    /// The remote API rejected the stored token.
    Unauthenticated,
    /// Network failure or a non-success HTTP status.
    Transport,
    /// The response body did not match the expected schema.
    Decode,
    /// The configuration or cache location could not be written.
    PersistFailure,
}

/// What to do with an assignment that has no due date. The two behaviors
/// both occurred over the program's history; `Omit` is the canonical one.
#[derive(Debug, Clone, Copy, PartialEq, Eq, Structural)]
pub enum MissingDuePolicy {
    /// Leave the assignment out of the view entirely.
    Omit,
    /// Keep it, with zero days remaining and no displayed date.
    KeepAsZero,
}

} // verus!
