//! A single task record: identity, display fields, priority, done status and
//! creation time, plus the status toggle and its involution law.
use vstd::prelude::*;

verus! {

/// Lifecycle status of a task.
#[derive(Debug, Clone, Copy, PartialEq, Eq, Structural)]
pub enum Status {
    Pending,
    Done,
}

/// One task. `id` is assigned at creation and never changes; `created_at`
/// (seconds since the Unix epoch) serves only as a sort tie-breaker.
#[derive(Debug, Clone)]
pub struct Task {
    pub id: String,
    pub title: String,
    pub notes: Option<String>,
    pub priority: i8,
    pub status: Status,
    pub created_at: i64,
    /// Free-text scheduling hint, settable after creation.
    pub timeframe: Option<String>,
}

/// Mathematical image of a [`Task`]: every text field as a character sequence.
#[verifier::ext_equal]
pub ghost struct TaskView {
    pub id: Seq<char>,
    pub title: Seq<char>,
    pub notes: Option<Seq<char>>,
    pub priority: int,
    pub status: Status,
    pub created_at: int,
    pub timeframe: Option<Seq<char>>,
}

impl View for Task {
    type V = TaskView;

    open spec fn view(&self) -> TaskView {
        TaskView {
            id: self.id@,
            title: self.title@,
            notes: self.notes.deep_view(),
            priority: self.priority as int,
            status: self.status,
            created_at: self.created_at as int,
            timeframe: self.timeframe.deep_view(),
        }
    }
}

impl DeepView for Task {
    type V = TaskView;

    open spec fn deep_view(&self) -> TaskView {
        self.view()
    }
}

/// `t` with its status flipped and every other field kept.
pub open spec fn toggled(t: TaskView) -> TaskView {
    TaskView { status: flipped(t.status), ..t }
}

/// The opposite status.
pub open spec fn flipped(s: Status) -> Status {
    match s {
        Status::Pending => Status::Done,
        Status::Done => Status::Pending,
    }
}

/// Relies on `uuid::Uuid::new_v4` and its hyphenated text form: a freshly
/// drawn random version-4 UUID. Randomness admits no promise about the value.
#[verifier::external_body]
fn fresh_id() -> String {
    uuid::Uuid::new_v4().to_string()
}

/// Relies on `std::time::SystemTime::now` and `duration_since`: whole seconds
/// elapsed since the Unix epoch, zero if the clock is before it, saturating at
/// `i64::MAX`.
#[verifier::external_body]
fn now_seconds() -> (r: i64)
    ensures
        0 <= r,
{
    match std::time::SystemTime::now().duration_since(std::time::UNIX_EPOCH) {
        Ok(d) => i64::try_from(d.as_secs()).unwrap_or(i64::MAX),
        Err(_) => 0,
    }
}

impl Task {
    /// A new pending task with a fresh id, the current time, and no timeframe.
    /// Callers are responsible for rejecting blank titles and for clamping the
    /// priority where they want the `[1, 5]` range.
    pub fn new(title: &str, priority: i8, notes: Option<String>) -> (t: Task)
        ensures
            t@.title == title@,
            t@.notes == notes.deep_view(),
            t@.priority == priority as int,
            t@.status == Status::Pending,
            t@.timeframe == Option::<Seq<char>>::None,
            0 <= t@.created_at,
    {
        Task {
            id: fresh_id(),
            title: title.to_owned(),
            notes,
            priority,
            status: Status::Pending,
            created_at: now_seconds(),
            timeframe: None,
        }
    }

    /// Flip the status between pending and done; no other field changes.
    pub fn toggle_done(&mut self)
        ensures
            final(self)@ == toggled(old(self)@),
    {
        self.status = match self.status {
            Status::Pending => Status::Done,
            Status::Done => Status::Pending,
        };
    }

    /// Whether the task is done.
    pub fn is_done(&self) -> (r: bool)
        ensures
            r == (self@.status == Status::Done),
    {
        self.status == Status::Done
    }
}

/// Toggling a task twice restores it exactly.
pub proof fn lemma_toggle_twice(t: TaskView)
    ensures
        toggled(toggled(t)) == t,
{
}

} // verus!
