//! The decisions of the database layer: when a request may run, what each
//! request is called, when cached sidebar data is still fresh, how the
//! database is brought up, and which files of a maildir are indexed.
use vstd::prelude::*;
use crate::error::AppError;
use crate::text;

verus! {

/// Attachment data returned from the database layer.
#[derive(Debug, Clone)]
pub struct AttachmentData {
    pub content_type: String,
    pub body: Vec<u8>,
    pub filename: Option<String>,
}

/// A request to the database layer, with its parameters.
#[derive(Debug, Clone)]
pub enum DbRequest {
    Search { query: String, offset: Option<usize>, limit: Option<usize>, sort: Option<String> },
    Thread { thread_id: String },
    Attachment { msg_id: String, part_num: usize },
    RawMessage { msg_id: String },
    Tags,
    Stats,
    Senders,
    Count { query: String },
    MessageDetail { msg_id: String },
    SendersWithQuery { query: Option<String>, limit: usize },
    ThreadTree { thread_id: String },
    AttachmentText { msg_id: String, part: usize, format: String },
}

/// The label of each request, as metrics and logs name it.
pub open spec fn kind_spec(r: DbRequest) -> Seq<char> {
    match r {
        DbRequest::Search { .. } => "search"@,
        DbRequest::Thread { .. } => "thread"@,
        DbRequest::Attachment { .. } => "attachment"@,
        DbRequest::RawMessage { .. } => "raw_message"@,
        DbRequest::Tags => "tags"@,
        DbRequest::Stats => "stats"@,
        DbRequest::Senders => "senders"@,
        DbRequest::Count { .. } => "count"@,
        DbRequest::MessageDetail { .. } => "message_detail"@,
        DbRequest::SendersWithQuery { .. } => "senders_with_query"@,
        DbRequest::ThreadTree { .. } => "thread_tree"@,
        DbRequest::AttachmentText { .. } => "attachment_text"@,
    }
}

impl DbRequest {
    /// The label of the request variant, used as a metric dimension.
    pub fn kind(&self) -> (r: &'static str)
        ensures
            r@ == kind_spec(*self),
    {
        match self {
            DbRequest::Search { .. } => "search",
            DbRequest::Thread { .. } => "thread",
            DbRequest::Attachment { .. } => "attachment",
            DbRequest::RawMessage { .. } => "raw_message",
            DbRequest::Tags => "tags",
            DbRequest::Stats => "stats",
            DbRequest::Senders => "senders",
            DbRequest::Count { .. } => "count",
            DbRequest::MessageDetail { .. } => "message_detail",
            DbRequest::SendersWithQuery { .. } => "senders_with_query",
            DbRequest::ThreadTree { .. } => "thread_tree",
            DbRequest::AttachmentText { .. } => "attachment_text",
        }
    }
}

// ── Lifecycle ───────────────────────────────────────────────────────

/// Lifecycle state of the database layer.
#[derive(Debug, Clone)]
pub enum DbState {
    Initializing,
    Ready,
    Failed(String),
}

/// The state is `Ready`.
pub open spec fn ready_spec(s: DbState) -> bool {
    s is Ready
}

/// Whether a request may run in state `s`: `Ok` when the database is ready,
/// else `ServiceUnavailable` with the failure, or with
/// `Database is still initializing`.
pub fn check_ready(s: &DbState) -> (r: Result<(), AppError>)
    ensures
        r is Ok <==> ready_spec(*s),
        s matches DbState::Failed(e) ==> (r matches Err(AppError::ServiceUnavailable(m)) && m@
            == e@),
        s is Initializing ==> (r matches Err(AppError::ServiceUnavailable(m)) && m@
            == "Database is still initializing"@),
{
    match s {
        DbState::Ready => Ok(()),
        DbState::Failed(e) => Err(AppError::ServiceUnavailable(text::copy_str(e.as_str()))),
        DbState::Initializing => Err(
            AppError::ServiceUnavailable(text::copy_str("Database is still initializing")),
        ),
    }
}

/// `true` if the database is ready to serve requests.
pub fn is_ready(s: &DbState) -> (r: bool)
    ensures
        r == ready_spec(*s),
{
    match s {
        DbState::Ready => true,
        _ => false,
    }
}

/// The answer of the readiness probe: `200` and `ready` when the database
/// is ready, `503` and `not ready` otherwise.
pub fn readiness(s: &DbState) -> (r: (u16, &'static str))
    ensures
        ready_spec(*s) ==> r.0 == 200 && r.1@ == "ready"@,
        !ready_spec(*s) ==> r.0 == 503 && r.1@ == "not ready"@,
{
    if is_ready(s) {
        (200, "ready")
    } else {
        (503, "not ready")
    }
}

/// One step of waiting for the database: `Some(Ok)` once it is ready,
/// `Some(Err(ServiceUnavailable))` with the failure once it failed, and
/// `None` while it is still initializing (wait for the next change).
pub fn wait_step(s: &DbState) -> (r: Option<Result<(), AppError>>)
    ensures
        s is Initializing <==> r is None,
        s is Ready <==> r == Some(Ok::<(), AppError>(())),
        s matches DbState::Failed(e) ==> (r matches Some(Err(AppError::ServiceUnavailable(m)))
            && m@ == e@),
{
    match s {
        DbState::Ready => Some(Ok(())),
        DbState::Failed(e) => Some(Err(AppError::ServiceUnavailable(text::copy_str(e.as_str())))),
        DbState::Initializing => None,
    }
}

/// What initialization does with the database directory.
#[derive(Debug, Clone, Copy, PartialEq, Eq)]
pub enum InitPlan {
    /// The database exists: open it.
    Open,
    /// There is none: create it and index the maildir first.
    CreateAndIndex,
}

pub open spec fn no_database_message(db_path: Seq<char>) -> Seq<char> {
    "No notmuch database found at "@ + db_path + " and --no-auto-index is set"@
}

/// How to bring the database up: open an existing one; create and index a
/// missing one, unless automatic indexing is off, which is `NotFound`.
pub fn init_plan(db_exists: bool, no_auto_index: bool, db_path: &str) -> (r: Result<
    InitPlan,
    AppError,
>)
    ensures
        db_exists ==> r == Ok::<InitPlan, AppError>(InitPlan::Open),
        !db_exists && !no_auto_index ==> r == Ok::<InitPlan, AppError>(InitPlan::CreateAndIndex),
        !db_exists && no_auto_index ==> (r matches Err(AppError::NotFound(m)) && m@
            == no_database_message(db_path@)),
{
    if db_exists {
        Ok(InitPlan::Open)
    } else if no_auto_index {
        let mut m = text::copy_str("No notmuch database found at ");
        text::push_str(&mut m, db_path);
        text::push_str(&mut m, " and --no-auto-index is set");
        proof {
            assert(m@ =~= no_database_message(db_path@));
        }
        Err(AppError::NotFound(m))
    } else {
        Ok(InitPlan::CreateAndIndex)
    }
}

/// The state after initialization: `Ready` when it succeeded; `Failed` with
/// the error's text when it failed; `Failed("Initialization panicked")`
/// when it did not finish (`None`).
pub fn state_after_init(outcome: &Option<Result<(), AppError>>) -> (r: DbState)
    ensures
        outcome matches Some(Ok(())) ==> r is Ready,
        outcome matches Some(Err(e)) ==> (r matches DbState::Failed(m) && m@
            == crate::error::message_spec(*e)),
        outcome is None ==> (r matches DbState::Failed(m) && m@ == "Initialization panicked"@),
{
    match outcome {
        Some(Ok(())) => DbState::Ready,
        Some(Err(e)) => DbState::Failed(e.message()),
        None => DbState::Failed(text::copy_str("Initialization panicked")),
    }
}

// ── Sidebar cache ───────────────────────────────────────────────────

/// How long cached sidebar data (tags, senders, stats) is served, in
/// nanoseconds (30 seconds).
pub const SIDEBAR_CACHE_TTL_NANOS: u128 = 30_000_000_000;

/// Cached data whose age is `age_nanos` is served while it is younger than
/// the time to live.
pub fn cache_fresh(age_nanos: u128) -> (r: bool)
    ensures
        r == (age_nanos < SIDEBAR_CACHE_TTL_NANOS),
{
    age_nanos < SIDEBAR_CACHE_TTL_NANOS
}

// ── Lookups ─────────────────────────────────────────────────────────

/// The notmuch query for the message with id `msg_id`: `id:<msg_id>`.
pub fn id_query(msg_id: &str) -> (r: String)
    ensures
        r@ == "id:"@ + msg_id@,
{
    let mut r = text::copy_str("id:");
    text::push_str(&mut r, msg_id);
    r
}

/// The notmuch query for the thread with id `thread_id`: `thread:<id>`.
pub fn thread_query(thread_id: &str) -> (r: String)
    ensures
        r@ == "thread:"@ + thread_id@,
{
    let mut r = text::copy_str("thread:");
    text::push_str(&mut r, thread_id);
    r
}

/// The error for a message id that matches no message.
pub fn message_not_found(msg_id: &str) -> (r: AppError)
    ensures
        r matches AppError::NotFound(m) && m@ == "message not found: "@ + msg_id@,
{
    let mut m = text::copy_str("message not found: ");
    text::push_str(&mut m, msg_id);
    AppError::NotFound(m)
}

/// The error for a thread id that matches no thread.
pub fn thread_not_found(thread_id: &str) -> (r: AppError)
    ensures
        r matches AppError::NotFound(m) && m@ == "thread not found: "@ + thread_id@,
{
    let mut m = text::copy_str("thread not found: ");
    text::push_str(&mut m, thread_id);
    AppError::NotFound(m)
}

// ── Indexing ────────────────────────────────────────────────────────

/// A file of the maildir is a message when its path runs through a `cur`
/// or a `new` directory.
pub open spec fn is_maildir_message_spec(path: Seq<char>) -> bool {
    text::contains(path, "/cur/"@) || text::contains(path, "/new/"@)
}

/// Whether the file at `path` is a message to index.
pub fn is_maildir_message(path: &str) -> (r: bool)
    ensures
        r == is_maildir_message_spec(path@),
{
    let p = text::chars_of(path);
    let cur = text::chars_of("/cur/");
    let new = text::chars_of("/new/");
    text::contains_exec(&p, &cur) || text::contains_exec(&p, &new)
}

/// How many indexed messages pass between two progress reports.
pub const REPORT_INTERVAL: usize = 1000;

/// Progress of indexing a maildir: the messages indexed so far, and their
/// number at the last progress report.
#[derive(Debug, Clone, Copy, PartialEq, Eq)]
pub struct IndexProgress {
    indexed: usize,
    last_reported: usize,
}

impl IndexProgress {
    /// No report is ahead of the count.
    pub closed spec fn wf(self) -> bool {
        self.last_reported <= self.indexed
    }

    pub closed spec fn indexed_spec(self) -> usize {
        self.indexed
    }

    pub closed spec fn last_reported_spec(self) -> usize {
        self.last_reported
    }

    /// Nothing indexed, nothing reported.
    pub fn new() -> (r: IndexProgress)
        ensures
            r.wf(),
            r.indexed_spec() == 0,
            r.last_reported_spec() == 0,
    {
        IndexProgress { indexed: 0, last_reported: 0 }
    }

    /// The number of messages indexed so far.
    pub fn indexed(&self) -> (r: usize)
        ensures
            r == self.indexed_spec(),
    {
        self.indexed
    }

    /// Count one more indexed message; `true` when a progress report is
    /// due, that is when at least `REPORT_INTERVAL` messages were indexed
    /// since the last one, which this call then records.
    pub fn record(&mut self) -> (report: bool)
        requires
            old(self).wf(),
            old(self).indexed_spec() < usize::MAX,
        ensures
            final(self).wf(),
            final(self).indexed_spec() == old(self).indexed_spec() + 1,
            report == (final(self).indexed_spec() - old(self).last_reported_spec()
                >= REPORT_INTERVAL),
            final(self).last_reported_spec() == if report {
                final(self).indexed_spec()
            } else {
                old(self).last_reported_spec()
            },
    {
        self.indexed = self.indexed + 1;
        if self.indexed - self.last_reported >= REPORT_INTERVAL {
            self.last_reported = self.indexed;
            true
        } else {
            false
        }
    }
}

} // verus!
