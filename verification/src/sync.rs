//! Discord forum synchronisation: importing a thread's message history in
//! pages, which fetched messages are stored, and which threads belong to a
//! configured forum.
use vstd::prelude::*;
use crate::text::{decimal, decimal_string, parse_u64, parse_u64_spec};

verus! {

// ── Importing a thread's messages ───────────────────────────────────────────

/// Where the import of a thread's messages stands.
#[derive(Debug, Clone, Copy, PartialEq, Eq, Structural)]
pub enum ImportStep {
    /// Page backwards through history, starting before `before` (from the
    /// latest message when `None`); afterwards page forwards from
    /// `then_after`, if set.
    Backward { before: Option<u64>, then_after: Option<u64> },
    /// Ask whether any message precedes `oldest`, the oldest one stored.
    Probe { oldest: u64, newest: u64 },
    /// Page forwards, starting after `after`.
    Forward { after: u64 },
    /// The import is complete.
    Done,
}

/// The request that a step makes.
#[derive(Debug, Clone, Copy, PartialEq, Eq, Structural)]
pub enum ImportRequest {
    /// Up to 100 messages before the id (before the latest when `None`).
    Before(Option<u64>),
    /// At most one message before the id.
    ProbeBefore(u64),
    /// Up to 100 messages after the id.
    After(u64),
    /// Nothing more to fetch.
    Stop,
}

/// What a request brought back.
#[derive(Debug, Clone, Copy, PartialEq, Eq, Structural)]
pub enum FetchOutcome {
    /// The request failed.
    Failed,
    /// No messages.
    Empty,
    /// Some messages; the id of the last one in the response.
    Messages { last_id: u64 },
}

/// The first step of a thread's import, from the lowest and highest message
/// ids already stored for it. Nothing stored: import the whole history.
/// Something stored: first find out whether the history is complete.
pub fn import_start(oldest: Option<u64>, newest: Option<u64>) -> (s: ImportStep)
    ensures
        s == match (oldest, newest) {
            (None, _) => ImportStep::Backward { before: None, then_after: None },
            (Some(o), Some(n)) => ImportStep::Probe { oldest: o, newest: n },
            (Some(_), None) => ImportStep::Done,
        },
{
    match (oldest, newest) {
        (None, _) => ImportStep::Backward { before: None, then_after: None },
        (Some(o), Some(n)) => ImportStep::Probe { oldest: o, newest: n },
        (Some(_), None) => ImportStep::Done,
    }
}

/// The request that a step makes.
pub fn import_request(s: ImportStep) -> (r: ImportRequest)
    ensures
        r == match s {
            ImportStep::Backward { before, .. } => ImportRequest::Before(before),
            ImportStep::Probe { oldest, .. } => ImportRequest::ProbeBefore(oldest),
            ImportStep::Forward { after } => ImportRequest::After(after),
            ImportStep::Done => ImportRequest::Stop,
        },
{
    match s {
        ImportStep::Backward { before, .. } => ImportRequest::Before(before),
        ImportStep::Probe { oldest, .. } => ImportRequest::ProbeBefore(oldest),
        ImportStep::Forward { after } => ImportRequest::After(after),
        ImportStep::Done => ImportRequest::Stop,
    }
}

/// The next step, given what the current step's request brought back.
/// A probe that finds nothing (or fails) means the history is complete:
/// only newer messages are fetched; otherwise the interrupted backward
/// import resumes from the oldest stored message, then newer messages
/// follow. A backward or forward walk ends on an empty page or a failure
/// and otherwise continues from the last message it received.
pub fn import_next(s: ImportStep, outcome: FetchOutcome) -> (n: ImportStep)
    ensures
        n == match s {
            ImportStep::Probe { oldest, newest } => match outcome {
                FetchOutcome::Messages { .. } => ImportStep::Backward {
                    before: Some(oldest),
                    then_after: Some(newest),
                },
                _ => ImportStep::Forward { after: newest },
            },
            ImportStep::Backward { then_after, .. } => match outcome {
                FetchOutcome::Messages { last_id } => ImportStep::Backward {
                    before: Some(last_id),
                    then_after,
                },
                _ => match then_after {
                    Some(a) => ImportStep::Forward { after: a },
                    None => ImportStep::Done,
                },
            },
            ImportStep::Forward { .. } => match outcome {
                FetchOutcome::Messages { last_id } => ImportStep::Forward { after: last_id },
                _ => ImportStep::Done,
            },
            ImportStep::Done => ImportStep::Done,
        },
{
    match s {
        ImportStep::Probe { oldest, newest } => match outcome {
            FetchOutcome::Messages { .. } => ImportStep::Backward {
                before: Some(oldest),
                then_after: Some(newest),
            },
            _ => ImportStep::Forward { after: newest },
        },
        ImportStep::Backward { then_after, .. } => match outcome {
            FetchOutcome::Messages { last_id } => ImportStep::Backward { before: Some(last_id), then_after },
            _ => match then_after {
                Some(a) => ImportStep::Forward { after: a },
                None => ImportStep::Done,
            },
        },
        ImportStep::Forward { .. } => match outcome {
            FetchOutcome::Messages { last_id } => ImportStep::Forward { after: last_id },
            _ => ImportStep::Done,
        },
        ImportStep::Done => ImportStep::Done,
    }
}

/// Whether the messages a request brought back are stored: those of page
/// requests are, the probe's are not.
pub fn stores_messages(r: ImportRequest) -> (b: bool)
    ensures
        b == (r is Before || r is After),
{
    match r {
        ImportRequest::Before(_) => true,
        ImportRequest::After(_) => true,
        _ => false,
    }
}

// ── Stored messages ─────────────────────────────────────────────────────────

/// A message as Discord returns it, with what the import reads.
#[derive(Debug)]
pub struct FetchedMessage {
    pub id: u64,
    pub author_is_bot: bool,
    pub content: String,
}

/// The row stored in `messages`.
#[derive(Debug)]
pub struct MessageRow {
    pub id: String,
    pub thread_id: String,
    pub content: String,
}

/// The messages of `ms` not written by bots, in order.
pub open spec fn human_messages(ms: Seq<FetchedMessage>) -> Seq<FetchedMessage>
    decreases ms.len(),
{
    if ms.len() == 0 {
        Seq::empty()
    } else {
        let r = human_messages(ms.drop_last());
        if ms.last().author_is_bot {
            r
        } else {
            r.push(ms.last())
        }
    }
}

/// Whether a row stores a message of a thread.
pub open spec fn row_of(row: MessageRow, thread_id: Seq<char>, m: FetchedMessage) -> bool {
    &&& row.id@ == decimal(m.id as nat)
    &&& row.thread_id@ == thread_id
    &&& row.content@ == m.content@
}

/// The rows to store for a batch of fetched messages: one per message not
/// written by a bot, in order.
pub fn message_rows(thread_id: &str, messages: &Vec<FetchedMessage>) -> (rows: Vec<MessageRow>)
    ensures
        rows.len() == human_messages(messages@).len(),
        forall|i: int| 0 <= i < rows.len() ==> row_of(
            #[trigger] rows@[i],
            thread_id@,
            human_messages(messages@)[i],
        ),
{
    let mut rows: Vec<MessageRow> = Vec::new();
    let mut i: usize = 0;
    assert(messages@.take(0) =~= Seq::<FetchedMessage>::empty());
    while i < messages.len()
        invariant
            i <= messages.len(),
            rows.len() == human_messages(messages@.take(i as int)).len(),
            forall|k: int| 0 <= k < rows.len() ==> row_of(
                #[trigger] rows@[k],
                thread_id@,
                human_messages(messages@.take(i as int))[k],
            ),
        decreases messages.len() - i,
    {
        let ghost prev = messages@.take(i as int);
        assert(messages@.take(i + 1).drop_last() == prev);
        assert(messages@.take(i + 1).last() == messages@[i as int]);
        let m = &messages[i];
        if !m.author_is_bot {
            let mut tid = String::new();
            crate::text::push_str(&mut tid, thread_id);
            rows.push(MessageRow { id: decimal_string(m.id), thread_id: tid, content: m.content.clone() });
        }
        i = i + 1;
    }
    assert(messages@.take(messages.len() as int) == messages@);
    rows
}

// ── Forums and their threads ────────────────────────────────────────────────

/// A configured forum's guild and channel ids, when both parse as numbers.
pub fn forum_ids(guild_id: &str, channel_id: &str) -> (ids: Option<(u64, u64)>)
    ensures
        ids == match (parse_u64_spec(guild_id@), parse_u64_spec(channel_id@)) {
            (Some(g), Some(c)) => Some((g, c)),
            _ => None,
        },
{
    match (parse_u64(guild_id), parse_u64(channel_id)) {
        (Some(g), Some(c)) => Some((g, c)),
        _ => None,
    }
}

/// A thread as the guild's active-thread list gives it: its id and parent.
#[derive(Debug, Clone, Copy, PartialEq, Eq, Structural)]
pub struct ThreadRef {
    pub id: u64,
    pub parent_id: Option<u64>,
}

/// The ids of the threads whose parent is `channel`, in order.
pub open spec fn threads_of(ts: Seq<ThreadRef>, channel: u64) -> Seq<u64>
    decreases ts.len(),
{
    if ts.len() == 0 {
        Seq::empty()
    } else {
        let r = threads_of(ts.drop_last(), channel);
        if ts.last().parent_id == Some(channel) {
            r.push(ts.last().id)
        } else {
            r
        }
    }
}

/// The ids of the threads that belong to the forum channel `channel`.
pub fn threads_in_forum(threads: &Vec<ThreadRef>, channel: u64) -> (ids: Vec<u64>)
    ensures
        ids@ == threads_of(threads@, channel),
{
    let mut ids: Vec<u64> = Vec::new();
    let mut i: usize = 0;
    assert(threads@.take(0) =~= Seq::<ThreadRef>::empty());
    while i < threads.len()
        invariant
            i <= threads.len(),
            ids@ == threads_of(threads@.take(i as int), channel),
        decreases threads.len() - i,
    {
        assert(threads@.take(i + 1).drop_last() == threads@.take(i as int));
        assert(threads@.take(i + 1).last() == threads@[i as int]);
        let t = threads[i];
        if t.parent_id == Some(channel) {
            ids.push(t.id);
        }
        i = i + 1;
    }
    assert(threads@.take(threads.len() as int) == threads@);
    ids
}

// ── Archived threads ────────────────────────────────────────────────────────

/// Where the next page of a forum's archived threads starts: before the
/// archive time (in Unix seconds) of the last thread of this page, when
/// Discord says more may follow and that time is earlier than where this
/// page started. The cursor only moves back, so the walk ends.
pub fn next_archive_before(has_more: bool, last_archived: Option<i64>, before: Option<u64>) -> (next:
    Option<u64>)
    ensures
        next == match (has_more, last_archived) {
            (true, Some(ts)) => if ts >= 0 && (before is None || ts < before->0) {
                Some(ts as u64)
            } else {
                None::<u64>
            },
            _ => None::<u64>,
        },
        next is Some && before is Some ==> next->0 < before->0,
{
    if !has_more {
        return None;
    }
    match last_archived {
        None => None,
        Some(ts) => {
            if ts < 0 {
                return None;
            }
            let t = ts as u64;
            match before {
                Some(b) => if t < b {
                    Some(t)
                } else {
                    None
                },
                None => Some(t),
            }
        },
    }
}

// ── Deleted threads ─────────────────────────────────────────────────────────

/// What looking a stored thread up on Discord gave.
#[derive(Debug, Clone, Copy, PartialEq, Eq, Structural)]
pub enum ChannelLookup {
    /// The channel was found.
    Found,
    /// The HTTP request came back unsuccessful, with this status code.
    UnsuccessfulRequest(u16),
    /// Any other failure.
    OtherError,
}

/// A stored thread is deleted when Discord answers its lookup with 404 Not
/// Found; any other outcome keeps it.
pub fn thread_is_deleted(lookup: ChannelLookup) -> (b: bool)
    ensures
        b == (lookup == ChannelLookup::UnsuccessfulRequest(404)),
{
    match lookup {
        ChannelLookup::UnsuccessfulRequest(status) => status == 404,
        _ => false,
    }
}

} // verus!
