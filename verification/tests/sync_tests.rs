use yagsdb::sync::{thread_is_deleted, ChannelLookup};
use yagsdb::sync::{
    forum_ids, import_next, import_request, import_start, message_rows, stores_messages,
    threads_in_forum, FetchOutcome, FetchedMessage, ImportRequest, ImportStep, ThreadRef,
};

/// Runs an import against a scripted list of responses and records the requests.
fn run(oldest: Option<u64>, newest: Option<u64>, responses: &[FetchOutcome]) -> Vec<ImportRequest> {
    let mut step = import_start(oldest, newest);
    let mut asked = Vec::new();
    let mut answers = responses.iter();
    loop {
        let req = import_request(step);
        asked.push(req);
        if req == ImportRequest::Stop {
            break;
        }
        step = import_next(step, *answers.next().unwrap_or(&FetchOutcome::Empty));
    }
    asked
}

#[test]
fn fresh_thread_imports_whole_history() {
    let asked = run(None, None, &[FetchOutcome::Messages { last_id: 50 }, FetchOutcome::Messages { last_id: 10 }, FetchOutcome::Empty]);
    assert_eq!(
        asked,
        vec![ImportRequest::Before(None), ImportRequest::Before(Some(50)), ImportRequest::Before(Some(10)), ImportRequest::Stop]
    );
}

#[test]
fn complete_history_only_fetches_newer_messages() {
    let asked = run(Some(10), Some(90), &[FetchOutcome::Empty, FetchOutcome::Messages { last_id: 95 }, FetchOutcome::Empty]);
    assert_eq!(
        asked,
        vec![ImportRequest::ProbeBefore(10), ImportRequest::After(90), ImportRequest::After(95), ImportRequest::Stop]
    );
    // A failed probe counts as complete history.
    let asked = run(Some(10), Some(90), &[FetchOutcome::Failed, FetchOutcome::Failed]);
    assert_eq!(asked, vec![ImportRequest::ProbeBefore(10), ImportRequest::After(90), ImportRequest::Stop]);
}

#[test]
fn interrupted_import_resumes_backwards_then_goes_forward() {
    let asked = run(Some(10), Some(90), &[FetchOutcome::Messages { last_id: 9 }, FetchOutcome::Messages { last_id: 3 }, FetchOutcome::Empty, FetchOutcome::Empty]);
    assert_eq!(
        asked,
        vec![
            ImportRequest::ProbeBefore(10),
            ImportRequest::Before(Some(10)),
            ImportRequest::Before(Some(3)),
            ImportRequest::After(90),
            ImportRequest::Stop
        ]
    );
    assert_eq!(import_start(Some(1), None), ImportStep::Done);
    assert!(stores_messages(ImportRequest::Before(None)));
    assert!(stores_messages(ImportRequest::After(1)));
    assert!(!stores_messages(ImportRequest::ProbeBefore(1)));
}

#[test]
fn bot_messages_are_not_stored() {
    let msgs = vec![
        FetchedMessage { id: 1, author_is_bot: false, content: "a".to_string() },
        FetchedMessage { id: 2, author_is_bot: true, content: "b".to_string() },
        FetchedMessage { id: 3, author_is_bot: false, content: "c".to_string() },
    ];
    let rows = message_rows("77", &msgs);
    assert_eq!(rows.len(), 2);
    assert_eq!((rows[0].id.as_str(), rows[0].thread_id.as_str(), rows[0].content.as_str()), ("1", "77", "a"));
    assert_eq!((rows[1].id.as_str(), rows[1].content.as_str()), ("3", "c"));
}

#[test]
fn forums_and_their_threads() {
    assert_eq!(forum_ids("123", "456"), Some((123, 456)));
    assert_eq!(forum_ids("abc", "456"), None);
    assert_eq!(forum_ids("123", ""), None);
    let threads = vec![
        ThreadRef { id: 1, parent_id: Some(9) },
        ThreadRef { id: 2, parent_id: Some(8) },
        ThreadRef { id: 3, parent_id: None },
        ThreadRef { id: 4, parent_id: Some(9) },
    ];
    assert_eq!(threads_in_forum(&threads, 9), vec![1, 4]);
}

#[test]
fn only_not_found_means_deleted() {
    assert!(thread_is_deleted(ChannelLookup::UnsuccessfulRequest(404)));
    assert!(!thread_is_deleted(ChannelLookup::UnsuccessfulRequest(403)));
    assert!(!thread_is_deleted(ChannelLookup::Found));
    assert!(!thread_is_deleted(ChannelLookup::OtherError));
}

#[test]
fn archived_threads_page_backwards() {
    assert_eq!(yagsdb::sync::next_archive_before(true, Some(500), None), Some(500));
    assert_eq!(yagsdb::sync::next_archive_before(true, Some(400), Some(500)), Some(400));
    assert_eq!(yagsdb::sync::next_archive_before(true, Some(500), Some(500)), None);
    assert_eq!(yagsdb::sync::next_archive_before(false, Some(400), Some(500)), None);
    assert_eq!(yagsdb::sync::next_archive_before(true, None, None), None);
    assert_eq!(yagsdb::sync::next_archive_before(true, Some(-1), None), None);
}
