use paper_dump::pipeline::{doc_advance, DocEvent, DocPlan, DocState, WriteStep};
use paper_dump::retry::RetryDecision;

#[test]
fn full_export_walk_reaches_done() {
    let mut s = DocState::Pending;
    s = doc_advance(s, DocEvent::Planned(DocPlan::Download));
    assert_eq!(s, DocState::Downloading);
    s = doc_advance(s, DocEvent::Fetched(RetryDecision::RetryAfterBackoff));
    assert_eq!(s, DocState::Retrying);
    s = doc_advance(s, DocEvent::BackoffOver { exhausted: false });
    assert_eq!(s, DocState::Downloading);
    s = doc_advance(s, DocEvent::Fetched(RetryDecision::Finish));
    assert_eq!(s, DocState::Downloaded);
    s = doc_advance(s, DocEvent::ModeChosen { export: true });
    assert_eq!(s, DocState::Extracting);
    s = doc_advance(s, DocEvent::ReferencesExtracted);
    assert_eq!(s, DocState::ResolvingResources);
    s = doc_advance(s, DocEvent::ResourcesResolved);
    assert_eq!(s, DocState::Splicing);
    s = doc_advance(s, DocEvent::ContentSpliced);
    assert_eq!(s, DocState::Writing);
    s = doc_advance(s, DocEvent::OutputCreate(WriteStep::WriteBody));
    assert_eq!(s, DocState::Writing);
    s = doc_advance(s, DocEvent::BodyWritten { ok: true });
    assert_eq!(s, DocState::Done);
}

#[test]
fn registered_document_exits_before_any_download() {
    let s = doc_advance(DocState::Pending, DocEvent::Planned(DocPlan::SkipAlreadyExported));
    assert_eq!(s, DocState::SkippedAlreadyExported);
}

#[test]
fn metadata_only_mode_bypasses_extraction() {
    let s = doc_advance(DocState::Downloaded, DocEvent::ModeChosen { export: false });
    assert_eq!(s, DocState::Writing);
}

#[test]
fn terminal_and_exhausted_fetches_fail_the_document() {
    let s = doc_advance(DocState::Downloading, DocEvent::Fetched(RetryDecision::Abandon));
    assert_eq!(s, DocState::Failed);
    let s = doc_advance(DocState::Retrying, DocEvent::BackoffOver { exhausted: true });
    assert_eq!(s, DocState::Failed);
}

#[test]
fn existing_output_file_skips_without_overwrite() {
    let s = doc_advance(DocState::Writing, DocEvent::OutputCreate(WriteStep::SkipAlreadyOnDisk));
    assert_eq!(s, DocState::SkippedAlreadyOnDisk);
    let s = doc_advance(DocState::Writing, DocEvent::OutputCreate(WriteStep::FailDocument));
    assert_eq!(s, DocState::Failed);
    let s = doc_advance(DocState::Writing, DocEvent::BodyWritten { ok: false });
    assert_eq!(s, DocState::Failed);
}

#[test]
fn foreign_event_leaves_state_unchanged() {
    let s = doc_advance(DocState::Pending, DocEvent::ContentSpliced);
    assert_eq!(s, DocState::Pending);
}
