use oai_harvester::harvester::download_work_result;
use oai_harvester::harvester::DownloadEvent;
use oai_harvester::indexer::IndexerContext;
use oai_harvester::indexer::IndexOutcome;
use oai_harvester::indexer::IndexRunOptions;
use oai_harvester::oai::fingerprint;
use oai_harvester::oai::OaiIndexStatus;
use oai_harvester::oai::OaiRecordStatus;
use oai_harvester::query::RecordPhase;
use oai_harvester::record::MetadataDoc;
use oai_harvester::record::MetadataField;
use oai_harvester::record::OaiRecordRow;
use oai_harvester::store::RecordStore;
use oai_harvester::worker::run_harvest_sweep;
use oai_harvester::worker::HarvestOutcome;
use oai_harvester::worker::HarvestPhase;

const ENDPOINT: &str = "https://archives.example.org/oai";
const PREFIX: &str = "oai_ead";

fn make_row(identifier: &str, status: OaiRecordStatus, index_status: OaiIndexStatus) -> OaiRecordRow {
    OaiRecordRow {
        endpoint: ENDPOINT.to_string(),
        metadata_prefix: PREFIX.to_string(),
        identifier: identifier.to_string(),
        datestamp: "2026-02-07".to_string(),
        fingerprint: fingerprint(ENDPOINT, PREFIX, identifier),
        status,
        message: String::new(),
        metadata: MetadataDoc { fields: Vec::new() },
        index_status,
        index_message: String::new(),
        index_attempts: 0,
        last_checked_at: 1,
        index_last_checked_at: None,
        indexed_at: if matches!(index_status, OaiIndexStatus::Indexed) { Some(1) } else { None },
        purged_at: if matches!(index_status, OaiIndexStatus::Purged) { Some(1) } else { None },
        version: 1,
    }
}

fn repo_metadata(repository: &str) -> MetadataDoc {
    MetadataDoc {
        fields: vec![MetadataField {
            key: "repository".to_string(),
            values: vec![repository.to_string()],
        }],
    }
}

fn ctx(preview: bool) -> IndexerContext {
    IndexerContext::new(
        ENDPOINT.to_string(),
        PREFIX.to_string(),
        "Test Repository".to_string(),
        IndexRunOptions::pending_only(),
        preview,
    )
}

#[test]
fn download_batch_handles_mixed_record_outcomes() {
    let mut store = RecordStore::new();
    for id in ["record-success-batch", "record-missing-payload-batch", "record-missing-batch"] {
        store.upsert_row(make_row(id, OaiRecordStatus::Pending, OaiIndexStatus::Pending));
    }
    let outcomes = vec![
        HarvestOutcome {
            identifier: "record-success-batch".to_string(),
            result: download_work_result(&DownloadEvent::Stored),
        },
        HarvestOutcome {
            identifier: "record-missing-payload-batch".to_string(),
            result: download_work_result(&DownloadEvent::MissingPayload),
        },
        HarvestOutcome {
            identifier: "record-missing-batch".to_string(),
            result: download_work_result(&DownloadEvent::FetchError(
                "connection refused".to_string(),
            )),
        },
    ];
    let stats = run_harvest_sweep(
        &mut store,
        HarvestPhase::Download,
        ENDPOINT,
        PREFIX,
        &outcomes,
        false,
        None,
        42,
    );
    assert_eq!(stats.succeeded, 1);
    assert_eq!(stats.failed, 2);

    let ok = store.get(ENDPOINT, PREFIX, "record-success-batch").unwrap();
    assert!(matches!(ok.status, OaiRecordStatus::Available));
    assert_eq!(ok.message, "");

    let missing = store.get(ENDPOINT, PREFIX, "record-missing-payload-batch").unwrap();
    assert!(matches!(missing.status, OaiRecordStatus::Failed));
    assert!(missing.message.contains("missing payload"));

    let errored = store.get(ENDPOINT, PREFIX, "record-missing-batch").unwrap();
    assert!(matches!(errored.status, OaiRecordStatus::Failed));
    assert!(!errored.message.is_empty());
}

#[test]
fn download_marks_failed_when_payload_is_missing() {
    let mut store = RecordStore::new();
    store.upsert_row(make_row("record-missing-payload", OaiRecordStatus::Pending, OaiIndexStatus::Pending));
    let outcomes = vec![HarvestOutcome {
        identifier: "record-missing-payload".to_string(),
        result: download_work_result(&DownloadEvent::MissingPayload),
    }];
    run_harvest_sweep(&mut store, HarvestPhase::Download, ENDPOINT, PREFIX, &outcomes, false, None, 42);
    let row = store.get(ENDPOINT, PREFIX, "record-missing-payload").unwrap();
    assert!(matches!(row.status, OaiRecordStatus::Failed));
    assert!(row.message.contains("missing payload"));
}

#[test]
fn download_marks_failed_when_write_to_disk_fails() {
    let mut store = RecordStore::new();
    store.upsert_row(make_row("record-write-failure", OaiRecordStatus::Pending, OaiIndexStatus::Pending));
    let outcomes = vec![HarvestOutcome {
        identifier: "record-write-failure".to_string(),
        result: download_work_result(&DownloadEvent::WriteFailed("permission denied".to_string())),
    }];
    run_harvest_sweep(&mut store, HarvestPhase::Download, ENDPOINT, PREFIX, &outcomes, false, None, 42);
    let row = store.get(ENDPOINT, PREFIX, "record-write-failure").unwrap();
    assert!(matches!(row.status, OaiRecordStatus::Failed));
    assert!(row.message.contains("Failed to write metadata file"));
}

#[test]
fn cancellation_stops_after_the_current_batch_and_a_rerun_finishes() {
    let mut store = RecordStore::new();
    let mut outcomes: Vec<HarvestOutcome> = Vec::new();
    for i in 0..250u32 {
        let id = format!("rec-{i:04}");
        store.upsert_row(make_row(&id, OaiRecordStatus::Pending, OaiIndexStatus::Pending));
        outcomes.push(HarvestOutcome {
            identifier: id,
            result: download_work_result(&DownloadEvent::Stored),
        });
    }
    // the cancellation flag is raised after the first batch
    let stats = run_harvest_sweep(
        &mut store,
        HarvestPhase::Download,
        ENDPOINT,
        PREFIX,
        &outcomes,
        false,
        Some(1),
        42,
    );
    assert_eq!(stats.succeeded, 100);
    let mut pending = 0;
    let mut available = 0;
    for i in 0..250u32 {
        let id = format!("rec-{i:04}");
        let row = store.get(ENDPOINT, PREFIX, &id).unwrap();
        match row.status {
            OaiRecordStatus::Pending => pending += 1,
            OaiRecordStatus::Available => available += 1,
            _ => panic!("unexpected status"),
        }
    }
    assert_eq!(available, 100);
    assert_eq!(pending, 150);

    // a second, uncancelled run completes the rest without revisiting
    let stats = run_harvest_sweep(
        &mut store,
        HarvestPhase::Download,
        ENDPOINT,
        PREFIX,
        &outcomes,
        false,
        None,
        43,
    );
    assert_eq!(stats.succeeded, 150);
    for i in 0..100u32 {
        let id = format!("rec-{i:04}");
        let row = store.get(ENDPOINT, PREFIX, &id).unwrap();
        assert_eq!(row.last_checked_at, 42);
    }
}

#[test]
fn metadata_missing_file_marks_failed_and_continues() {
    let mut store = RecordStore::new();
    store.upsert_row(make_row("a-missing-file", OaiRecordStatus::Available, OaiIndexStatus::Pending));
    store.upsert_row(make_row("b-existing-file", OaiRecordStatus::Available, OaiIndexStatus::Pending));
    let outcomes = vec![
        HarvestOutcome {
            identifier: "a-missing-file".to_string(),
            result: Err("Unable to open metadata file".to_string()),
        },
        HarvestOutcome {
            identifier: "b-existing-file".to_string(),
            result: Ok(repo_metadata("Integration Repository")),
        },
    ];
    run_harvest_sweep(&mut store, HarvestPhase::Metadata, ENDPOINT, PREFIX, &outcomes, false, None, 50);
    let a = store.get(ENDPOINT, PREFIX, "a-missing-file").unwrap();
    assert!(matches!(a.status, OaiRecordStatus::Failed));
    assert!(a.message.contains("Unable to open metadata file"));
    let b = store.get(ENDPOINT, PREFIX, "b-existing-file").unwrap();
    assert!(matches!(b.status, OaiRecordStatus::Parsed));
    assert!(matches!(b.index_status, OaiIndexStatus::Pending));
    assert_eq!(b.indexed_at, None);
    assert_eq!(b.index_attempts, 0);
}

#[test]
fn metadata_success_resets_the_index_lifecycle() {
    let mut store = RecordStore::new();
    let mut row = make_row("re-parsed", OaiRecordStatus::Available, OaiIndexStatus::Indexed);
    row.index_attempts = 3;
    store.upsert_row(row);
    let outcomes = vec![HarvestOutcome {
        identifier: "re-parsed".to_string(),
        result: Ok(repo_metadata("Integration Repository")),
    }];
    run_harvest_sweep(&mut store, HarvestPhase::Metadata, ENDPOINT, PREFIX, &outcomes, false, None, 51);
    let row = store.get(ENDPOINT, PREFIX, "re-parsed").unwrap();
    assert!(matches!(row.status, OaiRecordStatus::Parsed));
    assert!(matches!(row.index_status, OaiIndexStatus::Pending));
    assert_eq!(row.index_message, "");
    assert_eq!(row.index_attempts, 0);
    assert_eq!(row.indexed_at, None);
    assert_eq!(row.purged_at, None);
}

#[test]
fn index_success_marks_record_indexed() {
    let mut store = RecordStore::new();
    let mut row = make_row("index-success", OaiRecordStatus::Parsed, OaiIndexStatus::Pending);
    row.metadata = repo_metadata("Test Repository");
    store.upsert_row(row);
    let outcomes = vec![IndexOutcome { identifier: "index-success".to_string(), result: Ok(()) }];
    let empty: Vec<IndexOutcome> = Vec::new();
    let r = oai_harvester::indexer::run(&mut store, &ctx(false), &outcomes, &empty, None, 60);
    assert!(r.is_ok());
    let row = store.get(ENDPOINT, PREFIX, "index-success").unwrap();
    assert!(matches!(row.index_status, OaiIndexStatus::Indexed));
    assert_eq!(row.indexed_at, Some(60));
}

#[test]
fn index_failure_marks_record_index_failed() {
    let mut store = RecordStore::new();
    let mut row = make_row("index-failure", OaiRecordStatus::Parsed, OaiIndexStatus::Pending);
    row.metadata = repo_metadata("Test Repository");
    store.upsert_row(row);
    let outcomes = vec![IndexOutcome {
        identifier: "index-failure".to_string(),
        result: Err("traject failed: shim traject failure".to_string()),
    }];
    let empty: Vec<IndexOutcome> = Vec::new();
    let r = oai_harvester::indexer::run(&mut store, &ctx(false), &outcomes, &empty, None, 61);
    assert_eq!(r.err().unwrap(), "index run completed with 1 failed record(s)");
    let row = store.get(ENDPOINT, PREFIX, "index-failure").unwrap();
    assert!(matches!(row.index_status, OaiIndexStatus::IndexFailed));
    assert!(row.index_message.contains("shim traject failure"));
    assert_eq!(row.index_attempts, 1);
}

#[test]
fn index_batch_mixed_results_continue_processing_remaining_records() {
    let mut store = RecordStore::new();
    for id in ["index-mixed-failure", "index-mixed-success"] {
        let mut row = make_row(id, OaiRecordStatus::Parsed, OaiIndexStatus::Pending);
        row.metadata = repo_metadata("Test Repository");
        store.upsert_row(row);
    }
    let outcomes = vec![
        IndexOutcome { identifier: "index-mixed-success".to_string(), result: Ok(()) },
        IndexOutcome {
            identifier: "index-mixed-failure".to_string(),
            result: Err("shim targeted failure".to_string()),
        },
    ];
    let empty: Vec<IndexOutcome> = Vec::new();
    let r = oai_harvester::indexer::run(&mut store, &ctx(false), &outcomes, &empty, None, 62);
    assert_eq!(r.err().unwrap(), "index run completed with 1 failed record(s)");
    let ok = store.get(ENDPOINT, PREFIX, "index-mixed-success").unwrap();
    assert!(matches!(ok.index_status, OaiIndexStatus::Indexed));
    let bad = store.get(ENDPOINT, PREFIX, "index-mixed-failure").unwrap();
    assert!(matches!(bad.index_status, OaiIndexStatus::IndexFailed));
}

#[test]
fn delete_success_marks_record_purged() {
    let mut store = RecordStore::new();
    let mut row = make_row("delete-success", OaiRecordStatus::Deleted, OaiIndexStatus::Pending);
    row.metadata = repo_metadata("Test Repository");
    store.upsert_row(row);
    let result = oai_harvester::arclight::purge_work_result(
        &oai_harvester::arclight::SolrDeleteEvent::Http(
            200,
            "{\"responseHeader\":{\"status\":0}}".to_string(),
        ),
        300,
    );
    let outcomes = vec![IndexOutcome { identifier: "delete-success".to_string(), result }];
    let empty: Vec<IndexOutcome> = Vec::new();
    let r = oai_harvester::indexer::run(&mut store, &ctx(false), &empty, &outcomes, None, 63);
    assert!(r.is_ok());
    let row = store.get(ENDPOINT, PREFIX, "delete-success").unwrap();
    assert!(matches!(row.index_status, OaiIndexStatus::Purged));
    assert_eq!(row.purged_at, Some(63));
}

#[test]
fn delete_failure_marks_record_purge_failed() {
    let mut store = RecordStore::new();
    let mut row = make_row("delete-failure", OaiRecordStatus::Deleted, OaiIndexStatus::Pending);
    row.metadata = repo_metadata("Test Repository");
    store.upsert_row(row);
    let result = oai_harvester::arclight::purge_work_result(
        &oai_harvester::arclight::SolrDeleteEvent::Http(500, "{\"error\":\"boom\"}".to_string()),
        300,
    );
    let outcomes = vec![IndexOutcome { identifier: "delete-failure".to_string(), result }];
    let empty: Vec<IndexOutcome> = Vec::new();
    let r = oai_harvester::indexer::run(&mut store, &ctx(false), &empty, &outcomes, None, 64);
    assert_eq!(r.err().unwrap(), "index run completed with 1 failed record(s)");
    let row = store.get(ENDPOINT, PREFIX, "delete-failure").unwrap();
    assert!(matches!(row.index_status, OaiIndexStatus::PurgeFailed));
    assert!(row.index_message.contains("Solr delete API returned 500"));
    assert!(row.index_message.contains("boom"));
}

#[test]
fn delete_batch_failures_continue_processing_remaining_records() {
    let mut store = RecordStore::new();
    for id in ["delete-batch-fail-a", "delete-batch-fail-b"] {
        let mut row = make_row(id, OaiRecordStatus::Deleted, OaiIndexStatus::Pending);
        row.metadata = repo_metadata("Test Repository");
        store.upsert_row(row);
    }
    let failure = || {
        oai_harvester::arclight::purge_work_result(
            &oai_harvester::arclight::SolrDeleteEvent::Http(500, "{\"error\":\"boom\"}".to_string()),
            300,
        )
    };
    let outcomes = vec![
        IndexOutcome { identifier: "delete-batch-fail-a".to_string(), result: failure() },
        IndexOutcome { identifier: "delete-batch-fail-b".to_string(), result: failure() },
    ];
    let empty: Vec<IndexOutcome> = Vec::new();
    let r = oai_harvester::indexer::run(&mut store, &ctx(false), &empty, &outcomes, None, 65);
    assert_eq!(r.err().unwrap(), "index run completed with 2 failed record(s)");
    for id in ["delete-batch-fail-a", "delete-batch-fail-b"] {
        let row = store.get(ENDPOINT, PREFIX, id).unwrap();
        assert!(matches!(row.index_status, OaiIndexStatus::PurgeFailed));
    }
}

#[test]
fn preview_mode_has_no_side_effects() {
    let mut store = RecordStore::new();
    let mut parsed = make_row("preview-index", OaiRecordStatus::Parsed, OaiIndexStatus::Pending);
    parsed.metadata = repo_metadata("Test Repository");
    store.upsert_row(parsed);
    let mut deleted = make_row("preview-delete", OaiRecordStatus::Deleted, OaiIndexStatus::Pending);
    deleted.metadata = repo_metadata("Test Repository");
    store.upsert_row(deleted);

    let ix = vec![IndexOutcome { identifier: "preview-index".to_string(), result: Ok(()) }];
    let pg = vec![IndexOutcome { identifier: "preview-delete".to_string(), result: Ok(()) }];
    let r = oai_harvester::indexer::run(&mut store, &ctx(true), &ix, &pg, None, 70);
    let (index_stats, purge_stats) = r.unwrap();
    assert_eq!(index_stats.succeeded, 1);
    assert_eq!(index_stats.failed, 0);
    assert_eq!(purge_stats.succeeded, 1);
    assert_eq!(purge_stats.failed, 0);

    let a = store.get(ENDPOINT, PREFIX, "preview-index").unwrap();
    assert!(matches!(a.status, OaiRecordStatus::Parsed));
    assert!(matches!(a.index_status, OaiIndexStatus::Pending));
    assert_eq!(a.indexed_at, None);
    assert_eq!(a.last_checked_at, 1);
    let b = store.get(ENDPOINT, PREFIX, "preview-delete").unwrap();
    assert!(matches!(b.status, OaiRecordStatus::Deleted));
    assert!(matches!(b.index_status, OaiIndexStatus::Pending));
    assert_eq!(b.purged_at, None);
}

#[test]
fn retry_run_selects_only_failed_records() {
    let mut store = RecordStore::new();
    let mut failed = make_row("was-failed", OaiRecordStatus::Parsed, OaiIndexStatus::IndexFailed);
    failed.metadata = repo_metadata("Test Repository");
    failed.index_message = "timed out".to_string();
    failed.index_attempts = 1;
    store.upsert_row(failed);
    let mut done = make_row("was-indexed", OaiRecordStatus::Parsed, OaiIndexStatus::Indexed);
    done.metadata = repo_metadata("Test Repository");
    store.upsert_row(done);

    let retry_ctx = IndexerContext::new(
        ENDPOINT.to_string(),
        PREFIX.to_string(),
        "Test Repository".to_string(),
        IndexRunOptions::failed_only(Some("timed out".to_string()), Some(5)),
        false,
    );
    let outcomes = vec![
        IndexOutcome { identifier: "was-failed".to_string(), result: Ok(()) },
        IndexOutcome { identifier: "was-indexed".to_string(), result: Ok(()) },
    ];
    let stats = oai_harvester::indexer::process_records(
        &mut store,
        &retry_ctx,
        RecordPhase::Index,
        &outcomes,
        None,
        71,
    );
    assert_eq!(stats.succeeded, 1);
    let a = store.get(ENDPOINT, PREFIX, "was-failed").unwrap();
    assert!(matches!(a.index_status, OaiIndexStatus::Indexed));
    assert_eq!(a.indexed_at, Some(71));
    let b = store.get(ENDPOINT, PREFIX, "was-indexed").unwrap();
    assert_eq!(b.indexed_at, Some(1));
}

#[test]
fn traject_failure_messages_are_exact() {
    let r = oai_harvester::arclight::index_work_result(
        &oai_harvester::arclight::TrajectEvent::TimedOut,
        300,
    );
    assert_eq!(r.err().unwrap(), "traject timed out after 300s");
    let r = oai_harvester::arclight::index_work_result(
        &oai_harvester::arclight::TrajectEvent::Failed("boom".to_string()),
        300,
    );
    assert_eq!(r.err().unwrap(), "traject failed: boom");
}

#[test]
fn solr_delete_payload_and_url_are_exact() {
    let payload = oai_harvester::arclight::solr_delete_payload("aabbccdd00112233", 10000);
    assert_eq!(
        payload,
        "{\"delete\":{\"query\":\"_root_:aabbccdd00112233\",\"commitWithin\":10000}}"
    );
    let url = oai_harvester::arclight::solr_update_url("http://127.0.0.1:8983/solr/arclight/");
    assert_eq!(url, "http://127.0.0.1:8983/solr/arclight/update");
}
