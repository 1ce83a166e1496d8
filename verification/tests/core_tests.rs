use oai_harvester::oai::fingerprint;
use oai_harvester::oai::OaiIndexStatus;
use oai_harvester::oai::OaiRecordId;
use oai_harvester::oai::OaiRecordImport;
use oai_harvester::oai::OaiRecordStatus;
use oai_harvester::record::MetadataDoc;
use oai_harvester::record::MetadataField;
use oai_harvester::record::OaiRecordRow;
use oai_harvester::rules::RuleSet;
use oai_harvester::store::RecordStore;
use oai_harvester::text::str_contains_sub;
use oai_harvester::text::str_lt;
use oai_harvester::text::truncate_middle;

fn make_row(identifier: &str, status: OaiRecordStatus, index_status: OaiIndexStatus) -> OaiRecordRow {
    let endpoint = "https://archives.example.org/oai";
    let prefix = "oai_ead";
    OaiRecordRow {
        endpoint: endpoint.to_string(),
        metadata_prefix: prefix.to_string(),
        identifier: identifier.to_string(),
        datestamp: "2026-02-07".to_string(),
        fingerprint: fingerprint(endpoint, prefix, identifier),
        status,
        message: String::new(),
        metadata: MetadataDoc { fields: Vec::new() },
        index_status,
        index_message: String::new(),
        index_attempts: 0,
        last_checked_at: 1,
        index_last_checked_at: None,
        indexed_at: if matches!(index_status, OaiIndexStatus::Indexed) { Some(1) } else { None },
        purged_at: if matches!(index_status, OaiIndexStatus::Purged) { Some(1) } else { None },
        version: 1,
    }
}

fn repo_metadata(repository: &str) -> MetadataDoc {
    MetadataDoc {
        fields: vec![MetadataField {
            key: "repository".to_string(),
            values: vec![repository.to_string()],
        }],
    }
}

#[test]
fn test_load_rules() {
    let csv = "\
title,unittitle,required
unit_id,unitid,required
creator,origination/persname,
date,unitdate,
repository,repository/corpname,required
extent,extent,
";

    let ruleset = RuleSet::load(csv).unwrap();

    let corpname_rules: Vec<usize> = ruleset.by_terminal("corpname");
    assert_eq!(corpname_rules.len(), 1);
    assert_eq!(ruleset.rules[corpname_rules[0]].key, "repository");
    assert_eq!(
        ruleset.rules[corpname_rules[0]].path,
        vec!["repository".to_string(), "corpname".to_string()]
    );

    let persname_rules: Vec<usize> = ruleset.by_terminal("persname");
    assert_eq!(persname_rules.len(), 1);
    assert_eq!(ruleset.rules[persname_rules[0]].key, "creator");

    let required: Vec<usize> = ruleset.required();
    assert_eq!(required.len(), 3);
    assert!(required.iter().all(|&i| ruleset.rules[i].required));

    let required_keys: Vec<&str> =
        required.iter().map(|&i| ruleset.rules[i].key.as_str()).collect();
    assert!(required_keys.contains(&"title"));
    assert!(required_keys.contains(&"unit_id"));
    assert!(required_keys.contains(&"repository"));
}

#[test]
fn load_rules_rejects_row_without_path() {
    let csv = "only_a_key\n";
    assert!(RuleSet::load(csv).is_err());
}

#[test]
fn fingerprint_is_pure_and_hex() {
    let a = fingerprint("https://e.example.org", "oai_ead", "id1");
    let b = fingerprint("https://e.example.org", "oai_ead", "id1");
    assert_eq!(a, b);
    assert_eq!(a.len(), 16);
    assert!(a.chars().all(|c| c.is_ascii_hexdigit()));
    let c = fingerprint("https://e.example.org", "oai_ead", "id2");
    assert_ne!(a, c);
}

#[test]
fn storage_path_is_a_pure_function_of_the_fingerprint() {
    let id = OaiRecordId { identifier: "id1".to_string(), fingerprint: "00aabbccdd".to_string() };
    assert_eq!(id.path(), "00/aa/00aabbccdd.xml");
    let again = OaiRecordId { identifier: "other".to_string(), fingerprint: "00aabbccdd".to_string() };
    assert_eq!(again.path(), id.path());
}

#[test]
fn truncate_middle_keeps_short_messages() {
    assert_eq!(truncate_middle("boom", 200, 200), "boom");
}

#[test]
fn truncate_middle_reports_omitted_characters() {
    let long: String = "a".repeat(500);
    let trimmed = truncate_middle(&long, 200, 200);
    let expected = format!("{}\n... <100 chars omitted> ...\n{}", "a".repeat(200), "a".repeat(200));
    assert_eq!(trimmed, expected);
}

#[test]
fn lexicographic_order_and_substring_search() {
    assert!(str_lt("a", "b"));
    assert!(str_lt("a", "aa"));
    assert!(!str_lt("b", "ab"));
    assert!(!str_lt("a", "a"));
    assert!(str_contains_sub("timed out waiting for traject", "timed out"));
    assert!(!str_contains_sub("connection reset", "timed out"));
}

#[test]
fn transition_updates_set_expected_index_lifecycle_fields() {
    let endpoint = "https://archives.example.org/oai";
    let prefix = "oai_ead";
    let mut store = RecordStore::new();
    let mut parsed = make_row("index-transition", OaiRecordStatus::Parsed, OaiIndexStatus::Pending);
    parsed.metadata = repo_metadata("Test Repository");
    store.upsert_row(parsed);
    let mut deleted = make_row("purge-transition", OaiRecordStatus::Deleted, OaiIndexStatus::Pending);
    deleted.metadata = repo_metadata("Test Repository");
    store.upsert_row(deleted);

    let fail = oai_harvester::db::UpdateIndexFailureParams {
        endpoint,
        metadata_prefix: prefix,
        identifier: "index-transition",
        message: "traject failed",
    };
    assert_eq!(oai_harvester::db::do_mark_index_failure_query(&mut store, fail, 10), 1);
    {
        let row = store.get(endpoint, prefix, "index-transition").unwrap();
        assert!(matches!(row.index_status, OaiIndexStatus::IndexFailed));
        assert_eq!(row.index_message, "traject failed");
        assert_eq!(row.index_attempts, 1);
        assert_eq!(row.indexed_at, None);
        assert_eq!(row.index_last_checked_at, Some(10));
    }

    let ok = oai_harvester::db::UpdateIndexStatusParams {
        endpoint,
        metadata_prefix: prefix,
        identifier: "index-transition",
    };
    assert_eq!(oai_harvester::db::do_mark_index_success_query(&mut store, ok, 11), 1);
    {
        let row = store.get(endpoint, prefix, "index-transition").unwrap();
        assert!(matches!(row.index_status, OaiIndexStatus::Indexed));
        assert_eq!(row.index_message, "");
        assert_eq!(row.index_attempts, 0);
        assert_eq!(row.indexed_at, Some(11));
    }

    let pfail = oai_harvester::db::UpdateIndexFailureParams {
        endpoint,
        metadata_prefix: prefix,
        identifier: "purge-transition",
        message: "solr failed",
    };
    assert_eq!(oai_harvester::db::do_mark_purge_failure_query(&mut store, pfail, 12), 1);
    {
        let row = store.get(endpoint, prefix, "purge-transition").unwrap();
        assert!(matches!(row.index_status, OaiIndexStatus::PurgeFailed));
        assert_eq!(row.index_message, "solr failed");
        assert_eq!(row.index_attempts, 1);
    }

    let pok = oai_harvester::db::UpdateIndexStatusParams {
        endpoint,
        metadata_prefix: prefix,
        identifier: "purge-transition",
    };
    assert_eq!(oai_harvester::db::do_mark_purge_success_query(&mut store, pok, 13), 1);
    {
        let row = store.get(endpoint, prefix, "purge-transition").unwrap();
        assert!(matches!(row.index_status, OaiIndexStatus::Purged));
        assert_eq!(row.index_message, "");
        assert_eq!(row.index_attempts, 0);
        assert_eq!(row.purged_at, Some(13));
    }

    // a transition whose source state no longer matches affects no row
    assert_eq!(
        oai_harvester::db::do_mark_purge_success_query(
            &mut store,
            oai_harvester::db::UpdateIndexStatusParams {
                endpoint,
                metadata_prefix: prefix,
                identifier: "purge-transition",
            },
            14,
        ),
        0
    );
}

#[test]
fn reset_requeues_all_parsed_and_deleted_records() {
    let endpoint = "https://archives.example.org/oai";
    let prefix = "oai_ead";
    let mut store = RecordStore::new();
    let mut a = make_row("parsed-indexed", OaiRecordStatus::Parsed, OaiIndexStatus::Indexed);
    a.metadata = repo_metadata("Test Repository");
    a.index_attempts = 2;
    store.upsert_row(a);
    let mut b = make_row("deleted-purged", OaiRecordStatus::Deleted, OaiIndexStatus::Purged);
    b.metadata = repo_metadata("Test Repository");
    store.upsert_row(b);

    let affected =
        oai_harvester::db::do_requeue_index_query(&mut store, endpoint, prefix, "Test Repository");
    assert_eq!(affected, 2);
    for id in ["parsed-indexed", "deleted-purged"] {
        let row = store.get(endpoint, prefix, id).unwrap();
        assert!(matches!(row.index_status, OaiIndexStatus::Pending));
        assert_eq!(row.index_message, "");
        assert_eq!(row.index_attempts, 0);
        assert_eq!(row.indexed_at, None);
        assert_eq!(row.purged_at, None);
    }
}

#[test]
fn retry_returns_failed_rows_to_pending() {
    let endpoint = "https://archives.example.org/oai";
    let prefix = "oai_ead";
    let mut store = RecordStore::new();
    let mut failed = make_row("was-failed", OaiRecordStatus::Failed, OaiIndexStatus::Pending);
    failed.message = "boom".to_string();
    store.upsert_row(failed);
    store.upsert_row(make_row("was-parsed", OaiRecordStatus::Parsed, OaiIndexStatus::Pending));

    let affected = oai_harvester::db::do_retry_failed_query(&mut store, endpoint, prefix, 20);
    assert_eq!(affected, 1);
    let row = store.get(endpoint, prefix, "was-failed").unwrap();
    assert!(matches!(row.status, OaiRecordStatus::Pending));
    assert_eq!(row.message, "");
    let other = store.get(endpoint, prefix, "was-parsed").unwrap();
    assert!(matches!(other.status, OaiRecordStatus::Parsed));
}

#[test]
fn pending_candidate_queries_only_select_pending_records() {
    let endpoint = "https://archives.example.org/oai";
    let prefix = "oai_ead";
    let mut store = RecordStore::new();
    let mut a = make_row("a-pending-parsed", OaiRecordStatus::Parsed, OaiIndexStatus::Pending);
    a.metadata = repo_metadata("Test Repository");
    store.upsert_row(a);
    let mut b = make_row("b-failed-parsed", OaiRecordStatus::Parsed, OaiIndexStatus::IndexFailed);
    b.metadata = repo_metadata("Test Repository");
    b.index_message = "boom".to_string();
    b.index_attempts = 1;
    store.upsert_row(b);
    let mut c = make_row("c-pending-deleted", OaiRecordStatus::Deleted, OaiIndexStatus::Pending);
    c.metadata = repo_metadata("Test Repository");
    store.upsert_row(c);
    let mut d = make_row("d-wrong-repository", OaiRecordStatus::Parsed, OaiIndexStatus::Pending);
    d.metadata = repo_metadata("Other Repository");
    store.upsert_row(d);

    let params = |last: Option<&'static str>| oai_harvester::query::FetchIndexCandidatesParams {
        endpoint,
        metadata_prefix: prefix,
        oai_repository: "Test Repository",
        max_attempts: None,
        message_filter: None,
        last_identifier: last,
    };
    let to_index = oai_harvester::query::fetch_pending_records_for_indexing(&store, params(None));
    assert_eq!(
        to_index.iter().map(|r| r.identifier.as_str()).collect::<Vec<_>>(),
        vec!["a-pending-parsed"]
    );
    let to_purge = oai_harvester::query::fetch_pending_records_for_purging(&store, params(None));
    assert_eq!(
        to_purge.iter().map(|r| r.identifier.as_str()).collect::<Vec<_>>(),
        vec!["c-pending-deleted"]
    );
}

#[test]
fn failed_candidate_queries_apply_attempt_and_message_filters() {
    let endpoint = "https://archives.example.org/oai";
    let prefix = "oai_ead";
    let mut store = RecordStore::new();
    let mut a = make_row("a-timeout-low-attempts", OaiRecordStatus::Parsed, OaiIndexStatus::IndexFailed);
    a.metadata = repo_metadata("Test Repository");
    a.index_message = "timed out waiting for traject".to_string();
    a.index_attempts = 1;
    store.upsert_row(a);
    let mut b = make_row("b-timeout-maxed", OaiRecordStatus::Parsed, OaiIndexStatus::IndexFailed);
    b.metadata = repo_metadata("Test Repository");
    b.index_message = "timed out waiting for traject".to_string();
    b.index_attempts = 5;
    store.upsert_row(b);
    let mut c = make_row("c-other-message", OaiRecordStatus::Parsed, OaiIndexStatus::IndexFailed);
    c.metadata = repo_metadata("Test Repository");
    c.index_message = "connection reset".to_string();
    c.index_attempts = 1;
    store.upsert_row(c);
    let mut d = make_row("d-purge-timeout", OaiRecordStatus::Deleted, OaiIndexStatus::PurgeFailed);
    d.metadata = repo_metadata("Test Repository");
    d.index_message = "timed out calling solr".to_string();
    d.index_attempts = 1;
    store.upsert_row(d);

    let params = || oai_harvester::query::FetchIndexCandidatesParams {
        endpoint,
        metadata_prefix: prefix,
        oai_repository: "Test Repository",
        max_attempts: Some(5),
        message_filter: Some("timed out"),
        last_identifier: None,
    };
    let to_index = oai_harvester::query::fetch_failed_records_for_indexing(&store, params());
    assert_eq!(
        to_index.iter().map(|r| r.identifier.as_str()).collect::<Vec<_>>(),
        vec!["a-timeout-low-attempts"]
    );
    let to_purge = oai_harvester::query::fetch_failed_records_for_purging(&store, params());
    assert_eq!(
        to_purge.iter().map(|r| r.identifier.as_str()).collect::<Vec<_>>(),
        vec!["d-purge-timeout"]
    );
}

#[test]
fn keyset_pagination_is_strictly_increasing_and_complete() {
    let endpoint = "https://archives.example.org/oai";
    let prefix = "oai_ead";
    let mut store = RecordStore::new();
    for i in 0..250u32 {
        store.upsert_row(make_row(
            &format!("rec-{i:04}"),
            OaiRecordStatus::Pending,
            OaiIndexStatus::Pending,
        ));
    }
    let mut seen: Vec<String> = Vec::new();
    let mut last: Option<String> = None;
    loop {
        let page = oai_harvester::query::fetch_records_by_status(
            &store,
            oai_harvester::db::FetchRecordsParams {
                endpoint,
                metadata_prefix: prefix,
                status: "pending",
                last_identifier: last.as_deref(),
            },
        );
        if page.is_empty() {
            break;
        }
        assert!(page.len() <= 100);
        for r in &page {
            if let Some(prev) = seen.last() {
                assert!(prev < &r.identifier);
            }
            seen.push(r.identifier.clone());
        }
        last = Some(page.last().unwrap().identifier.clone());
        if page.len() < 100 {
            break;
        }
    }
    assert_eq!(seen.len(), 250);
}

#[test]
fn import_marks_deleted_headers_as_deleted() {
    let endpoint = "https://archives.example.org/oai";
    let prefix = "oai_ead";
    let mut store = RecordStore::new();
    let headers = vec![OaiRecordImport::new(
        "record-deleted".to_string(),
        "2026-02-07".to_string(),
        "deleted".to_string(),
    )];
    let counts = oai_harvester::import::batch_upsert_records(&mut store, endpoint, prefix, &headers, 5);
    assert_eq!(counts.deleted, 1);
    let row = store.get(endpoint, prefix, "record-deleted").unwrap();
    assert!(matches!(row.status, OaiRecordStatus::Deleted));
}

#[test]
fn import_is_idempotent_for_same_data() {
    let endpoint = "https://archives.example.org/oai";
    let prefix = "oai_ead";
    let mut store = RecordStore::new();
    let headers = vec![OaiRecordImport::new(
        "record-idempotent".to_string(),
        "2026-02-07".to_string(),
        "pending".to_string(),
    )];
    oai_harvester::import::batch_upsert_records(&mut store, endpoint, prefix, &headers, 5);
    let counts = oai_harvester::import::batch_upsert_records(&mut store, endpoint, prefix, &headers, 6);
    assert_eq!(counts.imported, 0);
    assert_eq!(counts.deleted, 0);
    let row = store.get(endpoint, prefix, "record-idempotent").unwrap();
    assert_eq!(row.version, 1);
    assert!(matches!(row.status, OaiRecordStatus::Pending));
}

#[test]
fn import_does_not_reset_failed_record() {
    let endpoint = "https://archives.example.org/oai";
    let prefix = "oai_ead";
    let mut store = RecordStore::new();
    let mut failed = make_row("record-failed-sticky", OaiRecordStatus::Failed, OaiIndexStatus::Pending);
    failed.datestamp = "2026-02-01".to_string();
    store.upsert_row(failed);
    let headers = vec![OaiRecordImport::new(
        "record-failed-sticky".to_string(),
        "2026-02-10".to_string(),
        "pending".to_string(),
    )];
    oai_harvester::import::batch_upsert_records(&mut store, endpoint, prefix, &headers, 7);
    let row = store.get(endpoint, prefix, "record-failed-sticky").unwrap();
    assert!(matches!(row.status, OaiRecordStatus::Failed));
    assert_eq!(row.datestamp, "2026-02-01");
    assert_eq!(row.version, 1);
}

#[test]
fn deleted_import_resets_index_lifecycle() {
    let endpoint = "https://archives.example.org/oai";
    let prefix = "oai_ead";
    let mut store = RecordStore::new();
    let mut row = make_row("id3", OaiRecordStatus::Parsed, OaiIndexStatus::Indexed);
    row.datestamp = "2026-02-01".to_string();
    store.upsert_row(row);
    let headers = vec![OaiRecordImport::new(
        "id3".to_string(),
        "2026-02-10".to_string(),
        "deleted".to_string(),
    )];
    oai_harvester::import::batch_upsert_records(&mut store, endpoint, prefix, &headers, 9);
    let row = store.get(endpoint, prefix, "id3").unwrap();
    assert!(matches!(row.status, OaiRecordStatus::Deleted));
    assert!(matches!(row.index_status, OaiIndexStatus::Pending));
    assert_eq!(row.index_message, "");
    assert_eq!(row.index_attempts, 0);
    assert_eq!(row.indexed_at, None);
    assert_eq!(row.purged_at, None);
    assert_eq!(row.version, 2);
}

#[test]
fn import_fails_the_phase_on_a_protocol_error_but_keeps_prior_pages() {
    let endpoint = "https://archives.example.org/oai";
    let prefix = "oai_ead";
    let mut store = RecordStore::new();
    let pages = vec![
        oai_harvester::harvester::OaiPage {
            headers: vec![OaiRecordImport::new(
                "kept".to_string(),
                "2026-02-07".to_string(),
                "pending".to_string(),
            )],
            error: None,
        },
        oai_harvester::harvester::OaiPage {
            headers: Vec::new(),
            error: Some("badResumptionToken".to_string()),
        },
    ];
    let r = oai_harvester::harvester::run_import(&mut store, endpoint, prefix, &pages, 3);
    let msg = r.err().unwrap();
    assert_eq!(msg, "OAI-PMH error: badResumptionToken");
    assert!(store.get(endpoint, prefix, "kept").is_some());
}

#[test]
fn update_status_query_sets_status_and_message_unguarded() {
    let endpoint = "https://archives.example.org/oai";
    let prefix = "oai_ead";
    let mut store = RecordStore::new();
    store.upsert_row(make_row("any-state", OaiRecordStatus::Parsed, OaiIndexStatus::Pending));
    let affected = oai_harvester::db::do_update_status_query(
        &mut store,
        oai_harvester::db::UpdateStatusParams {
            endpoint,
            metadata_prefix: prefix,
            identifier: "any-state",
            status: "failed",
            message: "operator reset",
        },
        30,
    );
    assert_eq!(affected, 1);
    let row = store.get(endpoint, prefix, "any-state").unwrap();
    assert!(matches!(row.status, OaiRecordStatus::Failed));
    assert_eq!(row.message, "operator reset");

    // a token that names no harvest state affects no row
    let affected = oai_harvester::db::do_update_status_query(
        &mut store,
        oai_harvester::db::UpdateStatusParams {
            endpoint,
            metadata_prefix: prefix,
            identifier: "any-state",
            status: "unheard_of",
            message: "",
        },
        31,
    );
    assert_eq!(affected, 0);
}

#[test]
fn selection_by_unknown_status_token_selects_nothing() {
    let endpoint = "https://archives.example.org/oai";
    let prefix = "oai_ead";
    let mut store = RecordStore::new();
    store.upsert_row(make_row("some-row", OaiRecordStatus::Pending, OaiIndexStatus::Pending));
    let page = oai_harvester::query::fetch_records_by_status(
        &store,
        oai_harvester::db::FetchRecordsParams {
            endpoint,
            metadata_prefix: prefix,
            status: "unheard_of",
            last_identifier: None,
        },
    );
    assert!(page.is_empty());
}
