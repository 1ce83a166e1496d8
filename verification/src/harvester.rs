//! The harvester: the import phase that streams OAI headers into the
//! store, and the decision logic of the download phase.
//!
//! The harvester's phases run strictly in order: import, then download,
//! then metadata. Download and metadata sweeps are driven by the worker
//! (`run_harvest_sweep`); import applies one batch upsert per page of
//! headers and fails the whole phase on a protocol error, keeping the
//! pages already applied.

use vstd::prelude::*;
use vstd::string::StringExecFns;

use crate::import::batch_upsert_records;
use crate::import::import_fold;
use crate::import::import_tally;
use crate::import::ImportCounts;
use crate::oai::OaiRecordImport;
use crate::store::RecordStore;

verus! {

/// Command-line configuration of a harvest run.
#[derive(Debug, Clone)]
pub struct HarvesterArgs {
    /// OAI endpoint url
    pub endpoint: String,
    /// Base directory for downloads
    pub dir: String,
    /// OAI metadata prefix
    pub metadata_prefix: String,
    /// Reset failed records to pending before harvesting
    pub retry: bool,
    /// XML scanning rules file
    pub rules: Option<String>,
    /// Timeout for individual OAI operations (seconds)
    pub oai_timeout: u64,
    /// Max retries for transient OAI failures (per record)
    pub oai_retries: u32,
}

/// One page of an identifier listing: its headers, or the protocol error
/// the repository answered with.
pub struct OaiPage {
    pub headers: Vec<OaiRecordImport>,
    pub error: Option<String>,
}

/// The first page that carries a protocol error, if any.
pub open spec fn first_error_page(pages: Seq<OaiPage>) -> Option<int>
    decreases pages.len(),
{
    if pages.len() == 0 {
        Option::None
    } else if pages[0].error is Some {
        Option::Some(0)
    } else {
        match first_error_page(pages.skip(1)) {
            Option::Some(i) => Option::Some(i + 1),
            Option::None => Option::None,
        }
    }
}

/// The store after the first `upto` pages are upserted, in order.
pub open spec fn pages_fold(
    rows: Seq<crate::record::RecordRowView>,
    endpoint: Seq<char>,
    metadata_prefix: Seq<char>,
    pages: Seq<OaiPage>,
    upto: int,
    now: int,
) -> Seq<crate::record::RecordRowView>
    decreases upto,
{
    if upto <= 0 {
        rows
    } else {
        import_fold(
            pages_fold(rows, endpoint, metadata_prefix, pages, upto - 1, now),
            endpoint,
            metadata_prefix,
            pages[upto - 1].headers.deep_view(),
            now,
        )
    }
}

/// The tally of affected active and deleted rows over the first `upto`
/// pages.
pub open spec fn pages_tally(
    rows: Seq<crate::record::RecordRowView>,
    endpoint: Seq<char>,
    metadata_prefix: Seq<char>,
    pages: Seq<OaiPage>,
    upto: int,
    now: int,
) -> (int, int)
    decreases upto,
{
    if upto <= 0 {
        (0, 0)
    } else {
        let before = pages_fold(rows, endpoint, metadata_prefix, pages, upto - 1, now);
        let (a0, d0) = pages_tally(rows, endpoint, metadata_prefix, pages, upto - 1, now);
        let (a, d) = import_tally(
            before,
            endpoint,
            metadata_prefix,
            pages[upto - 1].headers.deep_view(),
            now,
        );
        (a0 + a, d0 + d)
    }
}

/// Total headers carried by the first `upto` pages.
pub open spec fn pages_headers_len(pages: Seq<OaiPage>, upto: int) -> int
    decreases upto,
{
    if upto <= 0 {
        0
    } else {
        pages_headers_len(pages, upto - 1) + pages[upto - 1].headers.len()
    }
}

/// Runs the import phase over a listed sequence of header pages: each
/// page is applied as one batch upsert. A page that carries a protocol
/// error fails the whole phase; the pages already applied are kept
/// (every prior batch transitioned its rows atomically).
pub fn run_import(
    store: &mut RecordStore,
    endpoint: &str,
    metadata_prefix: &str,
    pages: &Vec<OaiPage>,
    now: u64,
) -> (r: Result<ImportCounts, String>)
    requires
        old(store).wf(),
        pages_headers_len(pages@, pages@.len() as int) <= u64::MAX,
    ensures
        final (store).wf(),
        match first_error_page(pages@) {
            Option::None => {
                &&& r is Ok
                &&& final (store)@ =~= pages_fold(
                    old(store)@,
                    endpoint@,
                    metadata_prefix@,
                    pages@,
                    pages@.len() as int,
                    now as int,
                )
                &&& ({
                    let (a, d) = pages_tally(
                        old(store)@,
                        endpoint@,
                        metadata_prefix@,
                        pages@,
                        pages@.len() as int,
                        now as int,
                    );
                    r->Ok_0.imported == a && r->Ok_0.deleted == d && r->Ok_0.processed
                        == pages_headers_len(pages@, pages@.len() as int)
                })
            },
            Option::Some(ei) => {
                &&& r is Err
                &&& final (store)@ =~= pages_fold(
                    old(store)@,
                    endpoint@,
                    metadata_prefix@,
                    pages@,
                    ei,
                    now as int,
                )
                &&& r->Err_0@ == "OAI-PMH error: "@ + pages@[ei].error->Some_0@
            },
        },
{
    let ghost rows0 = store@;
    let n = pages.len();
    let mut imported: u64 = 0;
    let mut deleted: u64 = 0;
    let mut processed: u64 = 0;
    let mut i: usize = 0;
    while i < n
        invariant
            0 <= i <= n,
            n == pages@.len(),
            store.wf(),
            rows0 == old(store)@,
            store@ =~= pages_fold(rows0, endpoint@, metadata_prefix@, pages@, i as int, now as int),
            forall|k: int| 0 <= k < i ==> (#[trigger] pages@[k]).error is None,
            ({
                let (a, d) = pages_tally(
                    rows0,
                    endpoint@,
                    metadata_prefix@,
                    pages@,
                    i as int,
                    now as int,
                );
                imported == a && deleted == d
            }),
            processed == pages_headers_len(pages@, i as int),
            imported + deleted <= processed,
            pages_headers_len(pages@, pages@.len() as int) <= u64::MAX,
        decreases n - i,
    {
        let page = &pages[i];
        match &page.error {
            Option::Some(e) => {
                proof {
                    lemma_first_error_page_is(pages@, i as int);
                }
                let mut msg = String::from_str("OAI-PMH error: ");
                msg.append(e.as_str());
                proof {
                    assert(pages@[i as int].error->Some_0@ == e@);
                    assert(msg@ =~= "OAI-PMH error: "@ + e@);
                    assert(rows0 == old(store)@);
                    assert(store@ =~= pages_fold(
                        rows0,
                        endpoint@,
                        metadata_prefix@,
                        pages@,
                        i as int,
                        now as int,
                    ));
                }
                return Result::Err(msg);
            },
            Option::None => {},
        }
        let counts = batch_upsert_records(store, endpoint, metadata_prefix, &page.headers, now);
        proof {
            lemma_pages_headers_len_mono(pages@, i as int + 1, pages@.len() as int);
            assert(counts.processed == pages@[i as int].headers@.len());
            assert(processed + counts.processed == pages_headers_len(pages@, i as int + 1));
        }
        imported = imported + counts.imported;
        deleted = deleted + counts.deleted;
        processed = processed + counts.processed;
        i = i + 1;
    }
    proof {
        lemma_no_error_page(pages@);
    }
    Result::Ok(ImportCounts { processed, imported, deleted })
}

/// Later prefixes of a listing carry at least as many headers.
proof fn lemma_pages_headers_len_mono(pages: Seq<OaiPage>, a: int, b: int)
    requires
        0 <= a <= b <= pages.len(),
    ensures
        pages_headers_len(pages, a) <= pages_headers_len(pages, b),
    decreases b - a,
{
    if a < b {
        lemma_pages_headers_len_mono(pages, a, b - 1);
    }
}

/// A page with an error, preceded only by clean pages, is the first
/// erroring page.
proof fn lemma_first_error_page_is(pages: Seq<OaiPage>, i: int)
    requires
        0 <= i < pages.len(),
        pages[i].error is Some,
        forall|k: int| 0 <= k < i ==> (#[trigger] pages[k]).error is None,
    ensures
        first_error_page(pages) == Option::Some(i),
    decreases pages.len(),
{
    if i > 0 {
        lemma_first_error_page_is(pages.skip(1), i - 1);
        assert(forall|k: int| 0 <= k < pages.len() - 1 ==> pages.skip(1)[k] == pages[k + 1]);
    }
}

/// A listing without erroring pages has no first error.
proof fn lemma_no_error_page(pages: Seq<OaiPage>)
    requires
        forall|k: int| 0 <= k < pages.len() ==> (#[trigger] pages[k]).error is None,
    ensures
        first_error_page(pages) is None,
    decreases pages.len(),
{
    if pages.len() > 0 {
        assert(forall|k: int| 0 <= k < pages.len() - 1 ==> pages.skip(1)[k] == pages[k + 1]);
        lemma_no_error_page(pages.skip(1));
    }
}

/// The message recorded for a download fetch that returned no payload.
pub open spec fn missing_payload_message() -> Seq<char> {
    "missing payload in OAI response"@
}

/// The message recorded for a payload that could not be written to disk.
pub open spec fn write_failure_message(detail: Seq<char>) -> Seq<char> {
    "Failed to write metadata file: "@ + detail
}

/// What the download phase decides about one more fetch attempt: wait and
/// retry, or give the record up.
#[derive(Debug, Clone, Copy, PartialEq, Eq, Structural)]
pub enum RetryDecision {
    RetryAfterMs(u64),
    GiveUp,
}

/// The backoff before a retry: half a second, doubled for every retry
/// already made, stopping at the timer's capacity.
pub open spec fn retry_backoff_ms(attempt: int) -> int
    decreases attempt,
{
    if attempt <= 0 {
        500
    } else if retry_backoff_ms(attempt - 1) * 2 <= u64::MAX {
        retry_backoff_ms(attempt - 1) * 2
    } else {
        retry_backoff_ms(attempt - 1)
    }
}

/// The backoff always fits the timer.
proof fn lemma_retry_backoff_bounds(attempt: int)
    ensures
        500 <= retry_backoff_ms(attempt) <= u64::MAX,
    decreases attempt,
{
    if attempt > 0 {
        lemma_retry_backoff_bounds(attempt - 1);
    }
}

/// Decides whether a failed fetch is retried: only a timeout is, and only
/// while attempts remain in the retry budget; the wait doubles with every
/// attempt already made.
pub fn download_retry_decision(attempt: u32, oai_retries: u32, timed_out: bool) -> (r:
    RetryDecision)
    ensures
        r == (if timed_out && attempt < oai_retries {
            RetryDecision::RetryAfterMs(retry_backoff_ms(attempt as int) as u64)
        } else {
            RetryDecision::GiveUp
        }),
        retry_backoff_ms(attempt as int) <= u64::MAX,
{
    proof {
        lemma_retry_backoff_bounds(attempt as int);
    }
    if !(timed_out && attempt < oai_retries) {
        return RetryDecision::GiveUp;
    }
    let mut ms: u64 = 500;
    let mut i: u32 = 0;
    while i < attempt
        invariant
            0 <= i <= attempt,
            ms == retry_backoff_ms(i as int),
        decreases attempt - i,
    {
        if ms <= u64::MAX / 2 {
            ms = ms * 2;
        }
        i = i + 1;
    }
    RetryDecision::RetryAfterMs(ms)
}

/// What fetching one record from the repository came to, as the download
/// phase sees it: a payload that was stored, a response without payload, a
/// fetch error, or a failure writing the payload to disk.
pub enum DownloadEvent {
    Stored,
    MissingPayload,
    FetchError(String),
    WriteFailed(String),
}

/// Decides the download work result of one record: only a stored payload
/// counts as success, everything else yields the failure message the
/// record keeps.
pub fn download_work_result(event: &DownloadEvent) -> (r: Result<
    crate::record::MetadataDoc,
    String,
>)
    ensures
        match event {
            DownloadEvent::Stored => r is Ok && r->Ok_0@ == Seq::<
                crate::record::MetadataFieldView,
            >::empty(),
            DownloadEvent::MissingPayload => r is Err && r->Err_0@ == missing_payload_message(),
            DownloadEvent::FetchError(m) => r is Err && r->Err_0@ == m@,
            DownloadEvent::WriteFailed(m) => r is Err && r->Err_0@ == write_failure_message(m@),
        },
{
    match event {
        DownloadEvent::Stored => Result::Ok(crate::record::MetadataDoc::empty()),
        DownloadEvent::MissingPayload => Result::Err(
            String::from_str("missing payload in OAI response"),
        ),
        DownloadEvent::FetchError(m) => Result::Err(m.clone()),
        DownloadEvent::WriteFailed(m) => {
            let mut msg = String::from_str("Failed to write metadata file: ");
            msg.append(m.as_str());
            proof {
                assert(msg@ =~= write_failure_message(m@));
            }
            Result::Err(msg)
        },
    }
}

} // verus!
