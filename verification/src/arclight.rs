//! The ArcLight indexer backend: its configuration, the argument list of
//! the external indexer subprocess, the search-server delete document, and
//! the decision logic that turns subprocess and HTTP outcomes into work
//! results.

use vstd::prelude::*;
use vstd::string::StrSliceExecFns;
use vstd::string::StringExecFns;

use crate::indexer::IndexSelectionMode;
use crate::text::dec_digits;
use crate::text::truncate_middle_spec;
use crate::worker::MESSAGE_HEAD;
use crate::worker::MESSAGE_TAIL;

verus! {

/// The metadata prefix the ArcLight indexer works on.
pub const ARCLIGHT_METADATA_PREFIX: &'static str = "oai_ead";

/// Command-line configuration of an ArcLight index run.
#[derive(Debug, Clone)]
pub struct ArcLightArgs {
    /// Target repository id
    pub repository: String,
    /// Source OAI endpoint url
    pub oai_endpoint: String,
    /// Source OAI repository name
    pub oai_repository: String,
    /// Indexer configuration file path
    pub configuration: String,
    /// EAD base directory
    pub dir: String,
    /// Preview mode (show matching records, do not index or delete)
    pub preview: bool,
    /// Repositories configuration file
    pub repository_file: String,
    /// Search server url
    pub solr_url: String,
    /// Per-record timeout for indexer and search-server operations
    pub record_timeout_seconds: u64,
    /// Search-server commit-within window for delete operations
    pub solr_commit_within_ms: u64,
    /// Reset index state to pending before running
    pub reindex: bool,
}

/// Command-line configuration of an ArcLight retry run.
#[derive(Debug, Clone)]
pub struct ArcLightRetryArgs {
    pub arclight: ArcLightArgs,
    /// Optional substring filter on failed index message
    pub message_filter: Option<String>,
    /// Skip failed records at/above this attempt count
    pub max_attempts: Option<i32>,
}

/// Selection options of one ArcLight run.
#[derive(Debug, Clone)]
pub struct ArcLightRunOptions {
    pub selection_mode: IndexSelectionMode,
    pub message_filter: Option<String>,
    pub max_attempts: Option<i32>,
}

impl ArcLightRunOptions {
    /// Retry runs select only failed rows.
    pub fn failed_only(message_filter: Option<String>, max_attempts: Option<i32>) -> (r:
        ArcLightRunOptions)
        ensures
            r.selection_mode == IndexSelectionMode::FailedOnly,
            r.message_filter == message_filter,
            r.max_attempts == max_attempts,
    {
        ArcLightRunOptions {
            selection_mode: IndexSelectionMode::FailedOnly,
            message_filter,
            max_attempts,
        }
    }

    /// Plain runs select only pending rows.
    pub fn pending_only() -> (r: ArcLightRunOptions)
        ensures
            r.selection_mode == IndexSelectionMode::PendingOnly,
            r.message_filter is None,
            r.max_attempts is None,
    {
        ArcLightRunOptions {
            selection_mode: IndexSelectionMode::PendingOnly,
            message_filter: Option::None,
            max_attempts: Option::None,
        }
    }
}

/// The assembled configuration of an ArcLight run.
#[derive(Debug, Clone)]
pub struct ArcLightIndexerConfig {
    pub configuration: String,
    pub dir: String,
    pub repository: String,
    pub oai_endpoint: String,
    pub oai_repository: String,
    pub preview: bool,
    pub repository_file: String,
    pub selection_mode: IndexSelectionMode,
    pub message_filter: Option<String>,
    pub max_attempts: Option<i32>,
    pub record_timeout_seconds: u64,
    pub solr_url: String,
    pub solr_commit_within_ms: u64,
    pub metadata_prefix: String,
}

/// The inputs the configuration is assembled from.
#[derive(Debug, Clone)]
pub struct ArcLightIndexerConfigInput {
    pub configuration: String,
    pub dir: String,
    pub repository: String,
    pub oai_endpoint: String,
    pub oai_repository: String,
    pub preview: bool,
    pub repository_file: String,
    pub record_timeout_seconds: u64,
    pub solr_url: String,
    pub solr_commit_within_ms: u64,
    pub run_options: ArcLightRunOptions,
}

impl ArcLightIndexerConfig {
    /// Assembles the run configuration; the metadata prefix is fixed to
    /// the EAD format the backend indexes.
    pub fn new(input: ArcLightIndexerConfigInput) -> (r: ArcLightIndexerConfig)
        ensures
            r.configuration == input.configuration,
            r.dir == input.dir,
            r.repository == input.repository,
            r.oai_endpoint == input.oai_endpoint,
            r.oai_repository == input.oai_repository,
            r.preview == input.preview,
            r.repository_file == input.repository_file,
            r.selection_mode == input.run_options.selection_mode,
            r.message_filter == input.run_options.message_filter,
            r.max_attempts == input.run_options.max_attempts,
            r.record_timeout_seconds == input.record_timeout_seconds,
            r.solr_url == input.solr_url,
            r.solr_commit_within_ms == input.solr_commit_within_ms,
            r.metadata_prefix@ == "oai_ead"@,
    {
        ArcLightIndexerConfig {
            configuration: input.configuration,
            dir: input.dir,
            repository: input.repository,
            oai_endpoint: input.oai_endpoint,
            oai_repository: input.oai_repository,
            preview: input.preview,
            repository_file: input.repository_file,
            selection_mode: input.run_options.selection_mode,
            message_filter: input.run_options.message_filter,
            max_attempts: input.run_options.max_attempts,
            record_timeout_seconds: input.record_timeout_seconds,
            solr_url: input.solr_url,
            solr_commit_within_ms: input.solr_commit_within_ms,
            metadata_prefix: String::from_str(ARCLIGHT_METADATA_PREFIX),
        }
    }
}

/// Shared configuration of an indexer backend.
#[derive(Debug, Clone)]
pub struct IndexerConfig {
    pub repository: String,
    pub oai_endpoint: String,
    pub oai_repository: String,
    pub solr_url: String,
}

impl IndexerConfig {
    pub fn new(
        repository: String,
        oai_endpoint: String,
        oai_repository: String,
        solr_url: String,
    ) -> (r: IndexerConfig)
        ensures
            r.repository == repository,
            r.oai_endpoint == oai_endpoint,
            r.oai_repository == oai_repository,
            r.solr_url == solr_url,
    {
        IndexerConfig { repository, oai_endpoint, oai_repository, solr_url }
    }
}

/// The argument list handed to the external indexer subprocess for one
/// record: input format, configuration file, repository name, document id
/// (the fingerprint), server url, and the record's on-disk path.
pub fn traject_args(config: &ArcLightIndexerConfig, record: &crate::oai::OaiRecordId) -> (args: Vec<
    String,
>)
    requires
        record.fingerprint@.len() >= 4,
    ensures
        args@.len() == 11,
        args@[0]@ == "-i"@,
        args@[1]@ == "xml"@,
        args@[2]@ == "-c"@,
        args@[3]@ == config.configuration@,
        args@[4]@ == "-s"@,
        args@[5]@ == "repository="@ + config.repository@,
        args@[6]@ == "-s"@,
        args@[7]@ == "id="@ + record.fingerprint@,
        args@[8]@ == "-u"@,
        args@[9]@ == config.solr_url@,
        args@[10]@ == config.dir@ + "/"@ + crate::oai::storage_path_of(record.fingerprint@),
{
    let mut args: Vec<String> = Vec::new();
    args.push(String::from_str("-i"));
    args.push(String::from_str("xml"));
    args.push(String::from_str("-c"));
    args.push(config.configuration.clone());
    args.push(String::from_str("-s"));
    let mut repo = String::from_str("repository=");
    repo.append(config.repository.as_str());
    args.push(repo);
    args.push(String::from_str("-s"));
    let mut id = String::from_str("id=");
    id.append(record.fingerprint.as_str());
    args.push(id);
    args.push(String::from_str("-u"));
    args.push(config.solr_url.clone());
    let mut path = config.dir.clone();
    path.append("/");
    let rel = record.path();
    path.append(rel.as_str());
    args.push(path);
    args
}

/// The delete-by-query document posted to the search server to purge one
/// record: it deletes the document tree rooted at the fingerprint, with
/// the configured commit window.
pub open spec fn solr_delete_payload_of(fingerprint: Seq<char>, commit_within_ms: int) -> Seq<
    char,
> {
    "{\"delete\":{\"query\":\"_root_:"@ + fingerprint + "\",\"commitWithin\":"@ + dec_digits(
        commit_within_ms,
    ) + "}}"@
}

/// Builds the search-server delete document for one record.
pub fn solr_delete_payload(fingerprint: &str, commit_within_ms: u64) -> (r: String)
    ensures
        r@ == solr_delete_payload_of(fingerprint@, commit_within_ms as int),
{
    let mut r = String::from_str("{\"delete\":{\"query\":\"_root_:");
    r.append(fingerprint);
    r.append("\",\"commitWithin\":");
    let ms = crate::text::u64_to_dec(commit_within_ms);
    r.append(ms.as_str());
    r.append("}}");
    proof {
        assert(r@ =~= solr_delete_payload_of(fingerprint@, commit_within_ms as int));
    }
    r
}

/// The base url without trailing slashes.
pub open spec fn without_trailing_slashes(s: Seq<char>) -> Seq<char>
    decreases s.len(),
{
    if s.len() > 0 && s[s.len() - 1] == '/' {
        without_trailing_slashes(s.drop_last())
    } else {
        s
    }
}

/// The search server's update endpoint for a configured base url.
pub fn solr_update_url(solr_url: &str) -> (r: String)
    ensures
        r@ == without_trailing_slashes(solr_url@) + "/update"@,
{
    let len = solr_url.unicode_len();
    let mut end: usize = len;
    proof {
        assert(solr_url@.subrange(0, len as int) =~= solr_url@);
    }
    while end > 0 && solr_url.get_char(end - 1) == '/'
        invariant
            0 <= end <= len,
            len == solr_url@.len(),
            without_trailing_slashes(solr_url@) == without_trailing_slashes(
                solr_url@.subrange(0, end as int),
            ),
        decreases end,
    {
        proof {
            assert(solr_url@.subrange(0, end as int).drop_last() =~= solr_url@.subrange(
                0,
                end - 1,
            ));
        }
        end = end - 1;
    }
    proof {
        let pre = solr_url@.subrange(0, end as int);
        if end > 0 {
            assert(pre[pre.len() - 1] != '/');
        }
        assert(without_trailing_slashes(pre) == pre);
    }
    let mut r = String::from_str(solr_url.substring_char(0, end));
    r.append("/update");
    proof {
        assert(r@ =~= without_trailing_slashes(solr_url@) + "/update"@);
    }
    r
}

/// What running the external indexer subprocess on one record came to.
pub enum TrajectEvent {
    /// The subprocess exited successfully.
    Completed,
    /// The subprocess exited non-zero; its standard error output.
    Failed(String),
    /// The subprocess overran the per-record timeout and was killed.
    TimedOut,
    /// The subprocess could not be spawned or reaped.
    SpawnError(String),
}

/// The message a failed indexer run records.
pub open spec fn traject_failure_message(ev: TrajectEvent, record_timeout_seconds: int) -> Seq<
    char,
> {
    match ev {
        TrajectEvent::Completed => Seq::empty(),
        TrajectEvent::Failed(stderr) => "traject failed: "@ + truncate_middle_spec(
            stderr@,
            MESSAGE_HEAD as int,
            MESSAGE_TAIL as int,
        ),
        TrajectEvent::TimedOut => "traject timed out after "@ + dec_digits(record_timeout_seconds)
            + "s"@,
        TrajectEvent::SpawnError(m) => truncate_middle_spec(
            m@,
            MESSAGE_HEAD as int,
            MESSAGE_TAIL as int,
        ),
    }
}

/// Decides the index work result of one record from its subprocess event:
/// exit 0 is success, everything else yields the failure message the
/// record keeps.
pub fn index_work_result(event: &TrajectEvent, record_timeout_seconds: u64) -> (r: Result<
    (),
    String,
>)
    ensures
        match event {
            TrajectEvent::Completed => r is Ok,
            _ => r is Err && r->Err_0@ == traject_failure_message(
                *event,
                record_timeout_seconds as int,
            ),
        },
{
    match event {
        TrajectEvent::Completed => Result::Ok(()),
        TrajectEvent::Failed(stderr) => {
            let mut msg = String::from_str("traject failed: ");
            let trimmed = crate::text::truncate_middle(stderr.as_str(), MESSAGE_HEAD, MESSAGE_TAIL);
            msg.append(trimmed.as_str());
            proof {
                assert(msg@ =~= traject_failure_message(
                    TrajectEvent::Failed(*stderr),
                    record_timeout_seconds as int,
                ));
            }
            Result::Err(msg)
        },
        TrajectEvent::TimedOut => {
            let mut msg = String::from_str("traject timed out after ");
            let secs = crate::text::u64_to_dec(record_timeout_seconds);
            msg.append(secs.as_str());
            msg.append("s");
            proof {
                assert(msg@ =~= traject_failure_message(
                    TrajectEvent::TimedOut,
                    record_timeout_seconds as int,
                ));
            }
            Result::Err(msg)
        },
        TrajectEvent::SpawnError(m) => {
            let trimmed = crate::text::truncate_middle(m.as_str(), MESSAGE_HEAD, MESSAGE_TAIL);
            Result::Err(trimmed)
        },
    }
}

/// What posting the delete document to the search server came to.
pub enum SolrDeleteEvent {
    /// An HTTP response: its status code and body.
    Http(u16, String),
    /// The call overran the per-record timeout.
    TimedOut,
    /// The call failed before an HTTP status was received.
    TransportError(String),
}

/// The message a failed purge records.
pub open spec fn solr_failure_message(ev: SolrDeleteEvent, record_timeout_seconds: int) -> Seq<
    char,
> {
    match ev {
        SolrDeleteEvent::Http(status, body) => "Solr delete API returned "@ + dec_digits(
            status as int,
        ) + ": "@ + truncate_middle_spec(body@, MESSAGE_HEAD as int, MESSAGE_TAIL as int),
        SolrDeleteEvent::TimedOut => "Solr delete timed out after "@ + dec_digits(
            record_timeout_seconds,
        ) + "s"@,
        SolrDeleteEvent::TransportError(m) => truncate_middle_spec(
            "failed to call Solr delete API: "@ + m@,
            MESSAGE_HEAD as int,
            MESSAGE_TAIL as int,
        ),
    }
}

/// Decides the purge work result of one record from the search server's
/// answer: a 2xx status is success, everything else yields the failure
/// message the record keeps.
pub fn purge_work_result(event: &SolrDeleteEvent, record_timeout_seconds: u64) -> (r: Result<
    (),
    String,
>)
    ensures
        match event {
            SolrDeleteEvent::Http(status, body) => if 200 <= *status < 300 {
                r is Ok
            } else {
                r is Err && r->Err_0@ == solr_failure_message(
                    *event,
                    record_timeout_seconds as int,
                )
            },
            _ => r is Err && r->Err_0@ == solr_failure_message(
                *event,
                record_timeout_seconds as int,
            ),
        },
{
    match event {
        SolrDeleteEvent::Http(status, body) => {
            if 200 <= *status && *status < 300 {
                Result::Ok(())
            } else {
                let mut msg = String::from_str("Solr delete API returned ");
                let code = crate::text::u64_to_dec(*status as u64);
                msg.append(code.as_str());
                msg.append(": ");
                let trimmed = crate::text::truncate_middle(
                    body.as_str(),
                    MESSAGE_HEAD,
                    MESSAGE_TAIL,
                );
                msg.append(trimmed.as_str());
                proof {
                    assert(msg@ =~= solr_failure_message(
                        SolrDeleteEvent::Http(*status, *body),
                        record_timeout_seconds as int,
                    ));
                }
                Result::Err(msg)
            }
        },
        SolrDeleteEvent::TimedOut => {
            let mut msg = String::from_str("Solr delete timed out after ");
            let secs = crate::text::u64_to_dec(record_timeout_seconds);
            msg.append(secs.as_str());
            msg.append("s");
            proof {
                assert(msg@ =~= solr_failure_message(
                    SolrDeleteEvent::TimedOut,
                    record_timeout_seconds as int,
                ));
            }
            Result::Err(msg)
        },
        SolrDeleteEvent::TransportError(m) => {
            let mut raw = String::from_str("failed to call Solr delete API: ");
            raw.append(m.as_str());
            let trimmed = crate::text::truncate_middle(raw.as_str(), MESSAGE_HEAD, MESSAGE_TAIL);
            proof {
                assert(raw@ =~= "failed to call Solr delete API: "@ + m@);
            }
            Result::Err(trimmed)
        },
    }
}

} // verus!
