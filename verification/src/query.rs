//! Keyset-paginated selection queries: the fixed family of selects that
//! feed each phase its next batch of candidate records.
//!
//! Every query orders by identifier, returns at most `BATCH_SIZE` rows,
//! and selects strictly beyond the last identifier already seen, so a
//! sweep visits each matching row exactly once (keyset monotonicity).

use vstd::prelude::*;

use crate::db::FetchRecordsParams;
use crate::oai::OaiIndexStatus;
use crate::oai::OaiRecordId;
use crate::oai::OaiRecordStatus;
use crate::record::doc_has_value;
use crate::record::key_lt;
use crate::record::RecordRowView;
use crate::store::RecordStore;
use crate::text::after_last;
use crate::text::contains_sub;
use crate::text::lex_lt;

verus! {

/// Batch size of every selection query.
pub const BATCH_SIZE: usize = 100;

/// The two index-lifecycle phases a sweep can drive.
#[derive(Clone, Copy, Debug, PartialEq, Eq, Structural)]
pub enum RecordPhase {
    Index,
    Purge,
}

/// View of an optional string parameter.
pub open spec fn opt_view(o: Option<&str>) -> Option<Seq<char>> {
    match o {
        Option::None => Option::None,
        Option::Some(s) => Option::Some(s@),
    }
}

/// Mathematical view of one selected record id.
#[verifier::ext_equal]
pub ghost struct RecordIdView {
    pub identifier: Seq<char>,
    pub fingerprint: Seq<char>,
}

impl View for OaiRecordId {
    type V = RecordIdView;

    open spec fn view(&self) -> RecordIdView {
        RecordIdView { identifier: self.identifier@, fingerprint: self.fingerprint@ }
    }
}

/// Selection by harvest status within one endpoint and prefix.
pub open spec fn status_sel(
    endpoint: Seq<char>,
    metadata_prefix: Seq<char>,
    status: OaiRecordStatus,
    r: RecordRowView,
) -> bool {
    r.endpoint == endpoint && r.metadata_prefix == metadata_prefix && r.status == status
}

/// Selection of index or purge candidates: rows of the repository in the
/// harvest state the phase consumes, filtered by index state and, for
/// retry runs, by attempt count and message substring.
pub open spec fn candidate_sel(
    endpoint: Seq<char>,
    metadata_prefix: Seq<char>,
    oai_repository: Seq<char>,
    phase: RecordPhase,
    failed_only: bool,
    max_attempts: Option<int>,
    message_filter: Option<Seq<char>>,
    r: RecordRowView,
) -> bool {
    &&& r.endpoint == endpoint
    &&& r.metadata_prefix == metadata_prefix
    &&& doc_has_value(r.metadata, "repository"@, oai_repository)
    &&& (match phase {
        RecordPhase::Index => r.status == OaiRecordStatus::Parsed && (if failed_only {
            r.index_status == OaiIndexStatus::IndexFailed
        } else {
            r.index_status == OaiIndexStatus::Pending
        }),
        RecordPhase::Purge => r.status == OaiRecordStatus::Deleted && (if failed_only {
            r.index_status == OaiIndexStatus::PurgeFailed
        } else {
            r.index_status == OaiIndexStatus::Pending
        }),
    })
    &&& (match max_attempts {
        Option::Some(m) => failed_only ==> r.index_attempts < m,
        Option::None => true,
    })
    &&& (match message_filter {
        Option::Some(f) => failed_only ==> contains_sub(r.index_message, f),
        Option::None => true,
    })
}

/// The id names a row of the store that the selection matches beyond the
/// last identifier seen.
pub open spec fn page_names_row(
    rows: Seq<RecordRowView>,
    sel: spec_fn(RecordRowView) -> bool,
    last: Option<Seq<char>>,
    idv: RecordIdView,
) -> bool {
    exists|k: int|
        0 <= k < rows.len() && sel(#[trigger] rows[k]) && after_last(rows[k].identifier, last)
            && idv.identifier == rows[k].identifier && idv.fingerprint == rows[k].fingerprint
}

/// The page holds the identifier.
pub open spec fn page_returns_id(out: Seq<RecordIdView>, id: Seq<char>) -> bool {
    exists|j: int| 0 <= j < out.len() && (#[trigger] out[j]).identifier == id
}

/// What every selection query returns: at most one batch of matching rows,
/// strictly identifier-ordered, strictly beyond the last identifier seen,
/// sound (each returned id names a matching row) and complete (every
/// matching row is returned or lies beyond a full batch).
pub open spec fn page_post(
    rows: Seq<RecordRowView>,
    sel: spec_fn(RecordRowView) -> bool,
    last: Option<Seq<char>>,
    out: Seq<RecordIdView>,
) -> bool {
    &&& out.len() <= BATCH_SIZE
    &&& (forall|j: int|
        0 <= j < out.len() ==> page_names_row(rows, sel, last, #[trigger] out[j]))
    &&& (forall|j1: int, j2: int|
        0 <= j1 < j2 < out.len() ==> lex_lt(
            (#[trigger] out[j1]).identifier,
            (#[trigger] out[j2]).identifier,
        ))
    &&& (forall|j: int| 0 <= j < out.len() ==> after_last((#[trigger] out[j]).identifier, last))
    &&& (forall|k: int|
        0 <= k < rows.len() && sel(#[trigger] rows[k]) && after_last(rows[k].identifier, last)
            ==> page_returns_id(out, rows[k].identifier) || (out.len() == BATCH_SIZE && lex_lt(
            out[BATCH_SIZE - 1].identifier,
            rows[k].identifier,
        )))
}

/// One selection query, described by its row filter.
pub enum RowFilter<'a> {
    ByStatus(OaiRecordStatus),
    Candidates {
        phase: RecordPhase,
        failed_only: bool,
        oai_repository: &'a str,
        max_attempts: Option<i32>,
        message_filter: Option<&'a str>,
    },
}

/// The selection predicate a row filter stands for.
pub open spec fn filter_sel(
    filt: RowFilter<'_>,
    endpoint: Seq<char>,
    metadata_prefix: Seq<char>,
    r: RecordRowView,
) -> bool {
    match filt {
        RowFilter::ByStatus(st) => status_sel(endpoint, metadata_prefix, st, r),
        RowFilter::Candidates { phase, failed_only, oai_repository, max_attempts, message_filter } => candidate_sel(
            endpoint,
            metadata_prefix,
            oai_repository@,
            phase,
            failed_only,
            match max_attempts {
                Option::Some(m) => Option::Some(m as int),
                Option::None => Option::None,
            },
            opt_view(message_filter),
            r,
        ),
    }
}

/// Decides the selection predicate on one row.
fn row_matches(
    row: &crate::record::OaiRecordRow,
    endpoint: &str,
    metadata_prefix: &str,
    filt: &RowFilter<'_>,
) -> (b: bool)
    ensures
        b == filter_sel(*filt, endpoint@, metadata_prefix@, row@),
{
    if !crate::text::str_eq(row.endpoint.as_str(), endpoint) {
        return false;
    }
    if !crate::text::str_eq(row.metadata_prefix.as_str(), metadata_prefix) {
        return false;
    }
    match filt {
        RowFilter::ByStatus(st) => row.status == *st,
        RowFilter::Candidates { phase, failed_only, oai_repository, max_attempts, message_filter } => {
            if !row.metadata.has_value("repository", oai_repository) {
                return false;
            }
            let phase_ok = match phase {
                RecordPhase::Index => row.status == OaiRecordStatus::Parsed && (if *failed_only {
                    row.index_status == OaiIndexStatus::IndexFailed
                } else {
                    row.index_status == OaiIndexStatus::Pending
                }),
                RecordPhase::Purge => row.status == OaiRecordStatus::Deleted && (if *failed_only {
                    row.index_status == OaiIndexStatus::PurgeFailed
                } else {
                    row.index_status == OaiIndexStatus::Pending
                }),
            };
            if !phase_ok {
                return false;
            }
            let attempts_ok = match max_attempts {
                Option::Some(m) => !*failed_only || row.index_attempts < *m,
                Option::None => true,
            };
            if !attempts_ok {
                return false;
            }
            match message_filter {
                Option::Some(f) => !*failed_only || crate::text::str_contains_sub(
                    row.index_message.as_str(),
                    f,
                ),
                Option::None => true,
            }
        },
    }
}

/// Two matching rows of one selection are identifier-ordered as their
/// store positions are.
pub proof fn lemma_same_partition_order(a: RecordRowView, b: RecordRowView)
    requires
        key_lt(a, b),
        a.endpoint == b.endpoint,
        a.metadata_prefix == b.metadata_prefix,
    ensures
        lex_lt(a.identifier, b.identifier),
{
    crate::text::lemma_lex_lt_irrefl(a.endpoint);
    crate::text::lemma_lex_lt_irrefl(a.metadata_prefix);
}

/// Runs one selection query: one batch of matching rows beyond
/// `last_identifier`, in identifier order.
pub(crate) fn fetch_page(
    store: &RecordStore,
    endpoint: &str,
    metadata_prefix: &str,
    filt: &RowFilter<'_>,
    last_identifier: Option<&str>,
) -> (out: Vec<OaiRecordId>)
    requires
        store.wf(),
    ensures
        page_post(
            store@,
            |r: RecordRowView| filter_sel(*filt, endpoint@, metadata_prefix@, r),
            opt_view(last_identifier),
            out@.map_values(|x: OaiRecordId| x@),
        ),
{
    let ghost lastv = opt_view(last_identifier);
    let n = store.rows.len();
    let mut out: Vec<OaiRecordId> = Vec::new();
    let mut i: usize = 0;
    let ghost mut srcs: Seq<int> = Seq::empty();
    while i < n && out.len() < BATCH_SIZE
        invariant
            0 <= i <= n,
            n == store@.len(),
            n == store.rows.len(),
            store.wf(),
            out@.len() <= BATCH_SIZE,
            lastv == opt_view(last_identifier),
            srcs.len() == out@.len(),
            forall|j: int| 0 <= j < srcs.len() ==> 0 <= #[trigger] srcs[j] < i,
            forall|j: int|
                0 <= j < srcs.len() ==> filter_sel(
                    *filt,
                    endpoint@,
                    metadata_prefix@,
                    store@[#[trigger] srcs[j]],
                ) && after_last(store@[srcs[j]].identifier, lastv),
            forall|j: int|
                0 <= j < srcs.len() ==> (#[trigger] out@[j])@.identifier
                    == store@[srcs[j]].identifier && out@[j]@.fingerprint
                    == store@[srcs[j]].fingerprint,
            forall|j1: int, j2: int|
                0 <= j1 < j2 < srcs.len() ==> #[trigger] srcs[j1] < #[trigger] srcs[j2],
            forall|k: int|
                0 <= k < i && filter_sel(*filt, endpoint@, metadata_prefix@, #[trigger] store@[k])
                    && after_last(store@[k].identifier, lastv) ==> exists|j: int|
                    0 <= j < srcs.len() && srcs[j] == k,
        decreases n - i,
    {
        proof {
            assert(store@[i as int] == store.rows[i as int]@);
        }
        let row = &store.rows[i];
        let matches_sel = row_matches(row, endpoint, metadata_prefix, filt);
        let beyond = match last_identifier {
            Option::None => true,
            Option::Some(l) => crate::text::str_lt(l, row.identifier.as_str()),
        };
        if matches_sel && beyond {
            let id = OaiRecordId {
                identifier: row.identifier.clone(),
                fingerprint: row.fingerprint.clone(),
            };
            out.push(id);
            proof {
                let srcs0 = srcs;
                srcs = srcs.push(i as int);
                assert forall|k: int|
                    0 <= k < i + 1 && filter_sel(
                        *filt,
                        endpoint@,
                        metadata_prefix@,
                        #[trigger] store@[k],
                    ) && after_last(store@[k].identifier, lastv) implies exists|j: int|
                    0 <= j < srcs.len() && srcs[j] == k by {
                    if k == i as int {
                        assert(srcs[srcs.len() - 1] == k);
                    } else {
                        let j0 = choose|j: int| 0 <= j < srcs0.len() && srcs0[j] == k;
                        assert(srcs[j0] == k);
                    }
                }
            }
        } else {
            proof {
                assert(!(filter_sel(*filt, endpoint@, metadata_prefix@, store@[i as int])
                    && after_last(store@[i as int].identifier, lastv)));
            }
        }
        i = i + 1;
    }
    proof {
        let outv = out@.map_values(|x: OaiRecordId| x@);
        let selc = |r: RecordRowView| filter_sel(*filt, endpoint@, metadata_prefix@, r);
        assert(forall|j: int| 0 <= j < outv.len() ==> #[trigger] outv[j] == out@[j]@);
        lemma_page_post_from_srcs(store@, selc, lastv, outv, srcs, i as int);
    }
    out
}

/// A scan that collected sources `srcs` in order, completely up to `i`,
/// returned a well-formed page.
proof fn lemma_page_post_from_srcs(
    rows: Seq<RecordRowView>,
    sel: spec_fn(RecordRowView) -> bool,
    lastv: Option<Seq<char>>,
    outv: Seq<RecordIdView>,
    srcs: Seq<int>,
    i: int,
)
    requires
        crate::store::store_wf_rows(rows),
        0 <= i <= rows.len(),
        outv.len() == srcs.len(),
        srcs.len() <= BATCH_SIZE,
        i < rows.len() ==> srcs.len() == BATCH_SIZE,
        forall|j: int| 0 <= j < srcs.len() ==> 0 <= #[trigger] srcs[j] < i,
        forall|j: int|
            0 <= j < srcs.len() ==> sel(rows[#[trigger] srcs[j]]) && after_last(
                rows[srcs[j]].identifier,
                lastv,
            ),
        forall|j: int|
            0 <= j < srcs.len() ==> (#[trigger] outv[j]).identifier == rows[srcs[j]].identifier
                && outv[j].fingerprint == rows[srcs[j]].fingerprint,
        forall|j1: int, j2: int|
            0 <= j1 < j2 < srcs.len() ==> #[trigger] srcs[j1] < #[trigger] srcs[j2],
        forall|k: int|
            0 <= k < i && sel(#[trigger] rows[k]) && after_last(rows[k].identifier, lastv)
                ==> exists|j: int| 0 <= j < srcs.len() && srcs[j] == k,
        forall|r1: RecordRowView, r2: RecordRowView|
            #[trigger] sel(r1) && #[trigger] sel(r2) ==> r1.endpoint == r2.endpoint
                && r1.metadata_prefix == r2.metadata_prefix,
    ensures
        page_post(rows, sel, lastv, outv),
{
    assert forall|j: int| 0 <= j < outv.len() implies page_names_row(
        rows,
        sel,
        lastv,
        #[trigger] outv[j],
    ) by {
        let k0 = srcs[j];
        assert(0 <= k0 < rows.len() && sel(rows[k0]) && after_last(rows[k0].identifier, lastv)
            && outv[j].identifier == rows[k0].identifier && outv[j].fingerprint
            == rows[k0].fingerprint);
    }
    assert forall|j1: int, j2: int| 0 <= j1 < j2 < outv.len() implies lex_lt(
        (#[trigger] outv[j1]).identifier,
        (#[trigger] outv[j2]).identifier,
    ) by {
        assert(key_lt(rows[srcs[j1]], rows[srcs[j2]]));
        assert(sel(rows[srcs[j1]]) && sel(rows[srcs[j2]]));
        lemma_same_partition_order(rows[srcs[j1]], rows[srcs[j2]]);
    }
    assert forall|j: int| 0 <= j < outv.len() implies after_last(
        (#[trigger] outv[j]).identifier,
        lastv,
    ) by {
        assert(after_last(rows[srcs[j]].identifier, lastv));
    }
    assert forall|k: int|
        0 <= k < rows.len() && sel(#[trigger] rows[k]) && after_last(
            rows[k].identifier,
            lastv,
        ) implies page_returns_id(outv, rows[k].identifier) || (outv.len() == BATCH_SIZE && lex_lt(
        outv[BATCH_SIZE - 1].identifier,
        rows[k].identifier,
    )) by {
        if k < i {
            let j0 = choose|j: int| 0 <= j < srcs.len() && srcs[j] == k;
            assert(0 <= j0 < outv.len() && outv[j0].identifier == rows[k].identifier);
            assert(page_returns_id(outv, rows[k].identifier));
        } else {
            assert(outv.len() == BATCH_SIZE);
            let t = srcs[BATCH_SIZE - 1];
            assert(t < i <= k);
            assert(key_lt(rows[t], rows[k]));
            assert(sel(rows[t]) && sel(rows[k]));
            lemma_same_partition_order(rows[t], rows[k]);
            assert(outv[BATCH_SIZE - 1].identifier == rows[t].identifier);
        }
    }
}


/// Selects one batch of records in the given harvest status, in
/// identifier order, strictly beyond `last_identifier`. A status token
/// that names no harvest state selects nothing.
pub fn fetch_records_by_status(store: &RecordStore, params: FetchRecordsParams<'_>) -> (out: Vec<
    OaiRecordId,
>)
    requires
        store.wf(),
    ensures
        match OaiRecordStatus::spec_from_token(params.status@) {
            Option::Some(st) => page_post(
                store@,
                |r: RecordRowView| status_sel(params.endpoint@, params.metadata_prefix@, st, r),
                opt_view(params.last_identifier),
                out@.map_values(|x: OaiRecordId| x@),
            ),
            Option::None => out@.len() == 0,
        },
{
    match OaiRecordStatus::from_token(params.status) {
        Option::None => Vec::new(),
        Option::Some(st) => {
            let filt = RowFilter::ByStatus(st);
            let out = fetch_page(
                store,
                params.endpoint,
                params.metadata_prefix,
                &filt,
                params.last_identifier,
            );
            proof {
                let s1 = |r: RecordRowView| filter_sel(
                    filt,
                    params.endpoint@,
                    params.metadata_prefix@,
                    r,
                );
                let s2 = |r: RecordRowView| status_sel(
                    params.endpoint@,
                    params.metadata_prefix@,
                    st,
                    r,
                );
                assert(s1 =~= s2);
            }
            out
        },
    }
}

/// Parameters of the index and purge candidate selections.
pub struct FetchIndexCandidatesParams<'a> {
    pub endpoint: &'a str,
    pub metadata_prefix: &'a str,
    pub oai_repository: &'a str,
    pub max_attempts: Option<i32>,
    pub message_filter: Option<&'a str>,
    pub last_identifier: Option<&'a str>,
}

/// View of an optional attempt bound.
pub open spec fn opt_int_of(o: Option<i32>) -> Option<int> {
    match o {
        Option::None => Option::None,
        Option::Some(v) => Option::Some(v as int),
    }
}

/// Selects one batch of parsed rows queued for indexing.
pub fn fetch_pending_records_for_indexing(
    store: &RecordStore,
    params: FetchIndexCandidatesParams<'_>,
) -> (out: Vec<OaiRecordId>)
    requires
        store.wf(),
    ensures
        page_post(
            store@,
            |r: RecordRowView| candidate_sel(
                params.endpoint@,
                params.metadata_prefix@,
                params.oai_repository@,
                RecordPhase::Index,
                false,
                opt_int_of(params.max_attempts),
                opt_view(params.message_filter),
                r,
            ),
            opt_view(params.last_identifier),
            out@.map_values(|x: OaiRecordId| x@),
        ),
{
    let filt = RowFilter::Candidates {
        phase: RecordPhase::Index,
        failed_only: false,
        oai_repository: params.oai_repository,
        max_attempts: params.max_attempts,
        message_filter: params.message_filter,
    };
    let out = fetch_page(store, params.endpoint, params.metadata_prefix, &filt, params.last_identifier);
    proof {
        let s1 = |r: RecordRowView| filter_sel(filt, params.endpoint@, params.metadata_prefix@, r);
        let s2 = |r: RecordRowView| candidate_sel(
            params.endpoint@,
            params.metadata_prefix@,
            params.oai_repository@,
            RecordPhase::Index,
            false,
            opt_int_of(params.max_attempts),
            opt_view(params.message_filter),
            r,
        );
        assert(s1 =~= s2);
    }
    out
}

/// Selects one batch of deleted rows queued for purging.
pub fn fetch_pending_records_for_purging(
    store: &RecordStore,
    params: FetchIndexCandidatesParams<'_>,
) -> (out: Vec<OaiRecordId>)
    requires
        store.wf(),
    ensures
        page_post(
            store@,
            |r: RecordRowView| candidate_sel(
                params.endpoint@,
                params.metadata_prefix@,
                params.oai_repository@,
                RecordPhase::Purge,
                false,
                opt_int_of(params.max_attempts),
                opt_view(params.message_filter),
                r,
            ),
            opt_view(params.last_identifier),
            out@.map_values(|x: OaiRecordId| x@),
        ),
{
    let filt = RowFilter::Candidates {
        phase: RecordPhase::Purge,
        failed_only: false,
        oai_repository: params.oai_repository,
        max_attempts: params.max_attempts,
        message_filter: params.message_filter,
    };
    let out = fetch_page(store, params.endpoint, params.metadata_prefix, &filt, params.last_identifier);
    proof {
        let s1 = |r: RecordRowView| filter_sel(filt, params.endpoint@, params.metadata_prefix@, r);
        let s2 = |r: RecordRowView| candidate_sel(
            params.endpoint@,
            params.metadata_prefix@,
            params.oai_repository@,
            RecordPhase::Purge,
            false,
            opt_int_of(params.max_attempts),
            opt_view(params.message_filter),
            r,
        );
        assert(s1 =~= s2);
    }
    out
}

/// Selects one batch of rows whose indexing failed, honouring the
/// optional attempt bound and message substring filter.
pub fn fetch_failed_records_for_indexing(
    store: &RecordStore,
    params: FetchIndexCandidatesParams<'_>,
) -> (out: Vec<OaiRecordId>)
    requires
        store.wf(),
    ensures
        page_post(
            store@,
            |r: RecordRowView| candidate_sel(
                params.endpoint@,
                params.metadata_prefix@,
                params.oai_repository@,
                RecordPhase::Index,
                true,
                opt_int_of(params.max_attempts),
                opt_view(params.message_filter),
                r,
            ),
            opt_view(params.last_identifier),
            out@.map_values(|x: OaiRecordId| x@),
        ),
{
    let filt = RowFilter::Candidates {
        phase: RecordPhase::Index,
        failed_only: true,
        oai_repository: params.oai_repository,
        max_attempts: params.max_attempts,
        message_filter: params.message_filter,
    };
    let out = fetch_page(store, params.endpoint, params.metadata_prefix, &filt, params.last_identifier);
    proof {
        let s1 = |r: RecordRowView| filter_sel(filt, params.endpoint@, params.metadata_prefix@, r);
        let s2 = |r: RecordRowView| candidate_sel(
            params.endpoint@,
            params.metadata_prefix@,
            params.oai_repository@,
            RecordPhase::Index,
            true,
            opt_int_of(params.max_attempts),
            opt_view(params.message_filter),
            r,
        );
        assert(s1 =~= s2);
    }
    out
}

/// Selects one batch of rows whose purge failed, honouring the
/// optional attempt bound and message substring filter.
pub fn fetch_failed_records_for_purging(
    store: &RecordStore,
    params: FetchIndexCandidatesParams<'_>,
) -> (out: Vec<OaiRecordId>)
    requires
        store.wf(),
    ensures
        page_post(
            store@,
            |r: RecordRowView| candidate_sel(
                params.endpoint@,
                params.metadata_prefix@,
                params.oai_repository@,
                RecordPhase::Purge,
                true,
                opt_int_of(params.max_attempts),
                opt_view(params.message_filter),
                r,
            ),
            opt_view(params.last_identifier),
            out@.map_values(|x: OaiRecordId| x@),
        ),
{
    let filt = RowFilter::Candidates {
        phase: RecordPhase::Purge,
        failed_only: true,
        oai_repository: params.oai_repository,
        max_attempts: params.max_attempts,
        message_filter: params.message_filter,
    };
    let out = fetch_page(store, params.endpoint, params.metadata_prefix, &filt, params.last_identifier);
    proof {
        let s1 = |r: RecordRowView| filter_sel(filt, params.endpoint@, params.metadata_prefix@, r);
        let s2 = |r: RecordRowView| candidate_sel(
            params.endpoint@,
            params.metadata_prefix@,
            params.oai_repository@,
            RecordPhase::Purge,
            true,
            opt_int_of(params.max_attempts),
            opt_view(params.message_filter),
            r,
        );
        assert(s1 =~= s2);
    }
    out
}

/// Retry runs select only failed candidates: every id a failed-only
/// selection returns names a row of the repository in the phase's failed
/// index state, within the attempt bound and matching the message filter
/// where one is given.
pub proof fn lemma_failed_selection_sound(
    rows: Seq<RecordRowView>,
    endpoint: Seq<char>,
    metadata_prefix: Seq<char>,
    oai_repository: Seq<char>,
    phase: RecordPhase,
    max_attempts: Option<int>,
    message_filter: Option<Seq<char>>,
    last: Option<Seq<char>>,
    out: Seq<RecordIdView>,
    j: int,
)
    requires
        page_post(
            rows,
            |r: RecordRowView| candidate_sel(
                endpoint,
                metadata_prefix,
                oai_repository,
                phase,
                true,
                max_attempts,
                message_filter,
                r,
            ),
            last,
            out,
        ),
        0 <= j < out.len(),
    ensures
        exists|k: int|
            0 <= k < rows.len() && (#[trigger] rows[k]).identifier == out[j].identifier
                && rows[k].endpoint == endpoint && rows[k].metadata_prefix == metadata_prefix
                && doc_has_value(rows[k].metadata, "repository"@, oai_repository) && (match phase {
                RecordPhase::Index => rows[k].status == OaiRecordStatus::Parsed
                    && rows[k].index_status == OaiIndexStatus::IndexFailed,
                RecordPhase::Purge => rows[k].status == OaiRecordStatus::Deleted
                    && rows[k].index_status == OaiIndexStatus::PurgeFailed,
            }) && (max_attempts is Some ==> rows[k].index_attempts < max_attempts->Some_0) && (
            message_filter is Some ==> contains_sub(
                rows[k].index_message,
                message_filter->Some_0,
            )),
{
    let sel = |r: RecordRowView| candidate_sel(
        endpoint,
        metadata_prefix,
        oai_repository,
        phase,
        true,
        max_attempts,
        message_filter,
        r,
    );
    assert(page_names_row(rows, sel, last, out[j]));
    let k0 = choose|k: int|
        0 <= k < rows.len() && sel(#[trigger] rows[k]) && after_last(rows[k].identifier, last)
            && out[j].identifier == rows[k].identifier && out[j].fingerprint
            == rows[k].fingerprint;
    assert(candidate_sel(
        endpoint,
        metadata_prefix,
        oai_repository,
        phase,
        true,
        max_attempts,
        message_filter,
        rows[k0],
    ));
}

} // verus!
