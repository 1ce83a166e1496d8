//! The statement catalogue of the record store: precondition-guarded
//! transitions of single rows and the bulk requeue and retry updates.
//!
//! Each guarded statement names its source state; a row whose state no
//! longer matches is skipped and the statement reports zero affected rows.
//! Transition atomicity: each statement either applies its documented
//! postcondition to exactly the matching row or leaves the store unchanged.

use vstd::prelude::*;
use vstd::string::StringExecFns;

use crate::oai::OaiRecordStatus;
use crate::record::download_failure_apply;
use crate::record::download_failure_pre;
use crate::record::download_success_apply;
use crate::record::download_success_pre;
use crate::record::index_failure_apply;
use crate::record::index_success_apply;
use crate::record::index_transition_pre;
use crate::record::metadata_failure_apply;
use crate::record::metadata_failure_pre;
use crate::record::metadata_success_apply;
use crate::record::metadata_success_pre;
use crate::record::purge_failure_apply;
use crate::record::purge_success_apply;
use crate::record::purge_transition_pre;
use crate::record::requeue_apply;
use crate::record::requeue_pre;
use crate::record::retry_apply;
use crate::record::retry_pre;
use crate::record::row_wf;
use crate::record::MetadataDoc;
use crate::record::RecordRowView;
use crate::store::lemma_match_idx;
use crate::store::lemma_replace_wf;
use crate::store::match_idx;
use crate::store::RecordStore;

verus! {

/// Parameters of the keyset-paginated selection by harvest status.
pub struct FetchRecordsParams<'a> {
    pub endpoint: &'a str,
    pub metadata_prefix: &'a str,
    pub status: &'a str,
    pub last_identifier: Option<&'a str>,
}

/// Parameters of the unguarded status update.
pub struct UpdateStatusParams<'a> {
    pub endpoint: &'a str,
    pub metadata_prefix: &'a str,
    pub identifier: &'a str,
    pub status: &'a str,
    pub message: &'a str,
}

/// Parameters naming one record for a success transition.
pub struct RecordTransitionParams<'a> {
    pub endpoint: &'a str,
    pub metadata_prefix: &'a str,
    pub identifier: &'a str,
}

/// Parameters naming one record for a failure transition.
pub struct RecordFailureParams<'a> {
    pub endpoint: &'a str,
    pub metadata_prefix: &'a str,
    pub identifier: &'a str,
    pub message: &'a str,
}

/// Parameters of the metadata-success transition, carrying the extracted
/// metadata.
pub struct RecordParsedParams<'a> {
    pub endpoint: &'a str,
    pub metadata_prefix: &'a str,
    pub identifier: &'a str,
    pub metadata: MetadataDoc,
}

/// Parameters naming one record for an index-lifecycle success transition.
pub struct UpdateIndexStatusParams<'a> {
    pub endpoint: &'a str,
    pub metadata_prefix: &'a str,
    pub identifier: &'a str,
}

/// Parameters naming one record for an index-lifecycle failure transition.
pub struct UpdateIndexFailureParams<'a> {
    pub endpoint: &'a str,
    pub metadata_prefix: &'a str,
    pub identifier: &'a str,
    pub message: &'a str,
}

/// Transition: `pending -> available`, message cleared.
pub fn do_mark_download_success_query(
    store: &mut RecordStore,
    params: RecordTransitionParams<'_>,
    now: u64,
) -> (rows_affected: u64)
    requires
        old(store).wf(),
    ensures
        final (store).wf(),
        ({
            let m = match_idx(
                old(store)@,
                params.endpoint@,
                params.metadata_prefix@,
                params.identifier@,
            );
            if m is Some && download_success_pre(old(store)@[m->Some_0]) {
                rows_affected == 1 && final (store)@ =~= old(store)@.update(
                    m->Some_0,
                    download_success_apply(old(store)@[m->Some_0], now as int),
                )
            } else {
                rows_affected == 0 && final (store)@ == old(store)@
            }
        }),
{
    let idx = store.find_index(params.endpoint, params.metadata_prefix, params.identifier);
    match idx {
        Option::None => 0,
        Option::Some(i) => {
            proof {
                assert(store@[i as int] == store.rows[i as int]@);
            }
            if store.rows[i].status == OaiRecordStatus::Pending {
                let ghost rows0 = store@;
                let mut row = store.rows.remove(i);
                row.status = OaiRecordStatus::Available;
                row.message = String::new();
                row.last_checked_at = now;
                let ghost nv = row@;
                store.rows.insert(i, row);
                proof {
                    assert(store@ =~= rows0.update(i as int, nv));
                    assert(nv =~= download_success_apply(rows0[i as int], now as int));
                    crate::record::lemma_transitions_preserve_wf(
                        rows0[i as int],
                        Seq::empty(),
                        Seq::empty(),
                        now as int,
                    );
                    lemma_replace_wf(rows0, store@, i as int, nv);
                }
                1
            } else {
                0
            }
        },
    }
}

/// Transition: `pending -> failed`, message recorded.
pub fn do_mark_download_failure_query(
    store: &mut RecordStore,
    params: RecordFailureParams<'_>,
    now: u64,
) -> (rows_affected: u64)
    requires
        old(store).wf(),
    ensures
        final (store).wf(),
        ({
            let m = match_idx(
                old(store)@,
                params.endpoint@,
                params.metadata_prefix@,
                params.identifier@,
            );
            if m is Some && download_failure_pre(old(store)@[m->Some_0]) {
                rows_affected == 1 && final (store)@ =~= old(store)@.update(
                    m->Some_0,
                    download_failure_apply(old(store)@[m->Some_0], params.message@, now as int),
                )
            } else {
                rows_affected == 0 && final (store)@ == old(store)@
            }
        }),
{
    let idx = store.find_index(params.endpoint, params.metadata_prefix, params.identifier);
    match idx {
        Option::None => 0,
        Option::Some(i) => {
            proof {
                assert(store@[i as int] == store.rows[i as int]@);
            }
            if store.rows[i].status == OaiRecordStatus::Pending {
                let ghost rows0 = store@;
                let mut row = store.rows.remove(i);
                row.status = OaiRecordStatus::Failed;
                row.message = String::from_str(params.message);
                row.last_checked_at = now;
                let ghost nv = row@;
                store.rows.insert(i, row);
                proof {
                    assert(store@ =~= rows0.update(i as int, nv));
                    assert(nv =~= download_failure_apply(
                        rows0[i as int],
                        params.message@,
                        now as int,
                    ));
                    crate::record::lemma_transitions_preserve_wf(
                        rows0[i as int],
                        params.message@,
                        Seq::empty(),
                        now as int,
                    );
                    lemma_replace_wf(rows0, store@, i as int, nv);
                }
                1
            } else {
                0
            }
        },
    }
}

/// Transition: `available -> parsed`. The extracted metadata is stored and
/// the index lifecycle is reset to pending, atomically with the harvest
/// transition.
pub fn do_mark_metadata_success_query(
    store: &mut RecordStore,
    params: RecordParsedParams<'_>,
    now: u64,
) -> (rows_affected: u64)
    requires
        old(store).wf(),
    ensures
        final (store).wf(),
        ({
            let m = match_idx(
                old(store)@,
                params.endpoint@,
                params.metadata_prefix@,
                params.identifier@,
            );
            if m is Some && metadata_success_pre(old(store)@[m->Some_0]) {
                rows_affected == 1 && final (store)@ =~= old(store)@.update(
                    m->Some_0,
                    metadata_success_apply(old(store)@[m->Some_0], params.metadata@, now as int),
                )
            } else {
                rows_affected == 0 && final (store)@ == old(store)@
            }
        }),
{
    let idx = store.find_index(params.endpoint, params.metadata_prefix, params.identifier);
    match idx {
        Option::None => 0,
        Option::Some(i) => {
            proof {
                assert(store@[i as int] == store.rows[i as int]@);
            }
            if store.rows[i].status == OaiRecordStatus::Available {
                let ghost rows0 = store@;
                let ghost doc = params.metadata@;
                let mut row = store.rows.remove(i);
                row.status = OaiRecordStatus::Parsed;
                row.message = String::new();
                row.metadata = params.metadata;
                row.index_status = crate::oai::OaiIndexStatus::Pending;
                row.index_message = String::new();
                row.index_attempts = 0;
                row.index_last_checked_at = Option::None;
                row.indexed_at = Option::None;
                row.purged_at = Option::None;
                row.last_checked_at = now;
                let ghost nv = row@;
                store.rows.insert(i, row);
                proof {
                    assert(store@ =~= rows0.update(i as int, nv));
                    assert(nv =~= metadata_success_apply(rows0[i as int], doc, now as int));
                    crate::record::lemma_transitions_preserve_wf(
                        rows0[i as int],
                        Seq::empty(),
                        doc,
                        now as int,
                    );
                    lemma_replace_wf(rows0, store@, i as int, nv);
                }
                1
            } else {
                0
            }
        },
    }
}

/// Transition: `available -> failed`, message recorded.
pub fn do_mark_metadata_failure_query(
    store: &mut RecordStore,
    params: RecordFailureParams<'_>,
    now: u64,
) -> (rows_affected: u64)
    requires
        old(store).wf(),
    ensures
        final (store).wf(),
        ({
            let m = match_idx(
                old(store)@,
                params.endpoint@,
                params.metadata_prefix@,
                params.identifier@,
            );
            if m is Some && metadata_failure_pre(old(store)@[m->Some_0]) {
                rows_affected == 1 && final (store)@ =~= old(store)@.update(
                    m->Some_0,
                    metadata_failure_apply(old(store)@[m->Some_0], params.message@, now as int),
                )
            } else {
                rows_affected == 0 && final (store)@ == old(store)@
            }
        }),
{
    let idx = store.find_index(params.endpoint, params.metadata_prefix, params.identifier);
    match idx {
        Option::None => 0,
        Option::Some(i) => {
            proof {
                assert(store@[i as int] == store.rows[i as int]@);
            }
            if store.rows[i].status == OaiRecordStatus::Available {
                let ghost rows0 = store@;
                let mut row = store.rows.remove(i);
                row.status = OaiRecordStatus::Failed;
                row.message = String::from_str(params.message);
                row.last_checked_at = now;
                let ghost nv = row@;
                store.rows.insert(i, row);
                proof {
                    assert(store@ =~= rows0.update(i as int, nv));
                    assert(nv =~= metadata_failure_apply(
                        rows0[i as int],
                        params.message@,
                        now as int,
                    ));
                    crate::record::lemma_transitions_preserve_wf(
                        rows0[i as int],
                        params.message@,
                        Seq::empty(),
                        now as int,
                    );
                    lemma_replace_wf(rows0, store@, i as int, nv);
                }
                1
            } else {
                0
            }
        },
    }
}

/// Transition: `(parsed, pending | index_failed) -> indexed`, counters
/// cleared, indexing timestamp recorded.
pub fn do_mark_index_success_query(
    store: &mut RecordStore,
    params: UpdateIndexStatusParams<'_>,
    now: u64,
) -> (rows_affected: u64)
    requires
        old(store).wf(),
    ensures
        final (store).wf(),
        ({
            let m = match_idx(
                old(store)@,
                params.endpoint@,
                params.metadata_prefix@,
                params.identifier@,
            );
            if m is Some && index_transition_pre(old(store)@[m->Some_0]) {
                rows_affected == 1 && final (store)@ =~= old(store)@.update(
                    m->Some_0,
                    index_success_apply(old(store)@[m->Some_0], now as int),
                )
            } else {
                rows_affected == 0 && final (store)@ == old(store)@
            }
        }),
{
    let idx = store.find_index(params.endpoint, params.metadata_prefix, params.identifier);
    match idx {
        Option::None => 0,
        Option::Some(i) => {
            proof {
                assert(store@[i as int] == store.rows[i as int]@);
            }
            let ok = store.rows[i].status == OaiRecordStatus::Parsed && (store.rows[i].index_status
                == crate::oai::OaiIndexStatus::Pending || store.rows[i].index_status
                == crate::oai::OaiIndexStatus::IndexFailed);
            if ok {
                let ghost rows0 = store@;
                let mut row = store.rows.remove(i);
                row.index_status = crate::oai::OaiIndexStatus::Indexed;
                row.index_message = String::new();
                row.index_attempts = 0;
                row.indexed_at = Option::Some(now);
                row.index_last_checked_at = Option::Some(now);
                let ghost nv = row@;
                store.rows.insert(i, row);
                proof {
                    assert(store@ =~= rows0.update(i as int, nv));
                    assert(nv =~= index_success_apply(rows0[i as int], now as int));
                    crate::record::lemma_transitions_preserve_wf(
                        rows0[i as int],
                        Seq::empty(),
                        Seq::empty(),
                        now as int,
                    );
                    lemma_replace_wf(rows0, store@, i as int, nv);
                }
                1
            } else {
                0
            }
        },
    }
}

/// Transition: `(parsed, pending | index_failed) -> index_failed`, message
/// recorded, attempt counter raised.
pub fn do_mark_index_failure_query(
    store: &mut RecordStore,
    params: UpdateIndexFailureParams<'_>,
    now: u64,
) -> (rows_affected: u64)
    requires
        old(store).wf(),
    ensures
        final (store).wf(),
        ({
            let m = match_idx(
                old(store)@,
                params.endpoint@,
                params.metadata_prefix@,
                params.identifier@,
            );
            if m is Some && index_transition_pre(old(store)@[m->Some_0]) {
                rows_affected == 1 && final (store)@ =~= old(store)@.update(
                    m->Some_0,
                    index_failure_apply(old(store)@[m->Some_0], params.message@, now as int),
                )
            } else {
                rows_affected == 0 && final (store)@ == old(store)@
            }
        }),
{
    let idx = store.find_index(params.endpoint, params.metadata_prefix, params.identifier);
    match idx {
        Option::None => 0,
        Option::Some(i) => {
            proof {
                assert(store@[i as int] == store.rows[i as int]@);
            }
            let ok = store.rows[i].status == OaiRecordStatus::Parsed && (store.rows[i].index_status
                == crate::oai::OaiIndexStatus::Pending || store.rows[i].index_status
                == crate::oai::OaiIndexStatus::IndexFailed);
            if ok {
                let ghost rows0 = store@;
                let mut row = store.rows.remove(i);
                row.index_status = crate::oai::OaiIndexStatus::IndexFailed;
                row.index_message = String::from_str(params.message);
                if row.index_attempts < i32::MAX {
                    row.index_attempts = row.index_attempts + 1;
                }
                row.index_last_checked_at = Option::Some(now);
                let ghost nv = row@;
                store.rows.insert(i, row);
                proof {
                    assert(store@ =~= rows0.update(i as int, nv));
                    assert(nv =~= index_failure_apply(
                        rows0[i as int],
                        params.message@,
                        now as int,
                    ));
                    crate::record::lemma_transitions_preserve_wf(
                        rows0[i as int],
                        params.message@,
                        Seq::empty(),
                        now as int,
                    );
                    lemma_replace_wf(rows0, store@, i as int, nv);
                }
                1
            } else {
                0
            }
        },
    }
}

/// Transition: `(deleted, pending | purge_failed) -> purged`, counters
/// cleared, purge timestamp recorded.
pub fn do_mark_purge_success_query(
    store: &mut RecordStore,
    params: UpdateIndexStatusParams<'_>,
    now: u64,
) -> (rows_affected: u64)
    requires
        old(store).wf(),
    ensures
        final (store).wf(),
        ({
            let m = match_idx(
                old(store)@,
                params.endpoint@,
                params.metadata_prefix@,
                params.identifier@,
            );
            if m is Some && purge_transition_pre(old(store)@[m->Some_0]) {
                rows_affected == 1 && final (store)@ =~= old(store)@.update(
                    m->Some_0,
                    purge_success_apply(old(store)@[m->Some_0], now as int),
                )
            } else {
                rows_affected == 0 && final (store)@ == old(store)@
            }
        }),
{
    let idx = store.find_index(params.endpoint, params.metadata_prefix, params.identifier);
    match idx {
        Option::None => 0,
        Option::Some(i) => {
            proof {
                assert(store@[i as int] == store.rows[i as int]@);
            }
            let ok = store.rows[i].status == OaiRecordStatus::Deleted && (store.rows[i].index_status
                == crate::oai::OaiIndexStatus::Pending || store.rows[i].index_status
                == crate::oai::OaiIndexStatus::PurgeFailed);
            if ok {
                let ghost rows0 = store@;
                let mut row = store.rows.remove(i);
                row.index_status = crate::oai::OaiIndexStatus::Purged;
                row.index_message = String::new();
                row.index_attempts = 0;
                row.purged_at = Option::Some(now);
                row.index_last_checked_at = Option::Some(now);
                let ghost nv = row@;
                store.rows.insert(i, row);
                proof {
                    assert(store@ =~= rows0.update(i as int, nv));
                    assert(nv =~= purge_success_apply(rows0[i as int], now as int));
                    crate::record::lemma_transitions_preserve_wf(
                        rows0[i as int],
                        Seq::empty(),
                        Seq::empty(),
                        now as int,
                    );
                    lemma_replace_wf(rows0, store@, i as int, nv);
                }
                1
            } else {
                0
            }
        },
    }
}

/// Transition: `(deleted, pending | purge_failed) -> purge_failed`,
/// message recorded, attempt counter raised.
pub fn do_mark_purge_failure_query(
    store: &mut RecordStore,
    params: UpdateIndexFailureParams<'_>,
    now: u64,
) -> (rows_affected: u64)
    requires
        old(store).wf(),
    ensures
        final (store).wf(),
        ({
            let m = match_idx(
                old(store)@,
                params.endpoint@,
                params.metadata_prefix@,
                params.identifier@,
            );
            if m is Some && purge_transition_pre(old(store)@[m->Some_0]) {
                rows_affected == 1 && final (store)@ =~= old(store)@.update(
                    m->Some_0,
                    purge_failure_apply(old(store)@[m->Some_0], params.message@, now as int),
                )
            } else {
                rows_affected == 0 && final (store)@ == old(store)@
            }
        }),
{
    let idx = store.find_index(params.endpoint, params.metadata_prefix, params.identifier);
    match idx {
        Option::None => 0,
        Option::Some(i) => {
            proof {
                assert(store@[i as int] == store.rows[i as int]@);
            }
            let ok = store.rows[i].status == OaiRecordStatus::Deleted && (store.rows[i].index_status
                == crate::oai::OaiIndexStatus::Pending || store.rows[i].index_status
                == crate::oai::OaiIndexStatus::PurgeFailed);
            if ok {
                let ghost rows0 = store@;
                let mut row = store.rows.remove(i);
                row.index_status = crate::oai::OaiIndexStatus::PurgeFailed;
                row.index_message = String::from_str(params.message);
                if row.index_attempts < i32::MAX {
                    row.index_attempts = row.index_attempts + 1;
                }
                row.index_last_checked_at = Option::Some(now);
                let ghost nv = row@;
                store.rows.insert(i, row);
                proof {
                    assert(store@ =~= rows0.update(i as int, nv));
                    assert(nv =~= purge_failure_apply(
                        rows0[i as int],
                        params.message@,
                        now as int,
                    ));
                    crate::record::lemma_transitions_preserve_wf(
                        rows0[i as int],
                        params.message@,
                        Seq::empty(),
                        now as int,
                    );
                    lemma_replace_wf(rows0, store@, i as int, nv);
                }
                1
            } else {
                0
            }
        },
    }
}

/// Unguarded update: sets the harvest status token and message of the
/// identified row. A token that names no harvest state affects no row.
pub fn do_update_status_query(
    store: &mut RecordStore,
    params: UpdateStatusParams<'_>,
    now: u64,
) -> (rows_affected: u64)
    requires
        old(store).wf(),
    ensures
        final (store).wf(),
        ({
            let m = match_idx(
                old(store)@,
                params.endpoint@,
                params.metadata_prefix@,
                params.identifier@,
            );
            let st = OaiRecordStatus::spec_from_token(params.status@);
            if m is Some && st is Some {
                rows_affected == 1 && final (store)@ =~= old(store)@.update(
                    m->Some_0,
                    RecordRowView {
                        status: st->Some_0,
                        message: params.message@,
                        last_checked_at: now as int,
                        ..old(store)@[m->Some_0]
                    },
                )
            } else {
                rows_affected == 0 && final (store)@ == old(store)@
            }
        }),
{
    let st = match OaiRecordStatus::from_token(params.status) {
        Option::Some(st) => st,
        Option::None => {
            return 0;
        },
    };
    let idx = store.find_index(params.endpoint, params.metadata_prefix, params.identifier);
    match idx {
        Option::None => 0,
        Option::Some(i) => {
            let ghost rows0 = store@;
            proof {
                assert(store@[i as int] == store.rows[i as int]@);
            }
            let mut row = store.rows.remove(i);
            row.status = st;
            row.message = String::from_str(params.message);
            row.last_checked_at = now;
            let ghost nv = row@;
            store.rows.insert(i, row);
            proof {
                assert(store@ =~= rows0.update(i as int, nv));
                lemma_replace_wf(rows0, store@, i as int, nv);
            }
            1
        },
    }
}

/// The store after the bulk reindex requeue: every parsed or deleted row
/// of the repository returns to a pending index lifecycle.
pub open spec fn requeue_all(rows: Seq<RecordRowView>, oai_repository: Seq<char>) -> Seq<
    RecordRowView,
> {
    Seq::new(
        rows.len(),
        |i: int|
            if requeue_pre(rows[i], oai_repository) {
                requeue_apply(rows[i])
            } else {
                rows[i]
            },
    )
}

/// Bulk requeue (reindex): resets the index lifecycle of every parsed or
/// deleted row of the repository back to pending.
pub fn do_requeue_index_query(
    store: &mut RecordStore,
    endpoint: &str,
    metadata_prefix: &str,
    oai_repository: &str,
) -> (rows_affected: u64)
    requires
        old(store).wf(),
    ensures
        final (store).wf(),
        final (store)@ =~= requeue_all_scoped(
            old(store)@,
            endpoint@,
            metadata_prefix@,
            oai_repository@,
        ),
{
    bulk_requeue(store, endpoint, metadata_prefix, oai_repository)
}

/// The store after the scoped bulk requeue.
pub open spec fn requeue_all_scoped(
    rows: Seq<RecordRowView>,
    endpoint: Seq<char>,
    metadata_prefix: Seq<char>,
    oai_repository: Seq<char>,
) -> Seq<RecordRowView> {
    Seq::new(
        rows.len(),
        |i: int|
            if rows[i].endpoint == endpoint && rows[i].metadata_prefix == metadata_prefix
                && requeue_pre(rows[i], oai_repository) {
                requeue_apply(rows[i])
            } else {
                rows[i]
            },
    )
}

fn bulk_requeue(
    store: &mut RecordStore,
    endpoint: &str,
    metadata_prefix: &str,
    oai_repository: &str,
) -> (rows_affected: u64)
    requires
        old(store).wf(),
    ensures
        final (store).wf(),
        final (store)@ =~= requeue_all_scoped(
            old(store)@,
            endpoint@,
            metadata_prefix@,
            oai_repository@,
        ),
{
    let ghost rows0 = store@;
    let n = store.rows.len();
    let mut affected: u64 = 0;
    let mut i: usize = 0;
    while i < n
        invariant
            0 <= i <= n,
            store.rows.len() == n,
            rows0.len() == n,
            store.wf(),
            affected <= i,
            forall|k: int|
                i <= k < n ==> #[trigger] store@[k] == rows0[k],
            forall|k: int|
                0 <= k < i ==> #[trigger] store@[k] == requeue_all_scoped(
                    rows0,
                    endpoint@,
                    metadata_prefix@,
                    oai_repository@,
                )[k],
        decreases n - i,
    {
        proof {
            assert(store@[i as int] == store.rows[i as int]@);
        }
        let is_target = (store.rows[i].status == OaiRecordStatus::Parsed || store.rows[i].status
            == OaiRecordStatus::Deleted) && crate::text::str_eq(
            store.rows[i].endpoint.as_str(),
            endpoint,
        ) && crate::text::str_eq(store.rows[i].metadata_prefix.as_str(), metadata_prefix)
            && store.rows[i].metadata.has_value("repository", oai_repository);
        if is_target {
            let ghost rows_before = store@;
            let mut row = store.rows.remove(i);
            row.index_status = crate::oai::OaiIndexStatus::Pending;
            row.index_message = String::new();
            row.index_attempts = 0;
            row.indexed_at = Option::None;
            row.purged_at = Option::None;
            row.index_last_checked_at = Option::None;
            let ghost nv = row@;
            store.rows.insert(i, row);
            proof {
                assert(store@ =~= rows_before.update(i as int, nv));
                assert(nv =~= requeue_apply(rows_before[i as int]));
                crate::record::lemma_transitions_preserve_wf(
                    rows_before[i as int],
                    Seq::empty(),
                    Seq::empty(),
                    0,
                );
                lemma_replace_wf(rows_before, store@, i as int, nv);
            }
            affected = affected + 1;
        }
        i = i + 1;
    }
    affected
}

/// The store after the bulk harvest retry: every failed row of the
/// endpoint and prefix returns to pending with its message cleared.
pub open spec fn retry_all_scoped(
    rows: Seq<RecordRowView>,
    endpoint: Seq<char>,
    metadata_prefix: Seq<char>,
    now: int,
) -> Seq<RecordRowView> {
    Seq::new(
        rows.len(),
        |i: int|
            if rows[i].endpoint == endpoint && rows[i].metadata_prefix == metadata_prefix
                && retry_pre(rows[i]) {
                retry_apply(rows[i], now)
            } else {
                rows[i]
            },
    )
}

/// Bulk retry-harvest: every failed row of the endpoint and prefix goes
/// back to pending, so the next download sweep picks it up again.
pub fn do_retry_failed_query(
    store: &mut RecordStore,
    endpoint: &str,
    metadata_prefix: &str,
    now: u64,
) -> (rows_affected: u64)
    requires
        old(store).wf(),
    ensures
        final (store).wf(),
        final (store)@ =~= retry_all_scoped(old(store)@, endpoint@, metadata_prefix@, now as int),
{
    let ghost rows0 = store@;
    let n = store.rows.len();
    let mut affected: u64 = 0;
    let mut i: usize = 0;
    while i < n
        invariant
            0 <= i <= n,
            store.rows.len() == n,
            rows0.len() == n,
            store.wf(),
            affected <= i,
            forall|k: int|
                i <= k < n ==> #[trigger] store@[k] == rows0[k],
            forall|k: int|
                0 <= k < i ==> #[trigger] store@[k] == retry_all_scoped(
                    rows0,
                    endpoint@,
                    metadata_prefix@,
                    now as int,
                )[k],
        decreases n - i,
    {
        proof {
            assert(store@[i as int] == store.rows[i as int]@);
        }
        let is_target = store.rows[i].status == OaiRecordStatus::Failed && crate::text::str_eq(
            store.rows[i].endpoint.as_str(),
            endpoint,
        ) && crate::text::str_eq(store.rows[i].metadata_prefix.as_str(), metadata_prefix);
        if is_target {
            let ghost rows_before = store@;
            let mut row = store.rows.remove(i);
            row.status = OaiRecordStatus::Pending;
            row.message = String::new();
            row.last_checked_at = now;
            let ghost nv = row@;
            store.rows.insert(i, row);
            proof {
                assert(store@ =~= rows_before.update(i as int, nv));
                assert(nv =~= retry_apply(rows_before[i as int], now as int));
                crate::record::lemma_transitions_preserve_wf(
                    rows_before[i as int],
                    Seq::empty(),
                    Seq::empty(),
                    now as int,
                );
                lemma_replace_wf(rows_before, store@, i as int, nv);
            }
            affected = affected + 1;
        }
        i = i + 1;
    }
    affected
}

} // verus!
