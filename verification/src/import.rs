//! The import phase: batch upsert of OAI headers into the record store.
//!
//! A header for an unknown identity inserts a fresh pending (or deleted)
//! row with its fingerprint computed from the identity. A header for a
//! known identity updates the row only when its datestamp changed and the
//! row is not failed (failed rows are sticky against re-import); a row
//! that turns deleted also has its index lifecycle requeued, atomically.

use vstd::prelude::*;
use vstd::string::StringExecFns;

use crate::oai::fingerprint_of;
use crate::oai::OaiHeaderView;
use crate::oai::OaiIndexStatus;
use crate::oai::OaiRecordImport;
use crate::oai::OaiRecordStatus;
use crate::record::requeue_apply;
use crate::record::row_wf;
use crate::record::MetadataDoc;
use crate::record::MetadataFieldView;
use crate::record::OaiRecordRow;
use crate::record::RecordRowView;
use crate::store::insert_pos;
use crate::store::match_idx;
use crate::store::RecordStore;

verus! {

/// The fresh row an unknown header inserts.
pub open spec fn new_row_of(
    endpoint: Seq<char>,
    metadata_prefix: Seq<char>,
    h: OaiHeaderView,
    now: int,
) -> RecordRowView {
    RecordRowView {
        endpoint,
        metadata_prefix,
        identifier: h.identifier,
        datestamp: h.datestamp,
        fingerprint: fingerprint_of(endpoint, metadata_prefix, h.identifier),
        status: OaiRecordImport::spec_target_status(h.status),
        message: Seq::empty(),
        metadata: Seq::<MetadataFieldView>::empty(),
        index_status: OaiIndexStatus::Pending,
        index_message: Seq::empty(),
        index_attempts: 0,
        last_checked_at: now,
        index_last_checked_at: Option::None,
        indexed_at: Option::None,
        purged_at: Option::None,
        version: 1,
    }
}

/// The header changes the row: it is not failed and the datestamp differs.
pub open spec fn import_changes(r: RecordRowView, h: OaiHeaderView) -> bool {
    r.status != OaiRecordStatus::Failed && r.datestamp != h.datestamp
}

/// The row a changed header updates an existing row to: new datestamp and
/// status, message cleared, version raised; a row that turns deleted also
/// has its whole index lifecycle requeued.
pub open spec fn import_update(r: RecordRowView, h: OaiHeaderView, now: int) -> RecordRowView {
    let tgt = OaiRecordImport::spec_target_status(h.status);
    let base = RecordRowView {
        datestamp: h.datestamp,
        status: tgt,
        message: Seq::empty(),
        version: if r.version < 0xffff_ffff_ffff_ffff { r.version + 1 } else { r.version },
        last_checked_at: now,
        ..r
    };
    if tgt == OaiRecordStatus::Deleted {
        requeue_apply(base)
    } else {
        base
    }
}

/// The header affects the store: it is new, or it changes its row.
pub open spec fn import_affects(
    rows: Seq<RecordRowView>,
    endpoint: Seq<char>,
    metadata_prefix: Seq<char>,
    h: OaiHeaderView,
) -> bool {
    match match_idx(rows, endpoint, metadata_prefix, h.identifier) {
        Option::Some(i) => import_changes(rows[i], h),
        Option::None => true,
    }
}

/// The store after one header is upserted.
pub open spec fn import_one(
    rows: Seq<RecordRowView>,
    endpoint: Seq<char>,
    metadata_prefix: Seq<char>,
    h: OaiHeaderView,
    now: int,
) -> Seq<RecordRowView> {
    match match_idx(rows, endpoint, metadata_prefix, h.identifier) {
        Option::Some(i) => if import_changes(rows[i], h) {
            rows.update(i, import_update(rows[i], h, now))
        } else {
            rows
        },
        Option::None => {
            let nr = new_row_of(endpoint, metadata_prefix, h, now);
            rows.insert(insert_pos(rows, nr), nr)
        },
    }
}

/// The store after a whole batch of headers is upserted, in order.
pub open spec fn import_fold(
    rows: Seq<RecordRowView>,
    endpoint: Seq<char>,
    metadata_prefix: Seq<char>,
    hs: Seq<OaiHeaderView>,
    now: int,
) -> Seq<RecordRowView>
    decreases hs.len(),
{
    if hs.len() == 0 {
        rows
    } else {
        import_fold(
            import_one(rows, endpoint, metadata_prefix, hs[0], now),
            endpoint,
            metadata_prefix,
            hs.skip(1),
            now,
        )
    }
}

/// How many headers of the batch affect an active row, and how many a
/// deleted row.
pub open spec fn import_tally(
    rows: Seq<RecordRowView>,
    endpoint: Seq<char>,
    metadata_prefix: Seq<char>,
    hs: Seq<OaiHeaderView>,
    now: int,
) -> (int, int)
    decreases hs.len(),
{
    if hs.len() == 0 {
        (0, 0)
    } else {
        let (a, d) = import_tally(
            import_one(rows, endpoint, metadata_prefix, hs[0], now),
            endpoint,
            metadata_prefix,
            hs.skip(1),
            now,
        );
        if import_affects(rows, endpoint, metadata_prefix, hs[0]) {
            if OaiRecordImport::spec_target_status(hs[0].status) == OaiRecordStatus::Deleted {
                (a, d + 1)
            } else {
                (a + 1, d)
            }
        } else {
            (a, d)
        }
    }
}

/// What an import reports: headers processed, and how many of them
/// affected an active row or a deleted row.
#[derive(Debug, Clone, Copy, PartialEq, Eq, Structural)]
pub struct ImportCounts {
    pub processed: u64,
    pub imported: u64,
    pub deleted: u64,
}

/// Applies one batch of headers to the store, as a single multi-row
/// upsert would: every header is applied in order, failed rows are left
/// untouched, and the tally of affected active and deleted rows is
/// reported.
pub fn batch_upsert_records(
    store: &mut RecordStore,
    endpoint: &str,
    metadata_prefix: &str,
    records: &Vec<OaiRecordImport>,
    now: u64,
) -> (counts: ImportCounts)
    requires
        old(store).wf(),
    ensures
        final (store).wf(),
        final (store)@ =~= import_fold(
            old(store)@,
            endpoint@,
            metadata_prefix@,
            records.deep_view(),
            now as int,
        ),
        counts.processed == records@.len(),
        counts.imported + counts.deleted <= counts.processed,
        ({
            let (a, d) = import_tally(
                old(store)@,
                endpoint@,
                metadata_prefix@,
                records.deep_view(),
                now as int,
            );
            counts.imported == a && counts.deleted == d
        }),
{
    let ghost rows0 = store@;
    let ghost hdrs = records.deep_view();
    let n = records.len();
    let mut imported: u64 = 0;
    let mut deleted: u64 = 0;
    let mut j: usize = 0;
    proof {
        assert(hdrs.len() == n);
        assert(hdrs.skip(0) =~= hdrs);
    }
    while j < n
        invariant
            0 <= j <= n,
            n == records@.len(),
            hdrs == records.deep_view(),
            hdrs.len() == n,
            store.wf(),
            imported + deleted <= j,
            import_fold(store@, endpoint@, metadata_prefix@, hdrs.skip(j as int), now as int)
                == import_fold(rows0, endpoint@, metadata_prefix@, hdrs, now as int),
            ({
                let (a, d) = import_tally(
                    store@,
                    endpoint@,
                    metadata_prefix@,
                    hdrs.skip(j as int),
                    now as int,
                );
                let (a0, d0) = import_tally(rows0, endpoint@, metadata_prefix@, hdrs, now as int);
                a0 == imported + a && d0 == deleted + d
            }),
        decreases n - j,
    {
        let header = &records[j];
        proof {
            assert(records.deep_view()[j as int] == records[j as int]@);
            assert(hdrs.skip(j as int)[0] == hdrs[j as int]);
            assert(hdrs.skip(j as int).skip(1) =~= hdrs.skip(j as int + 1));
        }
        let target = header.target_status();
        let ghost rows_before = store@;
        let mut affected = false;
        let found = store.find_index(endpoint, metadata_prefix, header.identifier.as_str());
        match found {
            Option::Some(i) => {
                proof {
                    assert(store@[i as int] == store.rows[i as int]@);
                }
                let changes = !(store.rows[i].status == OaiRecordStatus::Failed)
                    && !crate::text::str_eq(
                    store.rows[i].datestamp.as_str(),
                    header.datestamp.as_str(),
                );
                if changes {
                    let row = &store.rows[i];
                    let mut updated = OaiRecordRow {
                        endpoint: row.endpoint.clone(),
                        metadata_prefix: row.metadata_prefix.clone(),
                        identifier: row.identifier.clone(),
                        datestamp: header.datestamp.clone(),
                        fingerprint: row.fingerprint.clone(),
                        status: target,
                        message: String::new(),
                        metadata: row.metadata.duplicate(),
                        index_status: row.index_status,
                        index_message: row.index_message.clone(),
                        index_attempts: row.index_attempts,
                        last_checked_at: now,
                        index_last_checked_at: row.index_last_checked_at,
                        indexed_at: row.indexed_at,
                        purged_at: row.purged_at,
                        version: if row.version < u64::MAX {
                            row.version + 1
                        } else {
                            row.version
                        },
                    };
                    if target == OaiRecordStatus::Deleted {
                        updated.index_status = OaiIndexStatus::Pending;
                        updated.index_message = String::new();
                        updated.index_attempts = 0;
                        updated.indexed_at = Option::None;
                        updated.purged_at = Option::None;
                        updated.index_last_checked_at = Option::None;
                    }
                    proof {
                        crate::store::lemma_match_idx(
                            rows_before,
                            endpoint@,
                            metadata_prefix@,
                            header@.identifier,
                        );
                        assert(rows_before[i as int].endpoint == endpoint@);
                        assert(rows_before[i as int].metadata_prefix == metadata_prefix@);
                        assert(rows_before[i as int].identifier == header@.identifier);
                        assert(updated@ =~= import_update(
                            rows_before[i as int],
                            header@,
                            now as int,
                        ));
                        assert(row_wf(updated@));
                    }
                    store.upsert_row(updated);
                    proof {
                        assert(store@ =~= import_one(
                            rows_before,
                            endpoint@,
                            metadata_prefix@,
                            hdrs[j as int],
                            now as int,
                        ));
                    }
                    affected = true;
                } else {
                    proof {
                        assert(store@ =~= import_one(
                            rows_before,
                            endpoint@,
                            metadata_prefix@,
                            hdrs[j as int],
                            now as int,
                        ));
                    }
                }
            },
            Option::None => {
                let fp = crate::oai::fingerprint(
                    endpoint,
                    metadata_prefix,
                    header.identifier.as_str(),
                );
                let fresh = OaiRecordRow {
                    endpoint: String::from_str(endpoint),
                    metadata_prefix: String::from_str(metadata_prefix),
                    identifier: header.identifier.clone(),
                    datestamp: header.datestamp.clone(),
                    fingerprint: fp,
                    status: target,
                    message: String::new(),
                    metadata: MetadataDoc::empty(),
                    index_status: OaiIndexStatus::Pending,
                    index_message: String::new(),
                    index_attempts: 0,
                    last_checked_at: now,
                    index_last_checked_at: Option::None,
                    indexed_at: Option::None,
                    purged_at: Option::None,
                    version: 1,
                };
                proof {
                    assert(fresh@ =~= new_row_of(endpoint@, metadata_prefix@, hdrs[j as int], now as int));
                    assert(row_wf(fresh@));
                }
                store.upsert_row(fresh);
                proof {
                    assert(store@ =~= import_one(
                        rows_before,
                        endpoint@,
                        metadata_prefix@,
                        hdrs[j as int],
                        now as int,
                    ));
                }
                affected = true;
            },
        }
        if affected {
            if target == OaiRecordStatus::Deleted {
                deleted = deleted + 1;
            } else {
                imported = imported + 1;
            }
        }
        proof {
            assert(import_affects(rows_before, endpoint@, metadata_prefix@, hdrs[j as int])
                == affected);
        }
        j = j + 1;
    }
    proof {
        assert(hdrs.skip(n as int) =~= Seq::<OaiHeaderView>::empty());
    }
    ImportCounts { processed: n as u64, imported, deleted }
}

/// Sticky failed: an import upsert leaves a failed row entirely
/// unchanged, whatever datestamp the incoming header carries.
pub proof fn lemma_import_sticky_failed(
    rows: Seq<RecordRowView>,
    endpoint: Seq<char>,
    metadata_prefix: Seq<char>,
    h: OaiHeaderView,
    now: int,
)
    requires
        match match_idx(rows, endpoint, metadata_prefix, h.identifier) {
            Option::Some(i) => rows[i].status == OaiRecordStatus::Failed,
            Option::None => false,
        },
    ensures
        import_one(rows, endpoint, metadata_prefix, h, now) == rows,
{
}

/// Idempotent import: once a header has been upserted, upserting it again
/// changes nothing — the row already carries its datestamp, so the version
/// counter and every status stay put.
pub proof fn lemma_import_idempotent(
    rows: Seq<RecordRowView>,
    endpoint: Seq<char>,
    metadata_prefix: Seq<char>,
    h: OaiHeaderView,
    now: int,
    later: int,
)
    requires
        forall|i: int, j: int|
            0 <= i < j < rows.len() ==> crate::record::key_lt(
                #[trigger] rows[i],
                #[trigger] rows[j],
            ),
    ensures
        import_one(
            import_one(rows, endpoint, metadata_prefix, h, now),
            endpoint,
            metadata_prefix,
            h,
            later,
        ) == import_one(rows, endpoint, metadata_prefix, h, now),
{
    let mid = import_one(rows, endpoint, metadata_prefix, h, now);
    match match_idx(rows, endpoint, metadata_prefix, h.identifier) {
        Option::Some(i) => {
            crate::store::lemma_match_idx(rows, endpoint, metadata_prefix, h.identifier);
            if import_changes(rows[i], h) {
                let nr = import_update(rows[i], h, now);
                crate::store::lemma_match_idx_update(
                    rows,
                    i,
                    nr,
                    endpoint,
                    metadata_prefix,
                    h.identifier,
                );
                assert(mid[i] == nr);
                assert(nr.datestamp == h.datestamp);
                assert(!import_changes(nr, h));
            }
        },
        Option::None => {
            let nr = new_row_of(endpoint, metadata_prefix, h, now);
            let pos = insert_pos(rows, nr);
            crate::store::lemma_match_idx(rows, endpoint, metadata_prefix, h.identifier);
            crate::store::lemma_insert_pos(rows, nr);
            assert(mid =~= rows.insert(pos, nr));
            assert(mid[pos] == nr);
            assert forall|k: int| 0 <= k < pos implies !crate::record::has_key(
                #[trigger] mid[k],
                endpoint,
                metadata_prefix,
                h.identifier,
            ) by {
                assert(mid[k] == rows[k]);
            }
            crate::store::lemma_match_idx_is(
                mid,
                endpoint,
                metadata_prefix,
                h.identifier,
                pos,
            );
            assert(!import_changes(nr, h));
        },
    }
}

/// One upsert step never drops or alters a failed row: its exact value is
/// still held afterwards.
proof fn lemma_import_one_sticky(
    rows: Seq<RecordRowView>,
    endpoint: Seq<char>,
    metadata_prefix: Seq<char>,
    h: OaiHeaderView,
    now: int,
    r: RecordRowView,
)
    requires
        rows.contains(r),
        r.status == OaiRecordStatus::Failed,
    ensures
        import_one(rows, endpoint, metadata_prefix, h, now).contains(r),
{
    let k = choose|k: int| 0 <= k < rows.len() && rows[k] == r;
    crate::store::lemma_match_idx(rows, endpoint, metadata_prefix, h.identifier);
    match match_idx(rows, endpoint, metadata_prefix, h.identifier) {
        Option::Some(i) => {
            if import_changes(rows[i], h) {
                let after = rows.update(i, import_update(rows[i], h, now));
                assert(rows[i].status != OaiRecordStatus::Failed);
                assert(k != i);
                assert(after[k] == r);
                assert(after.contains(r));
            }
        },
        Option::None => {
            let nr = new_row_of(endpoint, metadata_prefix, h, now);
            let pos = insert_pos(rows, nr);
            crate::store::lemma_insert_pos_bounds(rows, nr);
            let after = rows.insert(pos, nr);
            rows.insert_ensures(pos, nr);
            if k < pos {
                assert(after[k] == r);
            } else {
                assert(after[k + 1] == r);
            }
            assert(after.contains(r));
        },
    }
}

/// Sticky failed, across a whole import: every failed row held before the
/// import is still held afterwards, with its status, datestamp and version
/// untouched (the whole row value is preserved).
pub proof fn lemma_import_fold_sticky_failed(
    rows: Seq<RecordRowView>,
    endpoint: Seq<char>,
    metadata_prefix: Seq<char>,
    hs: Seq<OaiHeaderView>,
    now: int,
)
    ensures
        forall|r: RecordRowView|
            rows.contains(r) && (#[trigger] r.status) == OaiRecordStatus::Failed ==> import_fold(
                rows,
                endpoint,
                metadata_prefix,
                hs,
                now,
            ).contains(r),
    decreases hs.len(),
{
    if hs.len() > 0 {
        let mid = import_one(rows, endpoint, metadata_prefix, hs[0], now);
        assert forall|r: RecordRowView|
            rows.contains(r) && (#[trigger] r.status) == OaiRecordStatus::Failed implies mid.contains(
            r,
        ) by {
            lemma_import_one_sticky(rows, endpoint, metadata_prefix, hs[0], now, r);
        }
        lemma_import_fold_sticky_failed(mid, endpoint, metadata_prefix, hs.skip(1), now);
    }
}

/// The row held for a key, if any.
pub open spec fn row_at(
    rows: Seq<RecordRowView>,
    endpoint: Seq<char>,
    metadata_prefix: Seq<char>,
    identifier: Seq<char>,
) -> Option<RecordRowView> {
    match match_idx(rows, endpoint, metadata_prefix, identifier) {
        Option::Some(i) => Option::Some(rows[i]),
        Option::None => Option::None,
    }
}

/// Upserting one header leaves the row held for every other identifier
/// untouched.
proof fn lemma_import_one_other_key(
    rows: Seq<RecordRowView>,
    endpoint: Seq<char>,
    metadata_prefix: Seq<char>,
    h: OaiHeaderView,
    now: int,
    identifier: Seq<char>,
)
    requires
        h.identifier != identifier,
    ensures
        row_at(
            import_one(rows, endpoint, metadata_prefix, h, now),
            endpoint,
            metadata_prefix,
            identifier,
        ) == row_at(rows, endpoint, metadata_prefix, identifier),
{
    crate::store::lemma_match_idx(rows, endpoint, metadata_prefix, h.identifier);
    crate::store::lemma_match_idx(rows, endpoint, metadata_prefix, identifier);
    match match_idx(rows, endpoint, metadata_prefix, h.identifier) {
        Option::Some(j) => {
            if import_changes(rows[j], h) {
                let nr = import_update(rows[j], h, now);
                crate::store::lemma_match_idx_update(
                    rows,
                    j,
                    nr,
                    endpoint,
                    metadata_prefix,
                    identifier,
                );
                match match_idx(rows, endpoint, metadata_prefix, identifier) {
                    Option::Some(i) => {
                        assert(i != j);
                        assert(rows.update(j, nr)[i] == rows[i]);
                    },
                    Option::None => {},
                }
            }
        },
        Option::None => {
            let nr = new_row_of(endpoint, metadata_prefix, h, now);
            let pos = insert_pos(rows, nr);
            crate::store::lemma_insert_pos_bounds(rows, nr);
            rows.insert_ensures(pos, nr);
            crate::store::lemma_match_idx_insert(
                rows,
                pos,
                nr,
                endpoint,
                metadata_prefix,
                identifier,
            );
        },
    }
}

/// The store already carries the header: its row is failed (and sticky),
/// or it carries the header's datestamp, so a re-upsert changes nothing.
pub open spec fn header_settled(
    rows: Seq<RecordRowView>,
    endpoint: Seq<char>,
    metadata_prefix: Seq<char>,
    h: OaiHeaderView,
) -> bool {
    match match_idx(rows, endpoint, metadata_prefix, h.identifier) {
        Option::Some(i) => rows[i].status == OaiRecordStatus::Failed || rows[i].datestamp
            == h.datestamp,
        Option::None => false,
    }
}

/// After one upsert the store carries that header.
proof fn lemma_import_one_settles(
    rows: Seq<RecordRowView>,
    endpoint: Seq<char>,
    metadata_prefix: Seq<char>,
    h: OaiHeaderView,
    now: int,
)
    ensures
        header_settled(import_one(rows, endpoint, metadata_prefix, h, now), endpoint, metadata_prefix, h),
{
    crate::store::lemma_match_idx(rows, endpoint, metadata_prefix, h.identifier);
    match match_idx(rows, endpoint, metadata_prefix, h.identifier) {
        Option::Some(i) => {
            if import_changes(rows[i], h) {
                let nr = import_update(rows[i], h, now);
                crate::store::lemma_match_idx_update(
                    rows,
                    i,
                    nr,
                    endpoint,
                    metadata_prefix,
                    h.identifier,
                );
                assert(rows.update(i, nr)[i] == nr);
            }
        },
        Option::None => {
            let nr = new_row_of(endpoint, metadata_prefix, h, now);
            let pos = insert_pos(rows, nr);
            crate::store::lemma_insert_pos_bounds(rows, nr);
            let after = rows.insert(pos, nr);
            rows.insert_ensures(pos, nr);
            assert forall|k: int| 0 <= k < pos implies !crate::record::has_key(
                #[trigger] after[k],
                endpoint,
                metadata_prefix,
                h.identifier,
            ) by {
                assert(after[k] == rows[k]);
            }
            crate::store::lemma_match_idx_is(after, endpoint, metadata_prefix, h.identifier, pos);
        },
    }
}

/// Headers of the batch carry pairwise distinct identifiers.
pub open spec fn distinct_identifiers(hs: Seq<OaiHeaderView>) -> bool {
    forall|j1: int, j2: int|
        0 <= j1 < j2 < hs.len() ==> (#[trigger] hs[j1]).identifier != (#[trigger] hs[j2]).identifier
}

/// A whole batch of upserts for other identifiers keeps a settled header
/// settled.
proof fn lemma_import_fold_preserves_settled(
    rows: Seq<RecordRowView>,
    endpoint: Seq<char>,
    metadata_prefix: Seq<char>,
    hs: Seq<OaiHeaderView>,
    now: int,
    h: OaiHeaderView,
)
    requires
        forall|j: int| 0 <= j < hs.len() ==> (#[trigger] hs[j]).identifier != h.identifier,
        header_settled(rows, endpoint, metadata_prefix, h),
    ensures
        header_settled(
            import_fold(rows, endpoint, metadata_prefix, hs, now),
            endpoint,
            metadata_prefix,
            h,
        ),
    decreases hs.len(),
{
    if hs.len() > 0 {
        let mid = import_one(rows, endpoint, metadata_prefix, hs[0], now);
        lemma_import_one_other_key(rows, endpoint, metadata_prefix, hs[0], now, h.identifier);
        assert(forall|j: int| 0 <= j < hs.len() - 1 ==> hs.skip(1)[j] == hs[j + 1]);
        lemma_import_fold_preserves_settled(mid, endpoint, metadata_prefix, hs.skip(1), now, h);
    }
}

/// A whole import settles every header it carried, when the batch names
/// each identifier once.
proof fn lemma_import_fold_settles(
    rows: Seq<RecordRowView>,
    endpoint: Seq<char>,
    metadata_prefix: Seq<char>,
    hs: Seq<OaiHeaderView>,
    now: int,
)
    requires
        distinct_identifiers(hs),
    ensures
        forall|j: int|
            0 <= j < hs.len() ==> header_settled(
                import_fold(rows, endpoint, metadata_prefix, hs, now),
                endpoint,
                metadata_prefix,
                #[trigger] hs[j],
            ),
    decreases hs.len(),
{
    if hs.len() > 0 {
        let mid = import_one(rows, endpoint, metadata_prefix, hs[0], now);
        let rest = hs.skip(1);
        assert(forall|j: int| 0 <= j < hs.len() - 1 ==> #[trigger] rest[j] == hs[j + 1]);
        lemma_import_one_settles(rows, endpoint, metadata_prefix, hs[0], now);
        assert forall|j: int| 0 <= j < rest.len() implies (#[trigger] rest[j]).identifier
            != hs[0].identifier by {
            assert(rest[j] == hs[j + 1]);
        }
        lemma_import_fold_preserves_settled(mid, endpoint, metadata_prefix, rest, now, hs[0]);
        assert(distinct_identifiers(rest)) by {
            assert forall|j1: int, j2: int|
                0 <= j1 < j2 < rest.len() implies (#[trigger] rest[j1]).identifier
                != (#[trigger] rest[j2]).identifier by {
                assert(rest[j1] == hs[j1 + 1]);
                assert(rest[j2] == hs[j2 + 1]);
            }
        }
        lemma_import_fold_settles(mid, endpoint, metadata_prefix, rest, now);
        let done = import_fold(rows, endpoint, metadata_prefix, hs, now);
        assert(done == import_fold(mid, endpoint, metadata_prefix, rest, now));
        assert forall|j: int| 0 <= j < hs.len() implies header_settled(
            done,
            endpoint,
            metadata_prefix,
            #[trigger] hs[j],
        ) by {
            if j > 0 {
                assert(hs[j] == rest[j - 1]);
            }
        }
    }
}

/// A settled batch of upserts changes nothing.
proof fn lemma_import_fold_noop_when_settled(
    rows: Seq<RecordRowView>,
    endpoint: Seq<char>,
    metadata_prefix: Seq<char>,
    hs: Seq<OaiHeaderView>,
    now: int,
)
    requires
        forall|j: int|
            0 <= j < hs.len() ==> header_settled(rows, endpoint, metadata_prefix, #[trigger] hs[j]),
    ensures
        import_fold(rows, endpoint, metadata_prefix, hs, now) == rows,
    decreases hs.len(),
{
    if hs.len() > 0 {
        assert(header_settled(rows, endpoint, metadata_prefix, hs[0]));
        assert(import_one(rows, endpoint, metadata_prefix, hs[0], now) == rows);
        assert(forall|j: int| 0 <= j < hs.len() - 1 ==> hs.skip(1)[j] == hs[j + 1]);
        lemma_import_fold_noop_when_settled(rows, endpoint, metadata_prefix, hs.skip(1), now);
    }
}

/// Idempotent import, across a whole batch: running the same import again
/// over identical upstream state changes no row — version counters and
/// statuses stay put. Holds when the batch names each identifier once; a
/// batch that repeats an identifier with two datestamps re-applies the
/// earlier one on the second run.
pub proof fn lemma_import_fold_idempotent(
    rows: Seq<RecordRowView>,
    endpoint: Seq<char>,
    metadata_prefix: Seq<char>,
    hs: Seq<OaiHeaderView>,
    now: int,
    later: int,
)
    requires
        distinct_identifiers(hs),
    ensures
        import_fold(
            import_fold(rows, endpoint, metadata_prefix, hs, now),
            endpoint,
            metadata_prefix,
            hs,
            later,
        ) == import_fold(rows, endpoint, metadata_prefix, hs, now),
{
    let mid = import_fold(rows, endpoint, metadata_prefix, hs, now);
    lemma_import_fold_settles(rows, endpoint, metadata_prefix, hs, now);
    lemma_import_fold_noop_when_settled(mid, endpoint, metadata_prefix, hs, later);
}

} // verus!
