//! The persistent record row, its mathematical view, and the
//! precondition-guarded state transitions of the two lifecycles.
//!
//! Every transition is modelled as a pair of spec functions: a
//! precondition on the row (what the `WHERE` clause of the corresponding
//! store statement asserts) and the row that results when it holds. The
//! store applies a transition to at most one row, atomically, or to none.

use vstd::prelude::*;

use crate::oai::OaiIndexStatus;
use crate::oai::OaiRecordStatus;

verus! {

/// Mathematical view of one extracted metadata field: a key with the list
/// of text values collected for it.
#[verifier::ext_equal]
pub ghost struct MetadataFieldView {
    pub key: Seq<char>,
    pub values: Seq<Seq<char>>,
}

/// One extracted metadata field: a key and the list of text values
/// collected for it.
#[derive(Debug, Clone)]
pub struct MetadataField {
    pub key: String,
    pub values: Vec<String>,
}

impl View for MetadataField {
    type V = MetadataFieldView;

    open spec fn view(&self) -> MetadataFieldView {
        MetadataFieldView { key: self.key@, values: self.values.deep_view() }
    }
}

/// Extracted structured metadata: a JSON-like object mapping each key to
/// an array of strings. Empty until the metadata phase parses the record.
#[derive(Debug, Clone)]
pub struct MetadataDoc {
    pub fields: Vec<MetadataField>,
}

impl View for MetadataDoc {
    type V = Seq<MetadataFieldView>;

    open spec fn view(&self) -> Seq<MetadataFieldView> {
        self.fields@.map_values(|f: MetadataField| f@)
    }
}

/// The document holds `value` among the values of field `key`.
pub open spec fn doc_has_value(doc: Seq<MetadataFieldView>, key: Seq<char>, value: Seq<char>) -> bool {
    exists|i: int|
        0 <= i < doc.len() && (#[trigger] doc[i]).key == key && doc[i].values.contains(value)
}

impl MetadataDoc {
    /// An empty metadata object.
    pub fn empty() -> (r: MetadataDoc)
        ensures
            r@ =~= Seq::<MetadataFieldView>::empty(),
    {
        let r = MetadataDoc { fields: Vec::new() };
        proof {
            assert(r@ =~= Seq::<MetadataFieldView>::empty());
        }
        r
    }

    /// A field-by-field copy of the document.
    pub fn duplicate(&self) -> (r: MetadataDoc)
        ensures
            r@ =~= self@,
    {
        let n = self.fields.len();
        let mut fields: Vec<MetadataField> = Vec::new();
        let mut i: usize = 0;
        while i < n
            invariant
                0 <= i <= n,
                n == self.fields.len(),
                fields@.len() == i,
                forall|k: int| 0 <= k < i ==> (#[trigger] fields@[k])@ == self.fields[k]@,
            decreases n - i,
        {
            let src = &self.fields[i];
            let m = src.values.len();
            let mut values: Vec<String> = Vec::new();
            let mut j: usize = 0;
            while j < m
                invariant
                    0 <= j <= m,
                    m == src.values.len(),
                    values@.len() == j,
                    forall|k: int| 0 <= k < j ==> (#[trigger] values@[k])@ == src.values[k]@,
                decreases m - j,
            {
                values.push(src.values[j].clone());
                j = j + 1;
            }
            proof {
                assert(values.deep_view() =~= src.values.deep_view());
            }
            fields.push(MetadataField { key: src.key.clone(), values });
            i = i + 1;
        }
        let r = MetadataDoc { fields };
        proof {
            assert(r@ =~= self@);
        }
        r
    }

    /// Decides whether field `key` holds `value` among its values.
    pub fn has_value(&self, key: &str, value: &str) -> (r: bool)
        ensures
            r == doc_has_value(self@, key@, value@),
    {
        let n = self.fields.len();
        let mut i: usize = 0;
        while i < n
            invariant
                0 <= i <= n,
                n == self.fields.len(),
                forall|k: int|
                    0 <= k < i ==> !((#[trigger] self@[k]).key == key@ && self@[k].values.contains(
                        value@,
                    )),
            decreases n - i,
        {
            let field = &self.fields[i];
            if crate::text::str_eq(field.key.as_str(), key) {
                let m = field.values.len();
                let mut j: usize = 0;
                while j < m
                    invariant
                        0 <= j <= m,
                        m == field.values.len(),
                        field == self.fields[i as int],
                        i < self.fields.len(),
                        field.key@ == key@,
                        forall|k: int| 0 <= k < j ==> field.values.deep_view()[k] != value@,
                    decreases m - j,
                {
                    if crate::text::str_eq(field.values[j].as_str(), value) {
                        proof {
                            assert(self@[i as int] == self.fields[i as int]@);
                            assert(field.values.deep_view()[j as int] == field.values[j as int]@);
                            assert(self@[i as int].values[j as int] == value@);
                            assert(self@[i as int].values.contains(value@));
                            assert(self@[i as int].key == key@);
                            assert((i as int) < self@.len());
                            assert(doc_has_value(self@, key@, value@));
                        }
                        return true;
                    }
                    assert(field.values.deep_view()[j as int] == field.values[j as int]@);
                    j = j + 1;
                }
                proof {
                    let fv = self@[i as int];
                    assert(forall|k: int|
                        0 <= k < fv.values.len() ==> #[trigger] fv.values[k] != value@);
                    assert(!fv.values.contains(value@));
                }
            }
            assert(self@[i as int].key == field.key@);
            i = i + 1;
        }
        false
    }
}

/// Mathematical view of one record row.
#[verifier::ext_equal]
pub ghost struct RecordRowView {
    pub endpoint: Seq<char>,
    pub metadata_prefix: Seq<char>,
    pub identifier: Seq<char>,
    pub datestamp: Seq<char>,
    pub fingerprint: Seq<char>,
    pub status: OaiRecordStatus,
    pub message: Seq<char>,
    pub metadata: Seq<MetadataFieldView>,
    pub index_status: OaiIndexStatus,
    pub index_message: Seq<char>,
    pub index_attempts: int,
    pub last_checked_at: int,
    pub index_last_checked_at: Option<int>,
    pub indexed_at: Option<int>,
    pub purged_at: Option<int>,
    pub version: int,
}

/// One record row: the sole persistent entity. Identity is the triple
/// (endpoint, metadata_prefix, identifier); everything else is lifecycle
/// state.
#[derive(Debug)]
pub struct OaiRecordRow {
    pub endpoint: String,
    pub metadata_prefix: String,
    pub identifier: String,
    pub datestamp: String,
    pub fingerprint: String,
    pub status: OaiRecordStatus,
    pub message: String,
    pub metadata: MetadataDoc,
    pub index_status: OaiIndexStatus,
    pub index_message: String,
    pub index_attempts: i32,
    pub last_checked_at: u64,
    pub index_last_checked_at: Option<u64>,
    pub indexed_at: Option<u64>,
    pub purged_at: Option<u64>,
    pub version: u64,
}

/// Lifts an optional timestamp into the view.
pub open spec fn opt_int(o: Option<u64>) -> Option<int> {
    match o {
        Option::None => Option::None,
        Option::Some(v) => Option::Some(v as int),
    }
}

impl View for OaiRecordRow {
    type V = RecordRowView;

    open spec fn view(&self) -> RecordRowView {
        RecordRowView {
            endpoint: self.endpoint@,
            metadata_prefix: self.metadata_prefix@,
            identifier: self.identifier@,
            datestamp: self.datestamp@,
            fingerprint: self.fingerprint@,
            status: self.status,
            message: self.message@,
            metadata: self.metadata@,
            index_status: self.index_status,
            index_message: self.index_message@,
            index_attempts: self.index_attempts as int,
            last_checked_at: self.last_checked_at as int,
            index_last_checked_at: opt_int(self.index_last_checked_at),
            indexed_at: opt_int(self.indexed_at),
            purged_at: opt_int(self.purged_at),
            version: self.version as int,
        }
    }
}

/// Row well-formedness: the fingerprint is long enough to derive a storage
/// path from, counters are non-negative, and a row marked indexed or
/// purged carries the corresponding timestamp.
pub open spec fn row_wf(r: RecordRowView) -> bool {
    &&& r.fingerprint.len() >= 4
    &&& r.index_attempts >= 0
    &&& r.version >= 1
    &&& (r.index_status == OaiIndexStatus::Indexed ==> r.indexed_at is Some)
    &&& (r.index_status == OaiIndexStatus::Purged ==> r.purged_at is Some)
}

/// Rows are ordered by their identity triple, each component
/// lexicographically.
pub open spec fn key_lt(a: RecordRowView, b: RecordRowView) -> bool {
    ||| crate::text::lex_lt(a.endpoint, b.endpoint)
    ||| (a.endpoint == b.endpoint && crate::text::lex_lt(a.metadata_prefix, b.metadata_prefix))
    ||| (a.endpoint == b.endpoint && a.metadata_prefix == b.metadata_prefix && crate::text::lex_lt(
        a.identifier,
        b.identifier,
    ))
}

/// The row carries the given identity triple.
pub open spec fn has_key(
    r: RecordRowView,
    endpoint: Seq<char>,
    metadata_prefix: Seq<char>,
    identifier: Seq<char>,
) -> bool {
    r.endpoint == endpoint && r.metadata_prefix == metadata_prefix && r.identifier == identifier
}

// ---------------------------------------------------------------------
// Harvest-lifecycle transitions
// ---------------------------------------------------------------------
/// Download success precondition: the row is still pending.
pub open spec fn download_success_pre(r: RecordRowView) -> bool {
    r.status == OaiRecordStatus::Pending
}

/// Download success: `pending -> available`, message cleared.
pub open spec fn download_success_apply(r: RecordRowView, now: int) -> RecordRowView {
    RecordRowView {
        status: OaiRecordStatus::Available,
        message: Seq::empty(),
        last_checked_at: now,
        ..r
    }
}

/// Download failure precondition: the row is still pending.
pub open spec fn download_failure_pre(r: RecordRowView) -> bool {
    r.status == OaiRecordStatus::Pending
}

/// Download failure: `pending -> failed`, message recorded.
pub open spec fn download_failure_apply(r: RecordRowView, message: Seq<char>, now: int) -> RecordRowView {
    RecordRowView { status: OaiRecordStatus::Failed, message, last_checked_at: now, ..r }
}

/// Metadata success precondition: the row is available on disk.
pub open spec fn metadata_success_pre(r: RecordRowView) -> bool {
    r.status == OaiRecordStatus::Available
}

/// Metadata success: `available -> parsed`, the extracted metadata is
/// stored, and the whole index lifecycle is reset to pending.
pub open spec fn metadata_success_apply(
    r: RecordRowView,
    metadata: Seq<MetadataFieldView>,
    now: int,
) -> RecordRowView {
    RecordRowView {
        status: OaiRecordStatus::Parsed,
        message: Seq::empty(),
        metadata,
        index_status: OaiIndexStatus::Pending,
        index_message: Seq::empty(),
        index_attempts: 0,
        index_last_checked_at: Option::None,
        indexed_at: Option::None,
        purged_at: Option::None,
        last_checked_at: now,
        ..r
    }
}

/// Metadata failure precondition: the row is available on disk.
pub open spec fn metadata_failure_pre(r: RecordRowView) -> bool {
    r.status == OaiRecordStatus::Available
}

/// Metadata failure: `available -> failed`, message recorded.
pub open spec fn metadata_failure_apply(r: RecordRowView, message: Seq<char>, now: int) -> RecordRowView {
    RecordRowView { status: OaiRecordStatus::Failed, message, last_checked_at: now, ..r }
}

// ---------------------------------------------------------------------
// Index-lifecycle transitions
// ---------------------------------------------------------------------
/// Index transition precondition: the row is parsed and queued or
/// previously failed to index.
pub open spec fn index_transition_pre(r: RecordRowView) -> bool {
    r.status == OaiRecordStatus::Parsed && (r.index_status == OaiIndexStatus::Pending
        || r.index_status == OaiIndexStatus::IndexFailed)
}

/// Index success: `pending | index_failed -> indexed`, counters cleared,
/// indexing timestamp recorded.
pub open spec fn index_success_apply(r: RecordRowView, now: int) -> RecordRowView {
    RecordRowView {
        index_status: OaiIndexStatus::Indexed,
        index_message: Seq::empty(),
        index_attempts: 0,
        indexed_at: Option::Some(now),
        index_last_checked_at: Option::Some(now),
        ..r
    }
}

/// Index failure: `pending | index_failed -> index_failed`, message
/// recorded, attempt counter raised (it stops at the counter's capacity).
pub open spec fn index_failure_apply(r: RecordRowView, message: Seq<char>, now: int) -> RecordRowView {
    RecordRowView {
        index_status: OaiIndexStatus::IndexFailed,
        index_message: message,
        index_attempts: if r.index_attempts < 0x7fff_ffff {
            r.index_attempts + 1
        } else {
            r.index_attempts
        },
        index_last_checked_at: Option::Some(now),
        ..r
    }
}

/// Purge transition precondition: the row is deleted upstream and queued
/// or previously failed to purge.
pub open spec fn purge_transition_pre(r: RecordRowView) -> bool {
    r.status == OaiRecordStatus::Deleted && (r.index_status == OaiIndexStatus::Pending
        || r.index_status == OaiIndexStatus::PurgeFailed)
}

/// Purge success: `pending | purge_failed -> purged`, counters cleared,
/// purge timestamp recorded.
pub open spec fn purge_success_apply(r: RecordRowView, now: int) -> RecordRowView {
    RecordRowView {
        index_status: OaiIndexStatus::Purged,
        index_message: Seq::empty(),
        index_attempts: 0,
        purged_at: Option::Some(now),
        index_last_checked_at: Option::Some(now),
        ..r
    }
}

/// Purge failure: `pending | purge_failed -> purge_failed`, message
/// recorded, attempt counter raised (it stops at the counter's capacity).
pub open spec fn purge_failure_apply(r: RecordRowView, message: Seq<char>, now: int) -> RecordRowView {
    RecordRowView {
        index_status: OaiIndexStatus::PurgeFailed,
        index_message: message,
        index_attempts: if r.index_attempts < 0x7fff_ffff {
            r.index_attempts + 1
        } else {
            r.index_attempts
        },
        index_last_checked_at: Option::Some(now),
        ..r
    }
}

/// Requeue (reindex) filter: parsed or deleted rows of the selected
/// repository.
pub open spec fn requeue_pre(r: RecordRowView, oai_repository: Seq<char>) -> bool {
    (r.status == OaiRecordStatus::Parsed || r.status == OaiRecordStatus::Deleted) && doc_has_value(
        r.metadata,
        "repository"@,
        oai_repository,
    )
}

/// Requeue (reindex): the index lifecycle returns to pending with
/// counters and timestamps cleared.
pub open spec fn requeue_apply(r: RecordRowView) -> RecordRowView {
    RecordRowView {
        index_status: OaiIndexStatus::Pending,
        index_message: Seq::empty(),
        index_attempts: 0,
        indexed_at: Option::None,
        purged_at: Option::None,
        index_last_checked_at: Option::None,
        ..r
    }
}

/// Retry-harvest filter: failed rows.
pub open spec fn retry_pre(r: RecordRowView) -> bool {
    r.status == OaiRecordStatus::Failed
}

/// Retry-harvest: `failed -> pending`, message cleared.
pub open spec fn retry_apply(r: RecordRowView, now: int) -> RecordRowView {
    RecordRowView {
        status: OaiRecordStatus::Pending,
        message: Seq::empty(),
        last_checked_at: now,
        ..r
    }
}

/// Every guarded transition preserves row well-formedness and never
/// touches the identity triple, the fingerprint, the datestamp or the
/// version counter.
pub proof fn lemma_transitions_preserve_wf(
    r: RecordRowView,
    message: Seq<char>,
    metadata: Seq<MetadataFieldView>,
    now: int,
)
    requires
        row_wf(r),
        now >= 0,
    ensures
        row_wf(download_success_apply(r, now)),
        row_wf(download_failure_apply(r, message, now)),
        row_wf(metadata_success_apply(r, metadata, now)),
        row_wf(metadata_failure_apply(r, message, now)),
        row_wf(index_success_apply(r, now)),
        row_wf(index_failure_apply(r, message, now)),
        row_wf(purge_success_apply(r, now)),
        row_wf(purge_failure_apply(r, message, now)),
        row_wf(requeue_apply(r)),
        row_wf(retry_apply(r, now)),
{
}

} // verus!
