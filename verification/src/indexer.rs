//! The indexer: selection options, the run context, the index and purge
//! sweeps, and the decision logic around the external indexer subprocess
//! and the search server.

use vstd::prelude::*;
use vstd::string::StringExecFns;

use crate::db::UpdateIndexFailureParams;
use crate::db::UpdateIndexStatusParams;
use crate::query::candidate_sel;
use crate::query::fetch_page;
use crate::query::filter_sel;
use crate::query::opt_int_of;
use crate::query::opt_view;
use crate::query::page_names_row;
use crate::query::page_returns_id;
use crate::query::page_post;
use crate::query::RecordPhase;
use crate::query::RowFilter;
use crate::query::BATCH_SIZE;
use crate::record::index_failure_apply;
use crate::record::index_success_apply;
use crate::record::purge_failure_apply;
use crate::record::purge_success_apply;
use crate::record::RecordRowView;
use crate::store::lemma_key_unique;
use crate::store::lemma_match_idx;
use crate::store::match_idx;
use crate::store::RecordStore;
use crate::text::after_last;
use crate::text::dec_digits;
use crate::text::lex_lt;
use crate::text::truncate_middle_spec;
use crate::worker::ProcessStats;
use crate::worker::MESSAGE_HEAD;
use crate::worker::MESSAGE_TAIL;

verus! {

/// How a run selects its candidates: fresh pending rows, or rows whose
/// last index or purge attempt failed.
#[derive(Clone, Copy, Debug, PartialEq, Eq, Structural)]
pub enum IndexSelectionMode {
    FailedOnly,
    PendingOnly,
}

/// Selection options of one indexer run.
#[derive(Debug, Clone)]
pub struct IndexRunOptions {
    pub selection_mode: IndexSelectionMode,
    pub message_filter: Option<String>,
    pub max_attempts: Option<i32>,
}

impl IndexRunOptions {
    /// Retry runs select only failed rows, optionally bounded by attempt
    /// count and filtered by message substring.
    pub fn failed_only(message_filter: Option<String>, max_attempts: Option<i32>) -> (r:
        IndexRunOptions)
        ensures
            r.selection_mode == IndexSelectionMode::FailedOnly,
            r.message_filter == message_filter,
            r.max_attempts == max_attempts,
    {
        IndexRunOptions { selection_mode: IndexSelectionMode::FailedOnly, message_filter, max_attempts }
    }

    /// Plain runs select only pending rows.
    pub fn pending_only() -> (r: IndexRunOptions)
        ensures
            r.selection_mode == IndexSelectionMode::PendingOnly,
            r.message_filter is None,
            r.max_attempts is None,
    {
        IndexRunOptions {
            selection_mode: IndexSelectionMode::PendingOnly,
            message_filter: Option::None,
            max_attempts: Option::None,
        }
    }
}

/// The context an indexer run works in: which rows it selects and whether
/// it only previews.
#[derive(Debug, Clone)]
pub struct IndexerContext {
    pub endpoint: String,
    pub metadata_prefix: String,
    pub oai_repository: String,
    pub run_options: IndexRunOptions,
    pub preview: bool,
}

impl IndexerContext {
    pub fn new(
        endpoint: String,
        metadata_prefix: String,
        oai_repository: String,
        run_options: IndexRunOptions,
        preview: bool,
    ) -> (r: IndexerContext)
        ensures
            r.endpoint == endpoint,
            r.metadata_prefix == metadata_prefix,
            r.oai_repository == oai_repository,
            r.run_options == run_options,
            r.preview == preview,
    {
        IndexerContext { endpoint, metadata_prefix, oai_repository, run_options, preview }
    }
}

/// View of an optional owned string.
pub open spec fn opt_string_view(o: Option<String>) -> Option<Seq<char>> {
    match o {
        Option::None => Option::None,
        Option::Some(s) => Option::Some(s@),
    }
}

/// The rows a run's context selects for a phase.
pub open spec fn ctx_sel(ctx: IndexerContext, phase: RecordPhase, r: RecordRowView) -> bool {
    candidate_sel(
        ctx.endpoint@,
        ctx.metadata_prefix@,
        ctx.oai_repository@,
        phase,
        ctx.run_options.selection_mode == IndexSelectionMode::FailedOnly,
        opt_int_of(ctx.run_options.max_attempts),
        opt_string_view(ctx.run_options.message_filter),
        r,
    )
}

/// One record's work result for an index or purge sweep.
pub struct IndexOutcome {
    pub identifier: String,
    pub result: Result<(), String>,
}

/// The first work result recorded for the identifier, if any.
pub open spec fn index_outcome_lookup(outs: Seq<IndexOutcome>, id: Seq<char>) -> Option<
    Result<(), String>,
>
    decreases outs.len(),
{
    if outs.len() == 0 {
        Option::None
    } else if outs[0].identifier@ == id {
        Option::Some(outs[0].result)
    } else {
        index_outcome_lookup(outs.skip(1), id)
    }
}

/// The success transition of an index-lifecycle phase.
pub open spec fn index_success_of(phase: RecordPhase, r: RecordRowView, now: int) -> RecordRowView {
    match phase {
        RecordPhase::Index => index_success_apply(r, now),
        RecordPhase::Purge => purge_success_apply(r, now),
    }
}

/// The failure transition of an index-lifecycle phase.
pub open spec fn index_fail_of(
    phase: RecordPhase,
    r: RecordRowView,
    message: Seq<char>,
    now: int,
) -> RecordRowView {
    match phase {
        RecordPhase::Index => index_failure_apply(r, message, now),
        RecordPhase::Purge => purge_failure_apply(r, message, now),
    }
}

/// The row a visited candidate ends in: its work result's transition, with
/// failure messages truncated. A record the work function reported nothing
/// for counts as failed.
pub open spec fn index_visit(
    phase: RecordPhase,
    r: RecordRowView,
    outs: Seq<IndexOutcome>,
    now: int,
) -> RecordRowView {
    match index_outcome_lookup(outs, r.identifier) {
        Option::Some(Result::Ok(u)) => index_success_of(phase, r, now),
        Option::Some(Result::Err(m)) => index_fail_of(
            phase,
            r,
            truncate_middle_spec(m@, MESSAGE_HEAD as int, MESSAGE_TAIL as int),
            now,
        ),
        Option::None => index_fail_of(
            phase,
            r,
            truncate_middle_spec(
                "no work result for record"@,
                MESSAGE_HEAD as int,
                MESSAGE_TAIL as int,
            ),
            now,
        ),
    }
}

/// The recorded work result of the row is a success.
pub open spec fn index_work_ok(outs: Seq<IndexOutcome>, r: RecordRowView) -> bool {
    match index_outcome_lookup(outs, r.identifier) {
        Option::Some(res) => res is Ok,
        Option::None => false,
    }
}

/// The row counts towards a tally: the phase's selection matches it, its
/// identifier lies at or before the cursor, and its work result is of the
/// wanted kind (or any, when none is wanted).
pub open spec fn index_counted(
    ctx: IndexerContext,
    phase: RecordPhase,
    outs: Seq<IndexOutcome>,
    cursor: Option<Seq<char>>,
    want_ok: Option<bool>,
    r: RecordRowView,
) -> bool {
    &&& ctx_sel(ctx, phase, r)
    &&& !after_last(r.identifier, cursor)
    &&& (match want_ok {
        Option::None => true,
        Option::Some(b) => index_work_ok(outs, r) == b,
    })
}

/// How many rows the sweep's selection matches at or before the cursor,
/// split by their work result.
pub open spec fn index_tally(
    rows: Seq<RecordRowView>,
    ctx: IndexerContext,
    phase: RecordPhase,
    outs: Seq<IndexOutcome>,
    cursor: Option<Seq<char>>,
    want_ok: Option<bool>,
) -> int
    decreases rows.len(),
{
    if rows.len() == 0 {
        0
    } else {
        index_tally(rows.drop_last(), ctx, phase, outs, cursor, want_ok)
            + if index_counted(ctx, phase, outs, cursor, want_ok, rows.last()) {
            1int
        } else {
            0int
        }
    }
}

/// How many rows the sweep's selection matches in all, split by their work
/// result.
pub open spec fn index_tally_all(
    rows: Seq<RecordRowView>,
    ctx: IndexerContext,
    phase: RecordPhase,
    outs: Seq<IndexOutcome>,
    want_ok: Option<bool>,
) -> int
    decreases rows.len(),
{
    if rows.len() == 0 {
        0
    } else {
        index_tally_all(rows.drop_last(), ctx, phase, outs, want_ok) + if
            ctx_sel(ctx, phase, rows.last()) && (match want_ok {
            Option::None => true,
            Option::Some(b) => index_work_ok(outs, rows.last()) == b,
        }) {
            1int
        } else {
            0int
        }
    }
}

/// Tally over the visited rows, by work result.
pub open spec fn index_visited_tally(
    rows: Seq<RecordRowView>,
    outs: Seq<IndexOutcome>,
    ps: Seq<int>,
    want_ok: Option<bool>,
) -> int
    decreases ps.len(),
{
    if ps.len() == 0 {
        0
    } else {
        index_visited_tally(rows, outs, ps.drop_last(), want_ok) + if 0 <= ps.last() < rows.len() && (
        match want_ok {
            Option::None => true,
            Option::Some(b) => index_work_ok(outs, rows[ps.last()]) == b,
        }) {
            1int
        } else {
            0int
        }
    }
}

/// Counting visited positions within a bound counts one per entry, and the
/// two result kinds partition them.
proof fn lemma_index_visited_tally_len(
    rows: Seq<RecordRowView>,
    outs: Seq<IndexOutcome>,
    ps: Seq<int>,
)
    requires
        forall|j: int| 0 <= j < ps.len() ==> 0 <= #[trigger] ps[j] < rows.len(),
    ensures
        index_visited_tally(rows, outs, ps, Option::None) == ps.len(),
        index_visited_tally(rows, outs, ps, Option::Some(true)) + index_visited_tally(
            rows,
            outs,
            ps,
            Option::Some(false),
        ) == ps.len(),
        0 <= index_visited_tally(rows, outs, ps, Option::Some(true)),
        0 <= index_visited_tally(rows, outs, ps, Option::Some(false)),
    decreases ps.len(),
{
    if ps.len() > 0 {
        assert(forall|j: int| 0 <= j < ps.len() - 1 ==> ps.drop_last()[j] == ps[j]);
        lemma_index_visited_tally_len(rows, outs, ps.drop_last());
    }
}

/// Dropping the last row does not change a tally over positions before it.
proof fn lemma_index_visited_tally_shrink(
    rows: Seq<RecordRowView>,
    outs: Seq<IndexOutcome>,
    ps: Seq<int>,
    want_ok: Option<bool>,
)
    requires
        rows.len() > 0,
        forall|j: int| 0 <= j < ps.len() ==> 0 <= #[trigger] ps[j] < rows.len() - 1,
    ensures
        index_visited_tally(rows, outs, ps, want_ok) == index_visited_tally(
            rows.drop_last(),
            outs,
            ps,
            want_ok,
        ),
    decreases ps.len(),
{
    if ps.len() > 0 {
        assert(forall|j: int| 0 <= j < ps.len() - 1 ==> ps.drop_last()[j] == ps[j]);
        lemma_index_visited_tally_shrink(rows, outs, ps.drop_last(), want_ok);
        assert(rows.drop_last()[ps.last()] == rows[ps.last()]);
    }
}

/// Positions that enumerate exactly the selected rows at or before the
/// cursor, in increasing order, tally the same as the rows themselves.
pub proof fn lemma_index_enumeration_tally(
    rows: Seq<RecordRowView>,
    ctx: IndexerContext,
    phase: RecordPhase,
    outs: Seq<IndexOutcome>,
    cursor: Option<Seq<char>>,
    ps: Seq<int>,
    want_ok: Option<bool>,
)
    requires
        forall|j: int| 0 <= j < ps.len() ==> 0 <= #[trigger] ps[j] < rows.len(),
        forall|j1: int, j2: int| 0 <= j1 < j2 < ps.len() ==> #[trigger] ps[j1] < #[trigger] ps[j2],
        forall|j: int|
            0 <= j < ps.len() ==> ctx_sel(ctx, phase, rows[#[trigger] ps[j]])
                && !after_last(rows[ps[j]].identifier, cursor),
        forall|k: int|
            0 <= k < rows.len() && ctx_sel(ctx, phase, #[trigger] rows[k])
                && !after_last(rows[k].identifier, cursor) ==> exists|j: int|
                0 <= j < ps.len() && #[trigger] ps[j] == k,
    ensures
        index_visited_tally(rows, outs, ps, want_ok) == index_tally(
            rows,
            ctx,
            phase,
            outs,
            cursor,
            want_ok,
        ),
    decreases rows.len(),
{
    if rows.len() == 0 {
    } else {
        let last = rows.len() - 1;
        let shorter = rows.drop_last();
        if ctx_sel(ctx, phase, rows[last]) && !after_last(
            rows[last].identifier,
            cursor,
        ) {
            // the last row is enumerated, and only its final position fits
            let jl = choose|j: int| 0 <= j < ps.len() && #[trigger] ps[j] == last;
            assert(jl == ps.len() - 1) by {
                if jl < ps.len() - 1 {
                    assert(ps[jl] < ps[ps.len() - 1]);
                    assert(ps[ps.len() - 1] < rows.len());
                }
            }
            let front = ps.drop_last();
            assert(forall|j: int| 0 <= j < front.len() ==> front[j] == ps[j]);
            assert(forall|j: int|
                0 <= j < front.len() ==> 0 <= #[trigger] front[j] < last) by {
                assert(forall|j: int| 0 <= j < front.len() ==> #[trigger] ps[j] < ps[ps.len() - 1]);
            }
            assert forall|k: int|
                0 <= k < shorter.len() && ctx_sel(
                    ctx,
                    phase,
                    #[trigger] shorter[k],
                ) && !after_last(shorter[k].identifier, cursor) implies exists|j: int|
                0 <= j < front.len() && #[trigger] front[j] == k by {
                assert(shorter[k] == rows[k]);
                let j0 = choose|j: int| 0 <= j < ps.len() && #[trigger] ps[j] == k;
                assert(j0 < ps.len() - 1);
                assert(front[j0] == k);
            }
            assert(forall|j: int|
                0 <= j < front.len() ==> ctx_sel(
                    ctx,
                    phase,
                    shorter[#[trigger] front[j]],
                ) && !after_last(shorter[front[j]].identifier, cursor)) by {
                assert(forall|j: int|
                    0 <= j < front.len() ==> shorter[#[trigger] front[j]] == rows[front[j]]);
            }
            lemma_index_enumeration_tally(
                shorter,
                ctx,
                phase,
                outs,
                cursor,
                front,
                want_ok,
            );
            lemma_index_visited_tally_shrink(rows, outs, front, want_ok);
            assert(ps.last() == last);
            assert(rows[ps.last()] == rows.last());
        } else {
            // the last row is not enumerated: every position lies before it
            assert forall|j: int| 0 <= j < ps.len() implies 0 <= #[trigger] ps[j] < last by {
                if ps[j] == last {
                    assert(ctx_sel(ctx, phase, rows[ps[j]]));
                }
            }
            assert forall|k: int|
                0 <= k < shorter.len() && ctx_sel(
                    ctx,
                    phase,
                    #[trigger] shorter[k],
                ) && !after_last(shorter[k].identifier, cursor) implies exists|j: int|
                0 <= j < ps.len() && #[trigger] ps[j] == k by {
                assert(shorter[k] == rows[k]);
            }
            assert(forall|j: int|
                0 <= j < ps.len() ==> ctx_sel(
                    ctx,
                    phase,
                    shorter[#[trigger] ps[j]],
                ) && !after_last(shorter[ps[j]].identifier, cursor)) by {
                assert(forall|j: int|
                    0 <= j < ps.len() ==> shorter[#[trigger] ps[j]] == rows[ps[j]]);
            }
            lemma_index_enumeration_tally(
                shorter,
                ctx,
                phase,
                outs,
                cursor,
                ps,
                want_ok,
            );
            lemma_index_visited_tally_shrink(rows, outs, ps, want_ok);
        }
    }
}

/// A cursor at or past every selected row tallies them all.
pub proof fn lemma_index_tally_covered(
    rows: Seq<RecordRowView>,
    ctx: IndexerContext,
    phase: RecordPhase,
    outs: Seq<IndexOutcome>,
    cursor: Option<Seq<char>>,
    want_ok: Option<bool>,
)
    requires
        forall|k: int|
            0 <= k < rows.len() && ctx_sel(ctx, phase, #[trigger] rows[k])
                ==> !after_last(rows[k].identifier, cursor),
    ensures
        index_tally(rows, ctx, phase, outs, cursor, want_ok)
            == index_tally_all(rows, ctx, phase, outs, want_ok),
    decreases rows.len(),
{
    if rows.len() > 0 {
        assert(forall|k: int| 0 <= k < rows.len() - 1 ==> rows.drop_last()[k] == rows[k]);
        lemma_index_tally_covered(
            rows.drop_last(),
            ctx,
            phase,
            outs,
            cursor,
            want_ok,
        );
        if ctx_sel(ctx, phase, rows.last()) {
            assert(rows[rows.len() - 1] == rows.last());
        }
    }
}

/// Finds the first work result recorded for the identifier.
fn find_index_outcome<'a>(outs: &'a Vec<IndexOutcome>, id: &str) -> (r: Option<&'a Result<
    (),
    String,
>>)
    ensures
        match r {
            Option::Some(res) => index_outcome_lookup(outs@, id@) == Option::Some(*res),
            Option::None => index_outcome_lookup(outs@, id@) is None,
        },
{
    let n = outs.len();
    let mut i: usize = 0;
    proof {
        assert(outs@.skip(0) =~= outs@);
    }
    while i < n
        invariant
            0 <= i <= n,
            n == outs@.len(),
            index_outcome_lookup(outs@, id@) == index_outcome_lookup(outs@.skip(i as int), id@),
        decreases n - i,
    {
        proof {
            assert(outs@.skip(i as int)[0] == outs@[i as int]);
            assert(outs@.skip(i as int).skip(1) =~= outs@.skip(i as int + 1));
        }
        if crate::text::str_eq(outs[i].identifier.as_str(), id) {
            return Option::Some(&outs[i].result);
        }
        i = i + 1;
    }
    proof {
        assert(outs@.skip(n as int) =~= Seq::<IndexOutcome>::empty());
    }
    Option::None
}

/// A work result that counts as success.
fn index_outcome_is_success(outcome: &Option<&Result<(), String>>) -> (b: bool)
    ensures
        b == (match *outcome {
            Option::Some(r) => r is Ok,
            Option::None => false,
        }),
{
    match outcome {
        Option::Some(Result::Ok(_)) => true,
        _ => false,
    }
}

/// What a sweep reports, read against the rows it started from: up to a
/// cursor the sweep reached, the success tally counts the selected rows
/// whose work result was a success and the failure tally the rest; a
/// preview counts every selected row as intended work. The cursor covers
/// every selected row, unless a cancellation bound stopped the sweep after
/// exactly that many full batches.
pub open spec fn index_sweep_reported(
    rows0: Seq<RecordRowView>,
    ctx: IndexerContext,
    phase: RecordPhase,
    outs: Seq<IndexOutcome>,
    preview: bool,
    cancel_after_batches: Option<u64>,
    stats: ProcessStats,
    cursor: Option<Seq<char>>,
) -> bool {
    &&& (!preview ==> stats.succeeded == index_tally(
        rows0,
        ctx,
        phase,
        outs,
        cursor,
        Option::Some(true),
    ) && stats.failed == index_tally(
        rows0,
        ctx,
        phase,
        outs,
        cursor,
        Option::Some(false),
    ))
    &&& (preview ==> stats.succeeded == index_tally(
        rows0,
        ctx,
        phase,
        outs,
        cursor,
        Option::None,
    ) && stats.failed == 0)
    &&& ((forall|k: int|
        0 <= k < rows0.len() && ctx_sel(ctx, phase, #[trigger] rows0[k])
            ==> !after_last(rows0[k].identifier, cursor)) || (cancel_after_batches is Some
        && stats.succeeded + stats.failed == (BATCH_SIZE as int) * (
    if cancel_after_batches->Some_0 == 0 {
        1int
    } else {
        cancel_after_batches->Some_0 as int
    })))
}

/// Runs one index-lifecycle phase to completion: a keyset-paginated sweep
/// that applies every selected candidate's work result as the phase's
/// success or failure transition.
///
/// The contract pins the resulting store row by row: a row is untouched,
/// or it matched the phase's selection and carries exactly its visit
/// result. Preview mode leaves every row untouched. Without cancellation,
/// every row the selection matched at the start has been visited
/// (pagination completeness) and the reported tallies count every selected
/// row by its work result; under a cancellation bound the tallies count
/// the selected rows up to the cursor the sweep reached (`index_sweep_reported`).
#[verifier::rlimit(100)]
pub fn process_records(
    store: &mut RecordStore,
    ctx: &IndexerContext,
    phase: RecordPhase,
    outcomes: &Vec<IndexOutcome>,
    cancel_after_batches: Option<u64>,
    now: u64,
) -> (stats: ProcessStats)
    requires
        old(store).wf(),
    ensures
        final (store).wf(),
        final (store)@.len() == old(store)@.len(),
        ctx.preview ==> final (store)@ == old(store)@ && stats.failed == 0,
        forall|k: int|
            0 <= k < old(store)@.len() ==> final (store)@[k] == old(store)@[k] || (ctx_sel(
                    *ctx,
                    phase,
                #[trigger] old(store)@[k],
            ) && final (store)@[k] == index_visit(
                phase,
                old(store)@[k],
                outcomes@,
                now as int,
            )),
        (!ctx.preview && cancel_after_batches is None) ==> forall|k: int|
            0 <= k < old(store)@.len() && ctx_sel(
                    *ctx,
                    phase,
                #[trigger] old(store)@[k],
            ) ==> final (store)@[k] == index_visit(phase, old(store)@[k], outcomes@, now as int),
        exists|cursor: Option<Seq<char>>|
            index_sweep_reported(
                old(store)@,
            *ctx,
            phase,
                outcomes@,
                ctx.preview,
                cancel_after_batches,
                stats,
                cursor,
            ),
        (cancel_after_batches is None && !ctx.preview) ==> stats.succeeded == index_tally_all(
            old(store)@,
            *ctx,
            phase,
            outcomes@,
            Option::Some(true),
        ) && stats.failed == index_tally_all(
            old(store)@,
            *ctx,
            phase,
            outcomes@,
            Option::Some(false),
        ),
        (cancel_after_batches is None && ctx.preview) ==> stats.succeeded == index_tally_all(
            old(store)@,
            *ctx,
            phase,
            outcomes@,
            Option::None,
        ) && stats.failed == 0,
{
    let ghost rows0 = store@;
    let total_rows = store.len();
    proof {
        assert(rows0.len() == total_rows);
    }
    let preview = ctx.preview;
    let failed_only = match ctx.run_options.selection_mode {
        IndexSelectionMode::FailedOnly => true,
        IndexSelectionMode::PendingOnly => false,
    };
    let message_filter: Option<&str> = match &ctx.run_options.message_filter {
        Option::None => Option::None,
        Option::Some(s) => Option::Some(s.as_str()),
    };
    let filt = RowFilter::Candidates {
        phase,
        failed_only,
        oai_repository: ctx.oai_repository.as_str(),
        max_attempts: ctx.run_options.max_attempts,
        message_filter,
    };
    let endpoint: &str = ctx.endpoint.as_str();
    let metadata_prefix: &str = ctx.metadata_prefix.as_str();
    let mut last: Option<String> = Option::None;
    let ghost mut lastv: Option<Seq<char>> = Option::None;
    let mut succeeded: u64 = 0;
    let mut failed: u64 = 0;
    let mut batches: u64 = 0;
    let ghost mut last_idx: int = -1;
    let ghost mut av: Seq<int> = Seq::empty();
    let mut completed = false;
    loop
        invariant_except_break
            !completed,
            cancel_after_batches is Some ==> av.len() == (BATCH_SIZE as int) * (batches as int),
            cancel_after_batches is Some ==> ((cancel_after_batches->Some_0 == 0 && batches == 0)
                || (cancel_after_batches->Some_0 > 0 && batches
                < cancel_after_batches->Some_0)),
        invariant
            store.wf(),
            crate::store::store_wf_rows(rows0),
            rows0.len() <= usize::MAX,
            store@.len() == rows0.len(),
            lastv == (match last {
                Option::None => Option::<Seq<char>>::None,
                Option::Some(l) => Option::Some(l@),
            }),
            lastv is Some ==> 0 <= last_idx < rows0.len() && rows0[last_idx].identifier
                == lastv->Some_0 && ctx_sel(
                    *ctx,
                    phase, rows0[last_idx]),
            lastv is None ==> last_idx == -1,
            preview ==> store@ == rows0 && failed == 0,
            forall|k: int|
                0 <= k < rows0.len() && after_last((#[trigger] rows0[k]).identifier, lastv)
                    ==> store@[k] == rows0[k],
            forall|k: int|
                0 <= k < rows0.len() ==> store@[k] == rows0[k] || (ctx_sel(
                    *ctx,
                    phase,
                    #[trigger] rows0[k],
                ) && store@[k] == index_visit(phase, rows0[k], outcomes@, now as int)),
            !preview ==> forall|k: int|
                0 <= k < rows0.len() && ctx_sel(
                    *ctx,
                    phase,
                    #[trigger] rows0[k],
                ) && !after_last(rows0[k].identifier, lastv) ==> store@[k] == index_visit(
                    phase,
                    rows0[k],
                    outcomes@,
                    now as int,
                ),
            forall|r: RecordRowView| #[trigger] filter_sel(filt, endpoint@, metadata_prefix@, r)
                == ctx_sel(
                    *ctx,
                    phase, r),
            endpoint@ == ctx.endpoint@,
            metadata_prefix@ == ctx.metadata_prefix@,
            preview == ctx.preview,
            // the visited positions enumerate, in increasing order, exactly
            // the selected rows at or before the cursor
            forall|j: int| 0 <= j < av.len() ==> 0 <= #[trigger] av[j] < rows0.len(),
            forall|j1: int, j2: int|
                0 <= j1 < j2 < av.len() ==> #[trigger] av[j1] < #[trigger] av[j2],
            forall|j: int|
                0 <= j < av.len() ==> ctx_sel(
                    *ctx,
                    phase,
                    rows0[#[trigger] av[j]],
                ) && !after_last(rows0[av[j]].identifier, lastv),
            forall|k: int|
                0 <= k < rows0.len() && ctx_sel(
                    *ctx,
                    phase,
                    #[trigger] rows0[k],
                ) && !after_last(rows0[k].identifier, lastv) ==> exists|j: int|
                    0 <= j < av.len() && #[trigger] av[j] == k,
            !preview ==> succeeded == index_visited_tally(rows0, outcomes@, av, Option::Some(true))
                && failed == index_visited_tally(rows0, outcomes@, av, Option::Some(false)),
            preview ==> succeeded == av.len(),
        ensures
            store.wf(),
            store@.len() == rows0.len(),
            preview ==> store@ == rows0 && failed == 0,
            forall|k: int|
                0 <= k < rows0.len() ==> store@[k] == rows0[k] || (ctx_sel(
                    *ctx,
                    phase,
                    #[trigger] rows0[k],
                ) && store@[k] == index_visit(phase, rows0[k], outcomes@, now as int)),
            (!preview && completed) ==> forall|k: int|
                0 <= k < rows0.len() && ctx_sel(
                    *ctx,
                    phase,
                    #[trigger] rows0[k],
                ) ==> store@[k] == index_visit(phase, rows0[k], outcomes@, now as int),
            completed ==> forall|k: int|
                0 <= k < rows0.len() && ctx_sel(
                    *ctx,
                    phase,
                    #[trigger] rows0[k],
                ) ==> !after_last(rows0[k].identifier, lastv),
            !completed ==> cancel_after_batches is Some && succeeded + failed == (
            BATCH_SIZE as int) * (if cancel_after_batches->Some_0 == 0 {
                1int
            } else {
                cancel_after_batches->Some_0 as int
            }),
            completed || !(cancel_after_batches is None),
        decreases rows0.len() - last_idx,
    {
        let ghost store_b = store@;
        let last_ref: Option<&str> = match &last {
            Option::None => Option::None,
            Option::Some(l) => Option::Some(l.as_str()),
        };
        let page = fetch_page(store, endpoint, metadata_prefix, &filt, last_ref);
        let ghost pagev = page@.map_values(|x: crate::oai::OaiRecordId| x@);
        proof {
            assert(opt_view(last_ref) == lastv);
            assert(forall|j: int| 0 <= j < pagev.len() ==> #[trigger] pagev[j] == page@[j]@);
        }
        if page.len() == 0 {
            proof {
                // every selected row lies at or before the cursor, else it
                // would have been selected into this page
                assert forall|k: int|
                    0 <= k < rows0.len() && ctx_sel(
                    *ctx,
                    phase,
                        #[trigger] rows0[k],
                    ) implies !after_last(rows0[k].identifier, lastv) by {
                    if after_last(rows0[k].identifier, lastv) {
                        assert(store@[k] == rows0[k]);
                        assert(filter_sel(filt, endpoint@, metadata_prefix@, store@[k]));
                        assert(page_returns_id(pagev, store@[k].identifier) || (pagev.len()
                            == BATCH_SIZE && lex_lt(
                            pagev[BATCH_SIZE - 1].identifier,
                            store@[k].identifier,
                        )));
                        assert(false);
                    }
                }
            }
            completed = true;
            break ;
        }
        let ghost batches_entry = batches;
        let ghost av_entry = av;
        if batches < u64::MAX {
            batches = batches + 1;
        }
        let short_page = page.len() < BATCH_SIZE;
        let page_len = page.len();
        let new_last = page[page_len - 1].identifier.clone();
        let ghost new_lastv = Option::Some(new_last@);
        // locate the batch tail in the store, for the termination measure
        let ghost mut tail_idx: int = 0;
        proof {
            assert(page_names_row(store_b, |r: RecordRowView| filter_sel(filt, endpoint@, metadata_prefix@, r), lastv, pagev[pagev.len() - 1]));
            let kt = choose|k: int|
                0 <= k < store_b.len() && filter_sel(filt, endpoint@, metadata_prefix@, #[trigger] store_b[k])
                    && after_last(store_b[k].identifier, lastv) && pagev[pagev.len() - 1].identifier
                    == store_b[k].identifier && pagev[pagev.len() - 1].fingerprint
                    == store_b[k].fingerprint;
            tail_idx = kt;
            // the tail row is untouched, so it is a row of the start state
            assert(store_b[kt] == rows0[kt]);
            if lastv is Some {
                // the tail sorts after the previous cursor, so the measure shrinks
                crate::text::lemma_lex_lt_asym(lastv->Some_0, rows0[kt].identifier);
                if kt < last_idx {
                    assert(crate::record::key_lt(rows0[kt], rows0[last_idx]));
                    crate::query::lemma_same_partition_order(rows0[kt], rows0[last_idx]);
                    crate::text::lemma_lex_lt_asym(rows0[kt].identifier, rows0[last_idx].identifier);
                    assert(false);
                } else if kt == last_idx {
                    crate::text::lemma_lex_lt_irrefl(rows0[kt].identifier);
                    assert(false);
                }
            }
            assert(tail_idx > last_idx);
            // rows already visited lie at or before the old cursor, hence
            // strictly before the new batch tail
            assert forall|j: int| 0 <= j < av.len() implies !lex_lt(
                new_last@,
                rows0[#[trigger] av[j]].identifier,
            ) by {
                assert(!after_last(rows0[av[j]].identifier, lastv));
                let l = lastv->Some_0;
                assert(after_last(pagev[pagev.len() - 1].identifier, lastv));
                if lex_lt(new_last@, rows0[av[j]].identifier) {
                    crate::text::lemma_lex_lt_trans(l, new_last@, rows0[av[j]].identifier);
                    assert(false);
                }
            }
        }
        let mut t: usize = 0;
        let ghost mut dones: Seq<int> = Seq::empty();
        while t < page_len
            invariant
                0 <= t <= page_len,
                page_len == page@.len(),
                page_len == pagev.len(),
                store.wf(),
                crate::store::store_wf_rows(rows0),
                rows0.len() <= usize::MAX,
                store@.len() == rows0.len(),
                store_b.len() == rows0.len(),
                forall|j: int| 0 <= j < pagev.len() ==> #[trigger] pagev[j] == page@[j]@,
                page_post(
                    store_b,
                    |r: RecordRowView| filter_sel(filt, endpoint@, metadata_prefix@, r),
                    lastv,
                    pagev,
                ),
                forall|r: RecordRowView| #[trigger] filter_sel(
                    filt,
                    endpoint@,
                    metadata_prefix@,
                    r,
                ) == ctx_sel(
                    *ctx,
                    phase, r),
                endpoint@ == ctx.endpoint@,
                metadata_prefix@ == ctx.metadata_prefix@,
                preview == ctx.preview,
                new_last@ == pagev[pagev.len() - 1].identifier,
                // start-state frame facts, inherited from the outer loop
                preview ==> store@ == rows0 && store_b == rows0 && failed == 0,
                forall|k: int|
                    0 <= k < rows0.len() && after_last((#[trigger] rows0[k]).identifier, lastv)
                        ==> store_b[k] == rows0[k],
                forall|k: int|
                    0 <= k < rows0.len() ==> store_b[k] == rows0[k] || (ctx_sel(
                    *ctx,
                    phase,
                        #[trigger] rows0[k],
                    ) && store_b[k] == index_visit(phase, rows0[k], outcomes@, now as int)),
                !preview ==> forall|k: int|
                    0 <= k < rows0.len() && ctx_sel(
                    *ctx,
                    phase,
                        #[trigger] rows0[k],
                    ) && !after_last(rows0[k].identifier, lastv) ==> store_b[k]
                        == index_visit(phase, rows0[k], outcomes@, now as int),
                // progress within the batch
                dones.len() == t,
                av == av_entry + dones,
                forall|j: int| 0 <= j < av.len() ==> 0 <= #[trigger] av[j] < rows0.len(),
                forall|j1: int, j2: int|
                    0 <= j1 < j2 < av.len() ==> #[trigger] av[j1] < #[trigger] av[j2],
                forall|j: int|
                    0 <= j < av.len() ==> ctx_sel(
                    *ctx,
                    phase,
                        rows0[#[trigger] av[j]],
                    ) && !lex_lt(new_last@, rows0[av[j]].identifier),
                forall|j: int|
                    0 <= j < av_entry.len() ==> !after_last(
                        rows0[#[trigger] av_entry[j]].identifier,
                        lastv,
                    ),
                forall|k: int|
                    0 <= k < rows0.len() && ctx_sel(
                    *ctx,
                    phase,
                        #[trigger] rows0[k],
                    ) && !after_last(rows0[k].identifier, lastv) ==> exists|j: int|
                        0 <= j < av_entry.len() && #[trigger] av_entry[j] == k,
                forall|j: int|
                    0 <= j < t ==> 0 <= #[trigger] dones[j] < rows0.len()
                        && rows0[dones[j]].identifier == pagev[j].identifier && ctx_sel(
                    *ctx,
                    phase,
                        rows0[dones[j]],
                    ),
                !preview ==> forall|j: int|
                    0 <= j < t ==> store@[#[trigger] dones[j]] == index_visit(
                        phase,
                        rows0[dones[j]],
                        outcomes@,
                        now as int,
                    ),
                // frame within the batch
                forall|k: int|
                    0 <= k < rows0.len() ==> #[trigger] store@[k] == store_b[k] || (ctx_sel(
                    *ctx,
                    phase,
                        rows0[k],
                    ) && store@[k] == index_visit(phase, rows0[k], outcomes@, now as int)
                        && !lex_lt(new_last@, rows0[k].identifier) && (exists|j: int|
                        0 <= j < t && #[trigger] dones[j] == k)),
                // the running tallies count the visited rows
                !preview ==> succeeded == index_visited_tally(rows0, outcomes@, av, Option::Some(true))
                    && failed == index_visited_tally(rows0, outcomes@, av, Option::Some(false)),
                preview ==> succeeded == av.len(),
            decreases page_len - t,
        {
            let id_str = page[t].identifier.as_str();
            let ghost dones_entry = dones;
            let ghost av_item = av;
            proof {
                assert(pagev[t as int] == page@[t as int]@);
                assert(page_names_row(
                    store_b,
                    |r: RecordRowView| filter_sel(filt, endpoint@, metadata_prefix@, r),
                    lastv,
                    pagev[t as int],
                ));
            }
            let ghost kt: int = choose|k: int|
                0 <= k < store_b.len() && filter_sel(
                    filt,
                    endpoint@,
                    metadata_prefix@,
                    #[trigger] store_b[k],
                ) && after_last(store_b[k].identifier, lastv) && pagev[t as int].identifier
                    == store_b[k].identifier && pagev[t as int].fingerprint
                    == store_b[k].fingerprint;
            proof {
                // the row is untouched both since the start and within the batch
                assert(store_b[kt] == rows0[kt]);
                assert(ctx_sel(
                    *ctx,
                    phase, rows0[kt]));
                if store@[kt] != store_b[kt] {
                    // the row would have been visited by an earlier page
                    // entry carrying the same identifier, but page
                    // identifiers are strictly increasing
                    let j = choose|j: int| 0 <= j < t && #[trigger] dones[j] == kt;
                    assert(rows0[kt].identifier == pagev[j].identifier);
                    assert(pagev[j].identifier == pagev[t as int].identifier);
                    assert(lex_lt(pagev[j].identifier, pagev[t as int].identifier));
                    crate::text::lemma_lex_lt_irrefl(pagev[j].identifier);
                    assert(false);
                }
                assert(store@[kt] == rows0[kt]);
                // the visited row does not pass the batch tail, and follows
                // every row visited before it
                if t as int == pagev.len() - 1 {
                    crate::text::lemma_lex_lt_irrefl(rows0[kt].identifier);
                } else {
                    assert(lex_lt(pagev[t as int].identifier, pagev[pagev.len() - 1].identifier));
                    crate::text::lemma_lex_lt_asym(
                        pagev[t as int].identifier,
                        pagev[pagev.len() - 1].identifier,
                    );
                }
                assert(!lex_lt(new_last@, rows0[kt].identifier));
                assert forall|j: int| 0 <= j < av.len() implies #[trigger] av[j] < kt by {
                    if av[j] == kt {
                        if j < av_entry.len() {
                            assert(!after_last(rows0[kt].identifier, lastv));
                            assert(after_last(store_b[kt].identifier, lastv));
                        } else {
                            assert(dones[j - av_entry.len()] == kt);
                            assert(rows0[kt].identifier == pagev[j - av_entry.len()].identifier);
                            assert(lex_lt(
                                pagev[j - av_entry.len()].identifier,
                                pagev[t as int].identifier,
                            ));
                            crate::text::lemma_lex_lt_irrefl(pagev[t as int].identifier);
                        }
                        assert(false);
                    } else if av[j] > kt {
                        assert(crate::record::key_lt(rows0[kt], rows0[av[j]]));
                        crate::query::lemma_same_partition_order(rows0[kt], rows0[av[j]]);
                        if j < av_entry.len() {
                            // an already-covered row cannot sort after this one
                            assert(!after_last(rows0[av[j]].identifier, lastv));
                            assert(after_last(rows0[kt].identifier, lastv));
                            let l = lastv->Some_0;
                            crate::text::lemma_lex_lt_trans(
                                l,
                                rows0[kt].identifier,
                                rows0[av[j]].identifier,
                            );
                            assert(false);
                        } else {
                            // an earlier page entry cannot sort after this one
                            assert(rows0[av[j]].identifier == pagev[j - av_entry.len()].identifier);
                            assert(lex_lt(
                                pagev[j - av_entry.len()].identifier,
                                pagev[t as int].identifier,
                            ));
                            crate::text::lemma_lex_lt_asym(
                                pagev[j - av_entry.len()].identifier,
                                pagev[t as int].identifier,
                            );
                            assert(false);
                        }
                    }
                }
            }
            if !preview {
                let outcome = find_index_outcome(outcomes, id_str);
                let ghost rows_pre = store@;
                match outcome {
                    Option::Some(Result::Ok(_)) => {
                        match phase {
                            RecordPhase::Index => {
                                let _ = crate::db::do_mark_index_success_query(
                                    store,
                                    UpdateIndexStatusParams {
                                        endpoint,
                                        metadata_prefix,
                                        identifier: id_str,
                                    },
                                    now,
                                );
                            },
                            RecordPhase::Purge => {
                                let _ = crate::db::do_mark_purge_success_query(
                                    store,
                                    UpdateIndexStatusParams {
                                        endpoint,
                                        metadata_prefix,
                                        identifier: id_str,
                                    },
                                    now,
                                );
                            },
                        }
                    },
                    Option::Some(Result::Err(m)) => {
                        let message = crate::text::truncate_middle(
                            m.as_str(),
                            MESSAGE_HEAD,
                            MESSAGE_TAIL,
                        );
                        match phase {
                            RecordPhase::Index => {
                                let _ = crate::db::do_mark_index_failure_query(
                                    store,
                                    UpdateIndexFailureParams {
                                        endpoint,
                                        metadata_prefix,
                                        identifier: id_str,
                                        message: message.as_str(),
                                    },
                                    now,
                                );
                            },
                            RecordPhase::Purge => {
                                let _ = crate::db::do_mark_purge_failure_query(
                                    store,
                                    UpdateIndexFailureParams {
                                        endpoint,
                                        metadata_prefix,
                                        identifier: id_str,
                                        message: message.as_str(),
                                    },
                                    now,
                                );
                            },
                        }
                    },
                    Option::None => {
                        let message = crate::text::truncate_middle(
                            "no work result for record",
                            MESSAGE_HEAD,
                            MESSAGE_TAIL,
                        );
                        match phase {
                            RecordPhase::Index => {
                                let _ = crate::db::do_mark_index_failure_query(
                                    store,
                                    UpdateIndexFailureParams {
                                        endpoint,
                                        metadata_prefix,
                                        identifier: id_str,
                                        message: message.as_str(),
                                    },
                                    now,
                                );
                            },
                            RecordPhase::Purge => {
                                let _ = crate::db::do_mark_purge_failure_query(
                                    store,
                                    UpdateIndexFailureParams {
                                        endpoint,
                                        metadata_prefix,
                                        identifier: id_str,
                                        message: message.as_str(),
                                    },
                                    now,
                                );
                            },
                        }
                    },
                }
                proof {
                    // the guarded statement hit exactly the batch row
                    let m = match_idx(rows_pre, endpoint@, metadata_prefix@, id_str@);
                    lemma_match_idx(rows_pre, endpoint@, metadata_prefix@, id_str@);
                    assert(crate::record::has_key(rows_pre[kt], endpoint@, metadata_prefix@, id_str@));
                    assert(m is Some);
                    lemma_key_unique(rows_pre, m->Some_0, kt);
                    assert(m == Option::Some(kt));
                    assert(rows_pre[kt] == rows0[kt]);
                    assert(store@ =~= rows_pre.update(
                        kt,
                        index_visit(phase, rows0[kt], outcomes@, now as int),
                    ));
                    dones = dones.push(kt);
                    av = av.push(kt);
                    assert(dones[t as int] == kt);
                    assert(forall|j: int| 0 <= j < t ==> #[trigger] dones[j] == dones_entry[j]);
                    assert(av =~= av_entry + dones);
                }
                proof {
                    let t0 = t as int;
                    assert forall|k: int| 0 <= k < rows0.len() implies #[trigger] store@[k]
                        == store_b[k] || (ctx_sel(
                    *ctx,
                    phase, rows0[k])
                        && store@[k] == index_visit(phase, rows0[k], outcomes@, now as int)
                        && !lex_lt(new_last@, rows0[k].identifier) && (exists|j: int|
                        0 <= j < t0 + 1 && #[trigger] dones[j] == k)) by {
                        if store@[k] != store_b[k] {
                            if k == kt {
                                assert(dones[t0] == k);
                            } else {
                                assert(rows_pre[k] == store@[k]);
                                let j = choose|j: int| 0 <= j < t0 && #[trigger] dones_entry[j] == k;
                                assert(dones[j] == dones_entry[j]);
                            }
                        }
                    }
                    // the tallies stay exact: one more visited row, counted
                    // by its work result
                    assert(av.drop_last() =~= av_item);
                    assert(av.last() == kt);
                    assert(rows0[kt].identifier == id_str@);
                    crate::worker::lemma_increasing_len_bound(av, rows0.len() as int);
                    lemma_index_visited_tally_len(rows0, outcomes@, av_item);
                }
                let was_ok = index_outcome_is_success(&outcome);
                proof {
                    assert(index_work_ok(outcomes@, rows0[kt]) == was_ok);
                    assert(succeeded <= av_item.len() && failed <= av_item.len());
                    assert(av.len() == av_item.len() + 1);
                    assert(av.len() <= rows0.len());
                }
                if was_ok {
                    succeeded = succeeded + 1;
                } else {
                    failed = failed + 1;
                }
            } else {
                proof {
                    dones = dones.push(kt);
                    av = av.push(kt);
                    assert(dones[t as int] == kt);
                    assert(forall|j: int| 0 <= j < t ==> #[trigger] dones[j] == dones_entry[j]);
                    assert(av =~= av_entry + dones);
                    crate::worker::lemma_increasing_len_bound(av, rows0.len() as int);
                    assert(succeeded == av_item.len());
                    assert(av.len() <= rows0.len());
                }
                succeeded = succeeded + 1;
            }
            t = t + 1;
        }
        // the batch is done: every selected row up to the new cursor has
        // been visited
        proof {
            if !preview {
                assert forall|k: int|
                    0 <= k < rows0.len() && ctx_sel(
                    *ctx,
                    phase,
                        #[trigger] rows0[k],
                    ) && !after_last(rows0[k].identifier, new_lastv) implies store@[k]
                    == index_visit(phase, rows0[k], outcomes@, now as int) by {
                    if !after_last(rows0[k].identifier, lastv) {
                        // visited in an earlier batch, untouched in this one
                        assert(store_b[k] == index_visit(phase, rows0[k], outcomes@, now as int));
                        if store@[k] != store_b[k] {
                            assert(store@[k] == index_visit(
                                phase,
                                rows0[k],
                                outcomes@,
                                now as int,
                            ));
                        }
                    } else {
                        // selected into this batch: the page is complete
                        assert(store_b[k] == rows0[k]);
                        assert(filter_sel(filt, endpoint@, metadata_prefix@, store_b[k]));
                        if page_returns_id(pagev, store_b[k].identifier) {
                            let j = choose|j: int|
                                0 <= j < pagev.len() && (#[trigger] pagev[j]).identifier
                                    == store_b[k].identifier;
                            let kj = dones[j];
                            assert(rows0[kj].identifier == rows0[k].identifier);
                            assert(rows0[kj].endpoint == rows0[k].endpoint);
                            assert(rows0[kj].metadata_prefix == rows0[k].metadata_prefix);
                            lemma_key_unique(rows0, kj, k);
                            assert(store@[k] == index_visit(
                                phase,
                                rows0[k],
                                outcomes@,
                                now as int,
                            ));
                        } else {
                            // beyond a full batch: contradicts the new cursor
                            assert(pagev.len() == BATCH_SIZE && lex_lt(
                                pagev[BATCH_SIZE - 1].identifier,
                                store_b[k].identifier,
                            ));
                            crate::text::lemma_lex_lt_asym(
                                new_last@,
                                rows0[k].identifier,
                            );
                            assert(false);
                        }
                    }
                }
            }
            // the visited positions now cover the new cursor's region
            assert forall|k: int|
                0 <= k < rows0.len() && ctx_sel(
                    *ctx,
                    phase,
                    #[trigger] rows0[k],
                ) && !after_last(rows0[k].identifier, new_lastv) implies exists|j: int|
                0 <= j < av.len() && #[trigger] av[j] == k by {
                if !after_last(rows0[k].identifier, lastv) {
                    let j = choose|j: int| 0 <= j < av_entry.len() && #[trigger] av_entry[j] == k;
                    assert(av[j] == k);
                } else {
                    assert(store_b[k] == rows0[k]);
                    assert(filter_sel(filt, endpoint@, metadata_prefix@, store_b[k]));
                    if page_returns_id(pagev, store_b[k].identifier) {
                        let j = choose|j: int|
                            0 <= j < pagev.len() && (#[trigger] pagev[j]).identifier
                                == store_b[k].identifier;
                        let kj = dones[j];
                        assert(rows0[kj].identifier == rows0[k].identifier);
                        assert(rows0[kj].endpoint == rows0[k].endpoint);
                        assert(rows0[kj].metadata_prefix == rows0[k].metadata_prefix);
                        lemma_key_unique(rows0, kj, k);
                        assert(av[av_entry.len() + j] == k);
                    } else {
                        assert(pagev.len() == BATCH_SIZE && lex_lt(
                            pagev[BATCH_SIZE - 1].identifier,
                            store_b[k].identifier,
                        ));
                        crate::text::lemma_lex_lt_asym(new_last@, rows0[k].identifier);
                        assert(false);
                    }
                }
            }
        }
        let ghost lastv_prev = lastv;
        proof {
            // rows beyond the new cursor were untouched before and during
            // the batch
            assert(after_last(pagev[pagev.len() - 1].identifier, lastv));
            assert forall|k: int|
                0 <= k < rows0.len() && after_last(
                    (#[trigger] rows0[k]).identifier,
                    new_lastv,
                ) implies store@[k] == rows0[k] by {
                if store@[k] != rows0[k] {
                    assert(!preview);
                    if store_b[k] != rows0[k] {
                        // changed in an earlier batch: its identifier lies at
                        // or before the old cursor, which the new one passes
                        assert(!after_last(rows0[k].identifier, lastv));
                        let l = lastv->Some_0;
                        crate::text::lemma_lex_lt_trans(l, new_last@, rows0[k].identifier);
                        assert(false);
                    } else {
                        // changed in this batch: its identifier does not pass
                        // the new cursor
                        assert(!lex_lt(new_last@, rows0[k].identifier));
                        assert(false);
                    }
                }
            }
        }
        last = Option::Some(new_last);
        proof {
            lastv = Option::Some(new_last@);
            last_idx = tail_idx;
        }
        if short_page {
            proof {
                // a selected row beyond the new cursor would have extended
                // this short batch
                assert forall|k: int|
                    0 <= k < rows0.len() && ctx_sel(
                    *ctx,
                    phase,
                        #[trigger] rows0[k],
                    ) implies !after_last(rows0[k].identifier, lastv) by {
                    if after_last(rows0[k].identifier, lastv) {
                        assert(store@[k] == rows0[k]);
                        assert(after_last(rows0[k].identifier, lastv_prev)) by {
                            if lastv_prev is Some {
                                crate::text::lemma_lex_lt_trans(
                                    lastv_prev->Some_0,
                                    new_last@,
                                    rows0[k].identifier,
                                );
                            }
                        }
                        assert(store_b[k] == rows0[k]);
                        assert(filter_sel(filt, endpoint@, metadata_prefix@, store_b[k]));
                        if page_returns_id(pagev, store_b[k].identifier) {
                            let j = choose|j: int|
                                0 <= j < pagev.len() && (#[trigger] pagev[j]).identifier
                                    == store_b[k].identifier;
                            // but page identifiers do not pass the new cursor
                            if j < pagev.len() - 1 {
                                crate::text::lemma_lex_lt_trans(
                                    new_last@,
                                    pagev[j].identifier,
                                    new_last@,
                                );
                                crate::text::lemma_lex_lt_irrefl(new_last@);
                            } else {
                                crate::text::lemma_lex_lt_irrefl(new_last@);
                            }
                            assert(false);
                        } else {
                            assert(pagev.len() == BATCH_SIZE && lex_lt(
                                pagev[BATCH_SIZE - 1].identifier,
                                store_b[k].identifier,
                            ));
                            assert(false);
                        }
                    }
                }
            }
            completed = true;
            break ;
        }
        match cancel_after_batches {
            Option::Some(c) => {
                if batches >= c {
                    proof {
                        // every batch so far was full: the tallies count
                        // exactly the bounded run's batches
                        assert(av.len() == av_entry.len() + (BATCH_SIZE as int));
                        assert(av.len() == (BATCH_SIZE as int) * (batches as int));
                        assert(batches as int == (if c == 0 { 1int } else { c as int }));
                        if !preview {
                            lemma_index_visited_tally_len(rows0, outcomes@, av);
                        }
                    }
                    break ;
                }
            },
            Option::None => {},
        }
    }
    proof {
        if !preview {
            lemma_index_enumeration_tally(
                rows0,
                *ctx,
                phase,
                outcomes@,
                lastv,
                av,
                Option::Some(true),
            );
            lemma_index_enumeration_tally(
                rows0,
                *ctx,
                phase,
                outcomes@,
                lastv,
                av,
                Option::Some(false),
            );
        } else {
            lemma_index_enumeration_tally(
                rows0,
                *ctx,
                phase,
                outcomes@,
                lastv,
                av,
                Option::None,
            );
            lemma_index_visited_tally_len(rows0, outcomes@, av);
        }
        if completed {
            lemma_index_tally_covered(
                rows0,
                *ctx,
                phase,
                outcomes@,
                lastv,
                Option::Some(true),
            );
            lemma_index_tally_covered(
                rows0,
                *ctx,
                phase,
                outcomes@,
                lastv,
                Option::Some(false),
            );
            lemma_index_tally_covered(
                rows0,
                *ctx,
                phase,
                outcomes@,
                lastv,
                Option::None,
            );
        }
        assert(index_sweep_reported(
            rows0,
                *ctx,
                phase,
            outcomes@,
            preview,
            cancel_after_batches,
            ProcessStats { succeeded, failed },
            lastv,
        ));
    }
    ProcessStats { succeeded, failed }
}

/// A visit never changes a row's harvest status, identity or datestamp.
pub proof fn lemma_index_visit_frame(
    phase: RecordPhase,
    r: RecordRowView,
    outs: Seq<IndexOutcome>,
    now: int,
)
    ensures
        index_visit(phase, r, outs, now).status == r.status,
        index_visit(phase, r, outs, now).endpoint == r.endpoint,
        index_visit(phase, r, outs, now).metadata_prefix == r.metadata_prefix,
        index_visit(phase, r, outs, now).identifier == r.identifier,
        match phase {
            RecordPhase::Index => index_visit(phase, r, outs, now).index_status
                == crate::oai::OaiIndexStatus::Indexed || index_visit(
                phase,
                r,
                outs,
                now,
            ).index_status == crate::oai::OaiIndexStatus::IndexFailed,
            RecordPhase::Purge => index_visit(phase, r, outs, now).index_status
                == crate::oai::OaiIndexStatus::Purged || index_visit(
                phase,
                r,
                outs,
                now,
            ).index_status == crate::oai::OaiIndexStatus::PurgeFailed,
        },
{
}

/// Two row states with pointwise equal selection and identifiers tally
/// the same.
proof fn lemma_index_tally_all_congruent(
    rows_a: Seq<RecordRowView>,
    rows_b: Seq<RecordRowView>,
    ctx: IndexerContext,
    phase: RecordPhase,
    outs: Seq<IndexOutcome>,
    want_ok: Option<bool>,
)
    requires
        rows_a.len() == rows_b.len(),
        forall|k: int|
            0 <= k < rows_a.len() ==> (#[trigger] rows_a[k]).identifier == rows_b[k].identifier
                && (ctx_sel(ctx, phase, rows_a[k]) <==> ctx_sel(ctx, phase, rows_b[k])),
    ensures
        index_tally_all(rows_a, ctx, phase, outs, want_ok) == index_tally_all(
            rows_b,
            ctx,
            phase,
            outs,
            want_ok,
        ),
    decreases rows_a.len(),
{
    if rows_a.len() > 0 {
        assert(forall|k: int|
            0 <= k < rows_a.len() - 1 ==> #[trigger] rows_a.drop_last()[k] == rows_a[k]);
        assert(forall|k: int|
            0 <= k < rows_b.len() - 1 ==> #[trigger] rows_b.drop_last()[k] == rows_b[k]);
        lemma_index_tally_all_congruent(
            rows_a.drop_last(),
            rows_b.drop_last(),
            ctx,
            phase,
            outs,
            want_ok,
        );
        assert(rows_a[rows_a.len() - 1] == rows_a.last());
        assert(rows_b[rows_b.len() - 1] == rows_b.last());
    }
}

/// The index and purge selections are disjoint (one wants parsed rows, the
/// other deleted rows), so their failure tallies together never exceed the
/// row count.
proof fn lemma_index_tally_all_disjoint(
    rows: Seq<RecordRowView>,
    ctx: IndexerContext,
    outs_index: Seq<IndexOutcome>,
    outs_purge: Seq<IndexOutcome>,
    want_index: Option<bool>,
    want_purge: Option<bool>,
)
    ensures
        0 <= index_tally_all(rows, ctx, RecordPhase::Index, outs_index, want_index),
        0 <= index_tally_all(rows, ctx, RecordPhase::Purge, outs_purge, want_purge),
        index_tally_all(rows, ctx, RecordPhase::Index, outs_index, want_index) + index_tally_all(
            rows,
            ctx,
            RecordPhase::Purge,
            outs_purge,
            want_purge,
        ) <= rows.len(),
    decreases rows.len(),
{
    if rows.len() > 0 {
        lemma_index_tally_all_disjoint(
            rows.drop_last(),
            ctx,
            outs_index,
            outs_purge,
            want_index,
            want_purge,
        );
    }
}

/// Runs the index phase and then the purge phase over the store and
/// reports both tallies. A run with any failed record surfaces an error
/// naming the failure count, while every per-record transition stays
/// persisted.
pub fn run(
    store: &mut RecordStore,
    ctx: &IndexerContext,
    index_outcomes: &Vec<IndexOutcome>,
    purge_outcomes: &Vec<IndexOutcome>,
    cancel_after_batches: Option<u64>,
    now: u64,
) -> (r: Result<(ProcessStats, ProcessStats), String>)
    requires
        old(store).wf(),
    ensures
        final (store).wf(),
        final (store)@.len() == old(store)@.len(),
        ctx.preview ==> final (store)@ == old(store)@,
        forall|k: int|
            0 <= k < old(store)@.len() ==> final (store)@[k] == old(store)@[k] || (ctx_sel(
                *ctx,
                RecordPhase::Index,
                #[trigger] old(store)@[k],
            ) && final (store)@[k] == index_visit(
                RecordPhase::Index,
                old(store)@[k],
                index_outcomes@,
                now as int,
            )) || (ctx_sel(*ctx, RecordPhase::Purge, old(store)@[k]) && final (store)@[k]
                == index_visit(RecordPhase::Purge, old(store)@[k], purge_outcomes@, now as int)),
        (!ctx.preview && cancel_after_batches is None) ==> forall|k: int|
            0 <= k < old(store)@.len() && ctx_sel(
                *ctx,
                RecordPhase::Index,
                #[trigger] old(store)@[k],
            ) ==> final (store)@[k] == index_visit(
                RecordPhase::Index,
                old(store)@[k],
                index_outcomes@,
                now as int,
            ),
        (!ctx.preview && cancel_after_batches is None) ==> forall|k: int|
            0 <= k < old(store)@.len() && ctx_sel(
                *ctx,
                RecordPhase::Purge,
                #[trigger] old(store)@[k],
            ) ==> final (store)@[k] == index_visit(
                RecordPhase::Purge,
                old(store)@[k],
                purge_outcomes@,
                now as int,
            ),
        match r {
            Result::Ok(stats) => stats.0.failed == 0 && stats.1.failed == 0,
            Result::Err(m) => exists|n: int|
                0 < n && m@ == "index run completed with "@ + crate::text::dec_digits(n)
                    + " failed record(s)"@,
        },
        ctx.preview ==> r is Ok,
        (!ctx.preview && cancel_after_batches is None) ==> ({
            let fi = index_tally_all(
                old(store)@,
                *ctx,
                RecordPhase::Index,
                index_outcomes@,
                Option::Some(false),
            );
            let fp = index_tally_all(
                old(store)@,
                *ctx,
                RecordPhase::Purge,
                purge_outcomes@,
                Option::Some(false),
            );
            &&& (r is Ok <==> fi == 0 && fp == 0)
            &&& (r is Ok ==> r->Ok_0.0.succeeded == index_tally_all(
                old(store)@,
                *ctx,
                RecordPhase::Index,
                index_outcomes@,
                Option::Some(true),
            ) && r->Ok_0.1.succeeded == index_tally_all(
                old(store)@,
                *ctx,
                RecordPhase::Purge,
                purge_outcomes@,
                Option::Some(true),
            ))
            &&& (r is Err ==> r->Err_0@ == "index run completed with "@ + crate::text::dec_digits(
                fi + fp,
            ) + " failed record(s)"@)
        }),
{
    let ghost rows0 = store@;
    let total_rows = store.len();
    proof {
        assert(rows0.len() == total_rows);
    }
    let indexed = process_records(store, ctx, RecordPhase::Index, index_outcomes, cancel_after_batches, now);
    let ghost mid = store@;
    let purged = process_records(store, ctx, RecordPhase::Purge, purge_outcomes, cancel_after_batches, now);
    proof {
        assert forall|k: int| 0 <= k < rows0.len() implies store@[k] == rows0[k] || (ctx_sel(
            *ctx,
            RecordPhase::Index,
            #[trigger] rows0[k],
        ) && store@[k] == index_visit(RecordPhase::Index, rows0[k], index_outcomes@, now as int))
            || (ctx_sel(*ctx, RecordPhase::Purge, rows0[k]) && store@[k] == index_visit(
            RecordPhase::Purge,
            rows0[k],
            purge_outcomes@,
            now as int,
        )) by {
            if store@[k] != mid[k] {
                // a purge visit touched the row; it cannot have been an
                // index candidate, so the purge saw the start state
                assert(ctx_sel(*ctx, RecordPhase::Purge, mid[k]));
                if mid[k] != rows0[k] {
                    lemma_index_visit_frame(RecordPhase::Index, rows0[k], index_outcomes@, now as int);
                    assert(false);
                }
            }
        }
        if !ctx.preview && cancel_after_batches is None {
            assert forall|k: int|
                0 <= k < rows0.len() && ctx_sel(
                    *ctx,
                    RecordPhase::Index,
                    #[trigger] rows0[k],
                ) implies store@[k] == index_visit(
                RecordPhase::Index,
                rows0[k],
                index_outcomes@,
                now as int,
            ) by {
                assert(mid[k] == index_visit(RecordPhase::Index, rows0[k], index_outcomes@, now as int));
                lemma_index_visit_frame(RecordPhase::Index, rows0[k], index_outcomes@, now as int);
                if store@[k] != mid[k] {
                    assert(ctx_sel(*ctx, RecordPhase::Purge, mid[k]));
                    assert(false);
                }
            }
            assert forall|k: int|
                0 <= k < rows0.len() && ctx_sel(
                    *ctx,
                    RecordPhase::Purge,
                    #[trigger] rows0[k],
                ) implies store@[k] == index_visit(
                RecordPhase::Purge,
                rows0[k],
                purge_outcomes@,
                now as int,
            ) by {
                if mid[k] != rows0[k] {
                    assert(ctx_sel(*ctx, RecordPhase::Index, rows0[k]));
                    assert(false);
                }
                assert(ctx_sel(*ctx, RecordPhase::Purge, mid[k]));
            }
        }
    }
    proof {
        if !ctx.preview && cancel_after_batches is None {
            // the purge selection never sees an index-visited row, so its
            // tallies over the intermediate state equal those over the
            // start state
            assert forall|k: int|
                0 <= k < rows0.len() implies (#[trigger] mid[k]).identifier == rows0[k].identifier
                    && (ctx_sel(*ctx, RecordPhase::Purge, mid[k]) <==> ctx_sel(
                    *ctx,
                    RecordPhase::Purge,
                    rows0[k],
                )) by {
                if mid[k] != rows0[k] {
                    assert(ctx_sel(*ctx, RecordPhase::Index, rows0[k]));
                    lemma_index_visit_frame(RecordPhase::Index, rows0[k], index_outcomes@, now as int);
                }
            }
            lemma_index_tally_all_congruent(
                mid,
                rows0,
                *ctx,
                RecordPhase::Purge,
                purge_outcomes@,
                Option::Some(false),
            );
            lemma_index_tally_all_congruent(
                mid,
                rows0,
                *ctx,
                RecordPhase::Purge,
                purge_outcomes@,
                Option::Some(true),
            );
            lemma_index_tally_all_disjoint(
                rows0,
                *ctx,
                index_outcomes@,
                purge_outcomes@,
                Option::Some(false),
                Option::Some(false),
            );
        }
    }
    let total_failed: u64 = if indexed.failed <= u64::MAX - purged.failed {
        indexed.failed + purged.failed
    } else {
        u64::MAX
    };
    if total_failed > 0 {
        let mut msg = String::from_str("index run completed with ");
        let count = crate::text::u64_to_dec(total_failed);
        msg.append(count.as_str());
        msg.append(" failed record(s)");
        proof {
            assert(msg@ =~= "index run completed with "@ + crate::text::dec_digits(
                total_failed as int,
            ) + " failed record(s)"@);
        }
        return Result::Err(msg);
    }
    Result::Ok((indexed, purged))
}

} // verus!
