//! The record store: a durable table keyed by (endpoint, metadata_prefix,
//! identifier), modelled as a sequence of rows sorted by that key. All
//! updates go through precondition-guarded statements in `db`.

use vstd::prelude::*;

use crate::record::has_key;
use crate::record::key_lt;
use crate::record::row_wf;
use crate::record::OaiRecordRow;
use crate::record::RecordRowView;
use crate::text::lex_lt;
use crate::text::lemma_lex_lt_irrefl;
use crate::text::lemma_lex_lt_total;

verus! {

/// The key ordering is irreflexive across rows that carry the same key.
pub proof fn lemma_key_lt_irrefl(a: RecordRowView, b: RecordRowView)
    requires
        a.endpoint == b.endpoint,
        a.metadata_prefix == b.metadata_prefix,
        a.identifier == b.identifier,
    ensures
        !key_lt(a, b),
{
    lemma_lex_lt_irrefl(a.endpoint);
    lemma_lex_lt_irrefl(a.metadata_prefix);
    lemma_lex_lt_irrefl(a.identifier);
}

/// Any two rows are key-ordered one way, the other way, or share the key.
pub proof fn lemma_key_total(a: RecordRowView, b: RecordRowView)
    ensures
        key_lt(a, b) || key_lt(b, a) || (a.endpoint == b.endpoint && a.metadata_prefix
            == b.metadata_prefix && a.identifier == b.identifier),
{
    lemma_lex_lt_total(a.endpoint, b.endpoint);
    lemma_lex_lt_total(a.metadata_prefix, b.metadata_prefix);
    lemma_lex_lt_total(a.identifier, b.identifier);
}

/// Key ordering is transitive.
pub proof fn lemma_key_trans(a: RecordRowView, b: RecordRowView, c: RecordRowView)
    requires
        key_lt(a, b),
        key_lt(b, c),
    ensures
        key_lt(a, c),
{
    if lex_lt(a.endpoint, b.endpoint) && lex_lt(b.endpoint, c.endpoint) {
        crate::text::lemma_lex_lt_trans(a.endpoint, b.endpoint, c.endpoint);
    }
    if a.endpoint == b.endpoint && b.endpoint == c.endpoint {
        if lex_lt(a.metadata_prefix, b.metadata_prefix) && lex_lt(
            b.metadata_prefix,
            c.metadata_prefix,
        ) {
            crate::text::lemma_lex_lt_trans(a.metadata_prefix, b.metadata_prefix, c.metadata_prefix);
        }
        if a.metadata_prefix == b.metadata_prefix && b.metadata_prefix == c.metadata_prefix {
            if lex_lt(a.identifier, b.identifier) && lex_lt(b.identifier, c.identifier) {
                crate::text::lemma_lex_lt_trans(a.identifier, b.identifier, c.identifier);
            }
        }
    }
}

/// Store well-formedness: every row is well-formed and rows are strictly
/// sorted by the identity key, which makes the identity triple unique.
pub open spec fn store_wf_rows(rows: Seq<RecordRowView>) -> bool {
    &&& (forall|i: int| 0 <= i < rows.len() ==> row_wf(#[trigger] rows[i]))
    &&& (forall|i: int, j: int|
        0 <= i < j < rows.len() ==> key_lt(#[trigger] rows[i], #[trigger] rows[j]))
}

/// The index of the row carrying the given key, if any.
pub open spec fn match_idx(
    rows: Seq<RecordRowView>,
    endpoint: Seq<char>,
    metadata_prefix: Seq<char>,
    identifier: Seq<char>,
) -> Option<int>
    decreases rows.len(),
{
    if rows.len() == 0 {
        Option::None
    } else if has_key(rows[0], endpoint, metadata_prefix, identifier) {
        Option::Some(0)
    } else {
        match match_idx(rows.skip(1), endpoint, metadata_prefix, identifier) {
            Option::Some(i) => Option::Some(i + 1),
            Option::None => Option::None,
        }
    }
}

/// `match_idx` finds exactly the first row that carries the key.
pub proof fn lemma_match_idx(
    rows: Seq<RecordRowView>,
    endpoint: Seq<char>,
    metadata_prefix: Seq<char>,
    identifier: Seq<char>,
)
    ensures
        match match_idx(rows, endpoint, metadata_prefix, identifier) {
            Option::Some(i) => 0 <= i < rows.len() && has_key(
                rows[i],
                endpoint,
                metadata_prefix,
                identifier,
            ) && forall|k: int|
                0 <= k < i ==> !has_key(#[trigger] rows[k], endpoint, metadata_prefix, identifier),
            Option::None => forall|k: int|
                0 <= k < rows.len() ==> !has_key(
                    #[trigger] rows[k],
                    endpoint,
                    metadata_prefix,
                    identifier,
                ),
        },
    decreases rows.len(),
{
    if rows.len() > 0 && !has_key(rows[0], endpoint, metadata_prefix, identifier) {
        lemma_match_idx(rows.skip(1), endpoint, metadata_prefix, identifier);
        match match_idx(rows.skip(1), endpoint, metadata_prefix, identifier) {
            Option::Some(i) => {
                assert(rows[i + 1] == rows.skip(1)[i]);
                assert forall|k: int| 0 <= k < i + 1 implies !has_key(
                    #[trigger] rows[k],
                    endpoint,
                    metadata_prefix,
                    identifier,
                ) by {
                    if k > 0 {
                        assert(rows[k] == rows.skip(1)[k - 1]);
                    }
                }
            },
            Option::None => {
                assert forall|k: int| 0 <= k < rows.len() implies !has_key(
                    #[trigger] rows[k],
                    endpoint,
                    metadata_prefix,
                    identifier,
                ) by {
                    if k > 0 {
                        assert(rows[k] == rows.skip(1)[k - 1]);
                    }
                }
            },
        }
    }
}

/// A row that carries the key, with no earlier row carrying it, is the one
/// `match_idx` names.
pub proof fn lemma_match_idx_is(
    rows: Seq<RecordRowView>,
    endpoint: Seq<char>,
    metadata_prefix: Seq<char>,
    identifier: Seq<char>,
    i: int,
)
    requires
        0 <= i < rows.len(),
        has_key(rows[i], endpoint, metadata_prefix, identifier),
        forall|k: int|
            0 <= k < i ==> !has_key(#[trigger] rows[k], endpoint, metadata_prefix, identifier),
    ensures
        match_idx(rows, endpoint, metadata_prefix, identifier) == Option::Some(i),
    decreases rows.len(),
{
    if i > 0 {
        lemma_match_idx_is(rows.skip(1), endpoint, metadata_prefix, identifier, i - 1);
        assert(forall|k: int| 0 <= k < rows.len() - 1 ==> rows.skip(1)[k] == rows[k + 1]);
    }
}

/// `match_idx` sees only identity keys: replacing a row by one with the
/// same key moves no match.
pub proof fn lemma_match_idx_update(
    rows: Seq<RecordRowView>,
    i: int,
    nr: RecordRowView,
    endpoint: Seq<char>,
    metadata_prefix: Seq<char>,
    identifier: Seq<char>,
)
    requires
        0 <= i < rows.len(),
        nr.endpoint == rows[i].endpoint,
        nr.metadata_prefix == rows[i].metadata_prefix,
        nr.identifier == rows[i].identifier,
    ensures
        match_idx(rows.update(i, nr), endpoint, metadata_prefix, identifier) == match_idx(
            rows,
            endpoint,
            metadata_prefix,
            identifier,
        ),
    decreases rows.len(),
{
    let rows1 = rows.update(i, nr);
    assert(rows1.len() == rows.len());
    assert(has_key(rows1[i], endpoint, metadata_prefix, identifier) == has_key(
        rows[i],
        endpoint,
        metadata_prefix,
        identifier,
    ));
    if rows.len() > 0 {
        if i == 0 {
            if !has_key(rows[0], endpoint, metadata_prefix, identifier) {
                assert(rows1.skip(1) =~= rows.skip(1));
            }
        } else {
            assert(rows1[0] == rows[0]);
            if !has_key(rows[0], endpoint, metadata_prefix, identifier) {
                assert(rows1.skip(1) =~= rows.skip(1).update(i - 1, nr));
                lemma_match_idx_update(
                    rows.skip(1),
                    i - 1,
                    nr,
                    endpoint,
                    metadata_prefix,
                    identifier,
                );
            }
        }
    }
}

/// The position at which a fresh row keeps the store sorted.
pub open spec fn insert_pos(rows: Seq<RecordRowView>, r: RecordRowView) -> int
    decreases rows.len(),
{
    if rows.len() == 0 {
        0
    } else if key_lt(r, rows[0]) {
        0
    } else {
        1 + insert_pos(rows.skip(1), r)
    }
}

/// `match_idx` for one key steps over an inserted row that carries a
/// different key.
pub proof fn lemma_match_idx_insert(
    rows: Seq<RecordRowView>,
    pos: int,
    nr: RecordRowView,
    endpoint: Seq<char>,
    metadata_prefix: Seq<char>,
    identifier: Seq<char>,
)
    requires
        0 <= pos <= rows.len(),
        !has_key(nr, endpoint, metadata_prefix, identifier),
    ensures
        match_idx(rows.insert(pos, nr), endpoint, metadata_prefix, identifier) == (match match_idx(
            rows,
            endpoint,
            metadata_prefix,
            identifier,
        ) {
            Option::Some(i) => if i < pos {
                Option::Some(i)
            } else {
                Option::Some(i + 1)
            },
            Option::None => Option::<int>::None,
        }),
{
    let rows1 = rows.insert(pos, nr);
    rows.insert_ensures(pos, nr);
    lemma_match_idx(rows, endpoint, metadata_prefix, identifier);
    match match_idx(rows, endpoint, metadata_prefix, identifier) {
        Option::Some(i) => {
            if i < pos {
                assert(rows1[i] == rows[i]);
                assert forall|k: int| 0 <= k < i implies !has_key(
                    #[trigger] rows1[k],
                    endpoint,
                    metadata_prefix,
                    identifier,
                ) by {
                    assert(rows1[k] == rows[k]);
                }
                lemma_match_idx_is(rows1, endpoint, metadata_prefix, identifier, i);
            } else {
                assert(rows1[i + 1] == rows[i]);
                assert forall|k: int| 0 <= k < i + 1 implies !has_key(
                    #[trigger] rows1[k],
                    endpoint,
                    metadata_prefix,
                    identifier,
                ) by {
                    if k < pos {
                        assert(rows1[k] == rows[k]);
                    } else if k == pos {
                        assert(rows1[k] == nr);
                    } else {
                        assert(rows1[k] == rows[k - 1]);
                    }
                }
                lemma_match_idx_is(rows1, endpoint, metadata_prefix, identifier, i + 1);
            }
        },
        Option::None => {
            lemma_match_idx(rows1, endpoint, metadata_prefix, identifier);
            match match_idx(rows1, endpoint, metadata_prefix, identifier) {
                Option::Some(j) => {
                    if j < pos {
                        assert(rows1[j] == rows[j]);
                    } else if j == pos {
                        assert(rows1[j] == nr);
                    } else {
                        assert(rows1[j] == rows[j - 1]);
                    }
                    assert(false);
                },
                Option::None => {},
            }
        },
    }
}

/// `insert_pos` always lands inside the store.
pub proof fn lemma_insert_pos_bounds(rows: Seq<RecordRowView>, r: RecordRowView)
    ensures
        0 <= insert_pos(rows, r) <= rows.len(),
    decreases rows.len(),
{
    if rows.len() > 0 && !key_lt(r, rows[0]) {
        lemma_insert_pos_bounds(rows.skip(1), r);
    }
}

/// `insert_pos` splits the store into rows before and after the fresh key.
pub proof fn lemma_insert_pos(rows: Seq<RecordRowView>, r: RecordRowView)
    requires
        forall|i: int, j: int|
            0 <= i < j < rows.len() ==> key_lt(#[trigger] rows[i], #[trigger] rows[j]),
    ensures
        0 <= insert_pos(rows, r) <= rows.len(),
        forall|k: int| 0 <= k < insert_pos(rows, r) ==> !key_lt(r, #[trigger] rows[k]),
        forall|k: int| insert_pos(rows, r) <= k < rows.len() ==> key_lt(r, #[trigger] rows[k]),
    decreases rows.len(),
{
    if rows.len() > 0 && key_lt(r, rows[0]) {
        assert forall|k: int| 0 <= k < rows.len() implies key_lt(r, #[trigger] rows[k]) by {
            if k > 0 {
                lemma_key_trans(r, rows[0], rows[k]);
            }
        }
    } else if rows.len() > 0 {
        assert forall|i: int, j: int| 0 <= i < j < rows.len() - 1 implies key_lt(
            #[trigger] rows.skip(1)[i],
            #[trigger] rows.skip(1)[j],
        ) by {
            assert(rows.skip(1)[i] == rows[i + 1]);
            assert(rows.skip(1)[j] == rows[j + 1]);
        }
        lemma_insert_pos(rows.skip(1), r);
        let p = insert_pos(rows, r);
        assert(forall|k: int| 0 <= k < rows.len() - 1 ==> rows.skip(1)[k] == rows[k + 1]);
        assert forall|k: int| p <= k < rows.len() implies key_lt(r, #[trigger] rows[k]) by {
            assert(rows[k] == rows.skip(1)[k - 1]);
        }
        assert forall|k: int| 0 <= k < p implies !key_lt(r, #[trigger] rows[k]) by {
            if k > 0 {
                assert(rows[k] == rows.skip(1)[k - 1]);
            }
        }
    }
}

/// In a well-formed store, at most one row carries any identity.
pub proof fn lemma_key_unique(rows: Seq<RecordRowView>, a: int, b: int)
    requires
        store_wf_rows(rows),
        0 <= a < rows.len(),
        0 <= b < rows.len(),
        rows[a].endpoint == rows[b].endpoint,
        rows[a].metadata_prefix == rows[b].metadata_prefix,
        rows[a].identifier == rows[b].identifier,
    ensures
        a == b,
{
    if a < b {
        assert(key_lt(rows[a], rows[b]));
        lemma_key_lt_irrefl(rows[a], rows[b]);
    } else if b < a {
        assert(key_lt(rows[b], rows[a]));
        lemma_key_lt_irrefl(rows[b], rows[a]);
    }
}

/// Replacing one row by a well-formed row with the same identity keeps the
/// store well-formed.
pub proof fn lemma_replace_wf(
    rows0: Seq<RecordRowView>,
    rows1: Seq<RecordRowView>,
    i: int,
    nr: RecordRowView,
)
    requires
        store_wf_rows(rows0),
        0 <= i < rows0.len(),
        rows1 =~= rows0.update(i, nr),
        nr.endpoint == rows0[i].endpoint,
        nr.metadata_prefix == rows0[i].metadata_prefix,
        nr.identifier == rows0[i].identifier,
        row_wf(nr),
    ensures
        store_wf_rows(rows1),
{
    assert forall|a: int, b: int| 0 <= a < b < rows1.len() implies key_lt(
        #[trigger] rows1[a],
        #[trigger] rows1[b],
    ) by {
        assert(key_lt(rows0[a], rows0[b]));
    }
}

/// The record store. The table is kept sorted by identity key, so keyset
/// pagination walks it in order.
pub struct RecordStore {
    pub rows: Vec<OaiRecordRow>,
}

impl View for RecordStore {
    type V = Seq<RecordRowView>;

    open spec fn view(&self) -> Seq<RecordRowView> {
        self.rows@.map_values(|r: OaiRecordRow| r@)
    }
}

impl RecordStore {
    /// Store well-formedness.
    pub open spec fn wf(&self) -> bool {
        store_wf_rows(self@)
    }

    /// An empty store.
    pub fn new() -> (r: RecordStore)
        ensures
            r.wf(),
            r@ =~= Seq::<RecordRowView>::empty(),
    {
        let r = RecordStore { rows: Vec::new() };
        proof {
            assert(r@ =~= Seq::<RecordRowView>::empty());
        }
        r
    }

    /// The number of rows held.
    pub fn len(&self) -> (n: usize)
        ensures
            n == self@.len(),
    {
        self.rows.len()
    }

    /// Finds the position of the row carrying the given identity.
    pub(crate) fn find_index(
        &self,
        endpoint: &str,
        metadata_prefix: &str,
        identifier: &str,
    ) -> (r: Option<usize>)
        ensures
            match r {
                Option::Some(i) => match_idx(self@, endpoint@, metadata_prefix@, identifier@)
                    == Option::Some(i as int) && i < self@.len(),
                Option::None => match_idx(self@, endpoint@, metadata_prefix@, identifier@)
                    is None,
            },
    {
        let n = self.rows.len();
        let mut i: usize = 0;
        while i < n
            invariant
                0 <= i <= n,
                n == self.rows.len(),
                self@.len() == n,
                forall|k: int|
                    0 <= k < i ==> !has_key(
                        #[trigger] self@[k],
                        endpoint@,
                        metadata_prefix@,
                        identifier@,
                    ),
            decreases n - i,
        {
            let row = &self.rows[i];
            proof {
                assert(self@[i as int] == self.rows[i as int]@);
            }
            if crate::text::str_eq(row.endpoint.as_str(), endpoint) && crate::text::str_eq(
                row.metadata_prefix.as_str(),
                metadata_prefix,
            ) && crate::text::str_eq(row.identifier.as_str(), identifier) {
                proof {
                    lemma_match_idx_is(
                        self@,
                        endpoint@,
                        metadata_prefix@,
                        identifier@,
                        i as int,
                    );
                }
                return Option::Some(i);
            }
            i = i + 1;
        }
        proof {
            lemma_match_idx(self@, endpoint@, metadata_prefix@, identifier@);
            if match_idx(self@, endpoint@, metadata_prefix@, identifier@) is Some {
                let w = match_idx(self@, endpoint@, metadata_prefix@, identifier@)->Some_0;
                assert(!has_key(self@[w], endpoint@, metadata_prefix@, identifier@));
            }
        }
        Option::None
    }

    /// The row carrying the given identity, if any.
    pub fn get(&self, endpoint: &str, metadata_prefix: &str, identifier: &str) -> (r: Option<
        &OaiRecordRow,
    >)
        ensures
            match r {
                Option::Some(row) => {
                    let m = match_idx(self@, endpoint@, metadata_prefix@, identifier@);
                    m is Some && row@ == self@[m->Some_0]
                },
                Option::None => match_idx(self@, endpoint@, metadata_prefix@, identifier@)
                    is None,
            },
    {
        match self.find_index(endpoint, metadata_prefix, identifier) {
            Option::Some(i) => {
                proof {
                    assert(self@[i as int] == self.rows[i as int]@);
                }
                Option::Some(&self.rows[i])
            },
            Option::None => Option::None,
        }
    }

    /// Replaces the row at `i` with a row carrying the same identity.
    pub(crate) fn replace_at(&mut self, i: usize, row: OaiRecordRow)
        requires
            old(self).wf(),
            i < old(self)@.len(),
            row@.endpoint == old(self)@[i as int].endpoint,
            row@.metadata_prefix == old(self)@[i as int].metadata_prefix,
            row@.identifier == old(self)@[i as int].identifier,
            row_wf(row@),
        ensures
            final(self).wf(),
            final(self)@ =~= old(self)@.update(i as int, row@),
    {
        let ghost rows0 = self@;
        let _ = self.rows.remove(i);
        self.rows.insert(i, row);
        proof {
            assert(self@ =~= rows0.update(i as int, row@));
            let rows1 = self@;
            assert forall|a: int, b: int| 0 <= a < b < rows1.len() implies key_lt(
                #[trigger] rows1[a],
                #[trigger] rows1[b],
            ) by {
                assert(key_lt(rows0[a], rows0[b]));
            }
        }
    }

    /// Inserts a new row or replaces the row that carries the same
    /// identity, keeping the store sorted.
    pub fn upsert_row(&mut self, row: OaiRecordRow)
        requires
            old(self).wf(),
            row_wf(row@),
        ensures
            final(self).wf(),
            final(self)@ =~= (match match_idx(
                old(self)@,
                row@.endpoint,
                row@.metadata_prefix,
                row@.identifier,
            ) {
                Option::Some(i) => old(self)@.update(i, row@),
                Option::None => old(self)@.insert(insert_pos(old(self)@, row@), row@),
            }),
    {
        let idx = self.find_index(
            row.endpoint.as_str(),
            row.metadata_prefix.as_str(),
            row.identifier.as_str(),
        );
        match idx {
            Option::Some(i) => {
                proof {
                    lemma_match_idx(self@, row@.endpoint, row@.metadata_prefix, row@.identifier);
                }
                self.replace_at(i, row);
            },
            Option::None => {
                let pos = self.insert_pos_exec(&row);
                let ghost rows0 = self@;
                self.rows.insert(pos, row);
                proof {
                    assert(self@ =~= rows0.insert(pos as int, row@));
                    lemma_insert_pos(rows0, row@);
                    lemma_match_idx(rows0, row@.endpoint, row@.metadata_prefix, row@.identifier);
                    let rows1 = self@;
                    let p = pos as int;
                    assert forall|a: int, b: int| 0 <= a < b < rows1.len() implies key_lt(
                        #[trigger] rows1[a],
                        #[trigger] rows1[b],
                    ) by {
                        if a < p && b == p {
                            // rows1[a] is an old row before the insertion point
                            assert(rows1[a] == rows0[a]);
                            lemma_key_total(rows0[a], row@);
                            assert(!has_key(rows0[a], row@.endpoint, row@.metadata_prefix, row@.identifier));
                        } else if a == p && b > p {
                            assert(rows1[b] == rows0[b - 1]);
                        } else if a < p && b > p {
                            assert(rows1[a] == rows0[a]);
                            assert(rows1[b] == rows0[b - 1]);
                            assert(key_lt(rows0[a], rows0[b - 1])) by {
                                if a < b - 1 {
                                } else {
                                    assert(a == b - 1);
                                    lemma_key_total(rows0[a], row@);
                                    assert(!has_key(rows0[a], row@.endpoint, row@.metadata_prefix, row@.identifier));
                                    lemma_key_trans(rows0[a], row@, rows0[b - 1]);
                                }
                            }
                        } else if a > p && b > p {
                            assert(rows1[a] == rows0[a - 1]);
                            assert(rows1[b] == rows0[b - 1]);
                        } else if a < p && b < p {
                            assert(rows1[a] == rows0[a]);
                            assert(rows1[b] == rows0[b]);
                        }
                    }
                    assert forall|k: int| 0 <= k < rows1.len() implies row_wf(
                        #[trigger] rows1[k],
                    ) by {
                        if k < p {
                            assert(rows1[k] == rows0[k]);
                        } else if k > p {
                            assert(rows1[k] == rows0[k - 1]);
                        }
                    }
                }
            },
        }
    }

    /// The sorted position for a row whose identity is not yet held.
    fn insert_pos_exec(&self, row: &OaiRecordRow) -> (pos: usize)
        requires
            self.wf(),
        ensures
            pos == insert_pos(self@, row@),
            pos <= self@.len(),
    {
        let n = self.rows.len();
        let mut i: usize = 0;
        while i < n
            invariant
                0 <= i <= n,
                n == self.rows.len(),
                self@.len() == n,
                self.wf(),
                forall|k: int| 0 <= k < i ==> !key_lt(row@, #[trigger] self@[k]),
            decreases n - i,
        {
            proof {
                assert(self@[i as int] == self.rows[i as int]@);
            }
            if Self::key_lt_exec(row, &self.rows[i]) {
                proof {
                    lemma_insert_pos_is(self@, row@, i as int);
                }
                return i;
            }
            i = i + 1;
        }
        proof {
            lemma_insert_pos_at_end(self@, row@);
        }
        n
    }

    /// Decides the key ordering on two rows.
    fn key_lt_exec(a: &OaiRecordRow, b: &OaiRecordRow) -> (r: bool)
        ensures
            r == key_lt(a@, b@),
    {
        if crate::text::str_lt(a.endpoint.as_str(), b.endpoint.as_str()) {
            return true;
        }
        if !crate::text::str_eq(a.endpoint.as_str(), b.endpoint.as_str()) {
            return false;
        }
        if crate::text::str_lt(a.metadata_prefix.as_str(), b.metadata_prefix.as_str()) {
            return true;
        }
        if !crate::text::str_eq(a.metadata_prefix.as_str(), b.metadata_prefix.as_str()) {
            return false;
        }
        crate::text::str_lt(a.identifier.as_str(), b.identifier.as_str())
    }
}

/// A position where the fresh key first sorts before a held row is the
/// insertion position.
proof fn lemma_insert_pos_is(rows: Seq<RecordRowView>, r: RecordRowView, i: int)
    requires
        0 <= i < rows.len(),
        key_lt(r, rows[i]),
        forall|k: int| 0 <= k < i ==> !key_lt(r, #[trigger] rows[k]),
    ensures
        insert_pos(rows, r) == i,
    decreases rows.len(),
{
    if i > 0 {
        assert(forall|k: int| 0 <= k < rows.len() - 1 ==> rows.skip(1)[k] == rows[k + 1]);
        lemma_insert_pos_is(rows.skip(1), r, i - 1);
    }
}

/// A fresh key that sorts after every held row is appended.
proof fn lemma_insert_pos_at_end(rows: Seq<RecordRowView>, r: RecordRowView)
    requires
        forall|k: int| 0 <= k < rows.len() ==> !key_lt(r, #[trigger] rows[k]),
    ensures
        insert_pos(rows, r) == rows.len(),
    decreases rows.len(),
{
    if rows.len() > 0 {
        assert(forall|k: int| 0 <= k < rows.len() - 1 ==> rows.skip(1)[k] == rows[k + 1]);
        lemma_insert_pos_at_end(rows.skip(1), r);
    }
}

} // verus!
