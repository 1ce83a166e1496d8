//! OAI record identity, lifecycle status values, content fingerprints and
//! the on-disk storage path derived from a fingerprint.

use vstd::prelude::*;
use vstd::string::StrSliceExecFns;
use vstd::string::StringExecFns;

verus! {

/// Harvest lifecycle states of a record.
///
/// Expected transitions:
/// - import: a changed record becomes `Pending` or `Deleted` (`Failed`
///   records are intentionally sticky)
/// - download: `Pending -> Available | Failed`
/// - metadata: `Available -> Parsed | Failed`
///
/// Index lifecycle ownership: metadata success and import of a deleted
/// record also requeue the index lifecycle (`index_status -> Pending`).
#[derive(Clone, Copy, Debug, PartialEq, Eq, Structural)]
pub enum OaiRecordStatus {
    Available,
    Deleted,
    Failed,
    Parsed,
    Pending,
}

impl OaiRecordStatus {
    /// The fixed string token stored for this state.
    pub fn as_str(&self) -> (r: &'static str)
        ensures
            r@ == self.token(),
    {
        proof {
            reveal_strlit("available");
            reveal_strlit("deleted");
            reveal_strlit("failed");
            reveal_strlit("parsed");
            reveal_strlit("pending");
        }
        match self {
            OaiRecordStatus::Available => "available",
            OaiRecordStatus::Deleted => "deleted",
            OaiRecordStatus::Failed => "failed",
            OaiRecordStatus::Parsed => "parsed",
            OaiRecordStatus::Pending => "pending",
        }
    }

    /// The string token of each harvest state.
    pub open spec fn token(self) -> Seq<char> {
        match self {
            OaiRecordStatus::Available => "available"@,
            OaiRecordStatus::Deleted => "deleted"@,
            OaiRecordStatus::Failed => "failed"@,
            OaiRecordStatus::Parsed => "parsed"@,
            OaiRecordStatus::Pending => "pending"@,
        }
    }

    /// The harvest state whose token matches `s`, if any.
    pub open spec fn spec_from_token(s: Seq<char>) -> Option<OaiRecordStatus> {
        if s == "available"@ {
            Option::Some(OaiRecordStatus::Available)
        } else if s == "deleted"@ {
            Option::Some(OaiRecordStatus::Deleted)
        } else if s == "failed"@ {
            Option::Some(OaiRecordStatus::Failed)
        } else if s == "parsed"@ {
            Option::Some(OaiRecordStatus::Parsed)
        } else if s == "pending"@ {
            Option::Some(OaiRecordStatus::Pending)
        } else {
            Option::None
        }
    }

    /// Parses a status token.
    pub fn from_token(s: &str) -> (r: Option<OaiRecordStatus>)
        ensures
            r == Self::spec_from_token(s@),
    {
        if crate::text::str_eq(s, "available") {
            Option::Some(OaiRecordStatus::Available)
        } else if crate::text::str_eq(s, "deleted") {
            Option::Some(OaiRecordStatus::Deleted)
        } else if crate::text::str_eq(s, "failed") {
            Option::Some(OaiRecordStatus::Failed)
        } else if crate::text::str_eq(s, "parsed") {
            Option::Some(OaiRecordStatus::Parsed)
        } else if crate::text::str_eq(s, "pending") {
            Option::Some(OaiRecordStatus::Pending)
        } else {
            Option::None
        }
    }
}

/// Index lifecycle states of a record.
///
/// Expected transitions:
/// - metadata success or import of a deleted record: `* -> Pending`
/// - index run: `Pending | IndexFailed -> Indexed | IndexFailed`
/// - purge run: `Pending | PurgeFailed -> Purged | PurgeFailed`
/// - reindex: `* -> Pending` for matching `Parsed` and `Deleted` records
#[derive(Clone, Copy, Debug, PartialEq, Eq, Structural)]
pub enum OaiIndexStatus {
    IndexFailed,
    Indexed,
    Pending,
    Purged,
    PurgeFailed,
}

impl OaiIndexStatus {
    /// The fixed string token stored for this state.
    pub fn as_str(&self) -> (r: &'static str)
        ensures
            r@ == self.token(),
    {
        proof {
            reveal_strlit("index_failed");
            reveal_strlit("indexed");
            reveal_strlit("pending");
            reveal_strlit("purged");
            reveal_strlit("purge_failed");
        }
        match self {
            OaiIndexStatus::IndexFailed => "index_failed",
            OaiIndexStatus::Indexed => "indexed",
            OaiIndexStatus::Pending => "pending",
            OaiIndexStatus::Purged => "purged",
            OaiIndexStatus::PurgeFailed => "purge_failed",
        }
    }

    /// The string token of each index state.
    pub open spec fn token(self) -> Seq<char> {
        match self {
            OaiIndexStatus::IndexFailed => "index_failed"@,
            OaiIndexStatus::Indexed => "indexed"@,
            OaiIndexStatus::Pending => "pending"@,
            OaiIndexStatus::Purged => "purged"@,
            OaiIndexStatus::PurgeFailed => "purge_failed"@,
        }
    }
}

/// Shared configuration of the harvester phases.
#[derive(Debug, Clone)]
pub struct OaiConfig {
    /// Base directory under which record payloads are stored.
    pub data_dir: String,
    /// Source repository base URL.
    pub endpoint: String,
    /// OAI metadata format name.
    pub metadata_prefix: String,
}

/// Mathematical view of one imported OAI header.
#[verifier::ext_equal]
pub ghost struct OaiHeaderView {
    pub identifier: Seq<char>,
    pub datestamp: Seq<char>,
    pub status: Seq<char>,
}

/// Record info needed for import: one OAI header.
#[derive(Debug, Clone)]
pub struct OaiRecordImport {
    pub identifier: String,
    pub datestamp: String,
    pub status: String,
}

impl View for OaiRecordImport {
    type V = OaiHeaderView;

    open spec fn view(&self) -> OaiHeaderView {
        OaiHeaderView {
            identifier: self.identifier@,
            datestamp: self.datestamp@,
            status: self.status@,
        }
    }
}

impl DeepView for OaiRecordImport {
    type V = OaiHeaderView;

    open spec fn deep_view(&self) -> OaiHeaderView {
        self.view()
    }
}

impl OaiRecordImport {
    pub fn new(identifier: String, datestamp: String, status: String) -> (r: OaiRecordImport)
        ensures
            r.identifier == identifier,
            r.datestamp == datestamp,
            r.status == status,
    {
        OaiRecordImport { identifier, datestamp, status }
    }

    /// The harvest state an imported header maps to: headers marked
    /// `deleted` become `Deleted`, all others become `Pending`.
    pub open spec fn spec_target_status(status: Seq<char>) -> OaiRecordStatus {
        if status == "deleted"@ {
            OaiRecordStatus::Deleted
        } else {
            OaiRecordStatus::Pending
        }
    }

    /// The harvest state this header maps to.
    pub fn target_status(&self) -> (r: OaiRecordStatus)
        ensures
            r == Self::spec_target_status(self.status@),
    {
        if crate::text::str_eq(self.status.as_str(), "deleted") {
            OaiRecordStatus::Deleted
        } else {
            OaiRecordStatus::Pending
        }
    }
}

/// One step of the fingerprint fold: a polynomial rolling combination,
/// reduced modulo the largest 64-bit prime.
pub open spec fn fp_step(h: u64, c: char) -> u64 {
    ((((h as int) * 919) + (c as int) + 1) % 0xffff_ffff_ffff_ffc5) as u64
}

/// Folds a character sequence into the running fingerprint state.
pub open spec fn fp_fold(h: u64, s: Seq<char>) -> u64
    decreases s.len(),
{
    if s.len() == 0 {
        h
    } else {
        fp_fold(fp_step(h, s[0]), s.skip(1))
    }
}

/// The hexadecimal digit character for a value below sixteen.
pub open spec fn hex_char(d: int) -> char {
    if d < 10 {
        crate::text::digit_char(d)
    } else if d == 10 {
        'a'
    } else if d == 11 {
        'b'
    } else if d == 12 {
        'c'
    } else if d == 13 {
        'd'
    } else if d == 14 {
        'e'
    } else {
        'f'
    }
}

/// The low `k` nibbles of `h` in hexadecimal, most significant first.
pub open spec fn hex_seq(h: int, k: nat) -> Seq<char>
    decreases k,
{
    if k == 0 {
        Seq::empty()
    } else {
        hex_seq(h / 16, (k - 1) as nat).push(hex_char(h % 16))
    }
}

/// The content fingerprint of a record identity: sixteen hexadecimal
/// characters derived from endpoint, metadata prefix and identifier,
/// and from nothing else.
pub open spec fn fingerprint_of(
    endpoint: Seq<char>,
    metadata_prefix: Seq<char>,
    identifier: Seq<char>,
) -> Seq<char> {
    hex_seq(
        fp_fold(
            fp_step(fp_fold(fp_step(fp_fold(0, endpoint), '\n'), metadata_prefix), '\n'),
            identifier,
        ) as int,
        16,
    )
}

fn hex_char_str(d: u64) -> (r: &'static str)
    requires
        d < 16,
    ensures
        r@ =~= seq![hex_char(d as int)],
{
    proof {
        reveal_strlit("a");
        reveal_strlit("b");
        reveal_strlit("c");
        reveal_strlit("d");
        reveal_strlit("e");
        reveal_strlit("f");
    }
    if d < 10 {
        crate::text::digit_str(d)
    } else {
        match d {
            10 => "a",
            11 => "b",
            12 => "c",
            13 => "d",
            14 => "e",
            _ => "f",
        }
    }
}

fn fp_step_exec(h: u64, c: char) -> (r: u64)
    ensures
        r == fp_step(h, c),
{
    let wide: u128 = (h as u128) * 919 + (c as u32 as u128) + 1;
    (wide % 0xffff_ffff_ffff_ffc5u128) as u64
}

fn fp_fold_exec(h: u64, s: &str) -> (r: u64)
    ensures
        r == fp_fold(h, s@),
{
    let len = s.unicode_len();
    let mut acc = h;
    let mut i: usize = 0;
    proof {
        assert(s@.skip(0) =~= s@);
    }
    while i < len
        invariant
            0 <= i <= len,
            len == s@.len(),
            fp_fold(acc, s@.skip(i as int)) == fp_fold(h, s@),
        decreases len - i,
    {
        let c = s.get_char(i);
        proof {
            assert(s@.skip(i as int)[0] == s@[i as int]);
            assert(s@.skip(i as int).skip(1) =~= s@.skip(i + 1));
        }
        acc = fp_step_exec(acc, c);
        i = i + 1;
    }
    proof {
        assert(s@.skip(len as int) =~= Seq::<char>::empty());
    }
    acc
}

fn hex_seq_exec(h: u64, k: u64) -> (r: String)
    requires
        k <= 16,
    ensures
        r@ == hex_seq(h as int, k as nat),
        r@.len() == k,
    decreases k,
{
    if k == 0 {
        let r = String::new();
        proof {
            assert(r@ =~= hex_seq(h as int, 0));
        }
        r
    } else {
        let mut r = hex_seq_exec(h / 16, k - 1);
        r.append(hex_char_str(h % 16));
        proof {
            assert(r@ =~= hex_seq(h as int, k as nat));
            lemma_hex_seq_len(h as int, k as nat);
        }
        r
    }
}

/// `hex_seq` renders exactly one character per nibble.
pub proof fn lemma_hex_seq_len(h: int, k: nat)
    ensures
        hex_seq(h, k).len() == k,
    decreases k,
{
    if k > 0 {
        lemma_hex_seq_len(h / 16, (k - 1) as nat);
    }
}

/// Computes the content fingerprint of a record identity. The result is a
/// pure function of the identity triple: sixteen hexadecimal characters.
pub fn fingerprint(endpoint: &str, metadata_prefix: &str, identifier: &str) -> (r: String)
    ensures
        r@ == fingerprint_of(endpoint@, metadata_prefix@, identifier@),
        r@.len() == 16,
{
    let mut h = fp_fold_exec(0, endpoint);
    h = fp_step_exec(h, '\n');
    h = fp_fold_exec(h, metadata_prefix);
    h = fp_step_exec(h, '\n');
    h = fp_fold_exec(h, identifier);
    hex_seq_exec(h, 16)
}

/// The storage path derived from a fingerprint: the first two characters,
/// the next two characters, then the full fingerprint with an `.xml`
/// extension, as path segments. A pure function of the fingerprint.
pub open spec fn storage_path_of(fp: Seq<char>) -> Seq<char> {
    fp.subrange(0, 2) + "/"@ + fp.subrange(2, 4) + "/"@ + fp + ".xml"@
}

fn storage_path(fp: &str) -> (r: String)
    requires
        fp@.len() >= 4,
    ensures
        r@ == storage_path_of(fp@),
{
    let len = fp.unicode_len();
    let mut r = String::from_str(fp.substring_char(0, 2));
    r.append("/");
    r.append(fp.substring_char(2, 4));
    r.append("/");
    r.append(fp.substring_char(0, len));
    r.append(".xml");
    proof {
        assert(fp@.subrange(0, fp@.len() as int) =~= fp@);
        assert(r@ =~= storage_path_of(fp@));
    }
    r
}

/// Record info needed for download and metadata extraction.
#[derive(Debug, Clone)]
pub struct OaiRecordId {
    pub identifier: String,
    pub fingerprint: String,
}

impl OaiRecordId {
    /// The storage path of this record's payload, relative to the data
    /// directory.
    pub fn path(&self) -> (r: String)
        requires
            self.fingerprint@.len() >= 4,
        ensures
            r@ == storage_path_of(self.fingerprint@),
    {
        storage_path(self.fingerprint.as_str())
    }
}

/// Record info carried through the harvester phases.
#[derive(Debug, Clone)]
pub struct OaiRecord {
    pub endpoint: String,
    pub metadata_prefix: String,
    pub identifier: String,
    pub fingerprint: String,
    pub status: String,
}

impl OaiRecord {
    /// The storage path of this record's payload, relative to the data
    /// directory.
    pub fn path(&self) -> (r: String)
        requires
            self.fingerprint@.len() >= 4,
        ensures
            r@ == storage_path_of(self.fingerprint@),
    {
        storage_path(self.fingerprint.as_str())
    }
}

} // verus!
