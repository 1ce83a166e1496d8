//! The XML scanning rule set: each rule names a metadata key, the tag path
//! whose text feeds it, and whether the key is required. Rule sets are
//! loaded from a headerless CSV file of `key,path,required?` rows.

use vstd::prelude::*;
use vstd::string::StrSliceExecFns;
use vstd::string::StringExecFns;

verus! {

/// Whether the text parses as CSV. Named for csv's headerless reader; no
/// verified code depends on what it is on given text.
pub uninterp spec fn csv_ok(input: Seq<char>) -> bool;

/// The CSV records of the text, each a list of fields. Named for csv's
/// headerless reader; a pure function of the text.
pub uninterp spec fn csv_rows_of(input: Seq<char>) -> Seq<Seq<Seq<char>>>;

/// Relies on csv::ReaderBuilder with headers disabled: reads the text as
/// CSV and hands back every record's fields, or the first parse error.
#[verifier::external_body]
fn parse_csv_records(data: &str) -> (r: Result<Vec<Vec<String>>, String>)
    ensures
        r is Ok <==> csv_ok(data@),
        r is Ok ==> r->Ok_0.deep_view() == csv_rows_of(data@),
{
    let mut rows: Vec<Vec<String>> = Vec::new();
    let mut reader = csv::ReaderBuilder::new().has_headers(false).from_reader(data.as_bytes());
    for record in reader.records() {
        match record {
            Ok(rec) => rows.push(rec.iter().map(|f| f.to_string()).collect()),
            Err(e) => {
                return Err(e.to_string());
            },
        }
    }
    Ok(rows)
}

/// The position of the first path separator, or the length when there is
/// none.
pub open spec fn first_slash(s: Seq<char>) -> int
    decreases s.len(),
{
    if s.len() == 0 {
        0
    } else if s[0] == '/' {
        0
    } else {
        1 + first_slash(s.skip(1))
    }
}

/// The segments of a slash-separated path, in order, empty segments kept.
pub open spec fn split_slash(s: Seq<char>) -> Seq<Seq<char>>
    decreases s.len(),
{
    let i = first_slash(s);
    if 0 <= i < s.len() {
        seq![s.take(i)] + split_slash(s.skip(i + 1))
    } else {
        seq![s]
    }
}

/// `first_slash` names the first separator position.
proof fn lemma_first_slash_is(s: Seq<char>, i: int)
    requires
        0 <= i <= s.len(),
        forall|j: int| 0 <= j < i ==> s[j] != '/',
        i < s.len() ==> s[i] == '/',
    ensures
        first_slash(s) == i,
    decreases s.len(),
{
    if s.len() > 0 && s[0] != '/' {
        assert(forall|j: int| 0 <= j < s.len() - 1 ==> s.skip(1)[j] == s[j + 1]);
        lemma_first_slash_is(s.skip(1), i - 1);
    }
}

/// Splits a rule path into its segments.
fn split_on_slash(s: &str) -> (r: Vec<String>)
    ensures
        r.deep_view() =~= split_slash(s@),
    decreases s@.len(),
{
    let len = s.unicode_len();
    let mut i: usize = 0;
    while i < len && s.get_char(i) != '/'
        invariant
            0 <= i <= len,
            len == s@.len(),
            forall|j: int| 0 <= j < i ==> s@[j] != '/',
        decreases len - i,
    {
        i = i + 1;
    }
    proof {
        lemma_first_slash_is(s@, i as int);
    }
    if i == len {
        let mut v: Vec<String> = Vec::new();
        v.push(String::from_str(s));
        proof {
            assert(v.deep_view() =~= split_slash(s@));
        }
        v
    } else {
        let head = s.substring_char(0, i);
        let tail = s.substring_char(i + 1, len);
        let mut rest = split_on_slash(tail);
        let mut v: Vec<String> = Vec::new();
        v.push(String::from_str(head));
        v.append(&mut rest);
        proof {
            assert(head@ =~= s@.take(i as int));
            assert(tail@ =~= s@.skip(i as int + 1));
            assert(v.deep_view() =~= split_slash(s@));
        }
        v
    }
}

/// Mathematical view of one scanning rule.
#[verifier::ext_equal]
pub ghost struct RuleView {
    pub key: Seq<char>,
    pub path: Seq<Seq<char>>,
    pub required: bool,
}

/// One scanning rule: the metadata key it fills, the tag path whose text
/// feeds it, and whether a record without it fails the metadata phase.
#[derive(Debug)]
pub struct Rule {
    pub key: String,
    pub path: Vec<String>,
    pub required: bool,
}

impl View for Rule {
    type V = RuleView;

    open spec fn view(&self) -> RuleView {
        RuleView { key: self.key@, path: self.path.deep_view(), required: self.required }
    }
}

impl DeepView for Rule {
    type V = RuleView;

    open spec fn deep_view(&self) -> RuleView {
        self.view()
    }
}

/// The rule one well-formed CSV row describes.
pub open spec fn rule_of_row(row: Seq<Seq<char>>) -> RuleView {
    RuleView {
        key: row[0],
        path: split_slash(row[1]),
        required: row.len() > 2 && row[2] == "required"@,
    }
}

/// Every row carries at least a key and a path.
pub open spec fn rows_well_formed(rows: Seq<Seq<Seq<char>>>) -> bool {
    forall|i: int| 0 <= i < rows.len() ==> (#[trigger] rows[i]).len() >= 2
}

/// A loaded rule set.
#[derive(Debug)]
pub struct RuleSet {
    pub rules: Vec<Rule>,
}

impl View for RuleSet {
    type V = Seq<RuleView>;

    open spec fn view(&self) -> Seq<RuleView> {
        self.rules.deep_view()
    }
}

/// The rule's path ends in the given terminal element.
pub open spec fn rule_has_terminal(r: RuleView, terminal: Seq<char>) -> bool {
    r.path.len() > 0 && r.path.last() == terminal
}

impl RuleSet {
    /// Loads a rule set from CSV text: one rule per record, `key,path`
    /// with an optional third field that reads `required`. Text that does
    /// not parse as CSV, or a record without both key and path, is
    /// rejected.
    pub fn load(data: &str) -> (r: Result<RuleSet, String>)
        ensures
            r is Ok <==> csv_ok(data@) && rows_well_formed(csv_rows_of(data@)),
            r is Ok ==> {
                let rows = csv_rows_of(data@);
                &&& r->Ok_0@.len() == rows.len()
                &&& forall|i: int| 0 <= i < rows.len() ==> r->Ok_0@[i] =~= rule_of_row(
                    #[trigger] rows[i],
                )
            },
    {
        let rows = match parse_csv_records(data) {
            Result::Ok(rows) => rows,
            Result::Err(e) => {
                return Result::Err(e);
            },
        };
        let ghost rowsv = csv_rows_of(data@);
        let n = rows.len();
        let mut rules: Vec<Rule> = Vec::new();
        let mut i: usize = 0;
        proof {
            assert(rows.deep_view().len() == rows@.len());
        }
        while i < n
            invariant
                0 <= i <= n,
                n == rows@.len(),
                rows.deep_view() == rowsv,
                rowsv == csv_rows_of(data@),
                csv_ok(data@),
                rowsv.len() == n,
                rules@.len() == i,
                forall|k: int| 0 <= k < i ==> (#[trigger] rowsv[k]).len() >= 2,
                forall|k: int| 0 <= k < i ==> (#[trigger] rules@[k])@ =~= rule_of_row(rowsv[k]),
            decreases n - i,
        {
            let row = &rows[i];
            proof {
                assert(rows.deep_view()[i as int] == rows[i as int].deep_view());
                assert(forall|j: int|
                    0 <= j < row@.len() ==> rows[i as int].deep_view()[j] == (#[trigger] row@[j])@);
            }
            if row.len() < 2 {
                proof {
                    assert(rowsv[i as int].len() == row@.len());
                    assert(!rows_well_formed(rowsv));
                }
                return Result::Err(String::from_str("rule row needs a key and a path"));
            }
            let required = if row.len() > 2 {
                crate::text::str_eq(row[2].as_str(), "required")
            } else {
                false
            };
            let rule = Rule {
                key: row[0].clone(),
                path: split_on_slash(row[1].as_str()),
                required,
            };
            proof {
                assert(rule@ =~= rule_of_row(rowsv[i as int]));
            }
            rules.push(rule);
            i = i + 1;
        }
        let r = RuleSet { rules };
        proof {
            assert(r@.len() == rowsv.len());
        }
        Result::Ok(r)
    }

    /// The rules whose path ends with the given terminal element, in rule
    /// order.
    pub fn by_terminal(&self, terminal: &str) -> (r: Vec<usize>)
        ensures
            forall|j: int|
                0 <= j < r@.len() ==> (#[trigger] r@[j]) < self@.len() && rule_has_terminal(
                    self@[r@[j] as int],
                    terminal@,
                ),
            forall|k: int|
                0 <= k < self@.len() && rule_has_terminal(#[trigger] self@[k], terminal@)
                    ==> exists|j: int| 0 <= j < r@.len() && #[trigger] r@[j] == k,
            forall|j1: int, j2: int| 0 <= j1 < j2 < r@.len() ==> #[trigger] r@[j1] < #[trigger] r@[j2],
    {
        let n = self.rules.len();
        let mut out: Vec<usize> = Vec::new();
        let mut i: usize = 0;
        while i < n
            invariant
                0 <= i <= n,
                n == self.rules.len(),
                self@.len() == n,
                forall|j: int|
                    0 <= j < out@.len() ==> (#[trigger] out@[j]) < i && rule_has_terminal(
                        self@[out@[j] as int],
                        terminal@,
                    ),
                forall|k: int|
                    0 <= k < i && rule_has_terminal(#[trigger] self@[k], terminal@)
                        ==> exists|j: int| 0 <= j < out@.len() && #[trigger] out@[j] == k,
                forall|j1: int, j2: int|
                    0 <= j1 < j2 < out@.len() ==> #[trigger] out@[j1] < #[trigger] out@[j2],
            decreases n - i,
        {
            let rule = &self.rules[i];
            proof {
                assert(self@[i as int] == self.rules[i as int]@);
                assert(rule.path.deep_view().len() == rule.path@.len());
            }
            let m = rule.path.len();
            let is_match = m > 0 && crate::text::str_eq(rule.path[m - 1].as_str(), terminal);
            proof {
                if m > 0 {
                    assert(rule.path.deep_view()[m - 1] == rule.path[m - 1 as int]@);
                }
            }
            if is_match {
                let ghost out0 = out@;
                out.push(i);
                proof {
                    assert forall|k: int|
                        0 <= k < i + 1 && rule_has_terminal(
                            #[trigger] self@[k],
                            terminal@,
                        ) implies exists|j: int| 0 <= j < out@.len() && #[trigger] out@[j] == k by {
                        if k == i as int {
                            assert(out@[out@.len() - 1] == k);
                        } else {
                            let j0 = choose|j: int| 0 <= j < out0.len() && #[trigger] out0[j] == k;
                            assert(out@[j0] == k);
                        }
                    }
                }
            } else {
                proof {
                    assert(!rule_has_terminal(self@[i as int], terminal@));
                }
            }
            i = i + 1;
        }
        out
    }

    /// The positions of the rules marked required, in rule order.
    pub fn required(&self) -> (r: Vec<usize>)
        ensures
            forall|j: int|
                0 <= j < r@.len() ==> (#[trigger] r@[j]) < self@.len()
                    && self@[r@[j] as int].required,
            forall|k: int|
                0 <= k < self@.len() && (#[trigger] self@[k]).required ==> exists|j: int|
                    0 <= j < r@.len() && #[trigger] r@[j] == k,
            forall|j1: int, j2: int| 0 <= j1 < j2 < r@.len() ==> #[trigger] r@[j1] < #[trigger] r@[j2],
    {
        let n = self.rules.len();
        let mut out: Vec<usize> = Vec::new();
        let mut i: usize = 0;
        while i < n
            invariant
                0 <= i <= n,
                n == self.rules.len(),
                self@.len() == n,
                forall|j: int|
                    0 <= j < out@.len() ==> (#[trigger] out@[j]) < i
                        && self@[out@[j] as int].required,
                forall|k: int|
                    0 <= k < i && (#[trigger] self@[k]).required ==> exists|j: int|
                        0 <= j < out@.len() && #[trigger] out@[j] == k,
                forall|j1: int, j2: int|
                    0 <= j1 < j2 < out@.len() ==> #[trigger] out@[j1] < #[trigger] out@[j2],
            decreases n - i,
        {
            proof {
                assert(self@[i as int] == self.rules[i as int]@);
            }
            if self.rules[i].required {
                let ghost out0 = out@;
                out.push(i);
                proof {
                    assert forall|k: int|
                        0 <= k < i + 1 && (#[trigger] self@[k]).required implies exists|j: int|
                        0 <= j < out@.len() && #[trigger] out@[j] == k by {
                        if k == i as int {
                            assert(out@[out@.len() - 1] == k);
                        } else {
                            let j0 = choose|j: int| 0 <= j < out0.len() && #[trigger] out0[j] == k;
                            assert(out@[j0] == k);
                        }
                    }
                }
            }
            i = i + 1;
        }
        out
    }
}

} // verus!
