//! Parsing of the delimited contact table.
//!
//! The grammar is the usual one for comma-separated text: records are lines
//! separated by `\n`, `\r` or `\r\n`; fields within a record are separated by
//! commas; a field that starts with `"` is quoted, may contain commas and
//! line breaks, and writes a literal quote as `""`.  The first record is the
//! header; every later record must have exactly as many fields as the header,
//! and the header must contain the column `file_name`.

use vstd::prelude::*;
use crate::mapping::RowMapping;
use crate::mapping::pair_views;
use crate::mapping::lookup_pairs;
use crate::mapping::map_of_pairs;
use crate::mapping::lemma_lookup_first;
use crate::mapping::lemma_lookup_is_map;
use crate::text::chars_to_string;
use crate::text::str_eq;
use crate::text::str_to_chars;

verus! {

/// Why loading a table failed.
#[derive(Debug, Clone, Copy, PartialEq, Eq, Structural)]
pub enum LoadError {
    /// The delimited text is malformed: an unterminated or ill-closed quoted
    /// field, or a record whose field count differs from the header's.
    Parse,
    /// The header lacks the required `file_name` column.
    Schema,
}

/// Characters that end a record.
pub open spec fn is_term_char(c: char) -> bool {
    c == '\n' || c == '\r'
}

/// The rest of a quoted field, starting just after an opening quote: the
/// field text with `""` collapsed to `"`, and the index just after the
/// closing quote.  `None` when the field is unterminated.
pub open spec fn spec_quoted_rest(s: Seq<char>, i: int) -> Option<(Seq<char>, int)>
    decreases s.len() - i,
{
    if i < 0 || i >= s.len() {
        None
    } else if s[i] == '"' {
        if i + 1 < s.len() && s[i + 1] == '"' {
            match spec_quoted_rest(s, i + 2) {
                Some(p) => Some((seq!['"'] + p.0, p.1)),
                None => None,
            }
        } else {
            Some((Seq::empty(), i + 1))
        }
    } else {
        match spec_quoted_rest(s, i + 1) {
            Some(p) => Some((seq![s[i]] + p.0, p.1)),
            None => None,
        }
    }
}

/// An unquoted field: the run of characters up to the next comma, record
/// terminator or end of input, and the index where that run stops.
pub open spec fn spec_unquoted(s: Seq<char>, i: int) -> (Seq<char>, int)
    decreases s.len() - i,
{
    if i < 0 || i >= s.len() || s[i] == ',' || is_term_char(s[i]) {
        (Seq::empty(), i)
    } else {
        let p = spec_unquoted(s, i + 1);
        (seq![s[i]] + p.0, p.1)
    }
}

/// One field starting at `i`.  A quoted field must be followed by a comma, a
/// record terminator or the end of input.
pub open spec fn spec_field(s: Seq<char>, i: int) -> Option<(Seq<char>, int)> {
    if 0 <= i < s.len() && s[i] == '"' {
        match spec_quoted_rest(s, i + 1) {
            Some(p) => if p.1 >= s.len() || s[p.1] == ',' || is_term_char(s[p.1]) {
                Some(p)
            } else {
                None
            },
            None => None,
        }
    } else {
        Some(spec_unquoted(s, i))
    }
}

/// The index just past the record terminator at `j` (`\r\n` counts as one).
pub open spec fn spec_after_term(s: Seq<char>, j: int) -> int {
    if 0 <= j && j + 1 < s.len() && s[j] == '\r' && s[j + 1] == '\n' {
        j + 2
    } else {
        j + 1
    }
}

/// One record starting at `i`: its fields, and the index just past its
/// terminator (or the end of input).  Parsing only ever moves forward; the
/// bound checks on the returned index keep the recursion well-founded and
/// are never taken on any input.
pub open spec fn spec_record(s: Seq<char>, i: int) -> Option<(Seq<Seq<char>>, int)>
    decreases s.len() - i,
{
    match spec_field(s, i) {
        None => None,
        Some((f, j)) => if j < i || j > s.len() {
            None
        } else if j >= s.len() {
            Some((seq![f], j))
        } else if s[j] == ',' {
            match spec_record(s, j + 1) {
                Some((fs, k)) => Some((seq![f] + fs, k)),
                None => None,
            }
        } else {
            Some((seq![f], spec_after_term(s, j)))
        },
    }
}

/// All records from `i` to the end of the input.
pub open spec fn spec_records(s: Seq<char>, i: int) -> Option<Seq<Seq<Seq<char>>>>
    decreases s.len() - i,
{
    if i < 0 {
        None
    } else if i >= s.len() {
        Some(Seq::empty())
    } else {
        match spec_record(s, i) {
            None => None,
            Some((r, j)) => if j <= i || j > s.len() {
                None
            } else {
                match spec_records(s, j) {
                    Some(rs) => Some(seq![r] + rs),
                    None => None,
                }
            },
        }
    }
}

/// The required column name.
pub open spec fn file_name_col() -> Seq<char> {
    "file_name"@
}

/// Whether the header holds the required `file_name` column.
pub open spec fn header_has_file_name(h: Seq<Seq<char>>) -> bool {
    exists|k: int| 0 <= k < h.len() && h[k] == file_name_col()
}

/// Whether every row has exactly one field per header column.
pub open spec fn rows_match_header(h: Seq<Seq<char>>, rows: Seq<Seq<Seq<char>>>) -> bool {
    forall|k: int| 0 <= k < rows.len() ==> (#[trigger] rows[k]).len() == h.len()
}

/// What loading a table from text yields: header and rows, or the error.
/// A malformed record or a field-count mismatch is reported before a missing
/// `file_name` column; empty input has no header at all, hence no `file_name`.
pub open spec fn spec_load(s: Seq<char>) -> Result<(Seq<Seq<char>>, Seq<Seq<Seq<char>>>), LoadError> {
    match spec_records(s, 0) {
        None => Err(LoadError::Parse),
        Some(rs) => if rs.len() == 0 {
            Err(LoadError::Schema)
        } else {
            let h = rs[0];
            let rows = rs.drop_first();
            if !rows_match_header(h, rows) {
                Err(LoadError::Parse)
            } else if !header_has_file_name(h) {
                Err(LoadError::Schema)
            } else {
                Ok((h, rows))
            }
        },
    }
}

fn quoted_rest(s: &Vec<char>, i: usize) -> (r: Option<(Vec<char>, usize)>)
    requires
        i <= s.len(),
    ensures
        match r {
            Some(p) => spec_quoted_rest(s@, i as int) == Some((p.0@, p.1 as int)) && i <= p.1
                <= s.len(),
            None => spec_quoted_rest(s@, i as int) is None,
        },
    decreases s.len() - i,
{
    if i >= s.len() {
        None
    } else if s[i] == '"' {
        if i + 1 < s.len() && s[i + 1] == '"' {
            match quoted_rest(s, i + 2) {
                Some(p) => {
                    let mut f = p.0;
                    let ghost old_f = f@;
                    f.insert(0, '"');
                    proof {
                        assert(f@ =~= seq!['"'] + old_f);
                    }
                    Some((f, p.1))
                },
                None => None,
            }
        } else {
            Some((Vec::new(), i + 1))
        }
    } else {
        let c = s[i];
        match quoted_rest(s, i + 1) {
            Some(p) => {
                let mut f = p.0;
                let ghost old_f = f@;
                f.insert(0, c);
                proof {
                    assert(f@ =~= seq![s@[i as int]] + old_f);
                }
                Some((f, p.1))
            },
            None => None,
        }
    }
}

fn unquoted(s: &Vec<char>, i: usize) -> (r: (Vec<char>, usize))
    requires
        i <= s.len(),
    ensures
        spec_unquoted(s@, i as int) == (r.0@, r.1 as int),
        i <= r.1 <= s.len(),
    decreases s.len() - i,
{
    if i >= s.len() || s[i] == ',' || s[i] == '\n' || s[i] == '\r' {
        (Vec::new(), i)
    } else {
        let c = s[i];
        let p = unquoted(s, i + 1);
        let mut f = p.0;
        let ghost old_f = f@;
        f.insert(0, c);
        proof {
            assert(f@ =~= seq![s@[i as int]] + old_f);
        }
        (f, p.1)
    }
}

fn field(s: &Vec<char>, i: usize) -> (r: Option<(Vec<char>, usize)>)
    requires
        i <= s.len(),
    ensures
        match r {
            Some(p) => spec_field(s@, i as int) == Some((p.0@, p.1 as int)) && i <= p.1 <= s.len(),
            None => spec_field(s@, i as int) is None,
        },
{
    if i < s.len() && s[i] == '"' {
        match quoted_rest(s, i + 1) {
            Some(p) => {
                if p.1 >= s.len() || s[p.1] == ',' || s[p.1] == '\n' || s[p.1] == '\r' {
                    Some(p)
                } else {
                    None
                }
            },
            None => None,
        }
    } else {
        Some(unquoted(s, i))
    }
}

fn after_term(s: &Vec<char>, j: usize) -> (r: usize)
    requires
        j < s.len(),
    ensures
        r == spec_after_term(s@, j as int),
        j < r <= s.len() + 1,
{
    if j + 1 < s.len() && s[j] == '\r' && s[j + 1] == '\n' {
        j + 2
    } else {
        j + 1
    }
}

fn record(s: &Vec<char>, i: usize) -> (r: Option<(Vec<Vec<char>>, usize)>)
    requires
        i <= s.len(),
    ensures
        match r {
            Some(p) => spec_record(s@, i as int) == Some((p.0.deep_view(), p.1 as int)) && i <= p.1
                <= s.len() + 1,
            None => spec_record(s@, i as int) is None,
        },
    decreases s.len() - i,
{
    match field(s, i) {
        None => None,
        Some((f, j)) => {
            if j < i || j > s.len() {
                None
            } else if j >= s.len() {
                let mut fs: Vec<Vec<char>> = Vec::new();
                fs.push(f);
                proof {
                    assert(fs.deep_view() =~~= seq![fs[0]@]);
                }
                Some((fs, j))
            } else if s[j] == ',' {
                match record(s, j + 1) {
                    Some((rest, k)) => {
                        let mut fs = rest;
                        let ghost old_fs = fs.deep_view();
                        fs.insert(0, f);
                        proof {
                            assert(fs.deep_view() =~~= seq![fs[0]@] + old_fs);
                        }
                        Some((fs, k))
                    },
                    None => None,
                }
            } else {
                let mut fs: Vec<Vec<char>> = Vec::new();
                fs.push(f);
                proof {
                    assert(fs.deep_view() =~~= seq![fs[0]@]);
                }
                Some((fs, after_term(s, j)))
            }
        },
    }
}

fn records_from(s: &Vec<char>, i: usize) -> (r: Option<Vec<Vec<Vec<char>>>>)
    requires
        i <= s.len(),
    ensures
        match r {
            Some(rs) => spec_records(s@, i as int) == Some(rs.deep_view()),
            None => spec_records(s@, i as int) is None,
        },
    decreases s.len() - i,
{
    if i >= s.len() {
        let rs: Vec<Vec<Vec<char>>> = Vec::new();
        proof {
            assert(rs.deep_view() =~~= Seq::<Seq<Seq<char>>>::empty());
        }
        Some(rs)
    } else {
        match record(s, i) {
            None => None,
            Some((rec, j)) => {
                if j <= i || j > s.len() {
                    None
                } else {
                    match records_from(s, j) {
                        Some(rest) => {
                            let mut rs = rest;
                            let ghost old_rs = rs.deep_view();
                            let ghost rec_view = rec.deep_view();
                            rs.insert(0, rec);
                            proof {
                                assert(rs.deep_view() =~~= seq![rec_view] + old_rs);
                            }
                            Some(rs)
                        },
                        None => None,
                    }
                }
            },
        }
    }
}

fn record_to_strings(rec: Vec<Vec<char>>) -> (r: Vec<String>)
    ensures
        r.deep_view() == rec.deep_view(),
{
    let n = rec.len();
    let mut out: Vec<String> = Vec::new();
    let mut i: usize = 0;
    while i < n
        invariant
            i <= n,
            n == rec.len(),
            out@.len() == i,
            forall|k: int| 0 <= k < i ==> (#[trigger] out@[k])@ == rec@[k]@,
        decreases n - i,
    {
        out.push(chars_to_string(&rec[i]));
        i = i + 1;
    }
    proof {
        assert forall|k: int|
            0 <= k < out.deep_view().len() implies out.deep_view()[k] == rec.deep_view()[k] by {
            assert(out@[k]@ == rec@[k]@);
            assert(rec@[k].deep_view() =~= rec@[k]@);
        }
        assert(out.deep_view() =~= rec.deep_view());
    }
    out
}

/// Every well-formed table loads: parseable text whose rows are as wide as
/// the header and whose header holds `file_name` yields exactly the parsed
/// header and rows.
pub proof fn lemma_load_succeeds(s: Seq<char>, rs: Seq<Seq<Seq<char>>>)
    requires
        spec_records(s, 0) == Some(rs),
        rs.len() > 0,
        rows_match_header(rs[0], rs.drop_first()),
        header_has_file_name(rs[0]),
    ensures
        spec_load(s) == Ok::<_, LoadError>((rs[0], rs.drop_first())),
{
}

/// A table whose header lacks `file_name` fails to load with the schema
/// error, whatever its other columns hold.
pub proof fn lemma_missing_file_name_is_schema_error(s: Seq<char>, rs: Seq<Seq<Seq<char>>>)
    requires
        spec_records(s, 0) == Some(rs),
        rs.len() > 0,
        rows_match_header(rs[0], rs.drop_first()),
        !header_has_file_name(rs[0]),
    ensures
        spec_load(s) == Err::<(Seq<Seq<char>>, Seq<Seq<Seq<char>>>), LoadError>(LoadError::Schema),
{
}

/// The column names of `h` zipped onto the fields of `row`, in order.
pub open spec fn zip_views(h: Seq<Seq<char>>, row: Seq<Seq<char>>) -> Seq<(Seq<char>, Seq<char>)> {
    Seq::new(h.len(), |j: int| (h[j], row[j]))
}

/// For a table whose column names are distinct, the mapping zipped from the
/// header and a row sends each column name to the row's field in the same
/// position.
pub proof fn lemma_mapping_alignment(h: Seq<Seq<char>>, row: Seq<Seq<char>>, j: int)
    requires
        row.len() == h.len(),
        0 <= j < h.len(),
        forall|a: int, b: int| 0 <= a < b < h.len() ==> h[a] != h[b],
    ensures
        lookup_pairs(zip_views(h, row), h[j]) == Some(row[j]),
        map_of_pairs(zip_views(h, row)).contains_key(h[j]),
        map_of_pairs(zip_views(h, row))[h[j]] == row[j],
{
    let ps = zip_views(h, row);
    assert(ps[j].0 == h[j]);
    assert forall|k: int| 0 <= k < j implies (#[trigger] ps[k]).0 != h[j] by {
        assert(h[k] != h[j]);
    }
    lemma_lookup_first(ps, h[j], j);
    lemma_lookup_is_map(ps, h[j]);
}

/// The parsed table: the header's column names and the data rows, each row
/// holding one field per column.
pub struct CsvReader {
    headers: Vec<String>,
    records: Vec<Vec<String>>,
}

impl CsvReader {
    #[verifier::type_invariant]
    spec fn inv(&self) -> bool {
        self.wf()
    }

    /// The column names.
    pub closed spec fn headers_view(&self) -> Seq<Seq<char>> {
        self.headers.deep_view()
    }

    /// The data rows.
    pub closed spec fn records_view(&self) -> Seq<Seq<Seq<char>>> {
        self.records.deep_view()
    }

    /// Every row is as wide as the header, and the header holds `file_name`.
    pub open spec fn wf(&self) -> bool {
        rows_match_header(self.headers_view(), self.records_view()) && header_has_file_name(
            self.headers_view(),
        )
    }

    /// Parses the delimited text of a contact table.  The first record is
    /// the header; every later record becomes a data row.  Fails with
    /// `LoadError::Parse` on malformed text or a field-count mismatch, and
    /// with `LoadError::Schema` when the header lacks `file_name`.
    pub fn new(text: &str) -> (r: Result<CsvReader, LoadError>)
        ensures
            match r {
                Ok(c) => spec_load(text@) == Ok::<_, LoadError>(
                    (c.headers_view(), c.records_view()),
                ) && c.wf(),
                Err(e) => spec_load(text@) == Err::<(Seq<Seq<char>>, Seq<Seq<Seq<char>>>), _>(e),
            },
    {
        let chars = str_to_chars(text);
        let mut parsed = match records_from(&chars, 0) {
            None => {
                return Err(LoadError::Parse);
            },
            Some(rs) => rs,
        };
        let ghost all = parsed.deep_view();
        if parsed.len() == 0 {
            return Err(LoadError::Schema);
        }
        let hdr_rec = parsed.remove(0);
        let headers = record_to_strings(hdr_rec);
        proof {
            assert(headers.deep_view() == all[0]);
            assert(parsed.deep_view() =~= all.drop_first());
        }
        let mut records: Vec<Vec<String>> = Vec::new();
        while parsed.len() > 0
            invariant
                spec_records(text@, 0) == Some(all),
                all.len() > 0,
                headers.deep_view() == all[0],
                records.deep_view() + parsed.deep_view() =~= all.drop_first(),
                forall|k: int|
                    0 <= k < records.deep_view().len() ==> (#[trigger] records.deep_view()[k]).len()
                        == all[0].len(),
            decreases parsed.len(),
        {
            let ghost done = records.deep_view().len();
            let ghost pd = parsed.deep_view();
            let ghost old_records = records.deep_view();
            let rec = parsed.remove(0);
            proof {
                assert(rec.deep_view() == pd[0]);
                assert(0 <= done < all.drop_first().len());
                assert(all.drop_first()[done as int] == pd[0]);
                assert(parsed.deep_view() =~= pd.drop_first());
                assert(rec.deep_view().len() == rec@.len());
                assert(headers.deep_view().len() == headers@.len());
            }
            if rec.len() != headers.len() {
                proof {
                    assert(all.drop_first()[done as int].len() != all[0].len());
                    assert(!rows_match_header(all[0], all.drop_first()));
                }
                return Err(LoadError::Parse);
            }
            let row = record_to_strings(rec);
            records.push(row);
            proof {
                assert(records.deep_view() =~~= old_records.push(row.deep_view()));
                assert(records.deep_view() + parsed.deep_view() =~= all.drop_first());
                assert(records.deep_view()[done as int].len() == all[0].len());
                assert forall|k: int|
                    0 <= k < records.deep_view().len() implies (
                #[trigger] records.deep_view()[k]).len() == all[0].len() by {
                    if k < done {
                        assert(records.deep_view()[k] == old_records[k]);
                    }
                }
            }
        }
        proof {
            assert(records.deep_view() =~= all.drop_first());
        }
        let mut found = false;
        let hn = headers.len();
        let mut k: usize = 0;
        while k < hn
            invariant
                k <= hn,
                hn == headers@.len(),
                spec_records(text@, 0) == Some(all),
                all.len() > 0,
                headers.deep_view() == all[0],
                records.deep_view() == all.drop_first(),
                rows_match_header(all[0], all.drop_first()),
                found == exists|t: int|
                    0 <= t < k && #[trigger] headers.deep_view()[t] == file_name_col(),
            decreases hn - k,
        {
            let hit = str_eq(headers[k].as_str(), "file_name");
            proof {
                assert(headers.deep_view()[k as int] == headers@[k as int]@);
            }
            found = found || hit;
            k = k + 1;
        }
        if !found {
            proof {
                assert(!header_has_file_name(all[0]));
            }
            return Err(LoadError::Schema);
        }
        let reader = CsvReader { headers, records };
        proof {
            assert(header_has_file_name(reader.headers_view()));
            assert(rows_match_header(reader.headers_view(), reader.records_view()));
        }
        Ok(reader)
    }

    /// The header's column names, in table order.
    pub fn headers(&self) -> (r: &Vec<String>)
        ensures
            r.deep_view() == self.headers_view(),
    {
        &self.headers
    }

    /// One mapping per data row, each zipping the header's column names onto
    /// the row's fields in order.
    pub fn records(&self) -> (r: Vec<RowMapping>)
        ensures
            r@.len() == self.records_view().len(),
            forall|k: int|
                0 <= k < r@.len() ==> (#[trigger] r@[k]).entries() == zip_views(
                    self.headers_view(),
                    self.records_view()[k],
                ),
    {
        let mut out: Vec<RowMapping> = Vec::new();
        let n = self.records.len();
        let mut i: usize = 0;
        while i < n
            invariant
                i <= n,
                n == self.records@.len(),
                out@.len() == i,
                forall|k: int|
                    0 <= k < i ==> (#[trigger] out@[k]).entries() == zip_views(
                        self.headers_view(),
                        self.records_view()[k],
                    ),
            decreases n - i,
        {
            let m = self.row_mapping(i);
            out.push(m);
            i = i + 1;
        }
        out
    }

    fn row_mapping(&self, i: usize) -> (r: RowMapping)
        requires
            i < self.records_view().len(),
        ensures
            r.entries() == zip_views(self.headers_view(), self.records_view()[i as int]),
    {
        proof {
            use_type_invariant(&*self);
            assert(self.records_view()[i as int].len() == self.headers_view().len());
            assert(self.records_view()[i as int].len() == self.records@[i as int]@.len());
        }
        let row = &self.records[i];
        let hn = self.headers.len();
        let mut pairs: Vec<(String, String)> = Vec::new();
        let mut j: usize = 0;
        while j < hn
            invariant
                j <= hn,
                hn == self.headers@.len(),
                i < self.records@.len(),
                row@ == self.records@[i as int]@,
                row@.len() == hn,
                pairs@.len() == j as int,
                pair_views(pairs@) =~= zip_views(
                    self.headers_view(),
                    self.records_view()[i as int],
                ).subrange(0, j as int),
            decreases hn - j,
        {
            let ghost jp = j as int;
            pairs.push((self.headers[j].clone(), row[j].clone()));
            j = j + 1;
            proof {
                let ghost target = zip_views(self.headers_view(), self.records_view()[i as int]);
                assert(pair_views(pairs@)[jp] == (pairs@[jp].0@, pairs@[jp].1@));
                assert(pairs@[jp].0@ == self.headers_view()[jp]);
                assert(pairs@[jp].1@ == self.records_view()[i as int][jp]) by {
                    assert(row@[jp] == self.records@[i as int]@[jp]);
                    assert(self.records_view()[i as int][jp] == self.records@[i as int]@[jp]@);
                }
                assert(pair_views(pairs@) =~= target.subrange(0, j as int));
            }
        }
        let m = RowMapping::new(pairs);
        proof {
            assert(m.entries() =~= zip_views(self.headers_view(), self.records_view()[i as int]));
        }
        m
    }
}

} // verus!
