use vstd::prelude::*;
use crate::record::{decode_row, decodes, record_of, row_fields, row_outcome, DecodeError, RawCSVData, WeatherData};
use crate::text::{chars_of, count_lines, line_count, newline_count, newlines_before};

verus! {

/// The error of quick_csv's reader, carried through without looking inside.
#[verifier::external_type_specification]
#[verifier::external_body]
pub struct ExCsvError(quick_csv::error::Error);

/// The rows that quick_csv reads from a text, each split into its columns,
/// or `None` where the reader failed.
pub uninterp spec fn csv_rows(text: Seq<char>) -> Seq<Option<Seq<Seq<char>>>>;

/// At `i` stands a quote, then a carriage return that no line feed follows.
pub open spec fn stray_return_at(s: Seq<char>, i: int) -> bool {
    &&& 0 <= i
    &&& i + 1 < s.len()
    &&& s[i] == '"'
    &&& s[i + 1] == '\r'
    &&& (i + 2 == s.len() || s[i + 2] != '\n')
}

/// A text that the reader splits without fault: it ends with a line feed,
/// so a quoted column that runs to its end ends on one, and no column goes
/// on past a closing quote and a carriage return.
pub open spec fn reader_safe(s: Seq<char>) -> bool {
    &&& (s.len() == 0 || s.last() == '\n')
    &&& forall|i: int| !stray_return_at(s, i)
}

/// `s` with a line feed added where its last line has none.
pub open spec fn with_final_newline(s: Seq<char>) -> Seq<char> {
    if s.len() > 0 && s.last() != '\n' {
        s.push('\n')
    } else {
        s
    }
}

/// Relies on quick_csv's `Csv::from_string`, read with a flexible column
/// count, and on `Row::columns`: the items that the reader yields, in order,
/// each one a row's columns or the reader's error. They depend on the text
/// alone. `Row::columns` cuts the first and last byte off a column that
/// starts with a quote, which panics where that column is a lone quote or
/// ends inside a character; on a reader-safe text such a column ends with a
/// quote or a line feed.
#[verifier::external_body]
fn read_table(text: &str) -> (r: Vec<Result<Vec<String>, quick_csv::error::Error>>)
    requires
        reader_safe(text@),
    ensures
        r@.len() == csv_rows(text@).len(),
        forall|i: int|
            0 <= i < r@.len() ==> match #[trigger] r@[i] {
                Ok(c) => csv_rows(text@)[i] == Some(c.deep_view()),
                Err(_) => csv_rows(text@)[i] is None,
            },
{
    quick_csv::Csv::from_string(text).flexible(true).map(
        |row| row.and_then(|row| row.columns().map(|cols| cols.map(String::from).collect())),
    ).collect()
}

/// The rows of a table, the reader's errors left out as `None`.
fn rows_of(table: Vec<Result<Vec<String>, quick_csv::error::Error>>) -> (r: Vec<
    Option<Vec<String>>,
>)
    ensures
        r@.len() == table@.len(),
        forall|i: int|
            0 <= i < r@.len() ==> match #[trigger] table@[i] {
                Ok(c) => r.deep_view()[i] == Some(c.deep_view()),
                Err(_) => r@[i] is None,
            },
{
    let ghost t = table@;
    let mut r: Vec<Option<Vec<String>>> = Vec::new();
    for item in it: table
        invariant
            it.seq() == t,
            r@.len() == it.index(),
            forall|i: int|
                0 <= i < r@.len() ==> match #[trigger] t[i] {
                    Ok(c) => r.deep_view()[i] == Some(c.deep_view()),
                    Err(_) => r@[i] is None,
                },
    {
        match item {
            Ok(c) => r.push(Some(c)),
            Err(_) => r.push(None),
        }
    }
    r
}


/// How far a run has come: `done` of the `total` lines are processed.
#[derive(Clone, Copy, Debug, PartialEq, Eq, Structural)]
pub struct Progress {
    pub done: usize,
    pub total: usize,
}

/// The share `done / total` in tenths of a percent, to the nearest tenth,
/// halves rounded up.
pub open spec fn tenths_of(done: nat, total: nat) -> nat
    recommends
        total > 0,
{
    (1000 * done + total / 2) / total
}

impl Progress {
    /// The progress as a percentage with one decimal place, in tenths.
    pub fn tenths_of_percent(&self) -> (r: u128)
        requires
            self.total > 0,
        ensures
            r == tenths_of(self.done as nat, self.total as nat),
    {
        let done = self.done as u128;
        let total = self.total as u128;
        assert(1000 * done + total / 2 <= 1000 * 0x1_0000_0000_0000_0000u128 + 0x1_0000_0000_0000_0000u128)
            by (nonlinear_arith)
            requires
                done < 0x1_0000_0000_0000_0000u128,
                total < 0x1_0000_0000_0000_0000u128,
        ;
        (1000 * done + total / 2) / total
    }
}

/// The row that stopped a run, and why. A text that the reader cannot take
/// stops the run before any row, at the line that holds the fault.
#[derive(Clone, Debug, PartialEq)]
pub struct Failure {
    pub row: usize,
    pub error: DecodeError,
}

/// What a run gives: one progress event per row processed, and the records
/// of all data rows or the failure that stopped it.
#[derive(Debug, PartialEq)]
pub struct RunReport {
    pub progress: Vec<Progress>,
    pub outcome: Result<Vec<WeatherData>, Failure>,
}

/// Row `i` of `rows` is read: the header needs at most twelve columns, a data
/// row must decode.
pub open spec fn row_passes(rows: Seq<Option<Seq<Seq<char>>>>, i: int) -> bool {
    match rows[i] {
        None => false,
        Some(c) => if i == 0 {
            c.len() <= 12
        } else {
            c.len() <= 12 && decodes(row_fields(c))
        },
    }
}

/// `e` is why `row` does not pass.
pub open spec fn failure_of(row: Option<Seq<Seq<char>>>, header: bool, e: DecodeError) -> bool {
    match row {
        None => e is MalformedRow,
        Some(c) => (!header || c.len() > 12) && row_outcome(c, Err(e)),
    }
}

/// `r` is the report of a run over `rows` whose input has `total` lines:
/// the first row is the header, the others are data rows decoded in order,
/// and the run stops at the first row that does not pass.
pub open spec fn run_matches(rows: Seq<Option<Seq<Seq<char>>>>, total: nat, r: RunReport) -> bool {
    &&& forall|k: int|
        0 <= k < r.progress@.len() ==> #[trigger] r.progress@[k].done == k + 1
            && r.progress@[k].total == total
    &&& match r.outcome {
        Ok(recs) => {
            &&& forall|i: int| 0 <= i < rows.len() ==> row_passes(rows, i)
            &&& r.progress@.len() == rows.len()
            &&& recs@.len() == if rows.len() == 0 {
                0
            } else {
                rows.len() - 1
            }
            &&& forall|i: int|
                0 <= i < recs@.len() ==> row_outcome(
                    rows[i + 1]->0,
                    Ok(#[trigger] recs@[i]),
                )
        },
        Err(f) => {
            &&& f.row < rows.len()
            &&& forall|i: int| 0 <= i < f.row ==> row_passes(rows, i)
            &&& !row_passes(rows, f.row as int)
            &&& failure_of(rows[f.row as int], f.row == 0, f.error)
            &&& r.progress@.len() == f.row + 1
        },
    }
}

/// Runs the rows of a table through the decoder: the first row is the
/// header, checked for its width and set aside, the others are decoded in
/// order. A progress event follows each row, the one that failed included.
pub fn process_rows(rows: &Vec<Option<Vec<String>>>, total: usize) -> (r: RunReport)
    ensures
        run_matches(rows.deep_view(), total as nat, r),
{
    let ghost rv = rows.deep_view();
    let mut progress: Vec<Progress> = Vec::new();
    let mut records: Vec<WeatherData> = Vec::new();
    let n = rows.len();
    if n == 0 {
        return RunReport { progress, outcome: Ok(records) };
    }
    // Reading the header.

    progress.push(Progress { done: 1, total });
    assert(rv[0] == rows@[0].deep_view());
    match &rows[0] {
        None => {
            return RunReport {
                progress,
                outcome: Err(Failure { row: 0, error: DecodeError::MalformedRow }),
            };
        },
        Some(cols) => {
            let mut label = RawCSVData::new();
            match label.from_row(cols) {
                Ok(()) => {},
                Err(e) => {
                    return RunReport { progress, outcome: Err(Failure { row: 0, error: e }) };
                },
            }
        },
    }
    // Reading the data rows.

    let mut i: usize = 1;
    while i < n
        invariant
            1 <= i <= n == rows@.len(),
            rv == rows.deep_view(),
            progress@.len() == i,
            records@.len() == i - 1,
            forall|k: int|
                0 <= k < progress@.len() ==> #[trigger] progress@[k].done == k + 1
                    && progress@[k].total == total,
            forall|k: int| 0 <= k < i ==> row_passes(rv, k),
            forall|k: int|
                0 <= k < records@.len() ==> row_outcome(
                    rv[k + 1]->0,
                    Ok(#[trigger] records@[k]),
                ),
        decreases n - i,
    {
        progress.push(Progress { done: i + 1, total });
        assert(rv[i as int] == rows@[i as int].deep_view());
        match &rows[i] {
            None => {
                return RunReport {
                    progress,
                    outcome: Err(Failure { row: i, error: DecodeError::MalformedRow }),
                };
            },
            Some(cols) => match decode_row(cols) {
                Ok(w) => {
                    let ghost before = records@;
                    records.push(w);
                    assert forall|k: int|
                        0 <= k < records@.len() implies row_outcome(
                        rv[k + 1]->0,
                        Ok(#[trigger] records@[k]),
                    ) by {
                        if k < before.len() {
                            assert(records@[k] == before[k]);
                        }
                    }
                },
                Err(e) => {
                    assert(!row_passes(rv, i as int));
                    assert(failure_of(rv[i as int], i == 0, e));
                    let r = RunReport { progress, outcome: Err(Failure { row: i, error: e }) };
                    assert(run_matches(rv, total as nat, r));
                    return r;
                },
            },
        }
        i = i + 1;
    }
    RunReport { progress, outcome: Ok(records) }
}

/// The first place of `s` where a quote and a stray carriage return stand.
fn find_stray_return(cs: &Vec<char>) -> (r: Option<usize>)
    ensures
        match r {
            Some(i) => stray_return_at(cs@, i as int) && forall|j: int|
                0 <= j < i ==> !stray_return_at(cs@, j),
            None => forall|j: int| !stray_return_at(cs@, j),
        },
{
    let n = cs.len();
    let mut i: usize = 0;
    while i < n && i + 1 < n
        invariant
            n == cs.len(),
            i <= n,
            forall|j: int| 0 <= j < i ==> !stray_return_at(cs@, j),
        decreases n - i,
    {
        if cs[i] == '"' && cs[i + 1] == '\r' && (i + 2 == n || cs[i + 2] != '\n') {
            return Some(i);
        }
        i = i + 1;
    }
    None
}

/// Splits `input` into rows and columns and runs them through the decoder,
/// progress counted against the lines of `input`. A line feed is added
/// where the last line has none. A quote followed by a carriage return that
/// does not end its line stops the run before any row.
pub fn process(input: &str) -> (r: RunReport)
    ensures
        reader_safe(with_final_newline(input@)) ==> run_matches(
            csv_rows(with_final_newline(input@)),
            line_count(input@),
            r,
        ),
        !reader_safe(with_final_newline(input@)) ==> r.progress@.len() == 0 && (
        r.outcome matches Err(f) && f.error is MalformedRow && exists|i: int|
            #![trigger stray_return_at(with_final_newline(input@), i)]
            stray_return_at(with_final_newline(input@), i) && (forall|j: int|
                0 <= j < i ==> !stray_return_at(with_final_newline(input@), j)) && f.row
                == newline_count(with_final_newline(input@).take(i))),
{
    let total = count_lines(input);
    let mut text = input.to_owned();
    let last = chars_of(input);
    if last.len() > 0 && last[last.len() - 1] != '\n' {
        proof {
            reveal_strlit("\n");
        }
        text.append("\n");
    }
    assert(text@ == with_final_newline(input@));
    let cs = chars_of(text.as_str());
    match find_stray_return(&cs) {
        Some(i) => {
            let row = newlines_before(&cs, i);
            return RunReport {
                progress: Vec::new(),
                outcome: Err(Failure { row, error: DecodeError::MalformedRow }),
            };
        },
        None => {},
    }
    let table = read_table(text.as_str());
    let ghost t = table@;
    let rows = rows_of(table);
    proof {
        assert forall|i: int| 0 <= i < rows@.len() implies rows.deep_view()[i] == csv_rows(
            text@,
        )[i] by {
            match t[i] {
                Ok(c) => {},
                Err(_) => {},
            }
        }
        assert(rows.deep_view() =~= csv_rows(text@));
    }
    process_rows(&rows, total)
}

/// Runs over rows that all pass keep every data row, in order: the `i`-th
/// record is the one that the `i`-th data row holds.
pub proof fn lemma_rows_kept_in_order(rows: Seq<Option<Seq<Seq<char>>>>, total: nat, r: RunReport)
    requires
        rows.len() >= 1,
        forall|i: int| 0 <= i < rows.len() ==> row_passes(rows, i),
        run_matches(rows, total, r),
    ensures
        r.outcome matches Ok(recs) && recs@.len() == rows.len() - 1 && forall|i: int|
            0 <= i < recs@.len() ==> record_of(row_fields(rows[i + 1]->0), #[trigger] recs@[i]),
{
    let recs = r.outcome->Ok_0;
    assert forall|i: int| 0 <= i < recs@.len() implies record_of(
        row_fields(rows[i + 1]->0),
        #[trigger] recs@[i],
    ) by {
        assert(row_passes(rows, i + 1));
    }
}

/// After row `k` of an input whose lines are its rows, a header and `N` data
/// rows, the progress is `(k + 1) / (N + 1)`; when every row passes there is
/// one such event per row.
pub proof fn lemma_progress_per_row(rows: Seq<Option<Seq<Seq<char>>>>, r: RunReport)
    requires
        rows.len() >= 1,
        run_matches(rows, rows.len(), r),
    ensures
        r.progress@.len() <= rows.len(),
        forall|k: int|
            0 <= k < r.progress@.len() ==> tenths_of(
                #[trigger] r.progress@[k].done as nat,
                r.progress@[k].total as nat,
            ) == tenths_of((k + 1) as nat, rows.len()),
        (forall|i: int| 0 <= i < rows.len() ==> row_passes(rows, i)) ==> r.progress@.len()
            == rows.len(),
{
    if forall|i: int| 0 <= i < rows.len() ==> row_passes(rows, i) {
        if r.outcome is Err {
            let f = r.outcome->Err_0;
            assert(row_passes(rows, f.row as int));
        }
    }
}

} // verus!
