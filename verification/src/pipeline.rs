//! The file pipeline: CSV text to records, and the incremental-mode
//! selection of records past each account's resume point.
//!
//! Grouping is adjacency-based on purpose: a group is a contiguous run of
//! rows with the same account, exactly as the rows sit in the file.  A
//! caller whose file repeats an account non-contiguously gets one group —
//! and one resume-point query — per run, not one per account; pre-sort the
//! file to get per-account groups.

use vstd::prelude::*;

use crate::record::{
    decode_ok, decode_record, decoded_rec, rec_views, CsvRecord, RecordV, RowError,
};

verus! {

// --- account runs (adjacency grouping) ---

/// One contiguous run of records sharing an account: indices
/// `start..end` into the decoded record list.
#[derive(Debug, Clone, Copy, PartialEq, Eq, Structural)]
pub struct AccountRun {
    pub start: usize,
    pub end: usize,
}

/// `runs` tiles `s[0..upto)` into maximal contiguous same-account runs.
pub open spec fn runs_cover_upto(s: Seq<RecordV>, runs: Seq<AccountRun>, upto: int) -> bool {
    if upto == 0 {
        runs.len() == 0
    } else {
        &&& runs.len() > 0
        &&& runs[0].start == 0
        &&& runs.last().end == upto
        &&& forall|k: int| 0 <= k < runs.len() ==> (#[trigger] runs[k]).start < runs[k].end <= upto
        &&& forall|k: int| 1 <= k < runs.len() ==> (#[trigger] runs[k]).start == runs[k - 1].end
        &&& forall|k: int, i: int|
            #![trigger runs[k], s[i]]
            0 <= k < runs.len() && runs[k].start <= i < runs[k].end ==> s[i].account
                == s[runs[k].start as int].account
        &&& forall|k: int| 1 <= k < runs.len() ==> s[(#[trigger] runs[k]).start as int].account
            != s[runs[k].start - 1].account
    }
}

/// `runs` is the adjacency grouping of `s` by account.
pub open spec fn runs_cover(s: Seq<RecordV>, runs: Seq<AccountRun>) -> bool {
    runs_cover_upto(s, runs, s.len() as int)
}

proof fn lemma_runs_push(s: Seq<RecordV>, runs: Seq<AccountRun>, nr: AccountRun)
    requires
        runs_cover_upto(s, runs, nr.start as int),
        nr.start < nr.end <= s.len(),
        forall|j: int| nr.start <= j < nr.end ==> (#[trigger] s[j]).account
            == s[nr.start as int].account,
        nr.start > 0 ==> s[nr.start as int].account != s[nr.start - 1].account,
    ensures
        runs_cover_upto(s, runs.push(nr), nr.end as int),
{
    let r2 = runs.push(nr);
    assert(forall|k: int| 0 <= k < runs.len() ==> r2[k] == #[trigger] runs[k]);
    assert(r2[runs.len() as int] == nr);
    assert(r2.last() == nr);
    if nr.start == 0 {
        assert(runs.len() == 0);
        assert(r2[0] == nr);
    } else {
        assert(runs.len() > 0);
        assert(r2[0] == runs[0]);
    }
    assert forall|k: int| 1 <= k < r2.len() implies (#[trigger] r2[k]).start == r2[k - 1].end by {
        if k < runs.len() {
            assert(runs[k].start == runs[k - 1].end);
        } else {
            assert(r2[k] == nr);
            if runs.len() > 0 {
                assert(r2[k - 1] == runs[runs.len() - 1]);
                assert(runs.last().end == nr.start);
            }
        }
    }
}

/// Group the decoded records of one file by account, adjacency-wise:
/// group boundaries fall exactly where the account of one row differs
/// from the row before it.
pub fn account_runs(records: &Vec<CsvRecord>) -> (runs: Vec<AccountRun>)
    ensures
        runs_cover(rec_views(records@), runs@),
{
    let ghost s = rec_views(records@);
    let n = records.len();
    let mut runs: Vec<AccountRun> = Vec::new();
    if n == 0 {
        return runs;
    }
    let mut start: usize = 0;
    let mut i: usize = 1;
    while i < n
        invariant
            1 <= i <= n,
            0 <= start < i,
            n == records@.len(),
            s == rec_views(records@),
            s.len() == n,
            runs_cover_upto(s, runs@, start as int),
            start > 0 ==> s[start as int].account != s[start - 1].account,
            forall|j: int| start <= j < i ==> (#[trigger] s[j]).account == s[start as int].account,
        decreases n - i,
    {
        if !(records[i].account == records[i - 1].account) {
            let nr = AccountRun { start, end: i };
            proof {
                assert(s[i as int].account == records@[i as int]@.account);
                assert(s[i - 1].account == records@[i - 1]@.account);
                lemma_runs_push(s, runs@, nr);
            }
            runs.push(nr);
            start = i;
        } else {
            proof {
                assert(s[i as int].account == records@[i as int]@.account);
                assert(s[i - 1].account == records@[i - 1]@.account);
            }
        }
        i = i + 1;
    }
    let last_run = AccountRun { start, end: n };
    proof {
        lemma_runs_push(s, runs@, last_run);
    }
    runs.push(last_run);
    runs
}

// --- resume-point filtering ---

/// Whether an incremental import keeps a record: always when the account
/// has no resume point, otherwise only ordinals beyond it.
pub open spec fn keep_rec(r: RecordV, resume: Option<u64>) -> bool {
    match resume {
        Option::None => true,
        Option::Some(m) => r.id > m,
    }
}

/// The records of `s` an incremental import keeps, in order.
pub open spec fn kept_rows(s: Seq<RecordV>, resume: Option<u64>) -> Seq<RecordV>
    decreases s.len(),
{
    if s.len() == 0 {
        Seq::empty()
    } else {
        let rest = kept_rows(s.drop_last(), resume);
        if keep_rec(s.last(), resume) {
            rest.push(s.last())
        } else {
            rest
        }
    }
}

/// Keep the records of `records[start..end)` that lie beyond the resume
/// point: all of them when there is none (`None`), else those with
/// `id > resume`.
pub fn filter_new_rows(
    records: &Vec<CsvRecord>,
    start: usize,
    end: usize,
    resume: Option<u64>,
) -> (kept: Vec<CsvRecord>)
    requires
        start <= end <= records@.len(),
    ensures
        rec_views(kept@) == kept_rows(rec_views(records@).subrange(start as int, end as int),
            resume),
{
    let ghost g = rec_views(records@).subrange(start as int, end as int);
    let mut kept: Vec<CsvRecord> = Vec::new();
    let mut i: usize = start;
    proof {
        assert(g.take(0) =~= Seq::<RecordV>::empty());
    }
    while i < end
        invariant
            start <= i <= end <= records@.len(),
            g == rec_views(records@).subrange(start as int, end as int),
            rec_views(kept@) == kept_rows(g.take(i - start), resume),
        decreases end - i,
    {
        let keep = match resume {
            Option::None => true,
            Option::Some(m) => records[i].id > m,
        };
        proof {
            assert(g.take(i - start + 1).drop_last() =~= g.take(i - start));
            assert(g.take(i - start + 1).last() == g[i - start]);
            assert(g[i - start] == records@[i as int]@);
        }
        if keep {
            let rec = records[i].clone();
            kept.push(rec);
            proof {
                assert(rec_views(kept@) =~= kept_rows(g.take(i - start), resume).push(
                    records@[i as int]@,
                ));
            }
        }
        i = i + 1;
    }
    proof {
        assert(g.take(end - start) =~= g);
    }
    kept
}

// --- laws of resume filtering ---

/// What survives the filter: every kept record passed the resume test and
/// came from the input, and every input record past the resume point is
/// kept.
pub proof fn lemma_kept_rows_exact(s: Seq<RecordV>, resume: Option<u64>)
    ensures
        forall|j: int| 0 <= j < kept_rows(s, resume).len() ==> keep_rec(
            #[trigger] kept_rows(s, resume)[j],
            resume,
        ) && s.contains(kept_rows(s, resume)[j]),
        forall|j: int| 0 <= j < s.len() && keep_rec(#[trigger] s[j], resume) ==> kept_rows(
            s,
            resume,
        ).contains(s[j]),
        resume is None ==> kept_rows(s, resume) == s,
    decreases s.len(),
{
    if s.len() > 0 {
        lemma_kept_rows_exact(s.drop_last(), resume);
        let rest = kept_rows(s.drop_last(), resume);
        let whole = kept_rows(s, resume);
        assert(forall|j: int| 0 <= j < s.drop_last().len() ==> #[trigger] s.drop_last()[j]
            == s[j]);
        if keep_rec(s.last(), resume) {
            assert(whole == rest.push(s.last()));
            assert forall|j: int| 0 <= j < whole.len() implies keep_rec(
                #[trigger] whole[j],
                resume,
            ) && s.contains(whole[j]) by {
                if j < rest.len() {
                    assert(whole[j] == rest[j]);
                    let w = choose|i: int|
                        0 <= i < s.drop_last().len() && s.drop_last()[i] == rest[j];
                    assert(s[w] == rest[j]);
                } else {
                    assert(whole[j] == s.last());
                    assert(s[s.len() - 1] == s.last());
                }
            }
        } else {
            assert(whole == rest);
            assert forall|j: int| 0 <= j < whole.len() implies keep_rec(
                #[trigger] whole[j],
                resume,
            ) && s.contains(whole[j]) by {
                let w = choose|i: int|
                    0 <= i < s.drop_last().len() && s.drop_last()[i] == rest[j];
                assert(s[w] == rest[j]);
            }
        }
        assert forall|j: int| 0 <= j < s.len() && keep_rec(#[trigger] s[j], resume) implies whole
            .contains(s[j]) by {
            if j < s.len() - 1 {
                assert(s.drop_last()[j] == s[j]);
                assert(rest.contains(s[j]));
                let w = choose|i: int| 0 <= i < rest.len() && rest[i] == s[j];
                if keep_rec(s.last(), resume) {
                    assert(whole[w] == s[j]);
                } else {
                    assert(whole[w] == s[j]);
                }
            } else {
                assert(s[j] == s.last());
                assert(whole[whole.len() - 1] == s.last());
            }
        }
        if resume is None {
            assert(whole =~= s);
        }
    }
}

/// An account's resume point reaches only its own run.  Filtering run `k`
/// of an adjacency grouping with resume ordinal `m` keeps exactly that
/// run's records with `id > m`, all of the run's own account; the records
/// of every other run are computed from their own run and resume point
/// alone and are untouched by `m`.
pub proof fn lemma_resume_point_scoped(s: Seq<RecordV>, runs: Seq<AccountRun>, k: int, m: u64)
    requires
        runs_cover(s, runs),
        0 <= k < runs.len(),
        s.len() > 0,
    ensures
        forall|j: int| 0 <= j < kept_rows(
            s.subrange(runs[k].start as int, runs[k].end as int),
            Option::Some(m),
        ).len() ==> (#[trigger] kept_rows(
            s.subrange(runs[k].start as int, runs[k].end as int),
            Option::Some(m),
        )[j]).id > m && kept_rows(
            s.subrange(runs[k].start as int, runs[k].end as int),
            Option::Some(m),
        )[j].account == s[runs[k].start as int].account,
        forall|i: int| runs[k].start <= i < runs[k].end && (#[trigger] s[i]).id > m ==> kept_rows(
            s.subrange(runs[k].start as int, runs[k].end as int),
            Option::Some(m),
        ).contains(s[i]),
{
    let g = s.subrange(runs[k].start as int, runs[k].end as int);
    let kept = kept_rows(g, Option::Some(m));
    lemma_kept_rows_exact(g, Option::Some(m));
    assert forall|j: int| 0 <= j < kept.len() implies (#[trigger] kept[j]).id > m
        && kept[j].account == s[runs[k].start as int].account by {
        assert(g.contains(kept[j]));
        let w = choose|i: int| 0 <= i < g.len() && g[i] == kept[j];
        assert(g[w] == s[runs[k].start + w]);
        assert(s[runs[k].start + w].account == s[runs[k].start as int].account);
    }
    assert forall|i: int| runs[k].start <= i < runs[k].end && (#[trigger] s[i]).id > m implies kept
        .contains(s[i]) by {
        assert(g[i - runs[k].start] == s[i]);
        assert(keep_rec(g[i - runs[k].start], Option::Some(m)));
    }
}

// --- reading a whole file ---

/// A file unreadable at the top level: its byte text is not CSV with a
/// readable header row.  Fatal to that file only; a directory run goes on
/// with the remaining files.
#[derive(Debug, Clone, Copy, PartialEq, Eq, Structural)]
pub enum FileReadError {
    Unreadable,
}

#[verifier::external_type_specification]
#[verifier::external_body]
pub struct ExCsvError(csv::Error);

/// Whether csv parsing of these bytes reads a header row at all.
pub uninterp spec fn csv_ok(b: Seq<u8>) -> bool;

/// The header row csv parsing reads from these bytes.
pub uninterp spec fn csv_header_row(b: Seq<u8>) -> Seq<Seq<char>>;

/// The data rows csv parsing reads from these bytes, `None` standing for
/// a row it cannot read.
pub uninterp spec fn csv_data_rows(b: Seq<u8>) -> Seq<Option<Seq<Seq<char>>>>;

/// Relies on csv's `ReaderBuilder`/`Reader`: parsing a byte buffer is a
/// function of the bytes alone; `headers` reads the first record, and the
/// `records` iterator yields each later row, per-row errors standing
/// alone.  The whole parse fails exactly when the header cannot be read.
#[verifier::external_body]
fn parse_csv_bytes(bytes: &Vec<u8>) -> (r: Result<
    (Vec<String>, Vec<Option<Vec<String>>>),
    csv::Error,
>)
    ensures
        r is Ok <==> csv_ok(bytes@),
        r is Ok ==> r.unwrap().0.deep_view() == csv_header_row(bytes@),
        r is Ok ==> r.unwrap().1.deep_view() == csv_data_rows(bytes@),
{
    let mut rdr = csv::ReaderBuilder::new().from_reader(bytes.as_slice());
    let headers: Vec<String> = match rdr.headers() {
        Ok(h) => h.iter().map(|s| s.to_string()).collect(),
        Err(e) => {
            return Err(e);
        },
    };
    let mut rows: Vec<Option<Vec<String>>> = Vec::new();
    for rec in rdr.records() {
        rows.push(rec.ok().map(|r| r.iter().map(|s| s.to_string()).collect()));
    }
    Ok((headers, rows))
}

/// The decoded records of one file, with the rows that were skipped.
#[derive(Debug)]
pub struct DecodeTally {
    /// The rows that decoded, in file order.
    pub records: Vec<CsvRecord>,
    /// How many rows were skipped.
    pub skipped: usize,
    /// Why each skipped row was skipped, in file order.
    pub errors: Vec<RowError>,
}

/// The records a row list decodes to, in order; unreadable and failing
/// rows contribute nothing.
pub open spec fn decoded_views(hs: Seq<Seq<char>>, rows: Seq<Option<Seq<Seq<char>>>>) -> Seq<
    RecordV,
>
    decreases rows.len(),
{
    if rows.len() == 0 {
        Seq::empty()
    } else {
        let rest = decoded_views(hs, rows.drop_last());
        match rows.last() {
            Option::Some(cs) => if decode_ok(hs, cs) {
                rest.push(decoded_rec(hs, cs))
            } else {
                rest
            },
            Option::None => rest,
        }
    }
}

/// Decode every row of a file against its header row.  A failing row is
/// skipped and tallied — it never aborts the rest of the file.
pub fn decode_rows(headers: &Vec<String>, rows: &Vec<Option<Vec<String>>>) -> (t: DecodeTally)
    ensures
        rec_views(t.records@) == decoded_views(headers.deep_view(), rows.deep_view()),
        t.records@.len() + t.skipped == rows@.len(),
        t.errors@.len() == t.skipped,
{
    let ghost hs = headers.deep_view();
    let ghost rs = rows.deep_view();
    let mut records: Vec<CsvRecord> = Vec::new();
    let mut skipped: usize = 0;
    let mut errors: Vec<RowError> = Vec::new();
    let n = rows.len();
    proof {
        assert(rs.take(0) =~= Seq::<Option<Seq<Seq<char>>>>::empty());
    }
    let mut i: usize = 0;
    while i < n
        invariant
            0 <= i <= n,
            n == rows@.len(),
            hs == headers.deep_view(),
            rs == rows.deep_view(),
            rs.len() == n,
            rec_views(records@) == decoded_views(hs, rs.take(i as int)),
            records@.len() + skipped == i,
            errors@.len() == skipped,
        decreases n - i,
    {
        proof {
            assert(rs.take(i + 1).drop_last() =~= rs.take(i as int));
            assert(rs.take(i + 1).last() == rs[i as int]);
            assert(rs[i as int] == rows@[i as int].deep_view());
        }
        match &rows[i] {
            Some(cells) => {
                match decode_record(headers, cells) {
                    Ok(rec) => {
                        proof {
                            assert(rec_views(records@.push(rec)) =~= rec_views(records@).push(
                                rec@,
                            ));
                        }
                        records.push(rec);
                    },
                    Err(e) => {
                        skipped = skipped + 1;
                        errors.push(e);
                    },
                }
            },
            None => {
                skipped = skipped + 1;
                errors.push(RowError::Unreadable);
            },
        }
        i = i + 1;
    }
    proof {
        assert(rs.take(n as int) =~= rs);
    }
    DecodeTally { records, skipped, errors }
}

/// Decode a whole CSV file held in memory: parse the byte text, then
/// decode the rows.  Fails exactly when the file is unreadable at the top
/// level (no header row); a bad data row merely adds to the tally.
pub fn decode_file(bytes: &Vec<u8>) -> (r: Result<DecodeTally, FileReadError>)
    ensures
        r is Ok <==> csv_ok(bytes@),
        r is Ok ==> rec_views(r.unwrap().records@) == decoded_views(
            csv_header_row(bytes@),
            csv_data_rows(bytes@),
        ),
        r is Ok ==> r.unwrap().records@.len() + r.unwrap().skipped == csv_data_rows(bytes@).len(),
        r is Err ==> r.unwrap_err() is Unreadable,
{
    match parse_csv_bytes(bytes) {
        Ok((headers, rows)) => Ok(decode_rows(&headers, &rows)),
        Err(_) => Err(FileReadError::Unreadable),
    }
}

} // verus!
