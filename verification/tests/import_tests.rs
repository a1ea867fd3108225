use csv_importer::currency::Currency;
use csv_importer::dates::TxDate;
use csv_importer::db::{ImportAction, ImportEvent, ImportRun, Table, CHUNK_SIZE};
use csv_importer::pipeline::{account_runs, filter_new_rows};
use csv_importer::record::CsvRecord;

fn rec(account: &str, id: u64) -> CsvRecord {
    CsvRecord {
        account: account.to_string(),
        id,
        date: TxDate { year: 2021, month: 1, day: 2 },
        amount: Currency::new(10, 0),
        balance: Currency::new(100, 0),
        vendor: "Shop".to_string(),
        digits: None,
        transaction_type: "debit".to_string(),
        category: None,
        subcategory: None,
        notes: None,
        income: false,
        fixed: false,
        spend: true,
    }
}

/// Drive an import run against the model table; the store rejects the
/// rows whose index is in `rejected`, and `fail_begin_at` makes the
/// transaction of that chunk ordinal fail to begin.
fn drive(records: &[CsvRecord], table: &mut Table, rejected: &[usize], fail_begin_at: Option<u64>) -> ImportRun {
    let mut run = ImportRun::new(records.len());
    let mut begun: u64 = 0;
    loop {
        match run.next_action() {
            ImportAction::BeginChunk => {
                if fail_begin_at == Some(begun) {
                    run.step(ImportEvent::ChunkFailed);
                } else {
                    begun += 1;
                    run.step(ImportEvent::ChunkBegan);
                }
            }
            ImportAction::InsertRow(i) => {
                if rejected.contains(&i) {
                    run.step(ImportEvent::RowFailed);
                } else if table.insert_conflict_safe(records[i].clone()) {
                    run.step(ImportEvent::RowInserted);
                } else {
                    run.step(ImportEvent::RowConflicted);
                }
            }
            ImportAction::CommitChunk => run.step(ImportEvent::ChunkCommitted),
            ImportAction::Finished | ImportAction::Aborted => return run,
        }
    }
}

#[test]
fn conflicting_key_is_a_silent_no_op() {
    let mut t = Table::new();
    assert!(t.insert_conflict_safe(rec("A1", 1)));
    assert!(!t.insert_conflict_safe(rec("A1", 1)));
    assert!(t.insert_conflict_safe(rec("A2", 1)));
    assert!(t.insert_conflict_safe(rec("A1", 2)));
    assert_eq!(t.row_count(), 3);
    assert!(t.contains_key(&"A1".to_string(), 1));
    assert!(!t.contains_key(&"A3".to_string(), 1));
}

#[test]
fn reimporting_a_file_twice_leaves_the_row_count_unchanged() {
    let records: Vec<CsvRecord> = (1..=7).map(|i| rec("A1", i)).collect();
    let mut t = Table::new();
    t.insert_all(&records);
    let after_first = t.row_count();
    assert_eq!(after_first, 7);
    t.insert_all(&records);
    assert_eq!(t.row_count(), after_first);
}

#[test]
fn reimport_through_the_run_machine_is_idempotent_too() {
    let records: Vec<CsvRecord> = (1..=60).map(|i| rec("A1", i)).collect();
    let mut t = Table::new();
    let first = drive(&records, &mut t, &[], None);
    assert!(!first.aborted);
    assert_eq!(first.inserted, 60);
    assert_eq!(t.row_count(), 60);
    let second = drive(&records, &mut t, &[], None);
    assert!(!second.aborted);
    assert_eq!(second.inserted, 0);
    assert_eq!(second.conflicted, 60);
    assert_eq!(t.row_count(), 60);
}

#[test]
fn one_rejected_row_still_lets_the_rest_of_its_chunk_commit() {
    let records: Vec<CsvRecord> = (1..=3).map(|i| rec("A1", i)).collect();
    let mut t = Table::new();
    let run = drive(&records, &mut t, &[1], None);
    assert!(!run.aborted);
    assert_eq!(run.failed_rows, 1);
    assert_eq!(run.inserted, 2);
    assert_eq!(run.committed_chunks, 1);
    assert_eq!(t.row_count(), 2);
    assert!(t.contains_key(&"A1".to_string(), 1));
    assert!(!t.contains_key(&"A1".to_string(), 2));
    assert!(t.contains_key(&"A1".to_string(), 3));
}

#[test]
fn records_are_chunked_fifty_at_a_time() {
    assert_eq!(CHUNK_SIZE, 50);
    let records: Vec<CsvRecord> = (1..=120).map(|i| rec("A1", i)).collect();
    let mut t = Table::new();
    let run = drive(&records, &mut t, &[], None);
    assert_eq!(run.committed_chunks, 3);
    assert_eq!(run.inserted, 120);
    assert_eq!(t.row_count(), 120);
}

#[test]
fn a_failed_transaction_aborts_the_run_but_keeps_committed_chunks() {
    let records: Vec<CsvRecord> = (1..=120).map(|i| rec("A1", i)).collect();
    let mut t = Table::new();
    // the second chunk's transaction cannot be begun
    let run = drive(&records, &mut t, &[], Some(1));
    assert!(run.aborted);
    assert_eq!(run.committed_chunks, 1);
    assert_eq!(t.row_count(), 50);
}

#[test]
fn accounts_group_by_adjacency() {
    let mut records: Vec<CsvRecord> = Vec::new();
    for i in 1..=3 {
        records.push(rec("A1", i));
    }
    records.push(rec("B1", 1));
    // a non-contiguous repeat of A1 forms its own group
    records.push(rec("A1", 9));
    let runs = account_runs(&records);
    assert_eq!(runs.len(), 3);
    assert_eq!((runs[0].start, runs[0].end), (0, 3));
    assert_eq!((runs[1].start, runs[1].end), (3, 4));
    assert_eq!((runs[2].start, runs[2].end), (4, 5));
}

#[test]
fn resume_point_filters_only_its_own_account() {
    let mut records: Vec<CsvRecord> = Vec::new();
    for i in 1..=8 {
        records.push(rec("A1", i));
    }
    records.push(rec("B1", 3));
    let runs = account_runs(&records);
    assert_eq!(runs.len(), 2);

    // A1 resumes after ordinal 5: only 6, 7, 8 go forward
    let kept_a = filter_new_rows(&records, runs[0].start, runs[0].end, Some(5));
    let ids: Vec<u64> = kept_a.iter().map(|r| r.id).collect();
    assert_eq!(ids, vec![6, 7, 8]);

    // B1 has no rows persisted yet: everything goes forward, untouched by
    // A1's resume point
    let kept_b = filter_new_rows(&records, runs[1].start, runs[1].end, None);
    assert_eq!(kept_b.len(), 1);
    assert_eq!(kept_b[0].id, 3);
    assert_eq!(kept_b[0].account, "B1");
}

#[test]
fn incremental_run_imports_only_rows_past_each_resume_point() {
    // first import: A1 holds ordinals 1..=5, B2 holds 1
    let mut first: Vec<CsvRecord> = (1..=5).map(|i| rec("A1", i)).collect();
    first.push(rec("B2", 1));
    let mut t = Table::new();
    t.insert_all(&first);
    assert_eq!(t.row_count(), 6);

    // second file: A1 1..=8, B2 1..=2, C3 1
    let mut second: Vec<CsvRecord> = (1..=8).map(|i| rec("A1", i)).collect();
    second.extend((1..=2).map(|i| rec("B2", i)));
    second.push(rec("C3", 1));

    let mut newly_inserted = 0;
    for run in account_runs(&second) {
        let account = &second[run.start].account;
        let resume = t.max_id_for_account(account);
        let to_import = filter_new_rows(&second, run.start, run.end, resume);
        let outcome = drive(&to_import, &mut t, &[], None);
        assert!(!outcome.aborted);
        newly_inserted += outcome.inserted;
    }
    // A1 gains 6..=8, B2 gains 2, C3 gains 1
    assert_eq!(newly_inserted, 5);
    assert_eq!(t.row_count(), 11);
    assert_eq!(t.max_id_for_account(&"A1".to_string()), Some(8));
    assert_eq!(t.max_id_for_account(&"B2".to_string()), Some(2));
    assert_eq!(t.max_id_for_account(&"C3".to_string()), Some(1));
    assert_eq!(t.max_id_for_account(&"D4".to_string()), None);
}

#[test]
fn resume_point_boundary_is_strict() {
    let records: Vec<CsvRecord> = (4..=6).map(|i| rec("A1", i)).collect();
    let kept = filter_new_rows(&records, 0, 3, Some(5));
    let ids: Vec<u64> = kept.iter().map(|r| r.id).collect();
    assert_eq!(ids, vec![6]);
}
