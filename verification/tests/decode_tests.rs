use csv_importer::dates::{parse_date, TxDate};
use csv_importer::pipeline::{decode_file, FileReadError};
use csv_importer::record::{decode_record, parse_bool, RowError};

fn headers() -> Vec<String> {
    vec![
        "ACCOUNT", "ID", "Date", "Amount", "Balance", "Vendor", "Digits", "Type", "Category",
        "Subcategory", "Notes", "Income", "Fixed", "Spend",
    ]
    .into_iter()
    .map(|s| s.to_string())
    .collect()
}

fn row(cells: &[&str]) -> Vec<String> {
    cells.iter().map(|s| s.to_string()).collect()
}

#[test]
fn full_row_decodes() {
    let cells = row(&[
        "A1", "3", "4/15/2021", "$(12.50)", "1,000.00", "Grocer", "1234", "debit", "food", "",
        "weekly", "false", "TRUE", "true",
    ]);
    let rec = decode_record(&headers(), &cells).unwrap();
    assert_eq!(rec.account, "A1");
    assert_eq!(rec.id, 3);
    assert_eq!(rec.date, TxDate { year: 2021, month: 4, day: 15 });
    assert_eq!(rec.amount.whole(), -12);
    assert_eq!(rec.amount.fraction(), 50);
    assert_eq!(rec.balance.whole(), 1000);
    assert_eq!(rec.vendor, "Grocer");
    assert_eq!(rec.digits.as_deref(), Some("1234"));
    assert_eq!(rec.transaction_type, "debit");
    assert_eq!(rec.category.as_deref(), Some("food"));
    assert_eq!(rec.subcategory, None);
    assert_eq!(rec.notes.as_deref(), Some("weekly"));
    assert!(!rec.income);
    assert!(rec.fixed);
    assert!(rec.spend);
}

#[test]
fn header_names_are_trimmed() {
    let hs: Vec<String> = headers().iter().map(|h| format!("  {} ", h)).collect();
    let cells = row(&[
        "A1", "1", "1/2/2003", "0.00", "0.00", "V", "", "t", "", "", "", "true", "true", "false",
    ]);
    let rec = decode_record(&hs, &cells).unwrap();
    assert_eq!(rec.account, "A1");
    assert_eq!(rec.digits, None);
}

#[test]
fn missing_required_column_fails_row() {
    let hs: Vec<String> = headers().into_iter().filter(|h| h != "Vendor").collect();
    let cells = row(&[
        "A1", "1", "1/2/2003", "0.00", "0.00", "", "t", "", "", "", "true", "true", "false",
    ]);
    match decode_record(&hs, &cells) {
        Err(RowError::MissingField(name)) => assert_eq!(name, "Vendor"),
        other => panic!("expected a missing Vendor field, got {:?}", other),
    }
}

#[test]
fn bad_boolean_text_fails_row_and_names_it() {
    let cells = row(&[
        "A1", "1", "1/2/2003", "0.00", "0.00", "V", "", "t", "", "", "", "yes", "true", "false",
    ]);
    match decode_record(&headers(), &cells) {
        Err(RowError::BadBool(text)) => assert_eq!(text, "yes"),
        other => panic!("expected a bad boolean, got {:?}", other),
    }
}

#[test]
fn bad_ordinal_fails_row() {
    let cells = row(&[
        "A1", "-1", "1/2/2003", "0.00", "0.00", "V", "", "t", "", "", "", "true", "true", "false",
    ]);
    assert!(matches!(decode_record(&headers(), &cells), Err(RowError::BadId(_))));
}

#[test]
fn bad_currency_fails_row() {
    let cells = row(&[
        "A1", "1", "1/2/2003", "none", "0.00", "V", "", "t", "", "", "", "true", "true", "false",
    ]);
    assert!(matches!(decode_record(&headers(), &cells), Err(RowError::BadCurrency(_))));
}

#[test]
fn booleans_are_case_insensitive_and_exact() {
    assert_eq!(parse_bool(&"True".chars().collect()), Some(true));
    assert_eq!(parse_bool(&"FALSE".chars().collect()), Some(false));
    assert_eq!(parse_bool(&"".chars().collect()), None);
    assert_eq!(parse_bool(&"truthy".chars().collect()), None);
}

#[test]
fn dates_follow_the_calendar() {
    assert_eq!(parse_date("2/29/2020"), Some(TxDate { year: 2020, month: 2, day: 29 }));
    assert_eq!(parse_date("2/29/2019"), None);
    assert_eq!(parse_date("12/31/9999"), Some(TxDate { year: 9999, month: 12, day: 31 }));
    assert_eq!(parse_date("13/1/2020"), None);
    assert_eq!(parse_date("4/31/2021"), None);
    assert_eq!(parse_date("04/05/2021"), Some(TxDate { year: 2021, month: 4, day: 5 }));
    assert_eq!(parse_date("4-5-2021"), None);
    assert_eq!(parse_date(""), None);
}

const GOOD_CSV: &str = "\
ACCOUNT, ID ,Date,Amount,Balance,Vendor,Digits,Type,Category,Subcategory,Notes,Income,Fixed,Spend
A1,1,1/2/2021,$10.00,100.00,Shop,,debit,,,,false,false,true
A1,2,1/3/2021,(2.50),97.50,Cafe,,debit,,,,false,false,true
";

#[test]
fn whole_file_decodes_in_order() {
    let tally = decode_file(&GOOD_CSV.as_bytes().to_vec()).unwrap();
    assert_eq!(tally.records.len(), 2);
    assert_eq!(tally.skipped, 0);
    assert_eq!(tally.records[0].id, 1);
    assert_eq!(tally.records[1].id, 2);
    assert_eq!(tally.records[1].amount.whole(), -2);
    assert_eq!(tally.records[1].amount.fraction(), 50);
}

#[test]
fn one_bad_row_is_skipped_not_fatal() {
    let text = "\
ACCOUNT,ID,Date,Amount,Balance,Vendor,Digits,Type,Category,Subcategory,Notes,Income,Fixed,Spend
A1,1,1/2/2021,$10.00,100.00,Shop,,debit,,,,false,false,true
A1,two,1/3/2021,$1.00,99.00,Cafe,,debit,,,,false,false,true
A1,3,1/4/2021,$1.00,98.00,Cafe,,debit,,,,false,false,true
";
    let tally = decode_file(&text.as_bytes().to_vec()).unwrap();
    assert_eq!(tally.records.len(), 2);
    assert_eq!(tally.skipped, 1);
    assert_eq!(tally.errors.len(), 1);
    assert!(matches!(tally.errors[0], RowError::BadId(_)));
    assert_eq!(tally.records[0].id, 1);
    assert_eq!(tally.records[1].id, 3);
}

#[test]
fn wrong_field_count_row_is_unreadable_and_skipped() {
    let text = "\
ACCOUNT,ID,Date,Amount,Balance,Vendor,Digits,Type,Category,Subcategory,Notes,Income,Fixed,Spend
A1,1,1/2/2021
A1,2,1/3/2021,$1.00,99.00,Cafe,,debit,,,,false,false,true
";
    let tally = decode_file(&text.as_bytes().to_vec()).unwrap();
    assert_eq!(tally.records.len(), 1);
    assert_eq!(tally.skipped, 1);
    assert!(matches!(tally.errors[0], RowError::Unreadable));
    assert_eq!(tally.records[0].id, 2);
}

#[test]
fn duplicate_header_takes_the_first_column() {
    let mut hs = headers();
    hs.push("ID".to_string());
    let mut cells = row(&[
        "A1", "7", "1/2/2003", "0.00", "0.00", "V", "", "t", "", "", "", "true", "true", "false",
    ]);
    cells.push("9".to_string());
    let rec = decode_record(&hs, &cells).unwrap();
    assert_eq!(rec.id, 7);
}

#[test]
fn corrupt_header_fails_file_but_not_the_directory_run() {
    // a header that is not text at all: the file is unreadable at the top
    let mut corrupt: Vec<u8> = vec![0xff, 0xfe, b'\n'];
    corrupt.extend_from_slice(b"A1,1,1/2/2021\n");
    assert!(matches!(decode_file(&corrupt), Err(FileReadError::Unreadable)));

    // a directory run carries on: the valid file still decodes fully
    let mut imported = 0;
    let mut failed = 0;
    for bytes in [corrupt, GOOD_CSV.as_bytes().to_vec()] {
        match decode_file(&bytes) {
            Ok(tally) => imported += tally.records.len(),
            Err(_) => failed += 1,
        }
    }
    assert_eq!(imported, 2);
    assert_eq!(failed, 1);
}
