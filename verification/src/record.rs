//! Typed transaction records and the row decoder.
//!
//! A raw CSV row arrives as a header row plus one cell row; the decoder
//! looks fields up by (blank-trimmed) header name and applies the currency
//! codec, the date parser and tolerant boolean parsing.  A failing row
//! yields an error that names what was wrong; the caller skips it and goes
//! on, tallying skipped rows, so one bad row never aborts a file.

use vstd::prelude::*;

use crate::currency::{
    has_dot, parse_accepts, currency_of_text, Currency, CurrencyV, ParseCurrencyError,
};
use crate::dates::{date_of, date_text_ok, parse_date, TxDate};
use crate::text::{
    chars_vec, dec_val, lower_seq, lower_vec, parse_u64, text_eq_str, trim_blanks, trim_vec,
    u64_text,
};

verus! {

/// Which rows of a file an import loads: every row, or only rows newer
/// than each account's resume point.
#[derive(Debug, Clone, Copy)]
pub enum LoadOptions {
    All,
    New,
}

/// One parsed financial transaction.  `(account, id)` is the natural key:
/// `id` is the transaction's ordinal within its account.
#[derive(Debug)]
pub struct CsvRecord {
    pub account: String,
    pub id: u64,
    pub date: TxDate,
    pub amount: Currency,
    pub balance: Currency,
    pub vendor: String,
    pub digits: Option<String>,
    pub transaction_type: String,
    pub category: Option<String>,
    pub subcategory: Option<String>,
    pub notes: Option<String>,
    pub income: bool,
    pub fixed: bool,
    pub spend: bool,
}

/// Abstract value of a record: every text field as a character sequence.
pub ghost struct RecordV {
    pub account: Seq<char>,
    pub id: u64,
    pub date: TxDate,
    pub amount: CurrencyV,
    pub balance: CurrencyV,
    pub vendor: Seq<char>,
    pub digits: Option<Seq<char>>,
    pub transaction_type: Seq<char>,
    pub category: Option<Seq<char>>,
    pub subcategory: Option<Seq<char>>,
    pub notes: Option<Seq<char>>,
    pub income: bool,
    pub fixed: bool,
    pub spend: bool,
}

impl View for CsvRecord {
    type V = RecordV;

    open spec fn view(&self) -> RecordV {
        RecordV {
            account: self.account@,
            id: self.id,
            date: self.date,
            amount: self.amount@,
            balance: self.balance@,
            vendor: self.vendor@,
            digits: self.digits.deep_view(),
            transaction_type: self.transaction_type@,
            category: self.category.deep_view(),
            subcategory: self.subcategory.deep_view(),
            notes: self.notes.deep_view(),
            income: self.income,
            fixed: self.fixed,
            spend: self.spend,
        }
    }
}

/// The abstract values of a sequence of records.
pub open spec fn rec_views(s: Seq<CsvRecord>) -> Seq<RecordV> {
    s.map_values(|r: CsvRecord| r@)
}

fn clone_opt(o: &Option<String>) -> (r: Option<String>)
    ensures
        r == *o,
{
    match o {
        Some(s) => Some(s.clone()),
        None => None,
    }
}

impl Clone for CsvRecord {
    fn clone(&self) -> (res: Self)
        ensures
            res == *self,
    {
        CsvRecord {
            account: self.account.clone(),
            id: self.id,
            date: self.date,
            amount: self.amount,
            balance: self.balance,
            vendor: self.vendor.clone(),
            digits: clone_opt(&self.digits),
            transaction_type: self.transaction_type.clone(),
            category: clone_opt(&self.category),
            subcategory: clone_opt(&self.subcategory),
            notes: clone_opt(&self.notes),
            income: self.income,
            fixed: self.fixed,
            spend: self.spend,
        }
    }
}

// --- boolean fields ---

/// Boolean text the decoder accepts: `true` or `false` up to ASCII case.
pub open spec fn bool_text_ok(t: Seq<char>) -> bool {
    lower_seq(t) == "true"@ || lower_seq(t) == "false"@
}

pub open spec fn bool_of(t: Seq<char>) -> bool {
    lower_seq(t) == "true"@
}

/// Lowercase the text and accept exactly `true` or `false`.
pub fn parse_bool(v: &Vec<char>) -> (r: Option<bool>)
    ensures
        r is Some <==> bool_text_ok(v@),
        r is Some ==> r.unwrap() == bool_of(v@),
{
    let l = lower_vec(v);
    if text_eq_str(&l, "true") {
        Some(true)
    } else if text_eq_str(&l, "false") {
        Some(false)
    } else {
        None
    }
}

// --- header lookup ---

/// Index of the first header whose blank-trimmed text equals `name`.
pub open spec fn col_of(hs: Seq<Seq<char>>, name: Seq<char>) -> Option<int>
    decreases hs.len(),
{
    if hs.len() == 0 {
        Option::None
    } else if trim_blanks(hs[0]) == name {
        Option::Some(0int)
    } else {
        match col_of(hs.drop_first(), name) {
            Option::None => Option::None,
            Option::Some(i) => Option::Some(i + 1),
        }
    }
}

proof fn lemma_col_of_found(hs: Seq<Seq<char>>, name: Seq<char>, i: int)
    requires
        0 <= i < hs.len(),
        trim_blanks(hs[i]) == name,
        forall|j: int| 0 <= j < i ==> trim_blanks(#[trigger] hs[j]) != name,
    ensures
        col_of(hs, name) == Option::Some(i),
    decreases i,
{
    if i > 0 {
        lemma_col_of_found(hs.drop_first(), name, i - 1);
    }
}

proof fn lemma_col_of_missing(hs: Seq<Seq<char>>, name: Seq<char>)
    requires
        forall|j: int| 0 <= j < hs.len() ==> trim_blanks(#[trigger] hs[j]) != name,
    ensures
        col_of(hs, name) is None,
    decreases hs.len(),
{
    if hs.len() > 0 {
        lemma_col_of_missing(hs.drop_first(), name);
    }
}

/// Find a column by (trimmed) header name.
fn find_col(headers: &Vec<String>, name: &str) -> (r: Option<usize>)
    ensures
        match r {
            Some(i) => col_of(headers.deep_view(), name@) == Option::Some(i as int) && i
                < headers@.len(),
            None => col_of(headers.deep_view(), name@) is None,
        },
{
    let n = headers.len();
    let mut i: usize = 0;
    while i < n
        invariant
            0 <= i <= n,
            n == headers@.len(),
            forall|j: int| 0 <= j < i ==> trim_blanks(
                #[trigger] headers.deep_view()[j],
            ) != name@,
        decreases n - i,
    {
        let t = trim_vec(&chars_vec(headers[i].as_str()));
        if text_eq_str(&t, name) {
            proof {
                lemma_col_of_found(headers.deep_view(), name@, i as int);
            }
            return Some(i);
        }
        i = i + 1;
    }
    proof {
        lemma_col_of_missing(headers.deep_view(), name@);
    }
    None
}

/// The cell of the named column, when the column exists and the row is
/// long enough.
pub open spec fn cell_for(hs: Seq<Seq<char>>, cs: Seq<Seq<char>>, name: Seq<char>) -> Option<
    Seq<char>,
> {
    match col_of(hs, name) {
        Option::None => Option::None,
        Option::Some(i) => if 0 <= i < cs.len() {
            Option::Some(cs[i])
        } else {
            Option::None
        },
    }
}

/// An optional field: absent column, short row and empty cell all decode
/// to "no value".
pub open spec fn opt_cell(hs: Seq<Seq<char>>, cs: Seq<Seq<char>>, name: Seq<char>) -> Option<
    Seq<char>,
> {
    match cell_for(hs, cs, name) {
        Option::None => Option::None,
        Option::Some(t) => if t.len() == 0 {
            Option::None
        } else {
            Option::Some(t)
        },
    }
}

/// The named cell as an owned string.
fn get_cell(headers: &Vec<String>, cells: &Vec<String>, name: &str) -> (r: Option<String>)
    ensures
        match r {
            Some(s) => cell_for(headers.deep_view(), cells.deep_view(), name@) == Option::Some(
                s@,
            ),
            None => cell_for(headers.deep_view(), cells.deep_view(), name@) is None,
        },
{
    match find_col(headers, name) {
        Some(i) => {
            if i < cells.len() {
                Some(cells[i].clone())
            } else {
                None
            }
        },
        None => None,
    }
}

/// The named optional cell, with empty text as "no value".
fn get_opt(headers: &Vec<String>, cells: &Vec<String>, name: &str) -> (r: Option<String>)
    ensures
        r.deep_view() == opt_cell(headers.deep_view(), cells.deep_view(), name@),
{
    match get_cell(headers, cells, name) {
        Some(s) => {
            if s.as_str().unicode_len() == 0 {
                None
            } else {
                Some(s)
            }
        },
        None => None,
    }
}

// --- the row decoder ---

/// Failure to decode one row; names the field and the offending text.
#[derive(Debug)]
pub enum RowError {
    /// A required column is absent (or the row is too short); carries the
    /// column name.
    MissingField(String),
    /// The ordinal is not an unsigned decimal number; carries its text.
    BadId(String),
    /// The date is malformed or names a day that does not exist.
    BadDate(String),
    /// A monetary field could not be parsed.
    BadCurrency(ParseCurrencyError),
    /// A flag is neither `true` nor `false`; carries its text.
    BadBool(String),
    /// The row itself could not be read from the file.
    Unreadable,
}

/// The currency value that accepted monetary text denotes: text with a
/// decimal point denotes its digit value, the empty-value marker zero.
pub open spec fn currency_of_accepted(t: Seq<char>) -> CurrencyV {
    if has_dot(t) {
        currency_of_text(t)
    } else {
        CurrencyV { whole: 0, frac: 0 }
    }
}

/// Whether a row decodes: every required field present and well-formed.
pub open spec fn decode_ok(hs: Seq<Seq<char>>, cs: Seq<Seq<char>>) -> bool {
    &&& cell_for(hs, cs, "ACCOUNT"@) is Some
    &&& match cell_for(hs, cs, "ID"@) {
        Option::Some(t) => u64_text(t),
        Option::None => false,
    }
    &&& match cell_for(hs, cs, "Date"@) {
        Option::Some(t) => date_text_ok(t),
        Option::None => false,
    }
    &&& match cell_for(hs, cs, "Amount"@) {
        Option::Some(t) => parse_accepts(t),
        Option::None => false,
    }
    &&& match cell_for(hs, cs, "Balance"@) {
        Option::Some(t) => parse_accepts(t),
        Option::None => false,
    }
    &&& cell_for(hs, cs, "Vendor"@) is Some
    &&& cell_for(hs, cs, "Type"@) is Some
    &&& match cell_for(hs, cs, "Income"@) {
        Option::Some(t) => bool_text_ok(t),
        Option::None => false,
    }
    &&& match cell_for(hs, cs, "Fixed"@) {
        Option::Some(t) => bool_text_ok(t),
        Option::None => false,
    }
    &&& match cell_for(hs, cs, "Spend"@) {
        Option::Some(t) => bool_text_ok(t),
        Option::None => false,
    }
}

/// The record a decodable row denotes.
pub open spec fn decoded_rec(hs: Seq<Seq<char>>, cs: Seq<Seq<char>>) -> RecordV {
    RecordV {
        account: cell_for(hs, cs, "ACCOUNT"@).unwrap(),
        id: dec_val(cell_for(hs, cs, "ID"@).unwrap()) as u64,
        date: date_of(cell_for(hs, cs, "Date"@).unwrap()),
        amount: currency_of_accepted(cell_for(hs, cs, "Amount"@).unwrap()),
        balance: currency_of_accepted(cell_for(hs, cs, "Balance"@).unwrap()),
        vendor: cell_for(hs, cs, "Vendor"@).unwrap(),
        digits: opt_cell(hs, cs, "Digits"@),
        transaction_type: cell_for(hs, cs, "Type"@).unwrap(),
        category: opt_cell(hs, cs, "Category"@),
        subcategory: opt_cell(hs, cs, "Subcategory"@),
        notes: opt_cell(hs, cs, "Notes"@),
        income: bool_of(cell_for(hs, cs, "Income"@).unwrap()),
        fixed: bool_of(cell_for(hs, cs, "Fixed"@).unwrap()),
        spend: bool_of(cell_for(hs, cs, "Spend"@).unwrap()),
    }
}

/// Decode one raw CSV row against its header row.
///
/// Succeeds exactly when every required field is present and well-formed,
/// and then returns precisely the record the row denotes.  The caller
/// skips failing rows and continues with the rest of the file.
pub fn decode_record(headers: &Vec<String>, cells: &Vec<String>) -> (r: Result<
    CsvRecord,
    RowError,
>)
    ensures
        r is Ok <==> decode_ok(headers.deep_view(), cells.deep_view()),
        r is Ok ==> r.unwrap()@ == decoded_rec(headers.deep_view(), cells.deep_view()),
        ({
            let hs = headers.deep_view();
            let cs = cells.deep_view();
            match r {
                Result::Ok(_) => true,
                Result::Err(RowError::MissingField(nm)) => cell_for(hs, cs, nm@) is None,
                Result::Err(RowError::BadId(t)) => cell_for(hs, cs, "ID"@) == Option::Some(t@)
                    && !u64_text(t@),
                Result::Err(RowError::BadDate(t)) => cell_for(hs, cs, "Date"@) == Option::Some(
                    t@,
                ) && !date_text_ok(t@),
                Result::Err(RowError::BadCurrency(e)) => (cell_for(hs, cs, "Amount"@)
                    == Option::Some(e@) || cell_for(hs, cs, "Balance"@) == Option::Some(e@))
                    && !parse_accepts(e@),
                Result::Err(RowError::BadBool(t)) => (cell_for(hs, cs, "Income"@) == Option::Some(
                    t@,
                ) || cell_for(hs, cs, "Fixed"@) == Option::Some(t@) || cell_for(hs, cs, "Spend"@)
                    == Option::Some(t@)) && !bool_text_ok(t@),
                Result::Err(RowError::Unreadable) => false,
            }
        }),
{
    let account = match get_cell(headers, cells, "ACCOUNT") {
        Some(s) => s,
        None => {
            return Err(RowError::MissingField("ACCOUNT".to_owned()));
        },
    };
    let id_text = match get_cell(headers, cells, "ID") {
        Some(s) => s,
        None => {
            return Err(RowError::MissingField("ID".to_owned()));
        },
    };
    let id = match parse_u64(&chars_vec(id_text.as_str())) {
        Some(x) => x,
        None => {
            return Err(RowError::BadId(id_text));
        },
    };
    let date_text = match get_cell(headers, cells, "Date") {
        Some(s) => s,
        None => {
            return Err(RowError::MissingField("Date".to_owned()));
        },
    };
    let date = match parse_date(date_text.as_str()) {
        Some(d) => d,
        None => {
            return Err(RowError::BadDate(date_text));
        },
    };
    let amount_text = match get_cell(headers, cells, "Amount") {
        Some(s) => s,
        None => {
            return Err(RowError::MissingField("Amount".to_owned()));
        },
    };
    let amount = match Currency::parse(amount_text.as_str()) {
        Ok(c) => c,
        Err(e) => {
            return Err(RowError::BadCurrency(e));
        },
    };
    let balance_text = match get_cell(headers, cells, "Balance") {
        Some(s) => s,
        None => {
            return Err(RowError::MissingField("Balance".to_owned()));
        },
    };
    let balance = match Currency::parse(balance_text.as_str()) {
        Ok(c) => c,
        Err(e) => {
            return Err(RowError::BadCurrency(e));
        },
    };
    let vendor = match get_cell(headers, cells, "Vendor") {
        Some(s) => s,
        None => {
            return Err(RowError::MissingField("Vendor".to_owned()));
        },
    };
    let transaction_type = match get_cell(headers, cells, "Type") {
        Some(s) => s,
        None => {
            return Err(RowError::MissingField("Type".to_owned()));
        },
    };
    let income_text = match get_cell(headers, cells, "Income") {
        Some(s) => s,
        None => {
            return Err(RowError::MissingField("Income".to_owned()));
        },
    };
    let income = match parse_bool(&chars_vec(income_text.as_str())) {
        Some(b) => b,
        None => {
            return Err(RowError::BadBool(income_text));
        },
    };
    let fixed_text = match get_cell(headers, cells, "Fixed") {
        Some(s) => s,
        None => {
            return Err(RowError::MissingField("Fixed".to_owned()));
        },
    };
    let fixed = match parse_bool(&chars_vec(fixed_text.as_str())) {
        Some(b) => b,
        None => {
            return Err(RowError::BadBool(fixed_text));
        },
    };
    let spend_text = match get_cell(headers, cells, "Spend") {
        Some(s) => s,
        None => {
            return Err(RowError::MissingField("Spend".to_owned()));
        },
    };
    let spend = match parse_bool(&chars_vec(spend_text.as_str())) {
        Some(b) => b,
        None => {
            return Err(RowError::BadBool(spend_text));
        },
    };
    let digits = get_opt(headers, cells, "Digits");
    let category = get_opt(headers, cells, "Category");
    let subcategory = get_opt(headers, cells, "Subcategory");
    let notes = get_opt(headers, cells, "Notes");
    Ok(
        CsvRecord {
            account,
            id,
            date,
            amount,
            balance,
            vendor,
            digits,
            transaction_type,
            category,
            subcategory,
            notes,
            income,
            fixed,
            spend,
        },
    )
}

} // verus!
