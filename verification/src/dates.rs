//! Calendar dates for transaction records.
//!
//! The source format writes dates as `month/day/year`; the time of day is
//! fixed to midnight and the offset to UTC, so a record's date is fully
//! described by its calendar day.  `parse_date` accepts one or two digits
//! for month and day, up to four digits for the year, and only days that
//! exist in the named month, leap years included.

use vstd::prelude::*;

use crate::text::{
    chars_vec, dec_val, first_pos, lemma_first_pos_found, parse_u64, sub_vec, u64_text,
};

verus! {

/// A calendar date; the importer fixes time of day to midnight UTC.
#[derive(Debug, Clone, Copy, PartialEq, Eq, Structural)]
pub struct TxDate {
    pub year: u16,
    pub month: u8,
    pub day: u8,
}

pub open spec fn is_leap_year(y: int) -> bool {
    y % 4 == 0 && (y % 100 != 0 || y % 400 == 0)
}

pub open spec fn days_in_month(y: int, m: int) -> int {
    if m == 2 {
        if is_leap_year(y) {
            29
        } else {
            28
        }
    } else if m == 4 || m == 6 || m == 9 || m == 11 {
        30
    } else {
        31
    }
}

impl TxDate {
    /// A date that exists in the calendar.
    pub open spec fn valid(self) -> bool {
        &&& 1 <= self.year <= 9999
        &&& 1 <= self.month <= 12
        &&& 1 <= self.day <= days_in_month(self.year as int, self.month as int)
    }
}

/// The `month/day/year` pieces of date text, split at the first two
/// slashes; meaningful only when both slashes exist.
pub open spec fn month_text(s: Seq<char>) -> Seq<char> {
    s.take(first_pos(s, '/'))
}

pub open spec fn day_text(s: Seq<char>) -> Seq<char> {
    let rest = s.skip(first_pos(s, '/') + 1);
    rest.take(first_pos(rest, '/'))
}

pub open spec fn year_text(s: Seq<char>) -> Seq<char> {
    let rest = s.skip(first_pos(s, '/') + 1);
    rest.skip(first_pos(rest, '/') + 1)
}

/// Date text the decoder accepts: `m/d/y` with one or two digits of month
/// and day, at most four digits of year, naming a day that exists.
pub open spec fn date_text_ok(s: Seq<char>) -> bool {
    let m = month_text(s);
    let d = day_text(s);
    let y = year_text(s);
    &&& s.contains('/')
    &&& s.skip(first_pos(s, '/') + 1).contains('/')
    &&& u64_text(m) && m.len() <= 2
    &&& u64_text(d) && d.len() <= 2
    &&& u64_text(y) && y.len() <= 4
    &&& 1 <= dec_val(m) <= 12
    &&& 1 <= dec_val(y) <= 9999
    &&& 1 <= dec_val(d) <= days_in_month(dec_val(y) as int, dec_val(m) as int)
}

/// The date that accepted text denotes.
pub open spec fn date_of(s: Seq<char>) -> TxDate {
    TxDate {
        year: dec_val(year_text(s)) as u16,
        month: dec_val(month_text(s)) as u8,
        day: dec_val(day_text(s)) as u8,
    }
}

/// Decode `month/day/year` text; malformed dates and days that do not
/// exist in their month are rejected.
pub fn parse_date(s: &str) -> (r: Option<TxDate>)
    ensures
        r is Some <==> date_text_ok(s@),
        r is Some ==> r.unwrap() == date_of(s@) && r.unwrap().valid(),
{
    let v = chars_vec(s);
    let n = v.len();

    // first slash
    let mut s1: usize = n;
    let mut i: usize = 0;
    while i < n && s1 == n
        invariant
            0 <= i <= n,
            n == v@.len(),
            s1 == n || (0 <= s1 < i && v@[s1 as int] == '/'),
            s1 == n ==> forall|j: int| 0 <= j < i ==> v@[j] != '/',
            s1 < n ==> forall|j: int| 0 <= j < s1 ==> v@[j] != '/',
        decreases n - i,
    {
        if v[i] == '/' {
            s1 = i;
        }
        i = i + 1;
    }
    if s1 == n {
        proof {
            assert(!v@.contains('/'));
        }
        return None;
    }
    proof {
        lemma_first_pos_found(v@, '/', s1 as int);
    }

    // second slash
    let mut s2: usize = n;
    let mut k: usize = s1 + 1;
    while k < n && s2 == n
        invariant
            s1 < k <= n,
            n == v@.len(),
            s2 == n || (s1 < s2 < k && v@[s2 as int] == '/'),
            s2 == n ==> forall|j: int| s1 < j < k ==> v@[j] != '/',
            s2 < n ==> forall|j: int| s1 < j < s2 ==> v@[j] != '/',
        decreases n - k,
    {
        if v[k] == '/' {
            s2 = k;
        }
        k = k + 1;
    }
    proof {
        assert(forall|j: int| 0 <= j < v@.skip(s1 + 1).len() ==> #[trigger] v@.skip(s1 + 1)[j]
            == v@[j + s1 + 1]);
    }
    if s2 == n {
        proof {
            assert(!v@.skip(s1 + 1).contains('/')) by {
                if v@.skip(s1 + 1).contains('/') {
                    let j = choose|j: int|
                        0 <= j < v@.skip(s1 + 1).len() && #[trigger] v@.skip(s1 + 1)[j] == '/';
                    assert(v@[j + s1 + 1] == '/');
                }
            }
        }
        return None;
    }
    proof {
        lemma_first_pos_found(v@.skip(s1 + 1), '/', s2 - s1 - 1);
        assert(v@.skip(s1 + 1).contains('/'));
    }

    let m_vec = sub_vec(&v, 0, s1);
    let d_vec = sub_vec(&v, s1 + 1, s2);
    let y_vec = sub_vec(&v, s2 + 1, n);
    proof {
        assert(m_vec@ =~= month_text(v@));
        assert(d_vec@ =~= day_text(v@));
        assert(y_vec@ =~= year_text(v@));
    }

    if m_vec.len() > 2 || d_vec.len() > 2 || y_vec.len() > 4 {
        return None;
    }
    let m = match parse_u64(&m_vec) {
        Some(x) => x,
        None => {
            return None;
        },
    };
    let d = match parse_u64(&d_vec) {
        Some(x) => x,
        None => {
            return None;
        },
    };
    let y = match parse_u64(&y_vec) {
        Some(x) => x,
        None => {
            return None;
        },
    };
    if !(1 <= m && m <= 12 && 1 <= y && y <= 9999) {
        return None;
    }
    let dim: u64 = if m == 2 {
        if y % 4 == 0 && (y % 100 != 0 || y % 400 == 0) {
            29
        } else {
            28
        }
    } else if m == 4 || m == 6 || m == 9 || m == 11 {
        30
    } else {
        31
    };
    if !(1 <= d && d <= dim) {
        return None;
    }
    Some(TxDate { year: y as u16, month: m as u8, day: d as u8 })
}

} // verus!
