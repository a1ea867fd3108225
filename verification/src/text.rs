//! Character-level text models and verified helpers shared by the currency
//! codec and the record decoder: decimal digit sequences, whitespace
//! trimming, ASCII lowercasing, and unsigned integer parsing.

use vstd::prelude::*;
use vstd::string::StrSliceExecFns;

verus! {

// --- character classes ---

pub open spec fn is_dec_digit(c: char) -> bool {
    '0' <= c && c <= '9'
}

/// Numeric value of a decimal digit character.
pub open spec fn digit_val(c: char) -> nat
    recommends
        is_dec_digit(c),
{
    ((c as u32) - 48) as nat
}

/// Blank characters stripped from the ends of CSV header cells.
pub open spec fn is_blank(c: char) -> bool {
    c == ' ' || c == '\t'
}

// --- decimal digit sequences ---

/// The subsequence of decimal digit characters of `s`, in order.
pub open spec fn digit_seq(s: Seq<char>) -> Seq<char> {
    s.filter(|c: char| is_dec_digit(c))
}

/// The value of a sequence of decimal digit characters, most significant
/// first; the empty sequence has value zero.
pub open spec fn dec_val(s: Seq<char>) -> nat
    decreases s.len(),
{
    if s.len() == 0 {
        0
    } else {
        dec_val(s.drop_last()) * 10 + digit_val(s.last())
    }
}

pub open spec fn all_digits(s: Seq<char>) -> bool {
    forall|i: int| 0 <= i < s.len() ==> is_dec_digit(#[trigger] s[i])
}

/// Extending a digit string on the right never decreases its value.
pub proof fn lemma_dec_val_append_ge(a: Seq<char>, b: Seq<char>)
    ensures
        dec_val(a + b) >= dec_val(a),
    decreases b.len(),
{
    if b.len() == 0 {
        assert(a + b =~= a);
    } else {
        lemma_dec_val_append_ge(a, b.drop_last());
        assert((a + b).drop_last() =~= a + b.drop_last());
        assert(dec_val(a + b) == dec_val(a + b.drop_last()) * 10 + digit_val((a + b).last()));
    }
}

/// One step of a left-to-right scan: the value of a one-longer prefix.
pub proof fn lemma_dec_val_take_step(s: Seq<char>, i: int)
    requires
        0 <= i < s.len(),
    ensures
        dec_val(s.take(i + 1)) == dec_val(s.take(i)) * 10 + digit_val(s[i]),
{
    assert(s.take(i + 1).drop_last() =~= s.take(i));
    assert(s.take(i + 1).last() == s[i]);
}

/// One step of a left-to-right scan through a filter: how the digit
/// subsequence of a prefix grows.
pub proof fn lemma_digit_seq_take_step(s: Seq<char>, i: int)
    requires
        0 <= i < s.len(),
    ensures
        is_dec_digit(s[i]) ==> digit_seq(s.take(i + 1)) == digit_seq(s.take(i)).push(s[i]),
        !is_dec_digit(s[i]) ==> digit_seq(s.take(i + 1)) == digit_seq(s.take(i)),
{
    lemma_filter_take_step(s, |c: char| is_dec_digit(c), i)
}

/// One step of a left-to-right scan through an arbitrary filter.
pub proof fn lemma_filter_take_step<A>(s: Seq<A>, pred: spec_fn(A) -> bool, i: int)
    requires
        0 <= i < s.len(),
    ensures
        pred(s[i]) ==> s.take(i + 1).filter(pred) == s.take(i).filter(pred).push(s[i]),
        !pred(s[i]) ==> s.take(i + 1).filter(pred) == s.take(i).filter(pred),
{
    reveal(Seq::filter);
    assert(s.take(i + 1).drop_last() =~= s.take(i));
    assert(s.take(i + 1).last() == s[i]);
}

/// The digit subsequence of a prefix is a prefix of the whole digit
/// subsequence, so its value can only grow as the scan advances.
pub proof fn lemma_digit_seq_prefix_le(s: Seq<char>, i: int)
    requires
        0 <= i <= s.len(),
    ensures
        dec_val(digit_seq(s)) >= dec_val(digit_seq(s.take(i))),
{
    broadcast use vstd::seq_lib::group_filter_ensures;

    assert(s =~= s.take(i) + s.skip(i));
    assert(digit_seq(s) == digit_seq(s.take(i)) + digit_seq(s.skip(i)));
    lemma_dec_val_append_ge(digit_seq(s.take(i)), digit_seq(s.skip(i)));
}

/// Index of the first occurrence of `c`; meaningful only when `s`
/// contains `c`.
pub open spec fn first_pos(s: Seq<char>, c: char) -> int
    decreases s.len(),
{
    if s.len() == 0 {
        0
    } else if s[0] == c {
        0
    } else {
        1 + first_pos(s.drop_first(), c)
    }
}

pub proof fn lemma_first_pos_found(s: Seq<char>, c: char, i: int)
    requires
        0 <= i < s.len(),
        s[i] == c,
        forall|j: int| 0 <= j < i ==> s[j] != c,
    ensures
        first_pos(s, c) == i,
        s.contains(c),
    decreases i,
{
    if i > 0 {
        lemma_first_pos_found(s.drop_first(), c, i - 1);
    }
}

/// The characters of `v` from `lo` (inclusive) to `hi` (exclusive).
pub fn sub_vec(v: &Vec<char>, lo: usize, hi: usize) -> (r: Vec<char>)
    requires
        lo <= hi <= v@.len(),
    ensures
        r@ == v@.subrange(lo as int, hi as int),
{
    let mut r: Vec<char> = Vec::new();
    let mut i: usize = lo;
    while i < hi
        invariant
            lo <= i <= hi <= v@.len(),
            r@ == v@.subrange(lo as int, i as int),
        decreases hi - i,
    {
        r.push(v[i]);
        proof {
            assert(v@.subrange(lo as int, i + 1) =~= v@.subrange(lo as int, i as int).push(
                v@[i as int],
            ));
        }
        i = i + 1;
    }
    r
}

// --- whitespace trimming ---

pub open spec fn trim_front(s: Seq<char>) -> Seq<char>
    decreases s.len(),
{
    if s.len() > 0 && is_blank(s[0]) {
        trim_front(s.drop_first())
    } else {
        s
    }
}

pub open spec fn trim_back(s: Seq<char>) -> Seq<char>
    decreases s.len(),
{
    if s.len() > 0 && is_blank(s.last()) {
        trim_back(s.drop_last())
    } else {
        s
    }
}

/// `s` with leading and trailing blanks removed.
pub open spec fn trim_blanks(s: Seq<char>) -> Seq<char> {
    trim_back(trim_front(s))
}

proof fn lemma_trim_front_skip(s: Seq<char>, k: int)
    requires
        0 <= k <= s.len(),
        forall|j: int| 0 <= j < k ==> is_blank(#[trigger] s[j]),
        k == s.len() || !is_blank(s[k]),
    ensures
        trim_front(s) == s.skip(k),
    decreases k,
{
    if k == 0 {
        assert(s.skip(0) =~= s);
    } else {
        lemma_trim_front_skip(s.drop_first(), k - 1);
        assert(s.drop_first().skip(k - 1) =~= s.skip(k));
    }
}

proof fn lemma_trim_back_take(s: Seq<char>, k: int)
    requires
        0 <= k <= s.len(),
        forall|j: int| k <= j < s.len() ==> is_blank(#[trigger] s[j]),
        k == 0 || !is_blank(s[k - 1]),
    ensures
        trim_back(s) == s.take(k),
    decreases s.len() - k,
{
    if k == s.len() {
        if s.len() == 0 {
            assert(s.take(0) =~= s);
        } else if is_blank(s.last()) {
            lemma_trim_back_take(s.drop_last(), k - 1);
            assert(s.drop_last().take(k - 1) =~= s.take(k - 1));
            assert(forall|j: int| k - 1 <= j < s.drop_last().len() ==> is_blank(
                #[trigger] s.drop_last()[j],
            ));
        } else {
            assert(trim_back(s) == s);
            assert(s.take(k) =~= s);
        }
    } else {
        assert(is_blank(s.last()));
        lemma_trim_back_take(s.drop_last(), k);
        assert(s.drop_last().take(k) =~= s.take(k));
    }
}

/// Copy of `v` with leading and trailing blanks removed.
pub fn trim_vec(v: &Vec<char>) -> (r: Vec<char>)
    ensures
        r@ == trim_blanks(v@),
{
    let n = v.len();
    let mut lo: usize = 0;
    while lo < n && (v[lo] == ' ' || v[lo] == '\t')
        invariant
            n == v@.len(),
            0 <= lo <= n,
            forall|j: int| 0 <= j < lo ==> is_blank(#[trigger] v@[j]),
        decreases n - lo,
    {
        lo = lo + 1;
    }
    let mut hi: usize = n;
    while hi > lo && (v[hi - 1] == ' ' || v[hi - 1] == '\t')
        invariant
            n == v@.len(),
            0 <= lo <= hi <= n,
            forall|j: int| 0 <= j < lo ==> is_blank(#[trigger] v@[j]),
            forall|j: int| hi <= j < n ==> is_blank(#[trigger] v@[j]),
        decreases hi,
    {
        hi = hi - 1;
    }
    proof {
        lemma_trim_front_skip(v@, lo as int);
        lemma_trim_back_take(v@.skip(lo as int), hi - lo);
    }
    let mut r: Vec<char> = Vec::new();
    let mut i: usize = lo;
    while i < hi
        invariant
            lo <= i <= hi <= v@.len(),
            r@ == v@.subrange(lo as int, i as int),
        decreases hi - i,
    {
        r.push(v[i]);
        proof {
            assert(v@.subrange(lo as int, i + 1) =~= v@.subrange(lo as int, i as int).push(
                v@[i as int],
            ));
        }
        i = i + 1;
    }
    proof {
        assert(v@.subrange(lo as int, hi as int) =~= v@.skip(lo as int).take(hi - lo));
    }
    r
}

// --- conversions between &str and Vec<char> ---

/// The characters of `s` as a vector.
pub fn chars_vec(s: &str) -> (v: Vec<char>)
    ensures
        v@ == s@,
{
    let n = s.unicode_len();
    let mut v: Vec<char> = Vec::new();
    let mut i: usize = 0;
    while i < n
        invariant
            0 <= i <= n,
            n == s@.len(),
            v@ == s@.take(i as int),
        decreases n - i,
    {
        v.push(s.get_char(i));
        proof {
            assert(s@.take(i + 1) =~= s@.take(i as int).push(s@[i as int]));
        }
        i = i + 1;
    }
    proof {
        assert(s@.take(n as int) =~= s@);
    }
    v
}

/// Character-wise equality of a vector and a string slice.
pub fn text_eq_str(v: &Vec<char>, s: &str) -> (r: bool)
    ensures
        r == (v@ == s@),
{
    let n = s.unicode_len();
    if v.len() != n {
        proof {
            assert(v@ != s@) by {
                if v@ == s@ {
                    assert(v@.len() == s@.len());
                }
            }
        }
        return false;
    }
    let mut i: usize = 0;
    while i < n
        invariant
            0 <= i <= n,
            n == s@.len(),
            n == v@.len(),
            forall|j: int| 0 <= j < i ==> v@[j] == s@[j],
        decreases n - i,
    {
        if v[i] != s.get_char(i) {
            proof {
                assert(v@ != s@) by {
                    if v@ == s@ {
                        assert(v@[i as int] == s@[i as int]);
                    }
                }
            }
            return false;
        }
        i = i + 1;
    }
    proof {
        assert(v@ =~= s@);
    }
    true
}

// --- ASCII lowercasing ---

/// ASCII case folding of one character; other characters are unchanged.
pub open spec fn lower_char(c: char) -> char {
    if 'A' <= c && c <= 'Z' {
        (((c as u32) + 32) as u8) as char
    } else {
        c
    }
}

pub open spec fn lower_seq(s: Seq<char>) -> Seq<char> {
    s.map_values(|c: char| lower_char(c))
}

/// ASCII-lowercased copy of `v`.
pub fn lower_vec(v: &Vec<char>) -> (r: Vec<char>)
    ensures
        r@ == lower_seq(v@),
{
    let mut r: Vec<char> = Vec::new();
    let mut i: usize = 0;
    while i < v.len()
        invariant
            0 <= i <= v@.len(),
            r@ == lower_seq(v@.take(i as int)),
        decreases v@.len() - i,
    {
        let c = v[i];
        let l: char = if c >= 'A' && c <= 'Z' {
            (((c as u32) + 32) as u8) as char
        } else {
            c
        };
        r.push(l);
        proof {
            assert(lower_seq(v@.take(i + 1)) =~= lower_seq(v@.take(i as int)).push(
                lower_char(v@[i as int]),
            ));
        }
        i = i + 1;
    }
    proof {
        assert(v@.take(v@.len() as int) =~= v@);
    }
    r
}

// --- unsigned integer parsing ---

/// Text accepted as an unsigned 64-bit ordinal: one or more decimal digits
/// whose value fits in `u64`.
pub open spec fn u64_text(s: Seq<char>) -> bool {
    s.len() > 0 && all_digits(s) && dec_val(s) <= u64::MAX
}

/// Parse a decimal ordinal, rejecting empty text, non-digit characters and
/// values that overflow `u64`.
pub fn parse_u64(v: &Vec<char>) -> (r: Option<u64>)
    ensures
        r is Some <==> u64_text(v@),
        r is Some ==> r.unwrap() == dec_val(v@),
{
    if v.len() == 0 {
        return None;
    }
    let mut acc: u64 = 0;
    let mut i: usize = 0;
    while i < v.len()
        invariant
            0 <= i <= v@.len(),
            all_digits(v@.take(i as int)),
            acc == dec_val(v@.take(i as int)),
        decreases v@.len() - i,
    {
        let c = v[i];
        if !(c >= '0' && c <= '9') {
            proof {
                assert(!all_digits(v@)) by {
                    assert(v@[i as int] == c);
                }
            }
            return None;
        }
        let d: u64 = ((c as u32) - 48) as u64;
        proof {
            lemma_dec_val_take_step(v@, i as int);
        }
        if acc > (u64::MAX - d) / 10 {
            proof {
                assert(dec_val(v@.take(i + 1)) > u64::MAX);
                assert(v@ =~= v@.take(i + 1) + v@.skip(i + 1));
                lemma_dec_val_append_ge(v@.take(i + 1), v@.skip(i + 1));
            }
            return None;
        }
        acc = acc * 10 + d;
        proof {
            assert(all_digits(v@.take(i + 1))) by {
                assert(forall|j: int| 0 <= j < i ==> v@.take(i + 1)[j] == #[trigger] v@.take(
                    i as int,
                )[j]);
                assert(v@.take(i + 1)[i as int] == c);
            }
        }
        i = i + 1;
    }
    proof {
        assert(v@.take(v@.len() as int) =~= v@);
    }
    Some(acc)
}

} // verus!
