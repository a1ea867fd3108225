//! Exact fixed-point currency values and their codec.
//!
//! `parse` accepts locale-formatted monetary text: the integer portion may
//! carry currency symbols and digit-grouping characters (ignored) and an
//! accounting-style parenthesis marking a negative value; the fractional
//! portion keeps its last two digits.  Text without a decimal point is
//! accepted only as the empty-value marker `$-` (blanks allowed), which
//! decodes to zero.  `render` produces the canonical `{whole}.{fraction:02}`
//! form.

use vstd::prelude::*;
use vstd::string::StringExecFns;

use crate::text::{
    chars_vec, dec_val, digit_seq, digit_val, is_dec_digit, lemma_digit_seq_prefix_le,
    lemma_digit_seq_take_step, lemma_filter_take_step, text_eq_str,
};

verus! {

// --- the mathematical value of a currency ---

/// Abstract value of a `Currency`: a signed whole part and a fractional
/// part of hundredths, stored non-negative.
pub ghost struct CurrencyV {
    pub whole: int,
    pub frac: int,
}

// --- the text model of parsing ---

pub open spec fn has_dot(s: Seq<char>) -> bool {
    s.contains('.')
}

/// Index of the first decimal point; meaningful only when `has_dot(s)`.
pub open spec fn dot_pos(s: Seq<char>) -> int
    decreases s.len(),
{
    if s.len() == 0 {
        0
    } else if s[0] == '.' {
        0
    } else {
        1 + dot_pos(s.drop_first())
    }
}

/// The text before the first decimal point.
pub open spec fn whole_part(s: Seq<char>) -> Seq<char> {
    s.take(dot_pos(s))
}

/// The text after the first decimal point.
pub open spec fn frac_part(s: Seq<char>) -> Seq<char> {
    s.skip(dot_pos(s) + 1)
}

/// `s` with every space removed.
pub open spec fn strip_spaces(s: Seq<char>) -> Seq<char> {
    s.filter(|c: char| c != ' ')
}

/// The empty-value marker: `$-` once spaces are stripped.
pub open spec fn empty_marker(s: Seq<char>) -> bool {
    strip_spaces(s) == "$-"@
}

/// Magnitude of the whole portion: the value of its digit subsequence.
pub open spec fn whole_magnitude(s: Seq<char>) -> nat {
    dec_val(digit_seq(whole_part(s)))
}

/// A parenthesis anywhere in the whole portion marks the value negative.
pub open spec fn marked_negative(s: Seq<char>) -> bool {
    whole_part(s).contains('(')
}

/// The value that well-formed decimal-point text denotes.
pub open spec fn currency_of_text(s: Seq<char>) -> CurrencyV {
    CurrencyV {
        whole: if marked_negative(s) {
            -(whole_magnitude(s) as int)
        } else {
            whole_magnitude(s) as int
        },
        frac: (dec_val(digit_seq(frac_part(s))) % 100) as int,
    }
}

/// The inputs `parse` accepts: decimal-point text whose whole magnitude
/// fits an `i32`, or the empty-value marker.
pub open spec fn parse_accepts(s: Seq<char>) -> bool {
    (has_dot(s) && whole_magnitude(s) <= i32::MAX) || (!has_dot(s) && empty_marker(s))
}

proof fn lemma_dot_pos_found(s: Seq<char>, i: int)
    requires
        0 <= i < s.len(),
        s[i] == '.',
        forall|j: int| 0 <= j < i ==> s[j] != '.',
    ensures
        dot_pos(s) == i,
        has_dot(s),
    decreases i,
{
    if i > 0 {
        lemma_dot_pos_found(s.drop_first(), i - 1);
    }
}

// --- the text model of rendering ---

/// The character of a decimal digit value.
pub open spec fn digit_char(d: nat) -> char
    recommends
        d < 10,
{
    ((48 + d) as u8) as char
}

/// Decimal rendering of a non-negative number, no leading zeros except
/// for zero itself.
pub open spec fn dec_text(n: nat) -> Seq<char>
    decreases n,
{
    if n < 10 {
        seq![digit_char(n)]
    } else {
        dec_text(n / 10).push(digit_char(n % 10))
    }
}

/// Decimal rendering of a signed number.
pub open spec fn int_text(w: int) -> Seq<char> {
    if w < 0 {
        seq!['-'] + dec_text((-w) as nat)
    } else {
        dec_text(w as nat)
    }
}

/// The canonical `{whole}.{fraction:02}` form of a currency value.
pub open spec fn canonical_text(v: CurrencyV) -> Seq<char>
    recommends
        0 <= v.frac < 100,
{
    int_text(v.whole) + seq!['.'] + seq![
        digit_char((v.frac / 10) as nat),
        digit_char((v.frac % 10) as nat),
    ]
}

// --- the currency type ---

/// An exact fixed-point monetary value: a signed whole part and two
/// fractional digits.  Never floating point.
#[derive(Debug, Clone, Copy, PartialEq, Eq, Structural)]
pub struct Currency {
    whole: i32,
    digits: u8,
}

impl View for Currency {
    type V = CurrencyV;

    closed spec fn view(&self) -> CurrencyV {
        CurrencyV { whole: self.whole as int, frac: self.digits as int }
    }
}

/// Relies on std's `String::push`: appends the given character to the end
/// of the string.
pub assume_specification[ String::push ](s: &mut String, c: char)
    ensures
        final(s)@ == old(s)@.push(c),
;

impl Currency {
    /// The fractional part always holds fewer than one hundred hundredths.
    pub closed spec fn wf(&self) -> bool {
        self.digits < 100
    }

    /// The zero value.
    pub fn zero() -> (r: Self)
        ensures
            r@ == (CurrencyV { whole: 0, frac: 0 }),
            r.wf(),
    {
        Currency { whole: 0, digits: 0 }
    }

    /// A value from its parts.
    pub fn new(whole: i32, fraction: u8) -> (r: Self)
        requires
            fraction < 100,
        ensures
            r@ == (CurrencyV { whole: whole as int, frac: fraction as int }),
            r.wf(),
    {
        Currency { whole, digits: fraction }
    }

    /// The signed whole part.
    pub fn whole(&self) -> (r: i32)
        ensures
            r as int == self@.whole,
    {
        self.whole
    }

    /// The fractional part, in hundredths.
    pub fn fraction(&self) -> (r: u8)
        ensures
            r as int == self@.frac,
    {
        self.digits
    }

    /// Decode locale-formatted monetary text.
    ///
    /// Text with a decimal point decodes to the value of its digit
    /// subsequences, negative when a parenthesis appears before the point;
    /// the fraction keeps its last two digits.  Without a decimal point
    /// only the empty-value marker `$-` is accepted, as zero.  A whole
    /// magnitude beyond `i32::MAX` is rejected like any other malformed
    /// text, with the offending text named in the error.
    pub fn parse(s: &str) -> (r: Result<Currency, ParseCurrencyError>)
        ensures
            r is Ok <==> parse_accepts(s@),
            r is Ok ==> r.unwrap().wf(),
            parse_accepts(s@) && has_dot(s@) ==> r.unwrap()@ == currency_of_text(s@),
            parse_accepts(s@) && !has_dot(s@) ==> r.unwrap()@ == (CurrencyV { whole: 0, frac: 0 }),
            r is Err ==> r.unwrap_err()@ == s@,
    {
        let v = chars_vec(s);
        let n = v.len();

        // locate the first decimal point
        let mut dot_at: usize = n;
        let mut i: usize = 0;
        while i < n && dot_at == n
            invariant
                0 <= i <= n,
                n == v@.len(),
                dot_at == n || (0 <= dot_at < i && v@[dot_at as int] == '.'),
                dot_at == n ==> forall|j: int| 0 <= j < i ==> v@[j] != '.',
                dot_at < n ==> forall|j: int| 0 <= j < dot_at ==> v@[j] != '.',
            decreases n - i,
        {
            if v[i] == '.' {
                dot_at = i;
            }
            i = i + 1;
        }

        if dot_at == n {
            // no decimal point: only the empty-value marker is accepted
            proof {
                assert(!has_dot(v@));
            }
            let mut stripped: Vec<char> = Vec::new();
            let mut k: usize = 0;
            while k < n
                invariant
                    0 <= k <= n,
                    n == v@.len(),
                    stripped@ == v@.take(k as int).filter(|c: char| c != ' '),
                decreases n - k,
            {
                proof {
                    lemma_filter_take_step(v@, |c: char| c != ' ', k as int);
                }
                if v[k] != ' ' {
                    stripped.push(v[k]);
                }
                k = k + 1;
            }
            proof {
                assert(v@.take(n as int) =~= v@);
            }
            if text_eq_str(&stripped, "$-") {
                Ok(Currency::zero())
            } else {
                Err(ParseCurrencyError::new(s))
            }
        } else {
            proof {
                lemma_dot_pos_found(v@, dot_at as int);
            }
            // scan the whole portion: digits accumulate, a parenthesis
            // marks the value negative, all else is ignored
            let mut neg = false;
            let mut acc: u32 = 0;
            let mut w: usize = 0;
            while w < dot_at
                invariant
                    0 <= w <= dot_at < n,
                    n == v@.len(),
                    v@ == s@,
                    acc <= i32::MAX,
                    acc as nat == dec_val(digit_seq(v@.take(w as int))),
                    neg == v@.take(w as int).contains('('),
                    dot_pos(v@) == dot_at,
                    has_dot(v@),
                decreases dot_at - w,
            {
                let c = v[w];
                proof {
                    assert(v@.take(w + 1) =~= v@.take(w as int).push(v@[w as int]));
                    lemma_digit_seq_take_step(v@, w as int);
                }
                if c == '(' {
                    neg = true;
                } else if c >= '0' && c <= '9' {
                    let d: u32 = (c as u32) - 48;
                    proof {
                        assert(digit_seq(v@.take(w + 1)) == digit_seq(v@.take(w as int)).push(c));
                        assert(digit_seq(v@.take(w as int)).push(c).drop_last() =~= digit_seq(
                            v@.take(w as int),
                        ));
                        assert(dec_val(digit_seq(v@.take(w + 1))) == acc as nat * 10 + digit_val(
                            c,
                        ));
                    }
                    if acc > (2147483647 - d) / 10 {
                        proof {
                            assert(dec_val(digit_seq(v@.take(w + 1))) > i32::MAX);
                            lemma_digit_seq_prefix_le(v@.take(dot_at as int), w + 1);
                            assert(v@.take(dot_at as int).take(w + 1) =~= v@.take(w + 1));
                            assert(whole_magnitude(v@) > i32::MAX);
                        }
                        return Err(ParseCurrencyError::new(s));
                    }
                    acc = acc * 10 + d;
                }
                proof {
                    vstd::seq_lib::lemma_seq_contains_after_push(v@.take(w as int), v@[w as int], '(');
                    assert(neg == v@.take(w + 1).contains('('));
                }
                w = w + 1;
            }
            proof {
                assert(v@.take(dot_at as int) == whole_part(v@));
                assert(acc as nat == whole_magnitude(v@));
                assert(neg == marked_negative(v@));
            }

            // scan the fractional portion: keep the last two digits
            let whole: i32 = if neg {
                0 - (acc as i32)
            } else {
                acc as i32
            };
            let flen = n - (dot_at + 1);
            let mut f: u32 = 0;
            let mut k: usize = 0;
            while k < flen
                invariant
                    0 <= k <= flen,
                    flen == n - (dot_at + 1),
                    0 <= dot_at < n,
                    n == v@.len(),
                    f < 100,
                    dot_pos(v@) == dot_at,
                    has_dot(v@),
                    f as nat == dec_val(digit_seq(v@.skip(dot_at + 1).take(k as int))) % 100,
                decreases flen - k,
            {
                let c = v[dot_at + 1 + k];
                proof {
                    assert(v@.skip(dot_at + 1)[k as int] == v@[dot_at + 1 + k]);
                    lemma_digit_seq_take_step(v@.skip(dot_at + 1), k as int);
                }
                if c >= '0' && c <= '9' {
                    let d: u32 = (c as u32) - 48;
                    proof {
                        let prefix = digit_seq(v@.skip(dot_at + 1).take(k as int));
                        assert(prefix.push(c).drop_last() =~= prefix);
                        assert(dec_val(digit_seq(v@.skip(dot_at + 1).take(k + 1))) == dec_val(
                            prefix,
                        ) * 10 + digit_val(c));
                        assert(((dec_val(prefix) % 100) * 10 + digit_val(c)) % 100 == (dec_val(
                            prefix,
                        ) * 10 + digit_val(c)) % 100) by (nonlinear_arith);
                    }
                    f = (f * 10 + d) % 100;
                }
                k = k + 1;
            }
            proof {
                assert(v@.skip(dot_at + 1).take(flen as int) =~= v@.skip(dot_at + 1));
                assert(v@.skip(dot_at + 1) == frac_part(v@));
            }
            let result = Currency { whole, digits: f as u8 };
            Ok(result)
        }
    }

    /// Render the canonical `{whole}.{fraction:02}` form: the sign applies
    /// to the whole part only and the fraction always shows two digits.
    pub fn render(&self) -> (s: String)
        requires
            self.wf(),
        ensures
            s@ == canonical_text(self@),
    {
        let mut out = String::new();
        if self.whole < 0 {
            out.push('-');
            let mag: u64 = (-(self.whole as i64)) as u64;
            push_dec(&mut out, mag);
            proof {
                assert(seq!['-'] + dec_text(mag as nat) =~= Seq::<char>::empty().push('-')
                    + dec_text(mag as nat));
            }
        } else {
            push_dec(&mut out, self.whole as u64);
            proof {
                assert(Seq::<char>::empty() + dec_text(self.whole as nat) =~= dec_text(
                    self.whole as nat,
                ));
            }
        }
        out.push('.');
        let hi: u8 = self.digits / 10;
        let lo: u8 = self.digits % 10;
        out.push((48 + hi) as char);
        out.push((48 + lo) as char);
        proof {
            assert(out@ =~= canonical_text(self@));
        }
        out
    }
}

/// Append the decimal rendering of `n` to `out`.
fn push_dec(out: &mut String, n: u64)
    ensures
        final(out)@ == old(out)@ + dec_text(n as nat),
    decreases n,
{
    if n >= 10 {
        push_dec(out, n / 10);
    }
    let d: u8 = (n % 10) as u8;
    out.push((48 + d) as char);
    proof {
        if n < 10 {
            assert(old(out)@ + dec_text(n as nat) =~= old(out)@.push(digit_char(n as nat)));
        } else {
            assert(old(out)@ + dec_text(n as nat) =~= (old(out)@ + dec_text((n / 10) as nat)).push(
                digit_char((n % 10) as nat),
            ));
        }
    }
}

// --- errors ---

/// Failure to decode monetary text; names the offending text.
#[derive(Debug, Clone)]
pub struct ParseCurrencyError {
    source: String,
}

impl View for ParseCurrencyError {
    type V = Seq<char>;

    closed spec fn view(&self) -> Seq<char> {
        self.source@
    }
}

impl ParseCurrencyError {
    /// An error naming the text that could not be parsed.
    pub fn new(s: &str) -> (r: Self)
        ensures
            r@ == s@,
    {
        ParseCurrencyError { source: s.to_owned() }
    }

    /// The text that could not be parsed.
    pub fn source_text(&self) -> (r: &str)
        ensures
            r@ == self@,
    {
        self.source.as_str()
    }

    /// A readable description naming the offending text.
    pub fn message(&self) -> (r: String)
        ensures
            r@ == "Could not parse "@ + self@ + " into a currency."@,
    {
        let m = String::from_str("Could not parse ");
        let m = m.concat(self.source.as_str());
        let m = m.concat(" into a currency.");
        m
    }
}

// --- laws ---

/// For all well-formed currency text with a decimal point, parsing and then
/// rendering reproduces the canonical `{whole}.{fraction:02}` form of the
/// denoted value: the signed whole part, a point, then exactly two
/// fractional digits.
pub proof fn lemma_parse_then_render_canonical(s: Seq<char>)
    requires
        has_dot(s),
        parse_accepts(s),
    ensures
        canonical_text(currency_of_text(s)) == int_text(currency_of_text(s).whole) + seq!['.']
            + seq![
            digit_char((currency_of_text(s).frac / 10) as nat),
            digit_char((currency_of_text(s).frac % 10) as nat),
        ],
{
}

/// The character of a digit value is a digit character of that value.
proof fn lemma_digit_char_val(d: nat)
    requires
        d < 10,
    ensures
        is_dec_digit(digit_char(d)),
        digit_val(digit_char(d)) == d,
{
    let b: u8 = (48 + d) as u8;
    assert(b == 48 + d);
    let c: char = b as char;
    assert(c as u32 == b as u32);
    assert(digit_char(d) == c);
    assert('0' as u32 == 48 && '9' as u32 == 57);
}

/// The decimal rendering of a number is all digits and denotes exactly
/// that number.
proof fn lemma_dec_text_digits(n: nat)
    ensures
        dec_text(n).len() >= 1,
        forall|j: int| 0 <= j < dec_text(n).len() ==> is_dec_digit(#[trigger] dec_text(n)[j]),
        digit_seq(dec_text(n)) == dec_text(n),
        dec_val(dec_text(n)) == n,
    decreases n,
{
    broadcast use vstd::seq_lib::group_filter_ensures;

    if n < 10 {
        lemma_digit_char_val(n);
        assert(dec_text(n) == seq![digit_char(n)]);
        assert(dec_text(n).drop_last() =~= Seq::<char>::empty());
        assert(dec_val(Seq::<char>::empty()) == 0);
        assert(dec_text(n).last() == digit_char(n));
        assert(dec_val(dec_text(n)) == dec_val(dec_text(n).drop_last()) * 10 + digit_val(
            dec_text(n).last(),
        ));
        reveal(Seq::filter);
        assert(digit_seq(dec_text(n)) =~= dec_text(n));
    } else {
        lemma_dec_text_digits(n / 10);
        lemma_digit_char_val(n % 10);
        let head = dec_text(n / 10);
        let c = digit_char(n % 10);
        assert(dec_text(n) == head.push(c));
        crate::text::lemma_filter_take_step(head.push(c), |x: char| is_dec_digit(x),
            head.len() as int);
        assert(head.push(c).take(head.len() as int) =~= head);
        assert(head.push(c).take(head.len() as int + 1) =~= head.push(c));
        assert(digit_seq(dec_text(n)) == head.push(c));
        assert(head.push(c).drop_last() =~= head);
        assert(dec_val(head.push(c)) == dec_val(head) * 10 + digit_val(c));
        assert(dec_val(dec_text(n)) == (n / 10) * 10 + n % 10);
    }
}

/// The canonical text of a non-negative well-formed value parses back to
/// exactly that value, so parse and render are mutually inverse on
/// canonical text.  (A negative value renders with a minus sign, which the
/// parser — accepting accounting-style parentheses only — reads as a
/// positive magnitude, so only the non-negative half round-trips.)
pub proof fn lemma_canonical_text_parses_back(v: CurrencyV)
    requires
        0 <= v.whole <= i32::MAX,
        0 <= v.frac < 100,
    ensures
        has_dot(canonical_text(v)),
        parse_accepts(canonical_text(v)),
        currency_of_text(canonical_text(v)) == v,
{
    broadcast use vstd::seq_lib::group_filter_ensures;

    let w = v.whole as nat;
    let head = dec_text(w);
    let tail = seq![digit_char((v.frac / 10) as nat), digit_char((v.frac % 10) as nat)];
    let t = canonical_text(v);
    lemma_dec_text_digits(w);
    assert(int_text(v.whole) == head);
    assert(t =~= head + seq!['.'] + tail);
    let hl = head.len() as int;
    assert(t[hl] == '.');
    assert(forall|j: int| 0 <= j < hl ==> t[j] == #[trigger] head[j]);
    assert(forall|j: int| 0 <= j < hl ==> t[j] != '.');
    lemma_dot_pos_found(t, hl);
    assert(whole_part(t) =~= head);
    assert(whole_magnitude(t) == w);
    assert(!head.contains('('));
    assert(!marked_negative(t));
    let f = frac_part(t);
    assert(f =~= tail);
    lemma_digit_char_val((v.frac / 10) as nat);
    lemma_digit_char_val((v.frac % 10) as nat);
    assert(is_dec_digit(tail[0]) && is_dec_digit(tail[1]));
    let t0 = seq![tail[0]];
    assert(tail.drop_last() =~= t0);
    assert(t0.drop_last() =~= Seq::<char>::empty());
    assert(digit_seq(tail) =~= tail) by {
        reveal_with_fuel(Seq::filter, 4);
        assert(digit_seq(t0) =~= t0);
        assert(digit_seq(tail) =~= digit_seq(tail.drop_last()).push(tail[1]));
    }
    assert(dec_val(t0) == dec_val(t0.drop_last()) * 10 + digit_val(tail[0]));
    assert(dec_val(t0) == digit_val(tail[0]));
    assert(dec_val(tail) == dec_val(tail.drop_last()) * 10 + digit_val(tail[1]));
    assert(dec_val(tail) == digit_val(tail[0]) * 10 + digit_val(tail[1]));
    assert(digit_val(tail[0]) == v.frac / 10 && digit_val(tail[1]) == v.frac % 10);
    assert(dec_val(tail) == (v.frac / 10) * 10 + v.frac % 10);
    assert(dec_val(tail) == v.frac);
    assert(currency_of_text(t).frac == v.frac);
    assert(currency_of_text(t).whole == v.whole);
}

/// A parenthesized integer portion with any nonzero digit magnitude always
/// yields a negative whole part, whatever digit-grouping characters are
/// interspersed.
pub proof fn lemma_parenthesized_is_negative(s: Seq<char>)
    requires
        has_dot(s),
        marked_negative(s),
        whole_magnitude(s) > 0,
    ensures
        currency_of_text(s).whole < 0,
{
}

} // verus!
