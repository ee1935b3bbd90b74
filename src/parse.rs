//! Decoding of book-ticker messages: field extraction from the JSON text and
//! decimal prices into fixed-point integers.

use crate::pricing::{TopOfBookUpdate, PRICE_SCALE};
use vstd::prelude::*;
use vstd::utf8::{decode_utf8, valid_utf8};

verus! {

/// Why a book-ticker message could not be decoded.
#[derive(Debug, Clone, Copy, PartialEq, Eq, Structural)]
pub enum ParseError {
    /// The message is not valid UTF-8.
    InvalidUtf8,
    /// The key does not occur in the text.
    KeyNotFound,
    /// No closing quote follows the key.
    MissingClosingQuote,
    /// A price is not a decimal number with at most eight decimal places
    /// that fits the fixed-point range.
    InvalidPrice,
}

/// The characters of `text`, in order.
pub(crate) fn chars_of(text: &str) -> (r: Vec<char>)
    ensures
        r@ == text@,
{
    let mut v: Vec<char> = Vec::new();
    for c in it: text.chars()
        invariant
            v@ == it.seq().take(it.index() as int),
    {
        v.push(c);
    }
    v
}


/// Relies on `String: FromIterator<char>`: the string holds the characters in order.
#[verifier::external_body]
pub(crate) fn string_from_chars(chars: &[char]) -> (r: String)
    ensures
        r@ == chars@,
{
    chars.iter().collect()
}

/// `key` occurs in `text` at position `i`.
pub open spec fn occurs_at(text: Seq<char>, key: Seq<char>, i: int) -> bool {
    0 <= i && i + key.len() <= text.len() && text.subrange(i, i + key.len()) == key
}

/// `i` is the position of the first occurrence of `key` in `text`.
pub open spec fn first_occurrence(text: Seq<char>, key: Seq<char>, i: int) -> bool {
    occurs_at(text, key, i) && forall|j: int| 0 <= j < i ==> !occurs_at(text, key, j)
}

/// `e` is the position of the first `"` at or after `start` in `text`.
pub open spec fn first_quote_from(text: Seq<char>, start: int, e: int) -> bool {
    start <= e < text.len() && text[e] == '"' && forall|j: int| start <= j < e ==> text[j] != '"'
}

/// The value that follows `key` in `text`: the characters after the first
/// occurrence of `key` up to the next `"`.
pub open spec fn field_after(text: Seq<char>, key: Seq<char>) -> Result<Seq<char>, ParseError> {
    if exists|i: int| first_occurrence(text, key, i) {
        let i = choose|i: int| first_occurrence(text, key, i);
        let start = i + key.len();
        if exists|e: int| first_quote_from(text, start, e) {
            let e = choose|e: int| first_quote_from(text, start, e);
            Ok(text.subrange(start, e))
        } else {
            Err(ParseError::MissingClosingQuote)
        }
    } else {
        Err(ParseError::KeyNotFound)
    }
}

proof fn lemma_first_occurrence_unique(text: Seq<char>, key: Seq<char>, i: int, j: int)
    requires
        first_occurrence(text, key, i),
        first_occurrence(text, key, j),
    ensures
        i == j,
{
}

proof fn lemma_first_quote_unique(text: Seq<char>, start: int, e: int, f: int)
    requires
        first_quote_from(text, start, e),
        first_quote_from(text, start, f),
    ensures
        e == f,
{
}

/// Whether `key` occurs in `text` at position `i`.
fn occurs_at_exec(text: &Vec<char>, key: &Vec<char>, i: usize) -> (r: bool)
    requires
        i + key@.len() <= text@.len(),
    ensures
        r == occurs_at(text@, key@, i as int),
{
    let m = key.len();
    let n = text.len();
    for j in 0..m
        invariant
            m == key@.len(),
            n == text@.len(),
            i + m <= n,
            forall|u: int| 0 <= u < j ==> text@[i + u] == key@[u],
    {
        if text[i + j] != key[j] {
            proof {
                assert(text@.subrange(i as int, i + m)[j as int] != key@[j as int]);
            }
            return false;
        }
    }
    proof {
        assert(text@.subrange(i as int, i + m) =~= key@);
    }
    true
}

/// The position of the first occurrence of `key` in `text`, if any.
fn first_occurrence_of(text: &Vec<char>, key: &Vec<char>) -> (r: Option<usize>)
    ensures
        r matches Some(i) ==> first_occurrence(text@, key@, i as int),
        r is None ==> !exists|i: int| first_occurrence(text@, key@, i),
{
    let n = text.len();
    let m = key.len();
    if m == 0 {
        proof {
            assert(text@.subrange(0, 0) =~= key@);
        }
        return Some(0);
    }
    if m > n {
        return None;
    }
    let mut i: usize = 0;
    while i < n - m + 1
        invariant
            n == text@.len(),
            m == key@.len(),
            1 <= m <= n,
            i <= n - m + 1,
            forall|j: int| 0 <= j < i ==> !occurs_at(text@, key@, j),
        decreases n - m + 1 - i,
    {
        if occurs_at_exec(text, key, i) {
            return Some(i);
        }
        i = i + 1;
    }
    None
}

/// Returns the value that follows `key` in `text`, up to the next `"`.
pub fn extract_json_field(text: &str, key: &str) -> (r: Result<String, ParseError>)
    ensures
        r matches Ok(v) ==> field_after(text@, key@) == Ok::<Seq<char>, ParseError>(v@),
        r matches Err(e) ==> field_after(text@, key@) == Err::<Seq<char>, ParseError>(e),
{
    let t = chars_of(text);
    let k = chars_of(key);
    let n = t.len();
    let m = k.len();
    let found = first_occurrence_of(&t, &k);
    let ghost first: int = 0;
    let start = match found {
        Some(i) => {
            proof {
                first = i as int;
            }
            assert(first_occurrence(t@, k@, i as int));
            proof {
                assert forall|j: int| #[trigger] first_occurrence(t@, k@, j) implies j == i by {
                    lemma_first_occurrence_unique(t@, k@, i as int, j);
                }
            }
            i + m
        },
        None => {
            return Err(ParseError::KeyNotFound);
        },
    };
    let mut e: usize = start;
    while e < n
        invariant
            n == t@.len(),
            t@ == text@,
            k@ == key@,
            start <= e <= n,
            start == first + key@.len(),
            first_occurrence(text@, key@, first),
            forall|j: int| #[trigger] first_occurrence(text@, key@, j) ==> j == first,
            forall|j: int| start <= j < e ==> t@[j] != '"',
        decreases n - e,
    {
        if t[e] == '"' {
            proof {
                assert(first_quote_from(t@, start as int, e as int));
                assert forall|f: int| #[trigger] first_quote_from(t@, start as int, f) implies f == e by {
                    lemma_first_quote_unique(t@, start as int, e as int, f);
                }
            }
            let mut part: Vec<char> = Vec::new();
            for j in start..e
                invariant
                    n == t@.len(),
                    t@ == text@,
                    k@ == key@,
                    start <= e < n,
                    start == first + key@.len(),
                    first_occurrence(text@, key@, first),
                    forall|j: int| #[trigger] first_occurrence(text@, key@, j) ==> j == first,
                    first_quote_from(t@, start as int, e as int),
                    forall|f: int| #[trigger] first_quote_from(t@, start as int, f) ==> f == e,
                    part@ == t@.subrange(start as int, j as int),
            {
                proof {
                    assert(t@.subrange(start as int, j + 1) =~= t@.subrange(start as int, j as int).push(t@[j as int]));
                }
                part.push(t[j]);
            }
            let v = string_from_chars(part.as_slice());
            proof {
                assert(part@ == t@.subrange(start as int, e as int));
                assert(v@ == part@);
                assert(exists|i: int| first_occurrence(text@, key@, i));
                let i0 = choose|i: int| first_occurrence(text@, key@, i);
                assert(i0 == first);
                assert(exists|f: int| first_quote_from(text@, start as int, f));
                let e0 = choose|f: int| first_quote_from(text@, start as int, f);
                assert(e0 == e);
            }
            return Ok(v);
        }
        e = e + 1;
    }
    Err(ParseError::MissingClosingQuote)
}


/// Whether `c` is a decimal digit.
pub open spec fn is_digit(c: char) -> bool {
    '0' <= c && c <= '9'
}

/// Every character of `s` is a decimal digit.
pub open spec fn all_digits(s: Seq<char>) -> bool {
    forall|i: int| 0 <= i < s.len() ==> is_digit(#[trigger] s[i])
}

/// The number that the decimal digits `s` spell.
pub open spec fn digits_value(s: Seq<char>) -> nat
    decreases s.len(),
{
    if s.len() == 0 {
        0
    } else {
        digits_value(s.drop_last()) * 10 + (s.last() as nat - '0' as nat) as nat
    }
}

/// Ten to the power `e`.
pub open spec fn pow10(e: nat) -> nat
    decreases e,
{
    if e == 0 {
        1
    } else {
        10 * pow10((e - 1) as nat)
    }
}

/// `p` is the position of the decimal point of a well-formed price `s`:
/// digits before it (at least one), digits after it.
pub open spec fn is_point_at(s: Seq<char>, p: int) -> bool {
    0 < p < s.len() && s[p] == '.' && all_digits(s.take(p)) && all_digits(s.skip(p + 1))
}

/// The fixed-point value of the decimal text `s`, in units of `1 / PRICE_SCALE`:
/// digits with an optional decimal point followed by at most eight digits.
pub open spec fn price_value(s: Seq<char>) -> Option<nat> {
    if s.len() > 0 && all_digits(s) {
        Some(digits_value(s) * pow10(8))
    } else if exists|p: int| is_point_at(s, p) {
        let p = choose|p: int| is_point_at(s, p);
        let frac = s.skip(p + 1);
        if frac.len() <= 8 {
            Some(digits_value(s.take(p) + frac) * pow10((8 - frac.len()) as nat))
        } else {
            None
        }
    } else {
        None
    }
}

proof fn lemma_digits_prefix(s: Seq<char>, j: int)
    requires
        0 <= j <= s.len(),
    ensures
        digits_value(s.take(j)) <= digits_value(s),
    decreases s.len() - j,
{
    if j < s.len() {
        lemma_digits_prefix(s, j + 1);
        assert(s.take(j + 1).drop_last() =~= s.take(j));
        assert(digits_value(s.take(j + 1)) >= digits_value(s.take(j)));
    } else {
        assert(s.take(j) =~= s);
    }
}

proof fn lemma_point_unique(s: Seq<char>, p: int, q: int)
    requires
        is_point_at(s, p),
        is_point_at(s, q),
    ensures
        p == q,
{
    if p < q {
        assert(s.take(q)[p] == s[p]);
    } else if q < p {
        assert(s.take(p)[q] == s[q]);
    }
}

/// Parses a decimal price such as `30000.12` into fixed-point units of
/// `1 / PRICE_SCALE`; `None` when the text is not such a number or the value
/// does not fit in 64 bits.
pub fn parse_price(text: &str) -> (r: Option<u64>)
    ensures
        r == (match price_value(text@) {
            Some(v) => if v <= u64::MAX {
                Some(v as u64)
            } else {
                None::<u64>
            },
            None => None::<u64>,
        }),
{
    let s = chars_of(text);
    let n = s.len();
    if n == 0 {
        return None;
    }
    // Locate the decimal point, checking that every other character is a digit.
    let mut point: Option<usize> = None;
    let mut i: usize = 0;
    while i < n
        invariant
            n == s@.len(),
            s@ == text@,
            i <= n,
            point is None ==> all_digits(s@.take(i as int)),
            point matches Some(p) ==> 0 < p < i && s@[p as int] == '.' && all_digits(s@.take(
                p as int,
            )) && all_digits(s@.subrange(p + 1, i as int)),
        decreases n - i,
    {
        let c = s[i];
        if c == '.' {
            if point.is_some() || i == 0 {
                proof {
                    assert forall|p: int| !is_point_at(s@, p) by {
                        if is_point_at(s@, p) {
                            if p < i {
                                assert(s@.skip(p + 1)[i - p - 1] == s@[i as int]);
                            } else if p > i {
                                assert(s@.take(p)[i as int] == s@[i as int]);
                            } else {
                                let q = point.unwrap() as int;
                                assert(s@.take(p)[q] == s@[q]);
                            }
                        }
                    }
                    assert(!is_digit(s@[i as int]));
                    assert(!all_digits(s@));
                }
                return None;
            }
            proof {
                assert(s@.subrange(i + 1, i + 1 as int) =~= Seq::<char>::empty());
            }
            point = Some(i);
        } else if '0' <= c && c <= '9' {
            proof {
                if point is None {
                    assert(s@.take(i + 1) =~= s@.take(i as int).push(c));
                } else {
                    let p = point.unwrap() as int;
                    assert(s@.subrange(p + 1, i + 1) =~= s@.subrange(p + 1, i as int).push(c));
                }
            }
        } else {
            proof {
                assert(!is_digit(s@[i as int]));
                assert(!all_digits(s@));
                assert forall|p: int| !is_point_at(s@, p) by {
                    if is_point_at(s@, p) {
                        if p < i {
                            assert(s@.skip(p + 1)[i - p - 1] == s@[i as int]);
                        } else {
                            assert(s@.take(p)[i as int] == s@[i as int]);
                        }
                    }
                }
            }
            return None;
        }
        i = i + 1;
    }
    // The digits to read, without the point, and how many follow the point.
    let (frac_len, digits) = match point {
        None => {
            proof {
                assert(s@.take(n as int) =~= s@);
            }
            (0usize, s)
        },
        Some(p) => {
            proof {
                assert(s@.subrange(p + 1, n as int) =~= s@.skip(p + 1));
                assert(is_point_at(s@, p as int));
                assert forall|q: int| is_point_at(s@, q) implies q == p by {
                    lemma_point_unique(s@, p as int, q);
                }
                assert(!all_digits(s@)) by {
                    assert(!is_digit(s@[p as int]));
                }
            }
            if n - p - 1 > 8 {
                return None;
            }
            let mut d: Vec<char> = Vec::new();
            for j in 0..n
                invariant
                    n == s@.len(),
                    s@ == text@,
                    0 < p < n,
                    d@ == (if j <= p {
                        s@.take(j as int)
                    } else {
                        s@.take(p as int) + s@.subrange(p + 1, j as int)
                    }),
            {
                proof {
                    if j < p {
                        assert(s@.take(j + 1) =~= s@.take(j as int).push(s@[j as int]));
                    } else if j == p {
                        assert(s@.take(p as int) + s@.subrange(p + 1, p + 1) =~= s@.take(p as int));
                    } else {
                        assert(s@.take(p as int) + s@.subrange(p + 1, j + 1) =~= (s@.take(p as int)
                            + s@.subrange(p + 1, j as int)).push(s@[j as int]));
                    }
                }
                if j != p {
                    d.push(s[j]);
                }
            }
            proof {
                assert(s@.subrange(p + 1, n as int) =~= s@.skip(p + 1));
            }
            (n - p - 1, d)
        },
    };
    let ghost frac: nat = frac_len as nat;
    proof {
        assert(frac_len <= 8);
        assert(digits_layout(s@, point, digits@, frac));
        assert(all_digits(digits@)) by {
            if point is Some {
                let p = point.unwrap() as int;
                assert forall|u: int| 0 <= u < digits@.len() implies is_digit(#[trigger] digits@[u]) by {
                    if u < p {
                        assert(s@.take(p)[u] == digits@[u]);
                    } else {
                        assert(s@.skip(p + 1)[u - p] == digits@[u]);
                    }
                }
            }
        }
    }
    // The scale of the last digit read.
    let mut scale: u64 = 1;
    let mut k: usize = frac_len;
    while k < 8
        invariant
            s@ == text@,
            digits_layout(s@, point, digits@, frac),
            frac_len <= k <= 8,
            scale as nat == pow10((k - frac_len) as nat),
            scale <= 100_000_000,
        decreases 8 - k,
    {
        proof {
            assert(pow10((k + 1 - frac_len) as nat) == 10 * pow10((k - frac_len) as nat));
            lemma_pow10_bound((k + 1 - frac_len) as nat);
        }
        scale = scale * 10;
        k = k + 1;
    }
    let m = digits.len();
    let mut acc: u64 = 0;
    proof {
        assert(digits@.take(0) =~= Seq::<char>::empty());
    }
    for j in 0..m
        invariant
            m == digits@.len(),
            all_digits(digits@),
            digits_layout(s@, point, digits@, frac),
            s@ == text@,
            scale as nat == pow10((8 - frac) as nat),
            acc as nat == digits_value(digits@.take(j as int)),
    {
        let c = digits[j];
        let dv = (c as u32 - '0' as u32) as u64;
        proof {
            assert(is_digit(digits@[j as int]));
            assert(digits@.take(j + 1).drop_last() =~= digits@.take(j as int));
            assert(digits_value(digits@.take(j + 1)) == digits_value(digits@.take(j as int)) * 10 + dv);
        }
        let next = match acc.checked_mul(10) {
            Some(x) => x.checked_add(dv),
            None => None,
        };
        match next {
            Some(x) => {
                acc = x;
            },
            None => {
                proof {
                    lemma_digits_prefix(digits@, j + 1);
                    lemma_price_of_digits(s@, point, digits@, frac);
                    lemma_pow10_bound((8 - frac) as nat);
                    let total = digits_value(digits@);
                    let sc = pow10((8 - frac) as nat);
                    assert(total * sc >= total) by (nonlinear_arith)
                        requires
                            sc >= 1,
                    ;
                }
                return None;
            },
        }
    }
    proof {
        assert(digits@.take(m as int) =~= digits@);
        lemma_price_of_digits(s@, point, digits@, frac);
    }
    acc.checked_mul(scale)
}

proof fn lemma_pow10_bound(e: nat)
    requires
        e <= 8,
    ensures
        1 <= pow10(e) <= 100_000_000,
    decreases e,
{
    if e > 0 {
        lemma_pow10_bound((e - 1) as nat);
    }
    reveal_with_fuel(pow10, 9);
    assert(pow10(8) == 100_000_000);
    lemma_pow10_monotone(e, 8);
}

proof fn lemma_pow10_monotone(a: nat, b: nat)
    requires
        a <= b,
    ensures
        pow10(a) <= pow10(b),
    decreases b - a,
{
    if a < b {
        lemma_pow10_monotone(a, (b - 1) as nat);
        assert(pow10(b) == 10 * pow10((b - 1) as nat));
    }
}

/// `digits` are the digits of the well-formed price text `s` without its
/// point, `frac` of them after the point.
spec fn digits_layout(s: Seq<char>, point: Option<usize>, digits: Seq<char>, frac: nat) -> bool {
    &&& s.len() > 0
    &&& frac <= 8
    &&& point is None ==> all_digits(s) && digits == s && frac == 0
    &&& point matches Some(p) ==> is_point_at(s, p as int) && (forall|q: int|
        is_point_at(s, q) ==> q == p) && digits == s.take(p as int) + s.skip(p + 1) && frac
        == s.skip(p + 1).len() && !all_digits(s)
}

/// The price of a well-formed text is the value of its digits, point
/// removed, scaled to eight decimal places.
proof fn lemma_price_of_digits(s: Seq<char>, point: Option<usize>, digits: Seq<char>, frac: nat)
    requires
        digits_layout(s, point, digits, frac),
    ensures
        price_value(s) == Some(digits_value(digits) * pow10((8 - frac) as nat)),
{
}


/// The price that follows `key` in `text`, in fixed-point units.
pub open spec fn price_field(text: Seq<char>, key: Seq<char>) -> Result<u64, ParseError> {
    match field_after(text, key) {
        Ok(v) => match price_value(v) {
            Some(x) => if x <= u64::MAX {
                Ok(x as u64)
            } else {
                Err(ParseError::InvalidPrice)
            },
            None => Err(ParseError::InvalidPrice),
        },
        Err(e) => Err(e),
    }
}

/// The key that precedes the market name in a book-ticker message.
pub open spec fn symbol_key() -> Seq<char> {
    "\"s\":\""@
}

/// The key that precedes the best bid price.
pub open spec fn bid_key() -> Seq<char> {
    "\"b\":\""@
}

/// The key that precedes the best ask price.
pub open spec fn ask_key() -> Seq<char> {
    "\"a\":\""@
}

/// The market name, bid and ask that a book-ticker message carries, or the
/// first problem met: the three fields are looked up in that order before
/// the two prices are read.
pub open spec fn book_ticker_of(text: Seq<char>) -> Result<(Seq<char>, u64, u64), ParseError> {
    match (field_after(text, symbol_key()), field_after(text, bid_key()), field_after(text, ask_key())) {
        (Err(e), _, _) => Err(e),
        (Ok(_), Err(e), _) => Err(e),
        (Ok(_), Ok(_), Err(e)) => Err(e),
        (Ok(sym), Ok(_), Ok(_)) => match (price_field(text, bid_key()), price_field(text, ask_key())) {
            (Ok(bid), Ok(ask)) => Ok((sym, bid, ask)),
            (Err(e), _) => Err(e),
            (Ok(_), Err(e)) => Err(e),
        },
    }
}

/// Relies on `std::str::from_utf8`: it accepts exactly the valid UTF-8
/// byte strings, and the text it returns decodes them.
#[verifier::external_body]
fn utf8_text(raw: &[u8]) -> (r: Option<&str>)
    ensures
        r matches Some(t) ==> valid_utf8(raw@) && t@ == decode_utf8(raw@),
        r is None ==> !valid_utf8(raw@),
{
    std::str::from_utf8(raw).ok()
}

/// Decodes book-ticker messages by scanning for the fields it needs.
pub struct ManualScanParser;

impl ManualScanParser {
    /// Decodes the market name, best bid and best ask of a book-ticker message.
    pub fn parse(&self, raw: &[u8]) -> (r: Result<TopOfBookUpdate, ParseError>)
        ensures
            !valid_utf8(raw@) ==> r == Err::<TopOfBookUpdate, ParseError>(ParseError::InvalidUtf8),
            valid_utf8(raw@) ==> match book_ticker_of(decode_utf8(raw@)) {
                Ok(t) => r matches Ok(u) && u.symbol@ == t.0 && u.bid_price == t.1 && u.ask_price
                    == t.2,
                Err(e) => r == Err::<TopOfBookUpdate, ParseError>(e),
            },
    {
        let text = match utf8_text(raw) {
            Some(t) => t,
            None => return Err(ParseError::InvalidUtf8),
        };
        let symbol = match extract_json_field(text, "\"s\":\"") {
            Ok(v) => v,
            Err(e) => return Err(e),
        };
        let bid_text = match extract_json_field(text, "\"b\":\"") {
            Ok(v) => v,
            Err(e) => return Err(e),
        };
        let ask_text = match extract_json_field(text, "\"a\":\"") {
            Ok(v) => v,
            Err(e) => return Err(e),
        };
        let bid_price = match parse_price(bid_text.as_str()) {
            Some(p) => p,
            None => return Err(ParseError::InvalidPrice),
        };
        let ask_price = match parse_price(ask_text.as_str()) {
            Some(p) => p,
            None => return Err(ParseError::InvalidPrice),
        };
        Ok(TopOfBookUpdate { symbol, bid_price, ask_price })
    }
}

} // verus!
