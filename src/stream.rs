//! Names of the book-ticker streams that the feed subscribes to.

use crate::parse::{chars_of, string_from_chars};
use vstd::prelude::*;

verus! {

/// What `str::to_lowercase` returns for the characters `s`.
pub uninterp spec fn lowercase_of(s: Seq<char>) -> Seq<char>;

/// Relies on `str::to_lowercase`: the result depends on the characters alone.
#[verifier::external_body]
fn lowercase(s: &str) -> (r: String)
    ensures
        r@ == lowercase_of(s@),
{
    s.to_lowercase()
}

/// The book-ticker stream of the market whose lowercase name is `lower`.
pub fn stream_name_of(lower: &str) -> (r: String)
    ensures
        r@ == lower@ + "@bookTicker"@,
{
    let mut chars = chars_of(lower);
    let suffix = chars_of("@bookTicker");
    let n = suffix.len();
    for i in 0..n
        invariant
            n == suffix@.len(),
            suffix@ == "@bookTicker"@,
            chars@ == lower@ + suffix@.take(i as int),
    {
        proof {
            assert(suffix@.take(i + 1) =~= suffix@.take(i as int).push(suffix@[i as int]));
            assert(lower@ + suffix@.take(i + 1) =~= (lower@ + suffix@.take(i as int)).push(
                suffix@[i as int],
            ));
        }
        chars.push(suffix[i]);
    }
    proof {
        assert(suffix@.take(n as int) =~= suffix@);
    }
    string_from_chars(chars.as_slice())
}

/// The stream names to subscribe to for `symbols`: each market name in
/// lowercase followed by `@bookTicker`, in the same order.
pub fn book_ticker_streams(symbols: &Vec<String>) -> (r: Vec<String>)
    ensures
        r@.len() == symbols@.len(),
        forall|i: int|
            0 <= i < symbols@.len() ==> (#[trigger] r@[i])@ == lowercase_of(symbols@[i]@)
                + "@bookTicker"@,
{
    let mut r: Vec<String> = Vec::new();
    let n = symbols.len();
    for i in 0..n
        invariant
            n == symbols@.len(),
            r@.len() == i,
            forall|u: int|
                0 <= u < i ==> (#[trigger] r@[u])@ == lowercase_of(symbols@[u]@) + "@bookTicker"@,
    {
        let lower = lowercase(symbols[i].as_str());
        r.push(stream_name_of(lower.as_str()));
    }
    r
}

} // verus!
