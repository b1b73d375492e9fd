use vstd::prelude::*;
use vstd::slice::slice_subrange;

use crate::text::{
    chars_of, contains_chars, contains_seq, decimal_of, is_digit, is_first_occurrence, occurs_at,
    parse_decimal,
};

verus! {

/// Why no departure time could be had from the schedule source.
#[derive(Debug, PartialEq, Eq, Structural, Clone, Copy)]
pub enum GatewayError {
    /// The source could not be reached, or its answer could not be read.
    NetworkFailure,
    /// The source answered, but not with a page of the expected shape.
    Unavailable,
}

/// The line that this deployment serves.
pub const TRAM_LINE: usize = 327;

/// Text of the schedule page when no departure is coming.
pub const NO_DEPARTURE_NOTICE: &'static str = "Pas de prochain";

/// Markup that follows the number of minutes on the schedule page.
pub const MINUTES_MARK: &'static str = "<abbr title=\"minutes\">";

pub open spec fn first_occurrence(s: Seq<char>, p: Seq<char>) -> int {
    choose|i: int| is_first_occurrence(s, p, i)
}

proof fn lemma_first_occurrence_unique(s: Seq<char>, p: Seq<char>, i: int)
    requires
        is_first_occurrence(s, p, i),
    ensures
        first_occurrence(s, p) == i,
{
    let f = first_occurrence(s, p);
    assert(is_first_occurrence(s, p, f));
    if f < i {
        assert(!occurs_at(s, p, f));
    }
    if i < f {
        assert(!occurs_at(s, p, i));
    }
}

/// Relies on `string_tools::get_all_before_strict`: the part of `text` before
/// the first occurrence of `pattern`, or nothing where `pattern` does not occur.
#[verifier::external_body]
fn text_before<'a>(text: &'a str, pattern: &str) -> (r: Option<&'a str>)
    ensures
        match r {
            Some(b) => is_first_occurrence(text@, pattern@, b@.len() as int) && b@ == text@.take(
                b@.len() as int,
            ),
            None => !contains_seq(text@, pattern@),
        },
{
    string_tools::get_all_before_strict(text, pattern)
}

/// The longest run of digits that ends `s`.
pub open spec fn trailing_digits(s: Seq<char>) -> Seq<char>
    decreases s.len(),
{
    if s.len() > 0 && is_digit(s.last()) {
        trailing_digits(s.drop_last()).push(s.last())
    } else {
        Seq::empty()
    }
}

/// The number of minutes written just before the minutes mark: the digits
/// that end `prefix`, which must be there and fit in a `u64`.
pub open spec fn minutes_before(prefix: Seq<char>) -> Result<Option<u64>, GatewayError> {
    let t = trailing_digits(prefix);
    if t.len() == 0 {
        Err(GatewayError::Unavailable)
    } else {
        match decimal_of(t) {
            Some(v) => Ok(Some(v)),
            None => Err(GatewayError::Unavailable),
        }
    }
}

/// What a schedule page says of the next departure: none coming, a number of
/// minutes, or nothing that can be read.
pub open spec fn departure_of(page: Seq<char>) -> Result<Option<u64>, GatewayError> {
    if contains_seq(page, NO_DEPARTURE_NOTICE@) {
        Ok(None)
    } else if contains_seq(page, MINUTES_MARK@) {
        minutes_before(page.take(first_occurrence(page, MINUTES_MARK@)))
    } else {
        Err(GatewayError::Unavailable)
    }
}

proof fn lemma_trailing_digits(s: Seq<char>, j: int)
    requires
        0 <= j <= s.len(),
        forall|k: int| j <= k < s.len() ==> is_digit(#[trigger] s[k]),
        j == 0 || !is_digit(s[j - 1]),
    ensures
        trailing_digits(s) == s.subrange(j, s.len() as int),
    decreases s.len(),
{
    if s.len() == j {
        assert(s.subrange(j, s.len() as int) =~= Seq::<char>::empty());
    } else {
        let d = s.drop_last();
        assert forall|k: int| j <= k < d.len() implies is_digit(#[trigger] d[k]) by {
            assert(d[k] == s[k]);
        }
        lemma_trailing_digits(d, j);
        assert(s.subrange(j, s.len() as int) =~= d.subrange(j, d.len() as int).push(s.last()));
    }
}

/// Reads the number of minutes until the next departure from the markup of a
/// schedule page.
pub fn parse_next_departure(page: &str) -> (r: Result<Option<u64>, GatewayError>)
    ensures
        r == departure_of(page@),
{
    let chars = chars_of(page);
    let notice = chars_of(NO_DEPARTURE_NOTICE);
    if contains_chars(chars.as_slice(), notice.as_slice()) {
        return Ok(None);
    }
    match text_before(page, MINUTES_MARK) {
        None => Err(GatewayError::Unavailable),
        Some(before) => {
            proof {
                lemma_first_occurrence_unique(page@, MINUTES_MARK@, before@.len() as int);
            }
            assert(contains_seq(page@, MINUTES_MARK@));
            let prefix = chars_of(before);
            let n = prefix.len();
            let mut j: usize = n;
            while j > 0 && ('0' <= prefix[j - 1] && prefix[j - 1] <= '9')
                invariant
                    j <= n,
                    n == prefix@.len(),
                    forall|k: int| j <= k < n ==> is_digit(#[trigger] prefix@[k]),
                decreases j,
            {
                j = j - 1;
            }
            proof {
                lemma_trailing_digits(prefix@, j as int);
            }
            if j == n {
                return Err(GatewayError::Unavailable);
            }
            match parse_decimal(slice_subrange(prefix.as_slice(), j, n)) {
                Some(v) => Ok(Some(v)),
                None => Err(GatewayError::Unavailable),
            }
        },
    }
}

} // verus!
