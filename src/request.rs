use vstd::prelude::*;
use vstd::string::StringSliceAdditionalSpecFns;

use crate::error::ListingError;
use crate::pagination::{is_valid_page, offset_of, page_window, PageWindow, PAGE_LIMIT};

verus! {

/// The query parameters of a listing request.
#[derive(Debug, Clone, Copy, PartialEq, Eq, Structural)]
pub struct Pagination {
    /// The requested page, numbered from 1.
    pub page: i64,
}

/// ASCII `-`.
pub const MINUS: u8 = 45;
/// ASCII `+`.
pub const PLUS: u8 = 43;
/// ASCII `0`.
pub const DIGIT_ZERO: u8 = 48;
/// ASCII `9`.
pub const DIGIT_NINE: u8 = 57;

/// An ASCII decimal digit.
pub open spec fn is_digit(b: u8) -> bool {
    DIGIT_ZERO <= b <= DIGIT_NINE
}

/// A non-empty run of decimal digits.
pub open spec fn all_digits(s: Seq<u8>) -> bool {
    s.len() > 0 && forall|i: int| 0 <= i < s.len() ==> is_digit(#[trigger] s[i])
}

/// The value of a run of decimal digits, most significant first.
pub open spec fn digits_value(s: Seq<u8>) -> int
    decreases s.len(),
{
    if s.len() == 0 {
        0
    } else {
        digits_value(s.drop_last()) * 10 + (s.last() - DIGIT_ZERO)
    }
}

/// The integer that `s` writes: digits, with an optional leading `+` or `-`.
pub open spec fn integer_literal(s: Seq<u8>) -> Option<int> {
    if s.len() > 0 && (s[0] == MINUS || s[0] == PLUS) {
        if all_digits(s.drop_first()) {
            if s[0] == MINUS {
                Some(-digits_value(s.drop_first()))
            } else {
                Some(digits_value(s.drop_first()))
            }
        } else {
            None
        }
    } else if all_digits(s) {
        Some(digits_value(s))
    } else {
        None
    }
}

/// The page number that the text of a `page` parameter gives, where it is an
/// integer that fits in `i64`.
pub open spec fn page_number_of(s: Seq<u8>) -> Option<int> {
    match integer_literal(s) {
        Some(v) => if i64::MIN <= v <= i64::MAX {
            Some(v)
        } else {
            None
        },
        None => None,
    }
}

proof fn lemma_digits_value_nonneg(s: Seq<u8>)
    requires
        forall|i: int| 0 <= i < s.len() ==> is_digit(#[trigger] s[i]),
    ensures
        digits_value(s) >= 0,
    decreases s.len(),
{
    if s.len() > 0 {
        lemma_digits_value_nonneg(s.drop_last());
    }
}

/// A prefix of a run of digits is worth no more than the whole run.
proof fn lemma_digits_prefix_le(s: Seq<u8>, k: int)
    requires
        0 <= k <= s.len(),
        forall|i: int| 0 <= i < s.len() ==> is_digit(#[trigger] s[i]),
    ensures
        digits_value(s.subrange(0, k)) <= digits_value(s),
    decreases s.len(),
{
    if k < s.len() {
        let t = s.drop_last();
        assert(t.subrange(0, k) =~= s.subrange(0, k));
        lemma_digits_prefix_le(t, k);
        lemma_digits_value_nonneg(t);
    } else {
        assert(s.subrange(0, k) =~= s);
    }
}

/// Reads the text of a `page` parameter. Anything but an integer that fits in
/// `i64` is `MalformedPage`.
pub fn parse_page(text: &str) -> (r: Result<Pagination, ListingError>)
    ensures
        match r {
            Ok(p) => page_number_of(text.spec_bytes()) == Some(p.page as int),
            Err(e) => page_number_of(text.spec_bytes()) is None && e == ListingError::MalformedPage,
        },
{
    let bytes = text.as_bytes();
    let n: usize = bytes.len();
    if n == 0 {
        return Err(ListingError::MalformedPage);
    }
    let signed: bool = bytes[0] == MINUS || bytes[0] == PLUS;
    let negative: bool = bytes[0] == MINUS;
    let start: usize = if signed { 1 } else { 0 };
    let ghost digits = bytes@.subrange(start as int, n as int);
    assert(signed ==> digits =~= bytes@.drop_first());
    assert(!signed ==> digits =~= bytes@);
    if start == n {
        return Err(ListingError::MalformedPage);
    }
    let mut i: usize = start;
    while i < n
        invariant
            start <= i <= n,
            n == bytes@.len(),
            bytes@ == text.spec_bytes(),
            digits == bytes@.subrange(start as int, n as int),
            signed ==> digits =~= bytes@.drop_first(),
            !signed ==> digits =~= bytes@,
            signed == (bytes@[0] == MINUS || bytes@[0] == PLUS),
            forall|j: int| start <= j < i ==> is_digit(#[trigger] bytes@[j]),
        decreases n - i,
    {
        if bytes[i] < DIGIT_ZERO || bytes[i] > DIGIT_NINE {
            assert(digits[i - start] == bytes@[i as int]);
            assert(!is_digit(digits[i - start]));
            return Err(ListingError::MalformedPage);
        }
        i = i + 1;
    }
    assert forall|k: int| 0 <= k < digits.len() implies is_digit(#[trigger] digits[k]) by {
        assert(digits[k] == bytes@[k + start]);
    }
    assert(all_digits(digits));
    // 2^63: the magnitude of i64::MIN
    let bound: u64 = 9223372036854775808;
    let mut magnitude: u64 = 0;
    let mut i: usize = start;
    while i < n
        invariant
            start <= i <= n,
            n == bytes@.len(),
            bytes@ == text.spec_bytes(),
            digits == bytes@.subrange(start as int, n as int),
            signed ==> digits =~= bytes@.drop_first(),
            !signed ==> digits =~= bytes@,
            signed == (bytes@[0] == MINUS || bytes@[0] == PLUS),
            negative == (bytes@[0] == MINUS),
            all_digits(digits),
            bound == 9223372036854775808u64,
            magnitude <= bound,
            magnitude as int == digits_value(digits.subrange(0, i - start)),
        decreases n - i,
    {
        assert(digits[i - start] == bytes@[i as int]);
        assert(is_digit(digits[i - start]));
        let d: u64 = (bytes[i] - DIGIT_ZERO) as u64;
        assert(d <= 9);
        let ghost next = digits.subrange(0, i - start + 1);
        assert(next.drop_last() =~= digits.subrange(0, i - start));
        assert(digits_value(next) == magnitude * 10 + d);
        if magnitude > (bound - d) / 10 {
            assert(magnitude * 10 + d > bound) by (nonlinear_arith)
                requires
                    magnitude > (bound - d) / 10,
                    d <= 9,
                    bound == 9223372036854775808u64,
            ;
            proof {
                lemma_digits_prefix_le(digits, i - start + 1);
            }
            return Err(ListingError::MalformedPage);
        }
        assert(magnitude * 10 + d <= bound) by (nonlinear_arith)
            requires
                magnitude <= (bound - d) / 10,
                d <= 9,
                bound == 9223372036854775808u64,
        ;
        magnitude = magnitude * 10 + d;
        i = i + 1;
    }
    assert(digits.subrange(0, n - start) =~= digits);
    if negative {
        if magnitude == bound {
            Ok(Pagination { page: i64::MIN })
        } else {
            Ok(Pagination { page: -(magnitude as i64) })
        }
    } else if magnitude > i64::MAX as u64 {
        Err(ListingError::MalformedPage)
    } else {
        Ok(Pagination { page: magnitude as i64 })
    }
}

/// The window to fetch for the text of a `page` parameter. On an error
/// nothing is to be fetched: a malformed parameter is `MalformedPage`, an
/// integer that names no page is `PageOutOfRange`.
pub fn plan_request(text: &str) -> (r: Result<PageWindow, ListingError>)
    ensures
        match page_number_of(text.spec_bytes()) {
            None => r == Err::<PageWindow, ListingError>(ListingError::MalformedPage),
            Some(page) => if is_valid_page(page) {
                r == Ok::<PageWindow, ListingError>(
                    PageWindow { limit: PAGE_LIMIT, offset: offset_of(page) as i64 },
                )
            } else {
                r == Err::<PageWindow, ListingError>(ListingError::PageOutOfRange)
            },
        },
{
    match parse_page(text) {
        Ok(p) => page_window(p.page),
        Err(e) => Err(e),
    }
}

} // verus!
