use vstd::prelude::*;

verus! {

/// The reserved two-character token `\N` that marks an absent value.
pub open spec fn null_token() -> Seq<char> {
    seq!['\\', 'N']
}

pub open spec fn is_digit(c: char) -> bool {
    '0' <= c && c <= '9'
}

pub open spec fn all_digits(s: Seq<char>) -> bool {
    s.len() > 0 && forall|i: int| 0 <= i < s.len() ==> is_digit(#[trigger] s[i])
}

/// Value of a string of decimal digits, most significant first.
pub open spec fn digits_value(s: Seq<char>) -> int
    decreases s.len(),
{
    if s.len() == 0 {
        0
    } else {
        digits_value(s.drop_last()) * 10 + (s.last() as int - '0' as int)
    }
}

/// The integer written by `s` in decimal: an optional `+` or `-` sign
/// followed by at least one digit, and nothing else.
pub open spec fn decimal_value(s: Seq<char>) -> Option<int> {
    if s.len() > 0 && s[0] == '-' && all_digits(s.drop_first()) {
        Some(-digits_value(s.drop_first()))
    } else if s.len() > 0 && s[0] == '+' && all_digits(s.drop_first()) {
        Some(digits_value(s.drop_first()))
    } else if all_digits(s) {
        Some(digits_value(s))
    } else {
        None
    }
}

/// The `i32` that `s` denotes, if it is a decimal integer within range.
pub open spec fn i32_value(s: Seq<char>) -> Option<i32> {
    match decimal_value(s) {
        Some(v) => if i32::MIN <= v <= i32::MAX {
            Some(v as i32)
        } else {
            None
        },
        None => None,
    }
}

/// The digit character for `d`, for `d` in `0..10`.
pub open spec fn digit_char(d: int) -> char {
    seq!['0', '1', '2', '3', '4', '5', '6', '7', '8', '9'][d]
}

/// The decimal digits of `n`, without leading zeros.
pub open spec fn digits_of(n: nat) -> Seq<char>
    decreases n,
{
    if n < 10 {
        seq![digit_char(n as int)]
    } else {
        digits_of(n / 10).push(digit_char((n % 10) as int))
    }
}

/// The decimal text of `v`: a `-` for a negative value, then its digits.
pub open spec fn decimal_text(v: int) -> Seq<char> {
    if v < 0 {
        seq!['-'] + digits_of((-v) as nat)
    } else {
        digits_of(v as nat)
    }
}

proof fn lemma_digit_char(d: int)
    requires
        0 <= d < 10,
    ensures
        is_digit(digit_char(d)),
        digit_char(d) as int - '0' as int == d,
{
    let ds = seq!['0', '1', '2', '3', '4', '5', '6', '7', '8', '9'];
    assert(ds[0] == '0' && ds[1] == '1' && ds[2] == '2' && ds[3] == '3' && ds[4] == '4');
    assert(ds[5] == '5' && ds[6] == '6' && ds[7] == '7' && ds[8] == '8' && ds[9] == '9');
}

proof fn lemma_digits_of(n: nat)
    ensures
        all_digits(digits_of(n)),
        digits_value(digits_of(n)) == n,
    decreases n,
{
    if n < 10 {
        lemma_digit_char(n as int);
        let s = digits_of(n);
        assert(s.drop_last() =~= Seq::<char>::empty());
        assert(digits_value(s.drop_last()) == 0);
        assert(s.last() == digit_char(n as int));
        assert(digits_value(s) == n);
    } else {
        lemma_digits_of(n / 10);
        lemma_digit_char((n % 10) as int);
        let s = digits_of(n);
        assert(s.drop_last() =~= digits_of(n / 10));
        assert(s.last() == digit_char((n % 10) as int));
        vstd::arithmetic::div_mod::lemma_fundamental_div_mod(n as int, 10);
        assert(digits_value(s) == digits_value(digits_of(n / 10)) * 10 + (n % 10) as int);
        assert(digits_value(s) == n);
        assert forall|i: int| 0 <= i < s.len() implies is_digit(#[trigger] s[i]) by {
            if i < s.len() - 1 {
                assert(s[i] == digits_of(n / 10)[i]);
            }
        }
    }
}

/// Every `i32` written in decimal reads back as itself: the text that
/// `to_string` gives for `v` parses to `v`.
pub proof fn lemma_decimal_round_trip(v: i32)
    ensures
        i32_value(decimal_text(v as int)) == Some(v),
{
    if v < 0 {
        lemma_digits_of((-v) as nat);
        let s = decimal_text(v as int);
        assert(s.drop_first() =~= digits_of((-v) as nat));
    } else {
        lemma_digits_of(v as nat);
        let s = digits_of(v as nat);
        assert(is_digit(s[0]));
    }
}

/// Why one input line could not be turned into a record.
#[derive(Debug, Clone, PartialEq, Eq)]
pub enum ParseError {
    /// The line has fewer tab-separated fields than the schema declares.
    MalformedLine,
    /// A numeric field holds something other than a number; the token is kept.
    InvalidNumber(String),
}

/// Relies on `str::parse::<i32>` (`FromStr for i32`): an optional sign and
/// decimal digits, rejected when empty, when anything else occurs, or when
/// the value does not fit.
#[verifier::external_body]
fn str_to_i32(s: &str) -> (r: Option<i32>)
    ensures
        r == i32_value(s@),
{
    s.parse::<i32>().ok()
}

/// Whether `s` is exactly the null token.
pub fn is_null_token(s: &str) -> (r: bool)
    ensures
        r == (s@ == null_token()),
{
    let n = s.unicode_len();
    if n != 2 {
        return false;
    }
    let a = s.get_char(0);
    let b = s.get_char(1);
    if a == '\\' && b == 'N' {
        assert(s@ =~= null_token());
        true
    } else {
        false
    }
}

/// Maps the null token to absence and passes every other token through.
pub fn remove_na(s: &str) -> (r: Option<&str>)
    ensures
        s@ == null_token() ==> r.is_none(),
        s@ != null_token() ==> r == Some(s),
{
    if is_null_token(s) {
        None
    } else {
        Some(s)
    }
}

/// Parses a nullable integer field: the null token gives `Ok(None)`, a
/// decimal `i32` gives its value, anything else is `InvalidNumber`.
pub fn parse_int(s: &str) -> (r: Result<Option<i32>, ParseError>)
    ensures
        s@ == null_token() ==> r == Ok::<Option<i32>, ParseError>(None),
        s@ != null_token() && i32_value(s@) is Some ==> r == Ok::<Option<i32>, ParseError>(
            Some(i32_value(s@)->0),
        ),
        s@ != null_token() && i32_value(s@) is None ==> (r matches Err(ParseError::InvalidNumber(
            t,
        )) && t@ == s@),
{
    if is_null_token(s) {
        return Ok(None);
    }
    match str_to_i32(s) {
        Some(v) => Ok(Some(v)),
        None => Err(ParseError::InvalidNumber(s.to_string())),
    }
}

} // verus!
