//! The retry policy for model requests, and reading what `curl` printed:
//! the response body, then a newline and the HTTP status code.

use vstd::prelude::*;

use crate::text::{chars_of, decimal, digit_char, push_decimal, push_str, string_of_range};

verus! {

/// How many requests a prompt gets at most.
pub const MAX_ATTEMPTS: u32 = 5;

/// A status after which the request is worth repeating: too many requests,
/// a transport failure (curl reports status 0), or a server error.
pub open spec fn spec_retryable(status: u16) -> bool {
    status == 429 || status == 0 || (500 <= status && status < 600)
}

/// Whether a request that ended with `status` is worth repeating.
pub fn retryable(status: u16) -> (r: bool)
    ensures
        r == spec_retryable(status),
{
    status == 429 || status == 0 || (status >= 500 && status < 600)
}

/// How long to wait after the given failed attempt, in milliseconds.
pub open spec fn spec_backoff_delay_ms(attempt: u32) -> u64 {
    if attempt == 1 {
        500
    } else if attempt == 2 {
        1_000
    } else if attempt == 3 {
        2_000
    } else if attempt == 4 {
        4_000
    } else {
        8_000
    }
}

/// How long to wait after the given failed attempt, in milliseconds.
pub fn backoff_delay_ms(attempt: u32) -> (r: u64)
    ensures
        r == spec_backoff_delay_ms(attempt),
{
    match attempt {
        1 => 500,
        2 => 1_000,
        3 => 2_000,
        4 => 4_000,
        _ => 8_000,
    }
}

/// What to do once a request has answered.
#[derive(Debug, Clone, Copy, PartialEq, Eq, Structural)]
pub enum PromptStep {
    /// The request succeeded: hand the body back.
    Accept,
    /// The request failed for good.
    GiveUp,
    /// Wait this many milliseconds, then send the request again.
    RetryAfter(u64),
}

/// The step after attempt number `attempt` (counted from 1) answered `status`.
pub open spec fn spec_prompt_step(attempt: u32, status: u16) -> PromptStep {
    if status < 400 {
        PromptStep::Accept
    } else if attempt >= MAX_ATTEMPTS || !spec_retryable(status) {
        PromptStep::GiveUp
    } else {
        PromptStep::RetryAfter(spec_backoff_delay_ms(attempt))
    }
}

/// The number of the next attempt.
pub fn next_attempt(attempt: u32) -> (r: u32)
    ensures
        r == if attempt == u32::MAX { attempt as int } else { attempt + 1 },
{
    attempt.saturating_add(1)
}

/// The step after attempt number `attempt` (counted from 1) answered `status`.
pub fn prompt_step(attempt: u32, status: u16) -> (r: PromptStep)
    ensures
        r == spec_prompt_step(attempt, status),
{
    if status < 400 {
        return PromptStep::Accept;
    }
    if attempt >= MAX_ATTEMPTS || !retryable(status) {
        return PromptStep::GiveUp;
    }
    PromptStep::RetryAfter(backoff_delay_ms(attempt))
}

/// A prompt is sent at most `MAX_ATTEMPTS` times: from the last attempt on,
/// no answer leads to another one; and a successful status is always accepted.
pub proof fn lemma_prompt_attempts_bounded(attempt: u32, status: u16)
    ensures
        attempt >= MAX_ATTEMPTS ==> !(spec_prompt_step(attempt, status) is RetryAfter),
        status < 400 <==> spec_prompt_step(attempt, status) == PromptStep::Accept,
        spec_prompt_step(attempt, status) matches PromptStep::RetryAfter(d) ==> 500 <= d <= 8_000,
{
}

/// Which statuses are retried: every server error (500 to 599), too many
/// requests (429) and a transport failure (0); no other status at or above
/// 400. Before the last attempt such a status is retried after 500 ms, and
/// the wait doubles with each attempt up to 8000 ms; any other failure, or any
/// failure at the last attempt, gives up.
pub proof fn lemma_retry_policy(attempt: u32, status: u16)
    ensures
        MAX_ATTEMPTS == 5,
        500 <= status < 600 ==> spec_retryable(status),
        spec_retryable(429),
        spec_retryable(0),
        400 <= status && status != 429 && !(500 <= status < 600) ==> !spec_retryable(status),
        1 <= attempt < MAX_ATTEMPTS && 400 <= status && (status == 429 || 500 <= status < 600)
            ==> spec_prompt_step(attempt, status) == PromptStep::RetryAfter(spec_backoff_delay_ms(attempt)),
        400 <= status && !(status == 429 || 500 <= status < 600) ==> spec_prompt_step(attempt, status)
            == PromptStep::GiveUp,
        400 <= status && attempt >= MAX_ATTEMPTS ==> spec_prompt_step(attempt, status) == PromptStep::GiveUp,
        spec_backoff_delay_ms(1) == 500,
        1 <= attempt < 4 ==> spec_backoff_delay_ms((attempt + 1) as u32) == 2 * spec_backoff_delay_ms(attempt),
        spec_backoff_delay_ms(4) == 4_000,
        attempt >= 5 ==> spec_backoff_delay_ms(attempt) == 8_000,
{
}

/// A later attempt never waits less than an earlier one.
pub proof fn lemma_backoff_monotonic(a: u32, b: u32)
    requires
        1 <= a <= b,
    ensures
        spec_backoff_delay_ms(a) <= spec_backoff_delay_ms(b),
{
}

/// The text of a failed request.
pub open spec fn failure_text(status: u16, body: Seq<char>) -> Seq<char> {
    "Request failed with status "@ + decimal(status as nat) + ": "@ + body
}

/// The text of a failed request.
pub fn failure_message(status: u16, body: &str) -> (r: String)
    ensures
        r@ == failure_text(status, body@),
{
    let mut r = String::new();
    push_str(&mut r, "Request failed with status ");
    push_decimal(&mut r, status as u64);
    push_str(&mut r, ": ");
    push_str(&mut r, body);
    r
}

/// The notice of a retry.
pub open spec fn retry_text(status: u16, delay_ms: u64, attempt: u32) -> Seq<char> {
    "Request failed with status "@ + decimal(status as nat) + ", retrying in "@ + decimal(delay_ms as nat)
        + "ms (attempt "@ + decimal(attempt as nat) + "/"@ + decimal(MAX_ATTEMPTS as nat) + ")"@
}

/// The notice of a retry.
pub fn retry_notice(status: u16, delay_ms: u64, attempt: u32) -> (r: String)
    ensures
        r@ == retry_text(status, delay_ms, attempt),
{
    let mut r = String::new();
    push_str(&mut r, "Request failed with status ");
    push_decimal(&mut r, status as u64);
    push_str(&mut r, ", retrying in ");
    push_decimal(&mut r, delay_ms);
    push_str(&mut r, "ms (attempt ");
    push_decimal(&mut r, attempt as u64);
    push_str(&mut r, "/");
    push_decimal(&mut r, MAX_ATTEMPTS as u64);
    push_str(&mut r, ")");
    r
}

/// A character that `char::is_whitespace` accepts: the Unicode `White_Space` set.
pub open spec fn is_white(c: char) -> bool {
    let v = c as int;
    ||| 0x09 <= v <= 0x0D
    ||| v == 0x20
    ||| v == 0x85
    ||| v == 0xA0
    ||| v == 0x1680
    ||| 0x2000 <= v <= 0x200A
    ||| v == 0x2028
    ||| v == 0x2029
    ||| v == 0x202F
    ||| v == 0x205F
    ||| v == 0x3000
}

/// Whether `c` is white space.
pub fn is_whitespace(c: char) -> (r: bool)
    ensures
        r == is_white(c),
{
    let v: u32 = c as u32;
    (0x09 <= v && v <= 0x0D) || v == 0x20 || v == 0x85 || v == 0xA0 || v == 0x1680 || (0x2000 <= v
        && v <= 0x200A) || v == 0x2028 || v == 0x2029 || v == 0x202F || v == 0x205F || v == 0x3000
}

/// `s` without its leading white space.
pub open spec fn trim_start(s: Seq<char>) -> Seq<char>
    decreases s.len(),
{
    if s.len() > 0 && is_white(s[0]) {
        trim_start(s.drop_first())
    } else {
        s
    }
}

/// `s` without its trailing white space.
pub open spec fn trim_end(s: Seq<char>) -> Seq<char>
    decreases s.len(),
{
    if s.len() > 0 && is_white(s.last()) {
        trim_end(s.drop_last())
    } else {
        s
    }
}

/// `s` without white space at either end (what `str::trim` gives).
pub open spec fn trimmed(s: Seq<char>) -> Seq<char> {
    trim_end(trim_start(s))
}

/// The bounds of `v[lo..hi]` without white space at either end.
fn trim_bounds(v: &Vec<char>, lo: usize, hi: usize) -> (r: (usize, usize))
    requires
        lo <= hi <= v.len(),
    ensures
        lo <= r.0 <= r.1 <= hi,
        v@.subrange(r.0 as int, r.1 as int) == trimmed(v@.subrange(lo as int, hi as int)),
{
    let mut a = lo;
    while a < hi && is_whitespace(v[a])
        invariant
            lo <= a <= hi <= v.len(),
            trim_start(v@.subrange(lo as int, hi as int)) == trim_start(v@.subrange(a as int, hi as int)),
        decreases hi - a,
    {
        assert(v@.subrange(a as int, hi as int).drop_first() =~= v@.subrange(a + 1, hi as int));
        a = a + 1;
    }
    assert(trim_start(v@.subrange(a as int, hi as int)) == v@.subrange(a as int, hi as int));
    let mut b = hi;
    while b > a && is_whitespace(v[b - 1])
        invariant
            lo <= a <= b <= hi <= v.len(),
            trim_end(v@.subrange(a as int, hi as int)) == trim_end(v@.subrange(a as int, b as int)),
        decreases b - a,
    {
        assert(v@.subrange(a as int, b as int).drop_last() =~= v@.subrange(a as int, b - 1));
        b = b - 1;
    }
    assert(trim_end(v@.subrange(a as int, b as int)) == v@.subrange(a as int, b as int));
    (a, b)
}

/// Why a status code could not be read; the kinds of `IntErrorKind` that
/// reading a `u16` can give, and a missing status line.
#[derive(Debug, Clone, Copy, PartialEq, Eq, Structural)]
pub enum StatusError {
    /// No newline before the status code.
    Missing,
    /// The status code is empty.
    Empty,
    /// A character that is not a decimal digit.
    InvalidDigit,
    /// A number larger than the largest `u16`.
    TooLarge,
}

/// `c` is a decimal digit.
pub open spec fn is_digit(c: char) -> bool {
    0x30 <= (c as int) <= 0x39
}

/// The number that the decimal digits `s` write.
pub open spec fn digits_value(s: Seq<char>) -> int
    decreases s.len(),
{
    if s.len() == 0 {
        0
    } else {
        digits_value(s.drop_last()) * 10 + ((s.last() as int) - 0x30)
    }
}

/// The first `k` characters of `s` are digits, and no prefix of them writes
/// a number larger than the largest `u16`.
pub open spec fn digits_fit(s: Seq<char>, k: int) -> bool {
    forall|j: int| 0 <= j < k ==> is_digit(#[trigger] s[j]) && digits_value(s.take(j + 1)) <= u16::MAX
}

/// The digits that a `u16` reading looks at: a leading `+` is skipped.
pub open spec fn unsigned_digits(s: Seq<char>) -> Seq<char> {
    if s.len() > 0 && s[0] == '+' {
        s.drop_first()
    } else {
        s
    }
}

/// The position of the first character that is no digit or makes the
/// number too large.
pub open spec fn first_misfit(d: Seq<char>) -> int {
    choose|k: int| 0 <= k < d.len() && #[trigger] digits_fit(d, k) && !digits_fit(d, k + 1)
}

/// Where the first `k` characters fit and the next does not, `k` is the
/// first misfit.
pub proof fn lemma_first_misfit(d: Seq<char>, k: int)
    requires
        0 <= k < d.len(),
        digits_fit(d, k),
        !digits_fit(d, k + 1),
    ensures
        first_misfit(d) == k,
        !digits_fit(d, d.len() as int),
{
    assert forall|m: int| 0 <= m < d.len() && #[trigger] digits_fit(d, m) && !digits_fit(d, m + 1) implies m == k by {
        if m < k {
            assert(digits_fit(d, m + 1)) by {
                assert forall|j: int| 0 <= j < m + 1 implies is_digit(#[trigger] d[j]) && digits_value(d.take(j + 1)) <= u16::MAX by {
                    assert(j < k);
                }
            }
        } else if m > k {
            assert(digits_fit(d, k + 1)) by {
                assert forall|j: int| 0 <= j < k + 1 implies is_digit(#[trigger] d[j]) && digits_value(d.take(j + 1)) <= u16::MAX by {
                    assert(j < m);
                }
            }
        }
    }
    if digits_fit(d, d.len() as int) {
        assert(digits_fit(d, k + 1)) by {
            assert forall|j: int| 0 <= j < k + 1 implies is_digit(#[trigger] d[j]) && digits_value(d.take(j + 1)) <= u16::MAX by {
                assert(j < d.len());
            }
        }
    }
}

/// What reading `s` as a `u16` gives (as `str::parse::<u16>` does): the
/// digits are read from the left, and the first one that is no digit, or
/// that makes the number too large, decides the error.
pub open spec fn spec_parse_u16(s: Seq<char>) -> Result<u16, StatusError> {
    if s.len() == 0 {
        Err(StatusError::Empty)
    } else if s.len() == 1 && (s[0] == '+' || s[0] == '-') {
        Err(StatusError::InvalidDigit)
    } else {
        let d = unsigned_digits(s);
        if digits_fit(d, d.len() as int) {
            Ok(digits_value(d) as u16)
        } else {
            let k = first_misfit(d);
            if is_digit(d[k]) {
                Err(StatusError::TooLarge)
            } else {
                Err(StatusError::InvalidDigit)
            }
        }
    }
}

/// Reads `v[lo..hi]` as a `u16`.
fn parse_u16_chars(v: &Vec<char>, lo: usize, hi: usize) -> (r: Result<u16, StatusError>)
    requires
        lo <= hi <= v.len(),
    ensures
        r == spec_parse_u16(v@.subrange(lo as int, hi as int)),
{
    let ghost s = v@.subrange(lo as int, hi as int);
    if lo == hi {
        return Err(StatusError::Empty);
    }
    if hi - lo == 1 && (v[lo] == '+' || v[lo] == '-') {
        return Err(StatusError::InvalidDigit);
    }
    let start = if v[lo] == '+' { lo + 1 } else { lo };
    let ghost d = unsigned_digits(s);
    assert(d =~= v@.subrange(start as int, hi as int));
    let mut acc: u32 = 0;
    let mut i = start;
    while i < hi
        invariant
            lo <= start <= i <= hi <= v.len(),
            s == v@.subrange(lo as int, hi as int),
            s.len() > 0,
            !(s.len() == 1 && (s[0] == '+' || s[0] == '-')),
            d == unsigned_digits(s),
            d == v@.subrange(start as int, hi as int),
            digits_fit(d, i - start),
            acc == digits_value(d.take(i - start)),
            acc <= u16::MAX,
        decreases hi - i,
    {
        let ghost k = i - start;
        assert(d[k] == v@[i as int]);
        assert(d.take(k + 1).drop_last() =~= d.take(k));
        assert(d.take(k + 1).last() == d[k]);
        let c = v[i];
        if !('0' <= c && c <= '9') {
            proof {
                assert(!digits_fit(d, k + 1));
                lemma_first_misfit(d, k);
            }
            return Err(StatusError::InvalidDigit);
        }
        let x: u32 = (c as u32) - ('0' as u32);
        let next: u32 = acc * 10 + x;
        if next > 65535 {
            proof {
                assert(!digits_fit(d, k + 1));
                lemma_first_misfit(d, k);
            }
            return Err(StatusError::TooLarge);
        }
        acc = next;
        proof {
            assert forall|j: int| 0 <= j < k + 1 implies is_digit(#[trigger] d[j]) && digits_value(d.take(j + 1)) <= u16::MAX by {
                if j < k {
                    assert(digits_fit(d, k));
                }
            }
        }
        i = i + 1;
    }
    assert(d.take(d.len() as int) =~= d);
    Ok(acc as u16)
}

/// `i` is the position of the last newline of `s`.
pub open spec fn last_newline_at(s: Seq<char>, i: int) -> bool {
    &&& 0 <= i < s.len()
    &&& s[i] == '\n'
    &&& forall|j: int| i < j < s.len() ==> s[j] != '\n'
}

/// What `curl -w "\n%{http_code}"` printed, read back: the text before the
/// last newline is the body, and the text after it, trimmed, is the status.
pub open spec fn spec_curl_output(s: Seq<char>) -> Result<(Seq<char>, u16), StatusError> {
    if !s.contains('\n') {
        Err(StatusError::Missing)
    } else {
        let i = choose|i: int| last_newline_at(s, i);
        match spec_parse_u16(trimmed(s.subrange(i + 1, s.len() as int))) {
            Ok(n) => Ok((s.take(i), n)),
            Err(e) => Err(e),
        }
    }
}

/// Splits what `curl` printed into the response body and the status code.
pub fn parse_curl_output(raw: &str) -> (r: Result<(String, u16), StatusError>)
    ensures
        r matches Ok((body, n)) ==> spec_curl_output(raw@) == Ok::<(Seq<char>, u16), StatusError>((body@, n)),
        r matches Err(e) ==> spec_curl_output(raw@) == Err::<(Seq<char>, u16), StatusError>(e),
{
    let v = chars_of(raw);
    let n = v.len();
    let mut i = n;
    while i > 0 && v[i - 1] != '\n'
        invariant
            i <= n == v@.len(),
            forall|j: int| i <= j < n ==> v@[j] != '\n',
        decreases i,
    {
        i = i - 1;
    }
    if i == 0 {
        assert(!raw@.contains('\n'));
        return Err(StatusError::Missing);
    }
    let nl = i - 1;
    assert(last_newline_at(raw@, nl as int));
    assert(raw@.contains('\n'));
    proof {
        let k = choose|k: int| last_newline_at(raw@, k);
        assert(k == nl) by {
            if k < nl {
                assert(raw@[nl as int] != '\n');
            } else if k > nl {
                assert(raw@[k] != '\n');
            }
        }
    }
    let (a, b) = trim_bounds(&v, i, n);
    match parse_u16_chars(&v, a, b) {
        Ok(status) => {
            let body = string_of_range(&v, 0, nl);
            assert(v@.subrange(0, nl as int) =~= raw@.take(nl as int));
            Ok((body, status))
        },
        Err(e) => Err(e),
    }
}

/// A digit's character stands `d` places after `'0'`.
pub proof fn lemma_digit_char_value(d: int)
    requires
        0 <= d < 10,
    ensures
        (digit_char(d) as int) == 0x30 + d,
        is_digit(digit_char(d)),
{
    assert(('0' as int) == 0x30);
    assert(('9' as int) == 0x39);
}

/// A decimal numeral is made of digits, writes its number, and none of its
/// prefixes writes a larger one.
pub proof fn lemma_decimal_digits(n: nat)
    ensures
        decimal(n).len() >= 1,
        forall|j: int| 0 <= j < decimal(n).len() ==> is_digit(#[trigger] decimal(n)[j]),
        digits_value(decimal(n)) == n,
        forall|j: int| 0 <= j < decimal(n).len() ==> #[trigger] digits_value(decimal(n).take(j + 1)) <= n,
    decreases n,
{
    let s = decimal(n);
    lemma_digit_char_value((n % 10) as int);
    if n < 10 {
        assert(s.drop_last() =~= Seq::<char>::empty());
        assert(s.last() == digit_char(n as int));
        assert(digits_value(s) == digits_value(s.drop_last()) * 10 + ((s.last() as int) - 0x30));
        assert(s.take(1) =~= s);
    } else {
        let p = decimal(n / 10);
        lemma_decimal_digits(n / 10);
        assert(s.drop_last() =~= p);
        assert(s.last() == digit_char((n % 10) as int));
        assert(digits_value(s) == digits_value(p) * 10 + ((s.last() as int) - 0x30));
        assert((n / 10) * 10 + n % 10 == n) by (nonlinear_arith);
        assert forall|j: int| 0 <= j < s.len() implies is_digit(#[trigger] s[j]) by {
            if j < p.len() {
                assert(s[j] == p[j]);
            }
        }
        assert forall|j: int| 0 <= j < s.len() implies #[trigger] digits_value(s.take(j + 1)) <= n by {
            if j < p.len() {
                assert(s.take(j + 1) =~= p.take(j + 1));
            } else {
                assert(s.take(j + 1) =~= s);
            }
        }
    }
}

/// `s` is a decimal numeral (digits only, at least one) that writes `n`.
pub open spec fn numeral(s: Seq<char>, n: int) -> bool {
    &&& s.len() > 0
    &&& forall|j: int| 0 <= j < s.len() ==> is_digit(#[trigger] s[j])
    &&& digits_value(s) == n
}

/// The decimal numeral of `n` is a numeral that writes `n`.
pub proof fn lemma_decimal_numeral(n: nat)
    ensures
        numeral(decimal(n), n as int),
{
    lemma_decimal_digits(n);
}

/// Reading back what `curl` printed gives the body and the status code that
/// it printed, whatever the body holds.
pub proof fn lemma_curl_output_roundtrip(body: Seq<char>, status: u16)
    ensures
        spec_curl_output(body + seq!['\n'] + decimal(status as nat)) == Ok::<(Seq<char>, u16), StatusError>((body, status)),
{
    let d = decimal(status as nat);
    let s = body + seq!['\n'] + d;
    lemma_decimal_digits(status as nat);
    let i = body.len() as int;
    assert(s[i] == '\n');
    assert forall|j: int| i < j < s.len() implies s[j] != '\n' by {
        assert(s[j] == d[j - i - 1]);
        assert(is_digit(d[j - i - 1]));
    }
    assert(last_newline_at(s, i));
    assert(s.contains('\n'));
    let k = choose|k: int| last_newline_at(s, k);
    assert(k == i) by {
        if k < i {
            assert(s[i] != '\n');
        } else if k > i {
            assert(s[k] != '\n');
        }
    }
    assert(s.subrange(i + 1, s.len() as int) =~= d);
    assert(is_digit(d[0]));
    assert(is_digit(d.last()));
    assert(trim_start(d) == d);
    assert(trim_end(d) == d);
    assert(unsigned_digits(d) == d);
    assert(digits_fit(d, d.len() as int));
    assert(s.take(i) =~= body);
}

impl StatusError {
    /// The text of the error, as the user reads it.
    pub fn message(&self) -> (r: &'static str)
        ensures
            r@ == status_error_text(*self),
    {
        match self {
            StatusError::Missing => "Malformed curl output: missing status code",
            StatusError::Empty => "cannot parse integer from empty string",
            StatusError::InvalidDigit => "invalid digit found in string",
            StatusError::TooLarge => "number too large to fit in target type",
        }
    }
}

/// The text of a status error.
pub open spec fn status_error_text(e: StatusError) -> Seq<char> {
    match e {
        StatusError::Missing => "Malformed curl output: missing status code"@,
        StatusError::Empty => "cannot parse integer from empty string"@,
        StatusError::InvalidDigit => "invalid digit found in string"@,
        StatusError::TooLarge => "number too large to fit in target type"@,
    }
}

/// The model that prompts are sent to.
pub const MODEL: &'static str = "gemini-3.8-flash";

/// Where prompts are sent.
pub const URL: &'static str = "https://generativelanguage.googleapis.com/v1beta/interactions";

/// The content type header of a request.
pub const CONTENT_HEADER: &'static str = "Content-Type: application/json";

/// `serde_json::Error`, carried opaque: what the serializer would report.
#[verifier::external_type_specification]
#[verifier::external_body]
pub struct ExJsonError(serde_json::Error);

/// The lower-case hexadecimal digit of `d`.
pub open spec fn hex_digit_char(d: int) -> char {
    if d < 10 {
        digit_char(d)
    } else if d == 10 {
        'a'
    } else if d == 11 {
        'b'
    } else if d == 12 {
        'c'
    } else if d == 13 {
        'd'
    } else if d == 14 {
        'e'
    } else {
        'f'
    }
}

/// How JSON writes `c` inside a string: quote and backslash are escaped,
/// the five control characters with short escapes get those, every other
/// control character below U+0020 becomes `\u00XX`, the rest stays.
pub open spec fn json_escape_char(c: char) -> Seq<char> {
    let v = c as int;
    if c == '"' {
        seq!['\\', '"']
    } else if c == '\\' {
        seq!['\\', '\\']
    } else if v == 0x08 {
        seq!['\\', 'b']
    } else if v == 0x09 {
        seq!['\\', 't']
    } else if v == 0x0A {
        seq!['\\', 'n']
    } else if v == 0x0C {
        seq!['\\', 'f']
    } else if v == 0x0D {
        seq!['\\', 'r']
    } else if v < 0x20 {
        seq!['\\', 'u', '0', '0', hex_digit_char(v / 16), hex_digit_char(v % 16)]
    } else {
        seq![c]
    }
}

/// The characters of `s`, each written as JSON writes it inside a string.
pub open spec fn json_escaped(s: Seq<char>) -> Seq<char>
    decreases s.len(),
{
    if s.len() == 0 {
        Seq::empty()
    } else {
        json_escaped(s.drop_last()) + json_escape_char(s.last())
    }
}

/// `s` as a JSON string literal.
pub open spec fn json_quoted(s: Seq<char>) -> Seq<char> {
    seq!['"'] + json_escaped(s) + seq!['"']
}

/// `serde_json::to_string` on a `str`: the JSON string literal of `s`. The
/// serializer writes into a `Vec<u8>`, which cannot fail, so the result is
/// always `Ok`.
#[verifier::external_body]
fn json_string(s: &str) -> (r: Result<String, serde_json::Error>)
    ensures
        r is Ok,
        r matches Ok(t) ==> t@ == json_quoted(s@),
{
    serde_json::to_string(s)
}

/// The body of a request: the JSON object with the prompt as `input` and the
/// model as `model`, keys in sorted order, no white space.
pub open spec fn payload_text(prompt: Seq<char>) -> Seq<char> {
    "{\"input\":"@ + json_quoted(prompt) + ",\"model\":"@ + json_quoted(MODEL@) + "}"@
}

/// The body of a request for `prompt`.
pub fn request_payload(prompt: &str) -> (r: String)
    ensures
        r@ == payload_text(prompt@),
{
    let quoted = match json_string(prompt) {
        Ok(t) => t,
        Err(_) => unreached(),
    };
    let model = match json_string(MODEL) {
        Ok(t) => t,
        Err(_) => unreached(),
    };
    let mut r = String::new();
    push_str(&mut r, "{\"input\":");
    push_str(&mut r, quoted.as_str());
    push_str(&mut r, ",\"model\":");
    push_str(&mut r, model.as_str());
    push_str(&mut r, "}");
    r
}

/// The header that carries the API key.
pub fn api_key_header(api_key: &str) -> (r: String)
    ensures
        r@ == "x-goog-api-key: "@ + api_key@,
{
    let mut r = String::new();
    push_str(&mut r, "x-goog-api-key: ");
    push_str(&mut r, api_key);
    r
}

} // verus!
