//! Unsigned 32-bit integers in decimal notation: reading them from text and
//! writing them as text.

use vstd::prelude::*;
use vstd::string::*;

verus! {

/// Why a piece of text is not a `u32` in decimal notation.
#[derive(Clone, Copy, Debug, PartialEq, Eq, Structural)]
pub enum NumberError {
    /// The text has no characters at all.
    Empty,
    /// A character is not a decimal digit, or a sign stands alone.
    InvalidDigit,
    /// The digits denote a number above `u32::MAX`.
    PosOverflow,
}

/// The words that describe the failure `e`.
pub open spec fn number_error_text(e: NumberError) -> Seq<char> {
    match e {
        NumberError::Empty => "cannot parse integer from empty string"@,
        NumberError::InvalidDigit => "invalid digit found in string"@,
        NumberError::PosOverflow => "number too large to fit in target type"@,
    }
}

impl NumberError {
    /// The words that describe the failure.
    pub fn as_str(&self) -> (r: &'static str)
        ensures
            r@ == number_error_text(*self),
    {
        match self {
            NumberError::Empty => "cannot parse integer from empty string",
            NumberError::InvalidDigit => "invalid digit found in string",
            NumberError::PosOverflow => "number too large to fit in target type",
        }
    }
}

/// `c` is one of the ten ASCII decimal digits.
pub open spec fn is_digit(c: char) -> bool {
    '0' <= c && c <= '9'
}

/// The number that the digit `c` stands for; 0 for any other character.
pub open spec fn digit_value(c: char) -> nat {
    if is_digit(c) {
        (c as nat - '0' as nat) as nat
    } else {
        0
    }
}

/// Every character of `s` is a decimal digit.
pub open spec fn all_digits(s: Seq<char>) -> bool {
    forall|i: int| 0 <= i < s.len() ==> is_digit(#[trigger] s[i])
}

/// The number that `s` denotes when read as decimal digits, most significant
/// digit first.
pub open spec fn decimal_value(s: Seq<char>) -> nat
    decreases s.len(),
{
    if s.len() == 0 {
        0
    } else {
        decimal_value(s.drop_last()) * 10 + digit_value(s.last())
    }
}

/// How many digits stand at the front of `s` before the first other character.
pub open spec fn digit_run(s: Seq<char>) -> nat
    decreases s.len(),
{
    if s.len() == 0 || !is_digit(s[0]) {
        0
    } else {
        1 + digit_run(s.drop_first())
    }
}

/// `s` without the single `+` that may stand in front of the digits.
pub open spec fn unsigned_part(s: Seq<char>) -> Seq<char> {
    if s.len() > 0 && s[0] == '+' {
        s.drop_first()
    } else {
        s
    }
}

/// `s` is a `u32` in decimal notation: an optional `+`, then one or more
/// decimal digits whose value fits in 32 bits. Leading zeros are allowed.
pub open spec fn is_u32_text(s: Seq<char>) -> bool {
    let body = unsigned_part(s);
    body.len() > 0 && all_digits(body) && decimal_value(body) <= u32::MAX
}

/// The number that the text `s` denotes, where it is a `u32` in decimal
/// notation.
pub open spec fn u32_value(s: Seq<char>) -> u32 {
    decimal_value(unsigned_part(s)) as u32
}

/// Why `s` is not a `u32` in decimal notation, where it is not.
///
/// Of the ways to fail, the one met first when going through the text from
/// the left is reported: digits that run past `u32::MAX` before any foreign
/// character is reached give `PosOverflow`.
pub open spec fn u32_failure(s: Seq<char>) -> NumberError {
    let body = unsigned_part(s);
    let run = body.take(digit_run(body) as int);
    if s.len() == 0 {
        NumberError::Empty
    } else if decimal_value(run) > u32::MAX {
        NumberError::PosOverflow
    } else {
        NumberError::InvalidDigit
    }
}

/// What reading `s` as a `u32` gives.
pub open spec fn parse_u32_spec(s: Seq<char>) -> Result<u32, NumberError> {
    if is_u32_text(s) {
        Ok(u32_value(s))
    } else {
        Err(u32_failure(s))
    }
}

/// `digit_run` never exceeds the length, and covers digits only.
pub proof fn lemma_digit_run_bounds(s: Seq<char>)
    ensures
        digit_run(s) <= s.len(),
        all_digits(s.take(digit_run(s) as int)),
        digit_run(s) < s.len() ==> !is_digit(s[digit_run(s) as int]),
    decreases s.len(),
{
    if s.len() == 0 || !is_digit(s[0]) {
    } else {
        let rest = s.drop_first();
        lemma_digit_run_bounds(rest);
        let k = digit_run(s) as int;
        assert forall|i: int| 0 <= i < k implies is_digit(#[trigger] s.take(k)[i]) by {
            if i > 0 {
                assert(s.take(k)[i] == rest.take(k - 1)[i - 1]);
            }
        }
    }
}

/// A prefix of digits that ends at the end of `s` or at a foreign character
/// is the whole digit run.
pub proof fn lemma_digit_run_is(s: Seq<char>, k: int)
    requires
        0 <= k <= s.len(),
        all_digits(s.take(k)),
        k < s.len() ==> !is_digit(s[k]),
    ensures
        digit_run(s) == k,
    decreases k,
{
    if k == 0 {
    } else {
        assert(s.take(k)[0] == s[0]);
        let rest = s.drop_first();
        assert forall|i: int| 0 <= i < k - 1 implies is_digit(#[trigger] rest.take(k - 1)[i]) by {
            assert(rest.take(k - 1)[i] == s.take(k)[i + 1]);
        }
        lemma_digit_run_is(rest, k - 1);
    }
}

/// Reading one more digit multiplies by ten and adds the digit.
pub proof fn lemma_decimal_value_step(s: Seq<char>, k: int)
    requires
        0 <= k < s.len(),
    ensures
        decimal_value(s.take(k + 1)) == decimal_value(s.take(k)) * 10 + digit_value(s[k]),
{
    assert(s.take(k + 1).drop_last() =~= s.take(k));
}

/// A longer prefix never denotes a smaller number.
pub proof fn lemma_decimal_value_grows(s: Seq<char>, j: int, k: int)
    requires
        0 <= j <= k <= s.len(),
    ensures
        decimal_value(s.take(j)) <= decimal_value(s.take(k)),
    decreases k - j,
{
    if j < k {
        lemma_decimal_value_grows(s, j, k - 1);
        lemma_decimal_value_step(s, k - 1);
    }
}

/// Reads `s` as a `u32` in decimal notation.
pub fn parse_u32(s: &str) -> (r: Result<u32, NumberError>)
    ensures
        r == parse_u32_spec(s@),
{
    let ghost body = unsigned_part(s@);
    let mut value: u32 = 0;
    let mut at_start = true;
    let mut plus = false;
    let mut any_digit = false;
    for c in it: s.chars()
        invariant
            it.seq() == s@,
            body == unsigned_part(s@),
            at_start <==> it.index() == 0,
            plus <==> it.index() >= 1 && s@[0] == '+',
            any_digit <==> it.index() > (if plus { 1int } else { 0int }),
            all_digits(body.take(it.index() - (if plus { 1int } else { 0int }))),
            value == decimal_value(body.take(it.index() - (if plus { 1int } else { 0int }))),
    {
        let ghost k = it.index() - (if plus { 1int } else { 0int });
        if at_start && c == '+' {
            plus = true;
            at_start = false;
        } else {
            at_start = false;
            assert(c == body[k]);
            if c < '0' || c > '9' {
                proof {
                    lemma_digit_run_is(body, k);
                    assert(!is_digit(body[k]));
                }
                return Err(NumberError::InvalidDigit);
            }
            let d: u32 = c as u32 - '0' as u32;
            let wide: u64 = value as u64 * 10 + d as u64;
            proof {
                lemma_decimal_value_step(body, k);
                assert(wide == decimal_value(body.take(k + 1)));
            }
            if wide > u32::MAX as u64 {
                proof {
                    lemma_digit_run_bounds(body);
                    let n = digit_run(body) as int;
                    if n <= k {
                        assert(!is_digit(body[n]));
                        assert(body.take(k)[n] == body[n]);
                    }
                    lemma_decimal_value_grows(body, k + 1, n);
                    lemma_decimal_value_grows(body, k + 1, body.len() as int);
                    assert(body.take(body.len() as int) =~= body);
                }
                return Err(NumberError::PosOverflow);
            }
            proof {
                assert forall|i: int| 0 <= i < k + 1 implies is_digit(#[trigger] body.take(k + 1)[i]) by {
                    if i < k {
                        assert(body.take(k + 1)[i] == body.take(k)[i]);
                    }
                }
            }
            value = wide as u32;
            any_digit = true;
        }
    }
    proof {
        assert(body.take(body.len() as int) =~= body);
        lemma_digit_run_is(body, body.len() as int);
    }
    if at_start {
        Err(NumberError::Empty)
    } else if !any_digit {
        Err(NumberError::InvalidDigit)
    } else {
        Ok(value)
    }
}

/// The character that writes the digit `d`, for `d` below ten.
pub open spec fn digit_char(d: nat) -> char {
    (d + '0' as nat) as char
}

/// `n` in decimal notation: no sign, and no leading zero but for zero itself.
pub open spec fn decimal_text(n: nat) -> Seq<char>
    decreases n,
{
    if n < 10 {
        seq![digit_char(n)]
    } else {
        decimal_text(n / 10).push(digit_char(n % 10))
    }
}

/// Decimal notation is made of digits, is never empty, and denotes the number
/// it was written for.
pub proof fn lemma_decimal_text(n: nat)
    ensures
        decimal_text(n).len() >= 1,
        all_digits(decimal_text(n)),
        decimal_value(decimal_text(n)) == n,
    decreases n,
{
    let t = decimal_text(n);
    if n < 10 {
        assert(t.drop_last().len() == 0);
        assert(decimal_value(t.drop_last()) == 0);
    } else {
        let head = decimal_text(n / 10);
        lemma_decimal_text(n / 10);
        assert(t.drop_last() =~= head);
        assert forall|i: int| 0 <= i < t.len() implies is_digit(#[trigger] t[i]) by {
            if i < head.len() {
                assert(t[i] == head[i]);
            }
        }
    }
}

/// Reading what was written gives the number back.
pub proof fn lemma_parse_decimal_text(n: u32)
    ensures
        is_u32_text(decimal_text(n as nat)),
        u32_value(decimal_text(n as nat)) == n,
        parse_u32_spec(decimal_text(n as nat)) == Ok::<u32, NumberError>(n),
{
    let t = decimal_text(n as nat);
    lemma_decimal_text(n as nat);
    assert(is_digit(t[0]));
    assert(unsigned_part(t) == t);
}

/// The one-character text of a digit.
fn digit_str(d: u32) -> (r: &'static str)
    requires
        d < 10,
    ensures
        r@ == seq![digit_char(d as nat)],
{
    proof {
        reveal_strlit("0");
        reveal_strlit("1");
        reveal_strlit("2");
        reveal_strlit("3");
        reveal_strlit("4");
        reveal_strlit("5");
        reveal_strlit("6");
        reveal_strlit("7");
        reveal_strlit("8");
        reveal_strlit("9");
    }
    let r = match d {
        0 => "0",
        1 => "1",
        2 => "2",
        3 => "3",
        4 => "4",
        5 => "5",
        6 => "6",
        7 => "7",
        8 => "8",
        _ => "9",
    };
    assert(r@ =~= seq![digit_char(d as nat)]);
    r
}

/// Appends `n` in decimal notation to `out`.
pub fn push_u32(out: &mut String, n: u32)
    ensures
        final(out)@ == old(out)@ + decimal_text(n as nat),
    decreases n,
{
    if n >= 10 {
        push_u32(out, n / 10);
    }
    out.append(digit_str(n % 10));
    assert(out@ =~= old(out)@ + decimal_text(n as nat));
}

/// `n` in decimal notation.
pub fn u32_to_string(n: u32) -> (r: String)
    ensures
        r@ == decimal_text(n as nat),
{
    let mut out = String::new();
    push_u32(&mut out, n);
    assert(out@ =~= decimal_text(n as nat));
    out
}

} // verus!
