//! The tagged value model at the edges of generated code: how the external
//! input becomes a tagged word, how a tagged word is shown, and how the code
//! of a run-time error is reported.
//!
//! A tagged word with bit 0 clear is an integer, stored doubled; `1` is
//! `true` and `3` is `false`; no other odd word is a value.

use vstd::prelude::*;
use vstd::string::*;
use crate::text::{i64_to_string, int_text};

verus! {

/// The tagged word of `true`.
pub const TRUE_VAL: i64 = 1;

/// The tagged word of `false`.
pub const FALSE_VAL: i64 = 3;

/// The least integer that has a tagged word.
pub const MIN_INT: i64 = -4611686018427387904;

/// The greatest integer that has a tagged word.
pub const MAX_INT: i64 = 4611686018427387903;

/// What a word stands for.
pub enum Value {
    Int(int),
    Bool(bool),
}

/// The tagged word of a value.
pub open spec fn encode(v: Value) -> int {
    match v {
        Value::Int(n) => 2 * n,
        Value::Bool(true) => 1,
        Value::Bool(false) => 3,
    }
}

/// The value of a tagged word, if it is one.
pub open spec fn decode(w: int) -> Option<Value> {
    if w % 2 == 0 {
        Some(Value::Int(w / 2))
    } else if w == 1 {
        Some(Value::Bool(true))
    } else if w == 3 {
        Some(Value::Bool(false))
    } else {
        None
    }
}

/// How a value is shown: an integer in decimal, a boolean by its keyword.
pub open spec fn value_text(v: Value) -> Seq<char> {
    match v {
        Value::Int(n) => int_text(n),
        Value::Bool(true) => "true"@,
        Value::Bool(false) => "false"@,
    }
}

/// Decoding undoes encoding: every integer and both booleans come back from
/// their tagged words, and the word of an integer in the 63-bit range fits a
/// machine word.
pub proof fn lemma_decode_encode(v: Value)
    ensures
        decode(encode(v)) == Some(v),
        v matches Value::Int(n) && MIN_INT <= n <= MAX_INT ==> i64::MIN <= encode(v) <= i64::MAX,
{
}

/// The value of a decimal digit.
pub open spec fn digit_value(c: char) -> Option<int> {
    if c == '0' {
        Some(0)
    } else if c == '1' {
        Some(1)
    } else if c == '2' {
        Some(2)
    } else if c == '3' {
        Some(3)
    } else if c == '4' {
        Some(4)
    } else if c == '5' {
        Some(5)
    } else if c == '6' {
        Some(6)
    } else if c == '7' {
        Some(7)
    } else if c == '8' {
        Some(8)
    } else if c == '9' {
        Some(9)
    } else {
        None
    }
}

/// The number that the first `n` characters of `s` spell in decimal, if
/// there is at least one and all are digits.
pub open spec fn digits_value(s: Seq<char>, n: nat) -> Option<int>
    decreases n,
{
    if n == 0 || n > s.len() {
        None
    } else {
        match digit_value(s[n - 1]) {
            None => None,
            Some(d) => if n == 1 {
                Some(d)
            } else {
                match digits_value(s, (n - 1) as nat) {
                    None => None,
                    Some(a) => Some(10 * a + d),
                }
            },
        }
    }
}

/// The integer that `s` spells: decimal digits after an optional sign.
pub open spec fn spec_parse_int(s: Seq<char>) -> Option<int> {
    if s.len() > 0 && s[0] == '-' {
        match digits_value(s.drop_first(), (s.len() - 1) as nat) {
            Some(v) => Some(-v),
            None => None,
        }
    } else if s.len() > 0 && s[0] == '+' {
        digits_value(s.drop_first(), (s.len() - 1) as nat)
    } else {
        digits_value(s, s.len())
    }
}

/// The tagged word of the external input `s`: of a boolean for its keyword,
/// else of the integer that `s` spells. Text that spells no integer of a
/// machine word, and an integer outside the 63-bit range, are refused.
pub open spec fn spec_parse_input(s: Seq<char>) -> Result<i64, Seq<char>> {
    if s == "true"@ {
        Ok(TRUE_VAL)
    } else if s == "false"@ {
        Ok(FALSE_VAL)
    } else {
        match spec_parse_int(s) {
            None => Err("Invalid input: "@ + s),
            Some(n) => if n < i64::MIN || n > i64::MAX {
                Err("Invalid input: "@ + s)
            } else if n < MIN_INT || n > MAX_INT {
                Err("Input number out of range"@)
            } else {
                Ok((2 * n) as i64)
            },
        }
    }
}

fn digit_of(c: char) -> (r: Option<u64>)
    ensures
        match r {
            Some(d) => d < 10 && digit_value(c) == Some(d as int),
            None => digit_value(c).is_none(),
        },
{
    if c == '0' {
        Some(0)
    } else if c == '1' {
        Some(1)
    } else if c == '2' {
        Some(2)
    } else if c == '3' {
        Some(3)
    } else if c == '4' {
        Some(4)
    } else if c == '5' {
        Some(5)
    } else if c == '6' {
        Some(6)
    } else if c == '7' {
        Some(7)
    } else if c == '8' {
        Some(8)
    } else if c == '9' {
        Some(9)
    } else {
        None
    }
}

/// The value of digits grows with every further digit once it is positive,
/// and is never negative.
proof fn lemma_digits_nonnegative(s: Seq<char>, n: nat)
    ensures
        digits_value(s, n) matches Some(v) ==> v >= 0,
    decreases n,
{
    if n > 1 && n <= s.len() {
        lemma_digits_nonnegative(s, (n - 1) as nat);
    }
}

/// The magnitude that the characters of `text` from index `start` on spell,
/// capped: `Some(m)` with `m <= 2^63` is the exact magnitude, `Some(2^63 +
/// 1)` stands for every greater one, `None` for text that is no number.
fn parse_magnitude(text: &str, start: usize) -> (r: Option<u64>)
    requires
        start <= text@.len(),
    ensures
        match r {
            None => digits_value(text@.skip(start as int), (text@.len() - start) as nat).is_none(),
            Some(m) => match digits_value(
                text@.skip(start as int),
                (text@.len() - start) as nat,
            ) {
                None => false,
                Some(v) => if m <= 0x8000_0000_0000_0000 {
                    v == m
                } else {
                    m == 0x8000_0000_0000_0001 && v > 0x8000_0000_0000_0000
                },
            },
        },
{
    let len = text.unicode_len();
    let ghost digits = text@.skip(start as int);
    if start == len {
        return None;
    }
    let mut acc: u64 = 0;
    let mut i: usize = start;
    while i < len
        invariant
            start <= i <= len,
            start < len,
            len == text@.len(),
            digits == text@.skip(start as int),
            acc <= 0x8000_0000_0000_0001,
            i == start ==> acc == 0,
            i > start ==> match digits_value(digits, (i - start) as nat) {
                None => false,
                Some(v) => if acc <= 0x8000_0000_0000_0000 {
                    v == acc
                } else {
                    v > 0x8000_0000_0000_0000
                },
            },
        decreases len - i,
    {
        let c = text.get_char(i);
        assert(digits[i - start] == c);
        let d = match digit_of(c) {
            Some(d) => d,
            None => {
                proof {
                    lemma_no_digit_no_number(digits, (i - start + 1) as nat, (len - start) as nat);
                }
                return None;
            },
        };
        proof {
            lemma_digits_nonnegative(digits, (i - start) as nat);
        }
        if acc > 922337203685477580 {
            acc = 0x8000_0000_0000_0001;
        } else {
            let next = acc * 10 + d;
            if next > 0x8000_0000_0000_0000 {
                acc = 0x8000_0000_0000_0001;
            } else {
                acc = next;
            }
        }
        i += 1;
    }
    Some(acc)
}

/// Text with a character that is no digit among its first `k` spells no
/// number, however long it is.
proof fn lemma_no_digit_no_number(s: Seq<char>, k: nat, n: nat)
    requires
        1 <= k <= n <= s.len(),
        digit_value(s[k - 1]).is_none(),
    ensures
        digits_value(s, n).is_none(),
    decreases n,
{
    if n > k {
        lemma_no_digit_no_number(s, k, (n - 1) as nat);
    }
}

/// The value of a tagged word or a message.
pub open spec fn word_view(r: Result<i64, String>) -> Result<i64, Seq<char>> {
    match r {
        Ok(w) => Ok(w),
        Err(m) => Err(m@),
    }
}

fn invalid_input(input: &str) -> (r: Result<i64, String>)
    ensures
        word_view(r) == Err::<i64, Seq<char>>("Invalid input: "@ + input@),
{
    let mut msg = String::from_str("Invalid input: ");
    msg.append(input);
    Err(msg)
}

/// The tagged word of the external input.
pub fn parse_input(input: &str) -> (r: Result<i64, String>)
    ensures
        word_view(r) == spec_parse_input(input@),
{
    let owned = String::from_str(input);
    if owned == String::from_str("true") {
        return Ok(TRUE_VAL);
    }
    if owned == String::from_str("false") {
        return Ok(FALSE_VAL);
    }
    let len = input.unicode_len();
    let negative = len > 0 && input.get_char(0) == '-';
    let signed = negative || (len > 0 && input.get_char(0) == '+');
    let start: usize = if signed {
        1
    } else {
        0
    };
    proof {
        if signed {
            assert(input@.skip(1) =~= input@.drop_first());
        } else {
            assert(input@.skip(0) =~= input@);
        }
    }
    let magnitude = match parse_magnitude(input, start) {
        Some(m) => m,
        None => { return invalid_input(input); },
    };
    if negative {
        if magnitude > 0x8000_0000_0000_0000 {
            return invalid_input(input);
        }
        if magnitude > 4611686018427387904 {
            return Err(String::from_str("Input number out of range"));
        }
        let num: i64 = -(magnitude as i64);
        Ok(num * 2)
    } else {
        if magnitude > 0x7fff_ffff_ffff_ffff {
            return invalid_input(input);
        }
        if magnitude > 4611686018427387903 {
            return Err(String::from_str("Input number out of range"));
        }
        let num: i64 = magnitude as i64;
        Ok(num * 2)
    }
}

/// What the print boundary shows for a word: the text of its value, or a
/// message for a word that is no value.
pub open spec fn spec_print_result(val: i64) -> Result<Seq<char>, Seq<char>> {
    match decode(val as int) {
        Some(v) => Ok(value_text(v)),
        None => Err("Invalid boolean value: "@ + int_text(val as int)),
    }
}

/// The value of a text or a message.
pub open spec fn shown_view(r: Result<String, String>) -> Result<Seq<char>, Seq<char>> {
    match r {
        Ok(t) => Ok(t@),
        Err(m) => Err(m@),
    }
}

/// The text that shows the result `val` of a program; an odd word other than
/// the two booleans is an inconsistency and gives a message instead.
pub fn print_result(val: i64) -> (r: Result<String, String>)
    ensures
        shown_view(r) == spec_print_result(val),
{
    if val % 2 == 0 {
        Ok(i64_to_string(val / 2))
    } else if val == 1 {
        Ok(String::from_str("true"))
    } else if val == 3 {
        Ok(String::from_str("false"))
    } else {
        let mut msg = String::from_str("Invalid boolean value: ");
        msg.append(i64_to_string(val).as_str());
        Err(msg)
    }
}

/// What the print helper of generated code shows for a word.
pub open spec fn spec_show_word(val: i64) -> Seq<char> {
    match decode(val as int) {
        Some(v) => value_text(v),
        None => "Unknown value: "@ + int_text(val as int),
    }
}

/// The text that the print helper of generated code shows for `val`.
pub fn show_word(val: i64) -> (s: String)
    ensures
        s@ == spec_show_word(val),
{
    if val % 2 == 0 {
        i64_to_string(val / 2)
    } else if val == 1 {
        String::from_str("true")
    } else if val == 3 {
        String::from_str("false")
    } else {
        let mut msg = String::from_str("Unknown value: ");
        msg.append(i64_to_string(val).as_str());
        msg
    }
}

/// The message of the run-time error with the given code.
pub open spec fn spec_error_message(code: i64) -> Seq<char> {
    if code == 1 {
        "overflow"@
    } else if code == 2 {
        "invalid argument"@
    } else if code == 3 {
        "bad cast"@
    } else {
        "unknown error code: "@ + int_text(code as int)
    }
}

/// The message of the run-time error with the given code.
pub fn error_message(code: i64) -> (s: String)
    ensures
        s@ == spec_error_message(code),
{
    if code == 1 {
        String::from_str("overflow")
    } else if code == 2 {
        String::from_str("invalid argument")
    } else if code == 3 {
        String::from_str("bad cast")
    } else {
        let mut msg = String::from_str("unknown error code: ");
        msg.append(i64_to_string(code).as_str());
        msg
    }
}

/// What the fault reporter has recorded: whether generated code has raised a
/// run-time error since the record was last cleared, and the code of the
/// last one.
#[derive(Debug, Clone, Copy, PartialEq, Eq, Structural)]
pub struct FaultRecord {
    pub has_error: bool,
    pub error_code: i64,
}

/// Takes a recorded run-time error: its message if there is one, and the
/// record is cleared; `None` if there is none.
pub fn check_error(record: &mut FaultRecord) -> (r: Option<String>)
    ensures
        final(record).error_code == old(record).error_code,
        !final(record).has_error,
        match r {
            Some(m) => old(record).has_error && m@ == spec_error_message(old(record).error_code),
            None => !old(record).has_error,
        },
{
    if record.has_error {
        record.has_error = false;
        Some(error_message(record.error_code))
    } else {
        None
    }
}

} // verus!
