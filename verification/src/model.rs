//! The mathematical grammar: what each byte sequence decodes to.
//!
//! Every function here is a total spec function from a byte sequence and a
//! start position to the decoded shape and the position one past it, or to
//! the exact error the input earns.  The executable parser in
//! [`crate::parser`] is proved to return precisely these results.
//!
//! Positions are `int`: a position at or past the end of the sequence means
//! the source is exhausted.  A value parse first discards ASCII whitespace,
//! then dispatches on the first significant byte; containers re-enter the
//! value parse for each element or member value.
//!
//! Bytes are compared as ASCII: 0x22 is the quote, 0x5c the backslash,
//! 0x7b and 0x7d the braces, 0x5b and 0x5d the brackets, 0x3a the colon,
//! 0x2c the comma; 0x74, 0x66 and 0x6e open `true`, `false` and `null`.
//!
//! The bound checks guarding the re-entries into the value parse are what the
//! termination checking of the mutual recursion rests on; their failing
//! branches are unreachable, since a successful parse always moves the
//! position strictly forward ([`crate::laws::lemma_value_advances`]).

use vstd::prelude::*;

use crate::text::utf8_decode;
use crate::value::ParseError;

verus! {

/// The shape of a decoded document: the view of [`crate::value::Value`].
pub enum JVal {
    Null,
    Bool(bool),
    Number(i64),
    String(Seq<char>),
    Array(Seq<JVal>),
    Object(Seq<(Seq<char>, JVal)>),
}

/// The ASCII whitespace discarded between tokens: space, tab, CR, LF.
pub open spec fn is_ws(b: u8) -> bool {
    b == 0x20 || b == 0x09 || b == 0x0d || b == 0x0a
}

/// An ASCII decimal digit.
pub open spec fn is_digit(b: u8) -> bool {
    0x30 <= b && b <= 0x39
}

/// The first position at or after `i` holding a non-whitespace byte, or the
/// end of the sequence.
pub open spec fn skip_ws(s: Seq<u8>, i: int) -> int
    decreases s.len() - i,
{
    if 0 <= i && i < s.len() && is_ws(s[i]) {
        skip_ws(s, i + 1)
    } else {
        i
    }
}

pub proof fn lemma_skip_ws(s: Seq<u8>, i: int)
    ensures
        i <= skip_ws(s, i),
        i <= s.len() ==> skip_ws(s, i) <= s.len(),
        0 <= i && skip_ws(s, i) < s.len() ==> !is_ws(s[skip_ws(s, i)]),
    decreases s.len() - i,
{
    if 0 <= i && i < s.len() && is_ws(s[i]) {
        lemma_skip_ws(s, i + 1);
    }
}

/// The first position at or after `i` holding a non-digit byte, or the end.
pub open spec fn digits_end(s: Seq<u8>, i: int) -> int
    decreases s.len() - i,
{
    if 0 <= i && i < s.len() && is_digit(s[i]) {
        digits_end(s, i + 1)
    } else {
        i
    }
}

/// The value of the digit run starting at `i`, accumulated onto `acc` by
/// "multiply by ten, add the digit", as an unbounded integer.
pub open spec fn num_val(s: Seq<u8>, i: int, acc: int) -> int
    decreases s.len() - i,
{
    if 0 <= i && i < s.len() && is_digit(s[i]) {
        num_val(s, i + 1, acc * 10 + (s[i] - 0x30))
    } else {
        acc
    }
}

/// The documented overflow policy: a digit run beyond `i64::MAX` saturates.
pub open spec fn sat_i64(v: int) -> int {
    if v > i64::MAX {
        i64::MAX as int
    } else {
        v
    }
}

/// The accumulated value never drops below the accumulator it starts from.
pub proof fn lemma_num_val_ge(s: Seq<u8>, i: int, acc: int)
    requires
        0 <= acc,
    ensures
        num_val(s, i, acc) >= acc,
    decreases s.len() - i,
{
    if 0 <= i && i < s.len() && is_digit(s[i]) {
        lemma_num_val_ge(s, i + 1, acc * 10 + (s[i] - 0x30));
    }
}

/// Saturation commutes with accumulation: continuing a clamped accumulator
/// saturates to the same value as continuing the true one.
pub proof fn lemma_num_val_sat(s: Seq<u8>, i: int, acc1: int, acc2: int)
    requires
        i64::MAX <= acc1,
        i64::MAX <= acc2,
    ensures
        sat_i64(num_val(s, i, acc1)) == sat_i64(num_val(s, i, acc2)),
    decreases s.len() - i,
{
    lemma_num_val_ge(s, i, acc1);
    lemma_num_val_ge(s, i, acc2);
    if 0 <= i && i < s.len() && is_digit(s[i]) {
        lemma_num_val_sat(s, i + 1, acc1 * 10 + (s[i] - 0x30), acc2 * 10 + (s[i] - 0x30));
    }
}

/// The body of a string literal, scanned from `i` (just past the opening
/// quote) with the two-state normal/escape machine.  Yields the accumulated
/// decoded bytes and the position just past the closing quote.
///
/// In the normal state a quote ends the literal, a backslash enters the
/// escape state, an unescaped control byte is a syntax error, and any other
/// byte is kept verbatim.  In the escape state the single next byte must be
/// one of the eight supported escapes; anything else, `u` included, is a
/// syntax error carrying that byte.
pub open spec fn parse_str_body(s: Seq<u8>, i: int, esc: bool, acc: Seq<u8>) -> Result<
    (Seq<u8>, int),
    ParseError,
>
    decreases s.len() - i,
{
    if i < 0 || i >= s.len() {
        Err(ParseError::UnexpectedEof)
    } else if esc {
        let c = s[i];
        if c == 0x22 {
            parse_str_body(s, i + 1, false, acc.push(0x22))
        } else if c == 0x5c {
            parse_str_body(s, i + 1, false, acc.push(0x5c))
        } else if c == 0x2f {
            parse_str_body(s, i + 1, false, acc.push(0x2f))
        } else if c == 0x62 {
            parse_str_body(s, i + 1, false, acc.push(0x08))
        } else if c == 0x66 {
            parse_str_body(s, i + 1, false, acc.push(0x0c))
        } else if c == 0x6e {
            parse_str_body(s, i + 1, false, acc.push(0x0a))
        } else if c == 0x72 {
            parse_str_body(s, i + 1, false, acc.push(0x0d))
        } else if c == 0x74 {
            parse_str_body(s, i + 1, false, acc.push(0x09))
        } else {
            Err(ParseError::UnexpectSymErr(c))
        }
    } else {
        let c = s[i];
        if c <= 0x1f {
            Err(ParseError::UnexpectSymErr(c))
        } else if c == 0x22 {
            Ok((acc, i + 1))
        } else if c == 0x5c {
            parse_str_body(s, i + 1, true, acc)
        } else {
            parse_str_body(s, i + 1, false, acc.push(c))
        }
    }
}

pub proof fn lemma_str_body_pos(s: Seq<u8>, i: int, esc: bool, acc: Seq<u8>)
    ensures
        parse_str_body(s, i, esc, acc) matches Ok((b, p)) ==> i < p <= s.len(),
    decreases s.len() - i,
{
    if 0 <= i && i < s.len() {
        let c = s[i];
        if esc {
            if c == 0x22 {
                lemma_str_body_pos(s, i + 1, false, acc.push(0x22));
            } else if c == 0x5c {
                lemma_str_body_pos(s, i + 1, false, acc.push(0x5c));
            } else if c == 0x2f {
                lemma_str_body_pos(s, i + 1, false, acc.push(0x2f));
            } else if c == 0x62 {
                lemma_str_body_pos(s, i + 1, false, acc.push(0x08));
            } else if c == 0x66 {
                lemma_str_body_pos(s, i + 1, false, acc.push(0x0c));
            } else if c == 0x6e {
                lemma_str_body_pos(s, i + 1, false, acc.push(0x0a));
            } else if c == 0x72 {
                lemma_str_body_pos(s, i + 1, false, acc.push(0x0d));
            } else if c == 0x74 {
                lemma_str_body_pos(s, i + 1, false, acc.push(0x09));
            }
        } else {
            if c == 0x5c {
                lemma_str_body_pos(s, i + 1, true, acc);
            } else if c != 0x22 {
                lemma_str_body_pos(s, i + 1, false, acc.push(c));
            }
        }
    }
}

/// A whole string literal from just past the opening quote: the scanned
/// bytes must in addition form valid UTF-8 text.
pub open spec fn parse_string_value(s: Seq<u8>, i: int) -> Result<(Seq<char>, int), ParseError> {
    match parse_str_body(s, i, false, Seq::empty()) {
        Ok((b, p)) => match utf8_decode(b) {
            Some(t) => Ok((t, p)),
            None => Err(ParseError::Utf8Err),
        },
        Err(e) => Err(e),
    }
}

/// Whether the object members collected so far already contain `k`.
pub open spec fn obj_has_key(acc: Seq<(Seq<char>, JVal)>, k: Seq<char>) -> bool {
    exists|t: int| 0 <= t < acc.len() && acc[t].0 == k
}

/// One value: discard whitespace, then dispatch on the first significant
/// byte.  Exhaustion before that byte is an end-of-input error; a byte that
/// starts no value is a symbol error carrying it.  A `true`/`false`/`null`
/// literal must match byte for byte: exhaustion inside it is an end-of-input
/// error, and a deviating byte is a symbol error carrying that byte.  A digit
/// run never fails: its value saturates at `i64::MAX` (the documented
/// overflow policy).
pub open spec fn parse_value(s: Seq<u8>, i: int) -> Result<(JVal, int), ParseError>
    decreases s.len() - i, 0int,
{
    let j = skip_ws(s, i);
    proof {
        lemma_skip_ws(s, i);
    }
    if j >= s.len() {
        Err(ParseError::UnexpectedEof)
    } else {
        let c = s[j];
        if c == 0x7b {
            parse_object(s, j + 1)
        } else if c == 0x5b {
            parse_array(s, j + 1)
        } else if c == 0x22 {
            match parse_string_value(s, j + 1) {
                Ok((t, p)) => Ok((JVal::String(t), p)),
                Err(e) => Err(e),
            }
        } else if c == 0x74 {
            if j + 1 >= s.len() {
                Err(ParseError::UnexpectedEof)
            } else if s[j + 1] != 0x72 {
                Err(ParseError::UnexpectSymErr(s[j + 1]))
            } else if j + 2 >= s.len() {
                Err(ParseError::UnexpectedEof)
            } else if s[j + 2] != 0x75 {
                Err(ParseError::UnexpectSymErr(s[j + 2]))
            } else if j + 3 >= s.len() {
                Err(ParseError::UnexpectedEof)
            } else if s[j + 3] != 0x65 {
                Err(ParseError::UnexpectSymErr(s[j + 3]))
            } else {
                Ok((JVal::Bool(true), j + 4))
            }
        } else if c == 0x66 {
            if j + 1 >= s.len() {
                Err(ParseError::UnexpectedEof)
            } else if s[j + 1] != 0x61 {
                Err(ParseError::UnexpectSymErr(s[j + 1]))
            } else if j + 2 >= s.len() {
                Err(ParseError::UnexpectedEof)
            } else if s[j + 2] != 0x6c {
                Err(ParseError::UnexpectSymErr(s[j + 2]))
            } else if j + 3 >= s.len() {
                Err(ParseError::UnexpectedEof)
            } else if s[j + 3] != 0x73 {
                Err(ParseError::UnexpectSymErr(s[j + 3]))
            } else if j + 4 >= s.len() {
                Err(ParseError::UnexpectedEof)
            } else if s[j + 4] != 0x65 {
                Err(ParseError::UnexpectSymErr(s[j + 4]))
            } else {
                Ok((JVal::Bool(false), j + 5))
            }
        } else if c == 0x6e {
            if j + 1 >= s.len() {
                Err(ParseError::UnexpectedEof)
            } else if s[j + 1] != 0x75 {
                Err(ParseError::UnexpectSymErr(s[j + 1]))
            } else if j + 2 >= s.len() {
                Err(ParseError::UnexpectedEof)
            } else if s[j + 2] != 0x6c {
                Err(ParseError::UnexpectSymErr(s[j + 2]))
            } else if j + 3 >= s.len() {
                Err(ParseError::UnexpectedEof)
            } else if s[j + 3] != 0x6c {
                Err(ParseError::UnexpectSymErr(s[j + 3]))
            } else {
                Ok((JVal::Null, j + 4))
            }
        } else if is_digit(c) {
            Ok((JVal::Number(sat_i64(num_val(s, j, 0)) as i64), digits_end(s, j)))
        } else {
            Err(ParseError::UnexpectSymErr(c))
        }
    }
}

/// An object from just past its `{`: either an immediate `}` for the empty
/// mapping, or the members, opened by a quoted key.
pub open spec fn parse_object(s: Seq<u8>, i: int) -> Result<(JVal, int), ParseError>
    decreases s.len() - i, 2int,
{
    let j = skip_ws(s, i);
    proof {
        lemma_skip_ws(s, i);
    }
    if j >= s.len() {
        Err(ParseError::UnexpectedEof)
    } else if s[j] == 0x7d {
        Ok((JVal::Object(Seq::empty()), j + 1))
    } else {
        parse_object_content(s, j)
    }
}

/// A non-empty object body: a quoted key must open the first member.
pub open spec fn parse_object_content(s: Seq<u8>, i: int) -> Result<(JVal, int), ParseError>
    decreases s.len() - i, 1int,
{
    let j = skip_ws(s, i);
    proof {
        lemma_skip_ws(s, i);
    }
    if j >= s.len() {
        Err(ParseError::UnexpectedEof)
    } else if s[j] == 0x22 {
        parse_members(s, j + 1, Seq::empty())
    } else {
        Err(ParseError::UnexpectSymErr(s[j]))
    }
}

/// The members of an object from just past a key's opening quote: the key,
/// a `:`, the value, then either `,` and another key or the closing `}`.
/// A key already present keeps its first value; the later value is still
/// parsed in full and discarded.  A missing `:` is the catch-all structural
/// error.
pub open spec fn parse_members(s: Seq<u8>, i: int, acc: Seq<(Seq<char>, JVal)>) -> Result<
    (JVal, int),
    ParseError,
>
    decreases s.len() - i, 1int,
{
    match parse_string_value(s, i) {
        Err(e) => Err(e),
        Ok((k, p1)) => {
            proof {
                lemma_str_body_pos(s, i, false, Seq::empty());
                lemma_skip_ws(s, p1);
            }
            let j = skip_ws(s, p1);
            if j >= s.len() {
                Err(ParseError::UnexpectedEof)
            } else if s[j] != 0x3a {
                Err(ParseError::DefaultErr)
            } else {
                match parse_value(s, j + 1) {
                    Err(e) => Err(e),
                    Ok((v, p2)) => {
                        let acc2 = if obj_has_key(acc, k) {
                            acc
                        } else {
                            acc.push((k, v))
                        };
                        if j < p2 <= s.len() {
                            parse_after_member(s, p2, acc2)
                        } else {
                            Err(ParseError::DefaultErr)
                        }
                    },
                }
            }
        },
    }
}

/// After a member: `,` demands another quoted key, `}` closes the object.
pub open spec fn parse_after_member(s: Seq<u8>, p: int, acc: Seq<(Seq<char>, JVal)>) -> Result<
    (JVal, int),
    ParseError,
>
    decreases s.len() - p, 1int,
{
    let j = skip_ws(s, p);
    proof {
        lemma_skip_ws(s, p);
    }
    if j >= s.len() {
        Err(ParseError::UnexpectedEof)
    } else if s[j] == 0x7d {
        Ok((JVal::Object(acc), j + 1))
    } else if s[j] == 0x2c {
        let j2 = skip_ws(s, j + 1);
        proof {
            lemma_skip_ws(s, j + 1);
        }
        if j2 >= s.len() {
            Err(ParseError::UnexpectedEof)
        } else if s[j2] == 0x22 {
            parse_members(s, j2 + 1, acc)
        } else {
            Err(ParseError::UnexpectSymErr(s[j2]))
        }
    } else {
        Err(ParseError::UnexpectSymErr(s[j]))
    }
}

/// An array from just past its `[`: either an immediate `]` for the empty
/// sequence, or the elements, opened by a first value.
pub open spec fn parse_array(s: Seq<u8>, i: int) -> Result<(JVal, int), ParseError>
    decreases s.len() - i, 2int,
{
    let j = skip_ws(s, i);
    proof {
        lemma_skip_ws(s, i);
    }
    if j >= s.len() {
        Err(ParseError::UnexpectedEof)
    } else if s[j] == 0x5d {
        Ok((JVal::Array(Seq::empty()), j + 1))
    } else {
        parse_array_content(s, j)
    }
}

/// A non-empty array body: the first element value, then the rest.
pub open spec fn parse_array_content(s: Seq<u8>, i: int) -> Result<(JVal, int), ParseError>
    decreases s.len() - i, 1int,
{
    match parse_value(s, i) {
        Err(e) => Err(e),
        Ok((v, p1)) => {
            if i < p1 <= s.len() {
                parse_elements(s, p1, seq![v])
            } else {
                Err(ParseError::DefaultErr)
            }
        },
    }
}

/// After an element: `,` demands another element value (so a comma directly
/// before `]` is a symbol error: trailing commas are rejected), `]` closes
/// the array.
pub open spec fn parse_elements(s: Seq<u8>, p: int, acc: Seq<JVal>) -> Result<
    (JVal, int),
    ParseError,
>
    decreases s.len() - p, 1int,
{
    let j = skip_ws(s, p);
    proof {
        lemma_skip_ws(s, p);
    }
    if j >= s.len() {
        Err(ParseError::UnexpectedEof)
    } else if s[j] == 0x5d {
        Ok((JVal::Array(acc), j + 1))
    } else if s[j] == 0x2c {
        match parse_value(s, j + 1) {
            Err(e) => Err(e),
            Ok((v, p2)) => {
                if j < p2 <= s.len() {
                    parse_elements(s, p2, acc.push(v))
                } else {
                    Err(ParseError::DefaultErr)
                }
            },
        }
    } else {
        Err(ParseError::UnexpectSymErr(s[j]))
    }
}

} // verus!
