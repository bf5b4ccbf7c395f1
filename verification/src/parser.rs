//! The executable recursive-descent parser.
//!
//! The byte cursor is an explicit position into a byte slice: `s[*pos]` is
//! the next unconsumed byte (one-byte lookahead), and advancing `*pos`
//! consumes.  The cursor only moves forward; after a successful parse it
//! stands one past the decoded value, and bytes beyond it are tolerated.
//! Each function returns exactly what the grammar in [`crate::model`] says of
//! its input, and never panics.

use vstd::prelude::*;

use crate::model::{
    digits_end, is_digit, num_val, obj_has_key, parse_array, parse_array_content,
    parse_elements, parse_members, parse_object, parse_object_content, parse_string_value,
    parse_str_body, parse_value, sat_i64, skip_ws, JVal,
};
use crate::text::bytes_to_string;
use crate::value::{
    arr_view, lemma_arr_view_empty, lemma_arr_view_one, lemma_arr_view_push, lemma_obj_view_empty,
    lemma_obj_view_push, obj_view, ParseError, Value,
};

verus! {

/// Discards ASCII whitespace: moves the cursor to the next significant byte.
pub fn skip_space(s: &[u8], pos: &mut usize)
    ensures
        *final(pos) == skip_ws(s@, *old(pos) as int),
        *old(pos) <= *final(pos),
        *old(pos) <= s@.len() ==> *final(pos) <= s@.len(),
{
    loop
        invariant
            skip_ws(s@, *pos as int) == skip_ws(s@, *old(pos) as int),
            *old(pos) <= *pos,
            *old(pos) <= s@.len() ==> *pos <= s@.len(),
        decreases s@.len() - *pos,
    {
        if *pos < s.len() && (s[*pos] == 0x20 || s[*pos] == 0x09 || s[*pos] == 0x0d || s[*pos]
            == 0x0a) {
            *pos = *pos + 1;
        } else {
            return ;
        }
    }
}

/// Consumes one byte of a `true`/`false`/`null` literal.  Exhaustion inside
/// the literal is an end-of-input error; a byte other than the expected one
/// is a symbol error carrying that byte, left unconsumed.
fn match_lit(s: &[u8], pos: &mut usize, want: u8) -> (r: Result<(), ParseError>)
    ensures
        *old(pos) >= s@.len() ==> (r matches Err(re) && re == ParseError::UnexpectedEof
            && *final(pos) == *old(pos)),
        *old(pos) < s@.len() && s@[*old(pos) as int] != want ==> (r matches Err(re) && re
            == ParseError::UnexpectSymErr(s@[*old(pos) as int]) && *final(pos) == *old(pos)),
        *old(pos) < s@.len() && s@[*old(pos) as int] == want ==> r is Ok && *final(pos)
            == *old(pos) + 1,
{
    if *pos >= s.len() {
        return Err(ParseError::UnexpectedEof);
    }
    let c = s[*pos];
    if c != want {
        return Err(ParseError::UnexpectSymErr(c));
    }
    *pos = *pos + 1;
    Ok(())
}

/// Whether the members collected so far already hold the key `k`.
fn has_key(m: &Vec<(String, Value)>, k: &String) -> (b: bool)
    ensures
        b == obj_has_key(obj_view(m@), k@),
{
    let mut t: usize = 0;
    while t < m.len()
        invariant
            t <= m@.len(),
            forall|q: int| 0 <= q < t ==> obj_view(m@)[q].0 != k@,
        decreases m@.len() - t,
    {
        if m[t].0 == *k {
            assert(obj_view(m@)[t as int].0 == k@);
            return true;
        }
        t = t + 1;
    }
    false
}

impl Value {
    /// The numeric literal decoder.  `first` is the leading digit, already
    /// consumed by the dispatcher; the run of digits after the cursor is
    /// accumulated by "multiply by ten, add the digit", saturating at
    /// `i64::MAX` (the documented overflow policy).  The first non-digit byte
    /// is left unconsumed for the caller.
    pub fn get_number(first: u8, s: &[u8], pos: &mut usize) -> (n: i64)
        requires
            is_digit(first),
        ensures
            n == sat_i64(num_val(s@, *old(pos) as int, (first - 0x30) as int)),
            *final(pos) == digits_end(s@, *old(pos) as int),
            *old(pos) <= *final(pos),
            *old(pos) <= s@.len() ==> *final(pos) <= s@.len(),
    {
        let mut v: i64 = (first - 0x30) as i64;
        loop
            invariant
                0 <= v <= i64::MAX,
                sat_i64(num_val(s@, *pos as int, v as int)) == sat_i64(
                    num_val(s@, *old(pos) as int, (first - 0x30) as int),
                ),
                digits_end(s@, *pos as int) == digits_end(s@, *old(pos) as int),
                *old(pos) <= *pos,
                *old(pos) <= s@.len() ==> *pos <= s@.len(),
            decreases s@.len() - *pos,
        {
            if *pos < s.len() {
                let c = s[*pos];
                if 0x30 <= c && c <= 0x39 {
                    let d: i64 = (c - 0x30) as i64;
                    *pos = *pos + 1;
                    if v < 922337203685477580 || (v == 922337203685477580 && d <= 7) {
                        v = 10 * v + d;
                    } else {
                        proof {
                            crate::model::lemma_num_val_sat(
                                s@,
                                *pos as int,
                                10 * (v as int) + d,
                                i64::MAX as int,
                            );
                        }
                        v = i64::MAX;
                    }
                } else {
                    return v;
                }
            } else {
                return v;
            }
        }
    }

    /// The string literal decoder, from just past the opening quote: the
    /// two-state normal/escape scanner of the grammar, followed by UTF-8
    /// validation of the accumulated bytes.
    pub fn get_string(s: &[u8], pos: &mut usize) -> (r: Result<String, ParseError>)
        ensures
            parse_string_value(s@, *old(pos) as int) matches Ok(tp) ==> r matches Ok(t) && t@
                == tp.0 && *final(pos) == tp.1,
            parse_string_value(s@, *old(pos) as int) matches Err(e) ==> r matches Err(re) && re
                == e,
            *old(pos) <= *final(pos),
            *old(pos) <= s@.len() ==> *final(pos) <= s@.len(),
    {
        let mut buf: Vec<u8> = Vec::new();
        let mut esc: bool = false;
        loop
            invariant_except_break
                parse_str_body(s@, *pos as int, esc, buf@) == parse_str_body(
                    s@,
                    *old(pos) as int,
                    false,
                    Seq::<u8>::empty(),
                ),
                *old(pos) <= *pos,
                *old(pos) <= s@.len() ==> *pos <= s@.len(),
            ensures
                parse_str_body(s@, *old(pos) as int, false, Seq::<u8>::empty()) == Ok::<
                    (Seq<u8>, int),
                    ParseError,
                >((buf@, *pos as int)),
                *old(pos) <= *pos,
                *old(pos) <= s@.len() ==> *pos <= s@.len(),
            decreases s@.len() - *pos,
        {
            if *pos >= s.len() {
                return Err(ParseError::UnexpectedEof);
            }
            let c = s[*pos];
            *pos = *pos + 1;
            if esc {
                esc = false;
                if c == 0x22 {
                    buf.push(0x22);
                } else if c == 0x5c {
                    buf.push(0x5c);
                } else if c == 0x2f {
                    buf.push(0x2f);
                } else if c == 0x62 {
                    buf.push(0x08);
                } else if c == 0x66 {
                    buf.push(0x0c);
                } else if c == 0x6e {
                    buf.push(0x0a);
                } else if c == 0x72 {
                    buf.push(0x0d);
                } else if c == 0x74 {
                    buf.push(0x09);
                } else {
                    return Err(ParseError::UnexpectSymErr(c));
                }
            } else {
                if c <= 0x1f {
                    return Err(ParseError::UnexpectSymErr(c));
                } else if c == 0x22 {
                    break ;
                } else if c == 0x5c {
                    esc = true;
                } else {
                    buf.push(c);
                }
            }
        }
        match bytes_to_string(buf) {
            Some(t) => Ok(t),
            None => Err(ParseError::Utf8Err),
        }
    }

    /// The object decoder, from just past the `{`: an immediate `}` yields
    /// the empty mapping, anything else must open the members.
    pub fn get_object(s: &[u8], pos: &mut usize) -> (r: Result<
        Vec<(String, Value)>,
        ParseError,
    >)
        ensures
            parse_object(s@, *old(pos) as int) matches Ok(vp) ==> r matches Ok(m) && JVal::Object(
                obj_view(m@),
            ) == vp.0 && *final(pos) == vp.1,
            parse_object(s@, *old(pos) as int) matches Err(e) ==> r matches Err(re) && re == e,
            *old(pos) <= *final(pos),
            *old(pos) <= s@.len() ==> *final(pos) <= s@.len(),
        decreases s@.len() - *pos, 2int,
    {
        skip_space(s, pos);
        if *pos >= s.len() {
            return Err(ParseError::UnexpectedEof);
        }
        if s[*pos] == 0x7d {
            *pos = *pos + 1;
            proof {
                lemma_obj_view_empty();
            }
            return Ok(Vec::new());
        }
        Self::get_object_content(s, pos)
    }

    /// The members of a non-empty object: key, `:`, value, then `,` or `}`,
    /// with a comma demanding another key (trailing commas are rejected).
    /// The first occurrence of a key is retained; a repeated key's value is
    /// parsed in full and discarded.
    pub fn get_object_content(s: &[u8], pos: &mut usize) -> (r: Result<
        Vec<(String, Value)>,
        ParseError,
    >)
        ensures
            parse_object_content(s@, *old(pos) as int) matches Ok(vp) ==> r matches Ok(m)
                && JVal::Object(obj_view(m@)) == vp.0 && *final(pos) == vp.1,
            parse_object_content(s@, *old(pos) as int) matches Err(e) ==> r matches Err(re) && re
                == e,
            *old(pos) <= *final(pos),
            *old(pos) <= s@.len() ==> *final(pos) <= s@.len(),
        decreases s@.len() - *pos, 1int,
    {
        skip_space(s, pos);
        if *pos >= s.len() {
            return Err(ParseError::UnexpectedEof);
        }
        let c0 = s[*pos];
        if c0 != 0x22 {
            return Err(ParseError::UnexpectSymErr(c0));
        }
        *pos = *pos + 1;
        let ghost k0 = *pos as int;
        let mut m: Vec<(String, Value)> = Vec::new();
        proof {
            lemma_obj_view_empty();
        }
        loop
            invariant
                *old(pos) < k0 <= *pos,
                *pos <= s@.len(),
                parse_object_content(s@, *old(pos) as int) == parse_members(
                    s@,
                    *pos as int,
                    obj_view(m@),
                ),
            decreases s@.len() - *pos,
        {
            let k = match Self::get_string(s, pos) {
                Ok(k) => k,
                Err(e) => {
                    return Err(e);
                },
            };
            skip_space(s, pos);
            if *pos >= s.len() {
                return Err(ParseError::UnexpectedEof);
            }
            if s[*pos] != 0x3a {
                return Err(ParseError::DefaultErr);
            }
            *pos = *pos + 1;
            let v = match Self::from_bytes(s, pos) {
                Ok(v) => v,
                Err(e) => {
                    return Err(e);
                },
            };
            if !has_key(&m, &k) {
                proof {
                    lemma_obj_view_push(m@, (k, v));
                }
                m.push((k, v));
            }
            skip_space(s, pos);
            if *pos >= s.len() {
                return Err(ParseError::UnexpectedEof);
            }
            let c2 = s[*pos];
            if c2 == 0x7d {
                *pos = *pos + 1;
                return Ok(m);
            }
            if c2 != 0x2c {
                return Err(ParseError::UnexpectSymErr(c2));
            }
            *pos = *pos + 1;
            skip_space(s, pos);
            if *pos >= s.len() {
                return Err(ParseError::UnexpectedEof);
            }
            let c3 = s[*pos];
            if c3 != 0x22 {
                return Err(ParseError::UnexpectSymErr(c3));
            }
            *pos = *pos + 1;
        }
    }

    /// The array decoder, from just past the `[`: an immediate `]` yields
    /// the empty sequence, anything else must open the elements.
    pub fn get_array(s: &[u8], pos: &mut usize) -> (r: Result<Vec<Value>, ParseError>)
        ensures
            parse_array(s@, *old(pos) as int) matches Ok(vp) ==> r matches Ok(a) && JVal::Array(
                arr_view(a@),
            ) == vp.0 && *final(pos) == vp.1,
            parse_array(s@, *old(pos) as int) matches Err(e) ==> r matches Err(re) && re == e,
            *old(pos) <= *final(pos),
            *old(pos) <= s@.len() ==> *final(pos) <= s@.len(),
        decreases s@.len() - *pos, 2int,
    {
        skip_space(s, pos);
        if *pos >= s.len() {
            return Err(ParseError::UnexpectedEof);
        }
        if s[*pos] == 0x5d {
            *pos = *pos + 1;
            proof {
                lemma_arr_view_empty();
            }
            return Ok(Vec::new());
        }
        Self::get_array_content(s, pos)
    }

    /// The elements of a non-empty array: a first value, then `,` demanding
    /// another value (trailing commas are rejected) or the closing `]`.
    pub fn get_array_content(s: &[u8], pos: &mut usize) -> (r: Result<Vec<Value>, ParseError>)
        ensures
            parse_array_content(s@, *old(pos) as int) matches Ok(vp) ==> r matches Ok(a)
                && JVal::Array(arr_view(a@)) == vp.0 && *final(pos) == vp.1,
            parse_array_content(s@, *old(pos) as int) matches Err(e) ==> r matches Err(re) && re
                == e,
            *old(pos) <= *final(pos),
            *old(pos) <= s@.len() ==> *final(pos) <= s@.len(),
        decreases s@.len() - *pos, 1int,
    {
        let first = match Self::from_bytes(s, pos) {
            Ok(v) => v,
            Err(e) => {
                return Err(e);
            },
        };
        proof {
            lemma_arr_view_one(first);
        }
        let mut a: Vec<Value> = Vec::new();
        a.push(first);
        loop
            invariant
                *old(pos) < *pos <= s@.len(),
                parse_array_content(s@, *old(pos) as int) == parse_elements(
                    s@,
                    *pos as int,
                    arr_view(a@),
                ),
            decreases s@.len() - *pos,
        {
            skip_space(s, pos);
            if *pos >= s.len() {
                return Err(ParseError::UnexpectedEof);
            }
            let c = s[*pos];
            if c == 0x5d {
                *pos = *pos + 1;
                return Ok(a);
            }
            if c != 0x2c {
                return Err(ParseError::UnexpectSymErr(c));
            }
            *pos = *pos + 1;
            let v = match Self::from_bytes(s, pos) {
                Ok(v) => v,
                Err(e) => {
                    return Err(e);
                },
            };
            proof {
                lemma_arr_view_push(a@, v);
            }
            a.push(v);
        }
    }

    /// The value dispatcher and recursion entry point: discards whitespace,
    /// then routes on the next significant byte.  On success the cursor
    /// stands one past the decoded value; bytes beyond it are not examined.
    pub fn from_bytes(s: &[u8], pos: &mut usize) -> (r: Result<Value, ParseError>)
        ensures
            parse_value(s@, *old(pos) as int) matches Ok(vp) ==> r matches Ok(v) && v@ == vp.0
                && *final(pos) == vp.1,
            parse_value(s@, *old(pos) as int) matches Err(e) ==> r matches Err(re) && re == e,
            *old(pos) <= *final(pos),
            *old(pos) <= s@.len() ==> *final(pos) <= s@.len(),
            r is Ok ==> *old(pos) < *final(pos),
        decreases s@.len() - *pos, 0int,
    {
        skip_space(s, pos);
        if *pos >= s.len() {
            return Err(ParseError::UnexpectedEof);
        }
        let c = s[*pos];
        *pos = *pos + 1;
        if c == 0x7b {
            match Self::get_object(s, pos) {
                Ok(m) => Ok(Value::Object(m)),
                Err(e) => Err(e),
            }
        } else if c == 0x5b {
            match Self::get_array(s, pos) {
                Ok(a) => Ok(Value::Array(a)),
                Err(e) => Err(e),
            }
        } else if c == 0x22 {
            match Self::get_string(s, pos) {
                Ok(t) => Ok(Value::String(t)),
                Err(e) => Err(e),
            }
        } else if c == 0x74 {
            match match_lit(s, pos, 0x72) {
                Ok(()) => {},
                Err(e) => {
                    return Err(e);
                },
            }
            match match_lit(s, pos, 0x75) {
                Ok(()) => {},
                Err(e) => {
                    return Err(e);
                },
            }
            match match_lit(s, pos, 0x65) {
                Ok(()) => {},
                Err(e) => {
                    return Err(e);
                },
            }
            Ok(Value::Bool(true))
        } else if c == 0x66 {
            match match_lit(s, pos, 0x61) {
                Ok(()) => {},
                Err(e) => {
                    return Err(e);
                },
            }
            match match_lit(s, pos, 0x6c) {
                Ok(()) => {},
                Err(e) => {
                    return Err(e);
                },
            }
            match match_lit(s, pos, 0x73) {
                Ok(()) => {},
                Err(e) => {
                    return Err(e);
                },
            }
            match match_lit(s, pos, 0x65) {
                Ok(()) => {},
                Err(e) => {
                    return Err(e);
                },
            }
            Ok(Value::Bool(false))
        } else if c == 0x6e {
            match match_lit(s, pos, 0x75) {
                Ok(()) => {},
                Err(e) => {
                    return Err(e);
                },
            }
            match match_lit(s, pos, 0x6c) {
                Ok(()) => {},
                Err(e) => {
                    return Err(e);
                },
            }
            match match_lit(s, pos, 0x6c) {
                Ok(()) => {},
                Err(e) => {
                    return Err(e);
                },
            }
            Ok(Value::Null)
        } else if 0x30 <= c && c <= 0x39 {
            let n = Self::get_number(c, s, pos);
            Ok(Value::Number(n))
        } else {
            Err(ParseError::UnexpectSymErr(c))
        }
    }

    /// Decodes one complete document from the start of a fully buffered
    /// source.  Bytes after the top-level value are tolerated; a caller
    /// needing strict full consumption uses [`Value::from_bytes`] and checks
    /// the cursor itself.
    pub fn from_reader(s: &[u8]) -> (r: Result<Value, ParseError>)
        ensures
            parse_value(s@, 0) matches Ok(vp) ==> r matches Ok(v) && v@ == vp.0,
            parse_value(s@, 0) matches Err(e) ==> r matches Err(re) && re == e,
    {
        let mut pos: usize = 0;
        Self::from_bytes(s, &mut pos)
    }
}

} // verus!
