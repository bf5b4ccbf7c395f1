//! Laws of the grammar, stated and proved once and for all inputs.

use vstd::prelude::*;

use crate::model::{
    digits_end, is_digit, is_ws, lemma_num_val_ge, num_val, obj_has_key, parse_members,
    parse_value, skip_ws, JVal,
};
use crate::value::ParseError;

verus! {

proof fn lemma_all_digits_end(s: Seq<u8>, i: int)
    requires
        0 <= i <= s.len(),
        forall|q: int| i <= q < s.len() ==> is_digit(s[q]),
    ensures
        digits_end(s, i) == s.len(),
    decreases s.len() - i,
{
    if i < s.len() {
        lemma_all_digits_end(s, i + 1);
    }
}

/// Integer round-trip: a document that is one bare digit run, whose decimal
/// value fits a 64-bit signed integer, decodes to exactly that value, and the
/// whole run is consumed.
pub proof fn lemma_integer_round_trip(s: Seq<u8>)
    requires
        s.len() >= 1,
        forall|q: int| 0 <= q < s.len() ==> is_digit(s[q]),
        num_val(s, 0, 0) <= i64::MAX,
    ensures
        parse_value(s, 0) == Ok::<(JVal, int), ParseError>(
            (JVal::Number(num_val(s, 0, 0) as i64), s.len() as int),
        ),
{
    assert(is_digit(s[0]) && !is_ws(s[0]));
    lemma_all_digits_end(s, 0);
    lemma_num_val_ge(s, 0, 0);
}

/// Within one whitespace run, every starting point is alike: skipping from
/// anywhere inside the run lands on the same significant byte.
proof fn lemma_skip_ws_run(s: Seq<u8>, i: int, j: int)
    requires
        i <= j <= skip_ws(s, i),
    ensures
        skip_ws(s, j) == skip_ws(s, i),
    decreases s.len() - i,
{
    crate::model::lemma_skip_ws(s, i);
    if i < j {
        if 0 <= i && i < s.len() && is_ws(s[i]) {
            lemma_skip_ws_run(s, i + 1, j);
        }
    }
}

/// Whitespace before a value never changes the decoded tree: a value parse
/// started anywhere in the whitespace run preceding its first significant
/// byte returns the same result, the same end position included.
pub proof fn lemma_value_ignores_leading_ws(s: Seq<u8>, i: int, j: int)
    requires
        i <= j <= skip_ws(s, i),
    ensures
        parse_value(s, j) == parse_value(s, i),
{
    lemma_skip_ws_run(s, i, j);
}

/// Whitespace before the body of an object (the first key or the closing
/// brace) never changes the decoded tree.
pub proof fn lemma_object_ignores_leading_ws(s: Seq<u8>, i: int, j: int)
    requires
        i <= j <= skip_ws(s, i),
    ensures
        crate::model::parse_object(s, j) == crate::model::parse_object(s, i),
{
    lemma_skip_ws_run(s, i, j);
}

/// Whitespace before the body of an array (the first element or the closing
/// bracket) never changes the decoded tree.
pub proof fn lemma_array_ignores_leading_ws(s: Seq<u8>, i: int, j: int)
    requires
        i <= j <= skip_ws(s, i),
    ensures
        crate::model::parse_array(s, j) == crate::model::parse_array(s, i),
{
    lemma_skip_ws_run(s, i, j);
}

/// Whitespace after an array element, before the `,` or `]` that follows it,
/// never changes the decoded tree.
pub proof fn lemma_elements_ignore_leading_ws(s: Seq<u8>, i: int, j: int, acc: Seq<JVal>)
    requires
        i <= j <= skip_ws(s, i),
    ensures
        crate::model::parse_elements(s, j, acc) == crate::model::parse_elements(s, i, acc),
{
    lemma_skip_ws_run(s, i, j);
}

/// Whitespace after an object member, before the `,` or `}` that follows it,
/// never changes the decoded tree.
pub proof fn lemma_after_member_ignores_leading_ws(
    s: Seq<u8>,
    i: int,
    j: int,
    acc: Seq<(Seq<char>, JVal)>,
)
    requires
        i <= j <= skip_ws(s, i),
    ensures
        crate::model::parse_after_member(s, j, acc) == crate::model::parse_after_member(s, i, acc),
{
    lemma_skip_ws_run(s, i, j);
}

/// No key repeats among the members of one object.
pub open spec fn keys_unique(ms: Seq<(Seq<char>, JVal)>) -> bool {
    forall|a: int, b: int| 0 <= a < b < ms.len() ==> ms[a].0 != ms[b].0
}

/// All member values of one object are well-formed trees.
pub open spec fn members_vals_wf(ms: Seq<(Seq<char>, JVal)>) -> bool
    decreases ms,
{
    forall|t: int| 0 <= t < ms.len() ==> wf(#[trigger] ms[t].1)
}

/// All elements of one array are well-formed trees.
pub open spec fn elems_wf(es: Seq<JVal>) -> bool
    decreases es,
{
    forall|t: int| 0 <= t < es.len() ==> wf(#[trigger] es[t])
}

/// Well-formedness of a decoded tree: every object in it, at any depth,
/// holds each key at most once.
pub open spec fn wf(v: JVal) -> bool
    decreases v,
{
    match v {
        JVal::Object(ms) => keys_unique(ms) && members_vals_wf(ms),
        JVal::Array(es) => elems_wf(es),
        _ => true,
    }
}

/// The invariant of every decoded tree: any parsed value is well-formed, so
/// each object in it holds each key at most once (the first occurrence's
/// value is the one retained; later occurrences are parsed and discarded).
pub proof fn lemma_decoded_tree_wf(s: Seq<u8>, i: int)
    requires
        0 <= i,
    ensures
        parse_value(s, i) matches Ok((v, p)) ==> wf(v),
    decreases s.len() - i, 0int,
{
    crate::model::lemma_skip_ws(s, i);
    let j = skip_ws(s, i);
    if j < s.len() {
        if s[j] == 0x7b {
            lemma_object_wf(s, j + 1);
        } else if s[j] == 0x5b {
            lemma_array_wf(s, j + 1);
        }
    }
}

/// Duplicate-key discipline at the root, a direct reading of the invariant.
pub proof fn lemma_object_keys_unique(s: Seq<u8>, i: int)
    requires
        0 <= i,
    ensures
        parse_value(s, i) matches Ok((JVal::Object(ms), p)) ==> keys_unique(ms),
{
    lemma_decoded_tree_wf(s, i);
}

proof fn lemma_object_wf(s: Seq<u8>, i: int)
    requires
        0 <= i,
    ensures
        crate::model::parse_object(s, i) matches Ok((v, p)) ==> wf(v),
    decreases s.len() - i, 2int,
{
    crate::model::lemma_skip_ws(s, i);
    let j = skip_ws(s, i);
    if j < s.len() && s[j] != 0x7d {
        lemma_object_content_wf(s, j);
    }
}

proof fn lemma_object_content_wf(s: Seq<u8>, i: int)
    requires
        0 <= i,
    ensures
        crate::model::parse_object_content(s, i) matches Ok((v, p)) ==> wf(v),
    decreases s.len() - i, 1int,
{
    crate::model::lemma_skip_ws(s, i);
    let j = skip_ws(s, i);
    if j < s.len() && s[j] == 0x22 {
        lemma_members_wf(s, j + 1, Seq::empty());
    }
}

proof fn lemma_members_wf(s: Seq<u8>, i: int, acc: Seq<(Seq<char>, JVal)>)
    requires
        0 <= i,
        keys_unique(acc),
        members_vals_wf(acc),
    ensures
        parse_members(s, i, acc) matches Ok((v, p)) ==> wf(v),
    decreases s.len() - i, 1int,
{
    match crate::model::parse_string_value(s, i) {
        Err(_) => {},
        Ok((k, p1)) => {
            crate::model::lemma_str_body_pos(s, i, false, Seq::empty());
            crate::model::lemma_skip_ws(s, p1);
            let j = skip_ws(s, p1);
            if j < s.len() && s[j] == 0x3a {
                lemma_decoded_tree_wf(s, j + 1);
                match parse_value(s, j + 1) {
                    Err(_) => {},
                    Ok((v, p2)) => {
                        let acc2 = if obj_has_key(acc, k) {
                            acc
                        } else {
                            acc.push((k, v))
                        };
                        assert(keys_unique(acc2) && members_vals_wf(acc2)) by {
                            if !obj_has_key(acc, k) {
                                assert forall|a: int, b: int|
                                    0 <= a < b < acc2.len() implies acc2[a].0 != acc2[b].0 by {
                                    if b == acc.len() {
                                        assert(!(acc[a].0 == k));
                                    }
                                }
                                assert forall|t: int| 0 <= t < acc2.len() implies wf(
                                    #[trigger] acc2[t].1,
                                ) by {
                                    if t < acc.len() {
                                        assert(wf(acc[t].1));
                                    }
                                }
                            }
                        }
                        if j < p2 <= s.len() {
                            lemma_after_member_wf(s, p2, acc2);
                        }
                    },
                }
            }
        },
    }
}

proof fn lemma_after_member_wf(s: Seq<u8>, p: int, acc: Seq<(Seq<char>, JVal)>)
    requires
        0 <= p,
        keys_unique(acc),
        members_vals_wf(acc),
    ensures
        crate::model::parse_after_member(s, p, acc) matches Ok((v, q)) ==> wf(v),
    decreases s.len() - p, 1int,
{
    crate::model::lemma_skip_ws(s, p);
    let j = skip_ws(s, p);
    if j < s.len() && s[j] == 0x2c {
        crate::model::lemma_skip_ws(s, j + 1);
        let j2 = skip_ws(s, j + 1);
        if j2 < s.len() && s[j2] == 0x22 {
            lemma_members_wf(s, j2 + 1, acc);
        }
    }
}

proof fn lemma_array_wf(s: Seq<u8>, i: int)
    requires
        0 <= i,
    ensures
        crate::model::parse_array(s, i) matches Ok((v, p)) ==> wf(v),
    decreases s.len() - i, 2int,
{
    crate::model::lemma_skip_ws(s, i);
    let j = skip_ws(s, i);
    if j < s.len() && s[j] != 0x5d {
        lemma_array_content_wf(s, j);
    }
}

proof fn lemma_array_content_wf(s: Seq<u8>, i: int)
    requires
        0 <= i,
    ensures
        crate::model::parse_array_content(s, i) matches Ok((v, p)) ==> wf(v),
    decreases s.len() - i, 1int,
{
    lemma_decoded_tree_wf(s, i);
    match parse_value(s, i) {
        Err(_) => {},
        Ok((v, p1)) => {
            if i < p1 <= s.len() {
                assert(elems_wf(seq![v])) by {
                    assert(forall|t: int| 0 <= t < 1 ==> #[trigger] seq![v][t] == v);
                }
                lemma_elements_wf(s, p1, seq![v]);
            }
        },
    }
}

proof fn lemma_elements_wf(s: Seq<u8>, p: int, acc: Seq<JVal>)
    requires
        0 <= p,
        elems_wf(acc),
    ensures
        crate::model::parse_elements(s, p, acc) matches Ok((v, q)) ==> wf(v),
    decreases s.len() - p, 1int,
{
    crate::model::lemma_skip_ws(s, p);
    let j = skip_ws(s, p);
    if j < s.len() && s[j] == 0x2c {
        lemma_decoded_tree_wf(s, j + 1);
        match parse_value(s, j + 1) {
            Err(_) => {},
            Ok((v, p2)) => {
                if j < p2 <= s.len() {
                    assert(elems_wf(acc.push(v))) by {
                        assert forall|t: int| 0 <= t < acc.push(v).len() implies wf(
                            #[trigger] acc.push(v)[t],
                        ) by {
                            if t < acc.len() {
                                assert(wf(acc[t]));
                            }
                        }
                    }
                    lemma_elements_wf(s, p2, acc.push(v));
                }
            },
        }
    }
}

/// A successful value parse always moves the position strictly forward, and
/// never past the end of the input: the cursor consumes the decoded value and
/// nothing after it.
pub proof fn lemma_value_advances(s: Seq<u8>, i: int)
    requires
        0 <= i,
    ensures
        parse_value(s, i) matches Ok((v, p)) ==> i < p <= s.len(),
    decreases s.len() - i, 0int,
{
    crate::model::lemma_skip_ws(s, i);
    let j = skip_ws(s, i);
    if j < s.len() {
        let c = s[j];
        if c == 0x7b {
            lemma_object_advances(s, j + 1);
        } else if c == 0x5b {
            lemma_array_advances(s, j + 1);
        } else if c == 0x22 {
            crate::model::lemma_str_body_pos(s, j + 1, false, Seq::empty());
        } else if is_digit(c) {
            lemma_digit_run_advances(s, j + 1);
        }
    }
}

proof fn lemma_digit_run_advances(s: Seq<u8>, i: int)
    requires
        0 <= i <= s.len(),
    ensures
        i <= digits_end(s, i) <= s.len(),
    decreases s.len() - i,
{
    if i < s.len() && is_digit(s[i]) {
        lemma_digit_run_advances(s, i + 1);
    }
}

proof fn lemma_object_advances(s: Seq<u8>, i: int)
    requires
        0 <= i,
    ensures
        crate::model::parse_object(s, i) matches Ok((v, p)) ==> i < p <= s.len(),
    decreases s.len() - i, 2int,
{
    crate::model::lemma_skip_ws(s, i);
    let j = skip_ws(s, i);
    if j < s.len() && s[j] != 0x7d {
        lemma_object_content_advances(s, j);
    }
}

proof fn lemma_object_content_advances(s: Seq<u8>, i: int)
    requires
        0 <= i,
    ensures
        crate::model::parse_object_content(s, i) matches Ok((v, p)) ==> i < p <= s.len(),
    decreases s.len() - i, 1int,
{
    crate::model::lemma_skip_ws(s, i);
    let j = skip_ws(s, i);
    if j < s.len() && s[j] == 0x22 {
        lemma_members_advance(s, j + 1, Seq::empty());
    }
}

proof fn lemma_members_advance(s: Seq<u8>, i: int, acc: Seq<(Seq<char>, JVal)>)
    requires
        0 <= i,
    ensures
        parse_members(s, i, acc) matches Ok((v, p)) ==> i < p <= s.len(),
    decreases s.len() - i, 1int,
{
    match crate::model::parse_string_value(s, i) {
        Err(_) => {},
        Ok((k, p1)) => {
            crate::model::lemma_str_body_pos(s, i, false, Seq::empty());
            crate::model::lemma_skip_ws(s, p1);
            let j = skip_ws(s, p1);
            if j < s.len() && s[j] == 0x3a {
                lemma_value_advances(s, j + 1);
                match parse_value(s, j + 1) {
                    Err(_) => {},
                    Ok((v, p2)) => {
                        let acc2 = if crate::model::obj_has_key(acc, k) {
                            acc
                        } else {
                            acc.push((k, v))
                        };
                        if j < p2 <= s.len() {
                            lemma_after_member_advances(s, p2, acc2);
                        }
                    },
                }
            }
        },
    }
}

proof fn lemma_after_member_advances(s: Seq<u8>, p: int, acc: Seq<(Seq<char>, JVal)>)
    requires
        0 <= p,
    ensures
        crate::model::parse_after_member(s, p, acc) matches Ok((v, q)) ==> p < q <= s.len(),
    decreases s.len() - p, 1int,
{
    crate::model::lemma_skip_ws(s, p);
    let j = skip_ws(s, p);
    if j < s.len() && s[j] == 0x2c {
        crate::model::lemma_skip_ws(s, j + 1);
        let j2 = skip_ws(s, j + 1);
        if j2 < s.len() && s[j2] == 0x22 {
            lemma_members_advance(s, j2 + 1, acc);
        }
    }
}

proof fn lemma_array_advances(s: Seq<u8>, i: int)
    requires
        0 <= i,
    ensures
        crate::model::parse_array(s, i) matches Ok((v, p)) ==> i < p <= s.len(),
    decreases s.len() - i, 2int,
{
    crate::model::lemma_skip_ws(s, i);
    let j = skip_ws(s, i);
    if j < s.len() && s[j] != 0x5d {
        lemma_array_content_advances(s, j);
    }
}

proof fn lemma_array_content_advances(s: Seq<u8>, i: int)
    requires
        0 <= i,
    ensures
        crate::model::parse_array_content(s, i) matches Ok((v, p)) ==> i < p <= s.len(),
    decreases s.len() - i, 1int,
{
    lemma_value_advances(s, i);
    match parse_value(s, i) {
        Err(_) => {},
        Ok((v, p1)) => {
            if i < p1 <= s.len() {
                lemma_elements_advance(s, p1, seq![v]);
            }
        },
    }
}

proof fn lemma_elements_advance(s: Seq<u8>, p: int, acc: Seq<JVal>)
    requires
        0 <= p,
    ensures
        crate::model::parse_elements(s, p, acc) matches Ok((v, q)) ==> p < q <= s.len(),
    decreases s.len() - p, 1int,
{
    crate::model::lemma_skip_ws(s, p);
    let j = skip_ws(s, p);
    if j < s.len() && s[j] == 0x2c {
        lemma_value_advances(s, j + 1);
        match parse_value(s, j + 1) {
            Err(_) => {},
            Ok((v, p2)) => {
                if j < p2 <= s.len() {
                    lemma_elements_advance(s, p2, acc.push(v));
                }
            },
        }
    }
}

} // verus!
