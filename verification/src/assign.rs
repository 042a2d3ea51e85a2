//! A standalone parser for simple assignment lines of the form `a=42`:
//! a single lowercase-letter name on the left, a signed 32-bit decimal
//! value on the right, and nothing else. Unlike statement parsing, nothing
//! is trimmed here and the value may carry a sign.

use crate::text::{
    all_digits, digits_val, is_literal, is_symbol, is_symbol_seq, lemma_digits_val_nonneg,
    parse_u32, split_on, split_str,
};
use vstd::prelude::*;
use vstd::string::StrSliceExecFns;

verus! {

/// The line was not a well-formed assignment.
#[derive(PartialEq, Debug)]
pub struct ParserError;

/// A parsed assignment: the name borrowed from the input line, and the
/// signed value.
#[derive(PartialEq, Debug)]
pub struct Assignment<'a> {
    pub name: &'a str,
    pub val: i32,
}

/// The digits of a signed decimal token, after any single leading sign.
pub open spec fn sign_body(s: Seq<char>) -> Seq<char> {
    if s.len() > 0 && (s[0] == '+' || s[0] == '-') {
        s.drop_first()
    } else {
        s
    }
}

/// Whether the token carries a leading minus sign.
pub open spec fn sign_negative(s: Seq<char>) -> bool {
    s.len() > 0 && s[0] == '-'
}

/// A signed 32-bit decimal token: an optional sign, then one or more
/// digits, with the resulting value in range for `i32`.
pub open spec fn is_i32_token(s: Seq<char>) -> bool {
    &&& sign_body(s).len() > 0
    &&& all_digits(sign_body(s))
    &&& i32::MIN <= i32_token_val(s) <= i32::MAX
}

/// The value a signed decimal token denotes.
pub open spec fn i32_token_val(s: Seq<char>) -> int {
    if sign_negative(s) {
        -digits_val(sign_body(s))
    } else {
        digits_val(sign_body(s))
    }
}

/// A well-formed assignment line: exactly one `=`, a symbol on the left,
/// and a signed 32-bit decimal on the right.
pub open spec fn assign_wf(s: Seq<char>) -> bool {
    &&& split_on(s, '=').len() == 2
    &&& is_symbol_seq(split_on(s, '=')[0])
    &&& is_i32_token(split_on(s, '=')[1])
}

/// Parses a signed 32-bit decimal token.
fn parse_i32(s: &str) -> (r: Option<i32>)
    ensures
        is_i32_token(s@) ==> r == Some(i32_token_val(s@) as i32),
        !is_i32_token(s@) ==> r is None,
{
    let n = s.unicode_len();
    if n == 0 {
        return None;
    }
    let c0 = s.get_char(0);
    let negative = c0 == '-';
    let start: usize = if c0 == '-' || c0 == '+' {
        1
    } else {
        0
    };
    let body = s.substring_char(start, n);
    proof {
        if start == 1 {
            assert(s@.subrange(1, n as int) =~= s@.drop_first());
        } else {
            assert(s@.subrange(0, n as int) =~= s@);
        }
        assert(body@ == sign_body(s@));
    }
    match parse_u32(body) {
        None => {
            proof {
                if is_i32_token(s@) {
                    lemma_digits_val_nonneg(sign_body(s@));
                    assert(digits_val(sign_body(s@)) <= u32::MAX);
                    assert(is_literal(body@));
                }
            }
            None
        },
        Some(magnitude) => {
            proof {
                lemma_digits_val_nonneg(sign_body(s@));
            }
            if negative {
                if magnitude > 0x8000_0000u32 {
                    None
                } else {
                    Some((-(magnitude as i64)) as i32)
                }
            } else {
                if magnitude > 0x7fff_ffffu32 {
                    None
                } else {
                    Some(magnitude as i32)
                }
            }
        },
    }
}

/// Parses one assignment line: the text before the one `=` must be a single
/// lowercase letter and the text after it a signed 32-bit decimal; any
/// other shape is a [`ParserError`].
pub fn parse(s: &str) -> (r: Result<Assignment<'_>, ParserError>)
    ensures
        r is Ok <==> assign_wf(s@),
        r matches Ok(a) ==> a.name@ == split_on(s@, '=')[0] && a.val == i32_token_val(
            split_on(s@, '=')[1],
        ),
{
    let parts = split_str(s, '=');
    if parts.len() != 2 {
        return Err(ParserError);
    }
    if !is_symbol(parts[0]) {
        return Err(ParserError);
    }
    match parse_i32(parts[1]) {
        Some(v) => Ok(Assignment { name: parts[0], val: v }),
        None => Err(ParserError),
    }
}

} // verus!
