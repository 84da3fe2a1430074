//! Reading calculator input: one token per line, an operator or a value.
use vstd::prelude::*;
use crate::rpn::{Elt, Error, Fault, Op, Stack, eval_fits, eval_spec, fault_of, valid_draw};
use crate::text::str_eq;

verus! {

/// Whether `c` has the Unicode `White_Space` property.
pub open spec fn white_space(c: char) -> bool {
    let u = c as u32;
    (0x9 <= u <= 0xd) || u == 0x20 || u == 0x85 || u == 0xa0 || u == 0x1680 || (0x2000 <= u
        <= 0x200a) || u == 0x2028 || u == 0x2029 || u == 0x202f || u == 0x205f || u == 0x3000
}

/// Whether `c` is whitespace, by the `White_Space` list above.
fn is_white(c: char) -> (r: bool)
    ensures
        r == white_space(c),
{
    let u = c as u32;
    (0x9 <= u && u <= 0xd) || u == 0x20 || u == 0x85 || u == 0xa0 || u == 0x1680 || (0x2000 <= u
        && u <= 0x200a) || u == 0x2028 || u == 0x2029 || u == 0x202f || u == 0x205f || u == 0x3000
}

/// `s[i..j]` is the first whitespace-separated token of `s`.
pub open spec fn token_at(s: Seq<char>, i: int, j: int) -> bool {
    &&& 0 <= i < j <= s.len()
    &&& forall|k: int| 0 <= k < i ==> white_space(s[k])
    &&& forall|k: int| i <= k < j ==> !white_space(s[k])
    &&& (j == s.len() || white_space(s[j]))
}

/// The first whitespace-separated token of `s`, if there is one.
pub open spec fn first_token(s: Seq<char>) -> Option<Seq<char>> {
    if exists|i: int, j: int| token_at(s, i, j) {
        let (i, j) = choose|i: int, j: int| token_at(s, i, j);
        Some(s.subrange(i, j))
    } else {
        None
    }
}

pub open spec fn is_digit(c: char) -> bool {
    48 <= (c as u32) <= 57
}

/// One or more decimal digits.
pub open spec fn decimal(d: Seq<char>) -> bool {
    d.len() > 0 && forall|i: int| 0 <= i < d.len() ==> is_digit(d[i])
}

pub open spec fn digits_value(d: Seq<char>) -> int
    decreases d.len(),
{
    if d.len() == 0 {
        0
    } else {
        digits_value(d.drop_last()) * 10 + (d.last() as int - 48)
    }
}

/// The `i32` that `s` writes in decimal, with an optional sign.
pub open spec fn i32_of(s: Seq<char>) -> Option<i32> {
    if s.len() > 0 && s[0] == '-' && decimal(s.skip(1)) {
        if -digits_value(s.skip(1)) >= i32::MIN {
            Some((-digits_value(s.skip(1))) as i32)
        } else {
            None
        }
    } else if s.len() > 0 && s[0] == '+' && decimal(s.skip(1)) {
        if digits_value(s.skip(1)) <= i32::MAX {
            Some(digits_value(s.skip(1)) as i32)
        } else {
            None
        }
    } else if decimal(s) && digits_value(s) <= i32::MAX {
        Some(digits_value(s) as i32)
    } else {
        None
    }
}

/// Relies on `str::parse::<i32>`: an optional `+` or `-` followed by decimal
/// digits, whose value fits; anything else is an error.
#[verifier::external_body]
fn parse_i32(s: &str) -> (r: Option<i32>)
    ensures
        r == i32_of(s@),
{
    s.parse::<i32>().ok()
}

/// Reads `true` or `false`; anything else is no boolean.
fn parse_bool(s: &str) -> (r: Option<bool>)
    ensures
        r == (if s@ == "true"@ {
            Some(true)
        } else if s@ == "false"@ {
            Some(false)
        } else {
            None
        }),
{
    if str_eq(s, "true") {
        Some(true)
    } else if str_eq(s, "false") {
        Some(false)
    } else {
        None
    }
}

/// The operator that a token names.
pub open spec fn op_of(t: Seq<char>) -> Option<Op> {
    if t == "+"@ {
        Some(Op::Add)
    } else if t == "~"@ {
        Some(Op::Neg)
    } else if t == "<->"@ {
        Some(Op::Swap)
    } else if t == "="@ {
        Some(Op::Eq)
    } else if t == "#"@ {
        Some(Op::Rand)
    } else if t == "quit"@ {
        Some(Op::Quit)
    } else {
        None
    }
}

/// The value that a token writes: an integer first, else a boolean.
pub open spec fn val_of(t: Seq<char>) -> Option<Elt> {
    match i32_of(t) {
        Some(n) => Some(Elt::Int(n)),
        None => if t == "true"@ {
            Some(Elt::Bool(true))
        } else if t == "false"@ {
            Some(Elt::Bool(false))
        } else {
            None
        },
    }
}

pub fn parse_operation(val: &str) -> (r: Result<Op, Error>)
    ensures
        op_of(val@) matches Some(op) ==> r == Ok::<Op, Error>(op),
        op_of(val@) is None ==> fault_of(r) == Some(Fault::Syntax),
{
    if str_eq(val, "+") {
        Ok(Op::Add)
    } else if str_eq(val, "~") {
        Ok(Op::Neg)
    } else if str_eq(val, "<->") {
        Ok(Op::Swap)
    } else if str_eq(val, "=") {
        Ok(Op::Eq)
    } else if str_eq(val, "#") {
        Ok(Op::Rand)
    } else if str_eq(val, "quit") {
        Ok(Op::Quit)
    } else {
        Err(Error::Syntax)
    }
}

pub fn parse_val(val: &str) -> (r: Result<Elt, Error>)
    ensures
        val_of(val@) matches Some(x) ==> r == Ok::<Elt, Error>(x),
        val_of(val@) is None ==> fault_of(r) == Some(Fault::Syntax),
{
    match parse_i32(val) {
        Some(v) => Ok(Elt::Int(v)),
        None => match parse_bool(val) {
            Some(b) => Ok(Elt::Bool(b)),
            None => Err(Error::Syntax),
        },
    }
}

proof fn lemma_token_unique(s: Seq<char>, i: int, j: int, i2: int, j2: int)
    requires
        token_at(s, i, j),
        token_at(s, i2, j2),
    ensures
        i == i2 && j == j2,
{
    if i < i2 {
        assert(white_space(s[i]));
    } else if i2 < i {
        assert(white_space(s[i2]));
    }
    if j < j2 {
        assert(white_space(s[j]));
    } else if j2 < j {
        assert(white_space(s[j2]));
    }
}

/// Finds the first whitespace-separated token of `s`.
fn first_token_of(s: &str) -> (r: Option<&str>)
    ensures
        r matches Some(t) ==> first_token(s@) == Some(t@),
        r is None ==> first_token(s@) is None,
{
    let n = s.unicode_len();
    let mut i: usize = 0;
    while i < n && is_white(s.get_char(i))
        invariant
            n == s@.len(),
            i <= n,
            forall|k: int| 0 <= k < i ==> white_space(s@[k]),
        decreases n - i,
    {
        i = i + 1;
    }
    if i == n {
        proof {
            assert forall|a: int, b: int| !token_at(s@, a, b) by {
                if token_at(s@, a, b) {
                    assert(white_space(s@[a]));
                }
            }
        }
        return None;
    }
    let mut j: usize = i + 1;
    while j < n && !is_white(s.get_char(j))
        invariant
            n == s@.len(),
            i < j <= n,
            !white_space(s@[i as int]),
            forall|k: int| i <= k < j ==> !white_space(s@[k]),
        decreases n - j,
    {
        j = j + 1;
    }
    proof {
        assert(token_at(s@, i as int, j as int));
        let (a, b) = choose|a: int, b: int| token_at(s@, a, b);
        lemma_token_unique(s@, i as int, j as int, a, b);
    }
    Some(s.substring_char(i, j))
}

/// Evaluates one line of input on `stack`: an operator is applied, a value
/// is pushed, and anything else is a syntax error that leaves the stack as it
/// is. Results stay on the stack.
pub fn evaluate_line(stack: &mut Stack, buf: &String) -> (r: Result<(), Error>)
    requires
        first_token(buf@) matches Some(t) && op_of(t) matches Some(op) ==> eval_fits(
            old(stack)@,
            op,
        ),
    ensures
        first_token(buf@) is None ==> fault_of(r) == Some(Fault::Syntax) && final(stack)@ == old(
            stack,
        )@,
        first_token(buf@) matches Some(t) ==> match op_of(t) {
            Some(op) => exists|v: i32|
                valid_draw(old(stack)@, op, v) && #[trigger] eval_spec(old(stack)@, op, v) == (
                    final(stack)@,
                    fault_of(r),
                ),
            None => match val_of(t) {
                Some(x) => r is Ok && final(stack)@ == old(stack)@.push(x),
                None => fault_of(r) == Some(Fault::Syntax) && final(stack)@ == old(stack)@,
            },
        },
{
    match first_token_of(buf.as_str()) {
        Some(token) => {
            if let Ok(op) = parse_operation(token) {
                stack.eval(op)
            } else if let Ok(val) = parse_val(token) {
                stack.push(val)
            } else {
                Err(Error::Syntax)
            }
        },
        None => Err(Error::Syntax),
    }
}

/// The operator that a line names, if its first token is one.
pub fn line_operation(buf: &String) -> (r: Option<Op>)
    ensures
        r == (match first_token(buf@) {
            Some(t) => op_of(t),
            None => None,
        }),
{
    match first_token_of(buf.as_str()) {
        Some(token) => match parse_operation(token) {
            Ok(op) => Some(op),
            Err(_) => None,
        },
        None => None,
    }
}

} // verus!
