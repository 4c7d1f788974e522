//! Decisions taken around calls of the `op` command line tool.

use vstd::prelude::*;

use crate::text::push_char;

verus! {

/// `value` is a secret reference: its bytes start with `op://`.
pub open spec fn is_reference_bytes(value: Seq<u8>) -> bool {
    value.len() >= 5 && value.take(5) == seq![0x6fu8, 0x70u8, 0x3au8, 0x2fu8, 0x2fu8]
}

/// Whether an environment value holds a secret reference, as
/// `<[u8]>::starts_with(b"op://")` tells. `op run` is shown only the
/// references it is asked to resolve; every other variable that holds one is
/// hidden from it.
pub fn holds_reference(value: &[u8]) -> (result: bool)
    ensures
        result == is_reference_bytes(value@),
{
    if value.len() < 5 {
        return false;
    }
    let result = value[0] == 0x6f && value[1] == 0x70 && value[2] == 0x3a && value[3] == 0x2f
        && value[4] == 0x2f;
    proof {
        let p = seq![0x6fu8, 0x70u8, 0x3au8, 0x2fu8, 0x2fu8];
        if result {
            assert(value@.take(5) =~= p);
        } else if value@.take(5) == p {
            assert(value@.take(5)[0] == p[0]);
            assert(value@.take(5)[1] == p[1]);
            assert(value@.take(5)[2] == p[2]);
            assert(value@.take(5)[3] == p[3]);
            assert(value@.take(5)[4] == p[4]);
        }
    }
    result
}

/// The decimal digit for `d`.
pub open spec fn digit(d: nat) -> char {
    (48 + d) as char
}

/// The decimal numeral for `n`, as `Display` writes it.
pub open spec fn decimal(n: nat) -> Seq<char>
    decreases n,
{
    if n < 10 {
        seq![digit(n)]
    } else {
        decimal(n / 10).push(digit(n % 10))
    }
}

/// Appends the decimal numeral for `n` to `s`.
fn push_decimal(s: &mut String, n: usize)
    ensures
        final(s)@ == old(s)@ + decimal(n as nat),
    decreases n,
{
    if n >= 10 {
        push_decimal(s, n / 10);
    }
    let d = (n % 10) as u8;
    let c = (48u8 + d) as char;
    push_char(s, c);
    proof {
        if n >= 10 {
            assert(s@ =~= old(s)@ + decimal(n as nat));
        } else {
            assert(s@ =~= old(s)@ + decimal(n as nat));
        }
    }
}

/// The name of the environment variable that carries the `i`th reference of
/// a batch to `op run`: `prefix` followed by `i` in decimal.
pub fn batch_variable(prefix: &str, i: usize) -> (result: String)
    ensures
        result@ == prefix@ + decimal(i as nat),
{
    let mut name = prefix.to_string();
    push_decimal(&mut name, i);
    name
}

/// The exit code to pass on for a finished `op` process, given the code that
/// the process reported: the code itself, or 1 when the process reported none
/// (it was killed by a signal).
pub fn exit_code(code: Option<i32>) -> (result: i32)
    ensures
        result == match code {
            Some(c) => c,
            None => 1i32,
        },
{
    match code {
        Some(c) => c,
        None => 1,
    }
}

} // verus!
