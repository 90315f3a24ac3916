//! Small text-building helpers: the two standard-library calls the crate
//! relies on, behind exact contracts, and a verified decimal renderer.

use vstd::prelude::*;

verus! {

/// Relies on String::push: appends exactly the given character.
#[verifier::external_body]
pub fn push_char(s: &mut String, c: char)
    ensures
        final(s)@ == old(s)@.push(c),
{
    s.push(c);
}

/// Relies on char::from_u32: a value is a character exactly when it is a
/// Unicode scalar value, that is, not a surrogate and at most 0x10FFFF.
#[verifier::external_body]
pub fn char_from_u32(v: u32) -> (r: Option<char>)
    ensures
        r == (if v < 0xd800 || (0xe000 <= v && v <= 0x10ffff) {
            Some(v as char)
        } else {
            None::<char>
        }),
{
    char::from_u32(v)
}

/// The decimal digit characters of `n`, most significant first.
pub open spec fn dec_digits(n: nat) -> Seq<char>
    decreases n,
{
    if n < 10 {
        seq![((0x30 + n) as u32) as char]
    } else {
        dec_digits(n / 10).push(((0x30 + n % 10) as u32) as char)
    }
}

/// Appends the decimal rendering of `n` to `out`.
pub fn push_decimal(out: &mut String, n: usize)
    ensures
        final(out)@ == old(out)@ + dec_digits(n as nat),
    decreases n,
{
    if n < 10 {
        let d: u32 = 0x30 + (n as u32);
        let c_opt = char_from_u32(d);
        if let Some(c) = c_opt {
            push_char(out, c);
        }
        proof {
            assert(out@ =~= old(out)@ + dec_digits(n as nat));
        }
    } else {
        push_decimal(out, n / 10);
        let d: u32 = 0x30 + ((n % 10) as u32);
        let c_opt = char_from_u32(d);
        if let Some(c) = c_opt {
            push_char(out, c);
        }
        proof {
            assert(out@ =~= old(out)@ + dec_digits(n as nat));
        }
    }
}

} // verus!
