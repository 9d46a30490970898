//! Small string-building helpers shared by the codec modules.
use vstd::prelude::*;

verus! {

/// Appends one character to a `String`.
///
/// Trusted: calls `String::push`, which std documents as appending the
/// given `char` to the end of the string; the contract says exactly that
/// of the character view.
#[verifier::external_body]
pub(crate) fn push_char(s: &mut String, c: char)
    ensures
        final(s)@ == old(s)@.push(c),
{
    s.push(c);
}

/// The character a byte decodes to in a name field: itself when ASCII,
/// U+FFFD otherwise.
pub open spec fn byte_char(b: u8) -> char {
    if b < 128 {
        b as char
    } else {
        '\u{FFFD}'
    }
}

/// Appends the decoding of each byte of `bytes` (see [`byte_char`]).
pub(crate) fn push_bytes_as_chars(s: &mut String, bytes: &[u8])
    ensures
        final(s)@ == old(s)@ + bytes@.map_values(|b: u8| byte_char(b)),
{
    let ghost start = s@;
    let mut i: usize = 0;
    while i < bytes.len()
        invariant
            i <= bytes.len(),
            s@ == start + bytes@.take(i as int).map_values(|b: u8| byte_char(b)),
        decreases bytes.len() - i,
    {
        let b = bytes[i];
        let c = if b < 128 {
            b as char
        } else {
            '\u{FFFD}'
        };
        push_char(s, c);
        proof {
            assert(bytes@.take(i as int + 1) =~= bytes@.take(i as int).push(b));
            assert(bytes@.take(i as int + 1).map_values(|b: u8| byte_char(b)) =~= bytes@.take(
                i as int,
            ).map_values(|b: u8| byte_char(b)).push(c));
        }
        i += 1;
    }
    assert(bytes@.take(bytes.len() as int) =~= bytes@);
}

/// The characters of `s`, in order.
pub(crate) fn chars_of(s: &str) -> (r: Vec<char>)
    ensures
        r@ == s@,
{
    broadcast use vstd::string::axiom_spec_iter;

    let mut out: Vec<char> = Vec::new();
    for c in it: s.chars()
        invariant
            it.seq() == s@,
            out@ == s@.take(it.index() as int),
    {
        out.push(c);
        proof {
            assert(s@.take(it.index() as int + 1) =~= s@.take(it.index() as int).push(c));
        }
    }
    assert(out@ =~= s@);
    out
}

} // verus!
