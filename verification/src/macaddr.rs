//! Canonical rendering of 6-byte hardware addresses as uppercase colon-hex
//! strings, e.g. `AA:BB:CC:DD:EE:FF`.

use vstd::prelude::*;

verus! {

/// The uppercase hexadecimal digit for a value below 16.
pub open spec fn hex_digit(n: u8) -> char {
    if n == 0 {
        '0'
    } else if n == 1 {
        '1'
    } else if n == 2 {
        '2'
    } else if n == 3 {
        '3'
    } else if n == 4 {
        '4'
    } else if n == 5 {
        '5'
    } else if n == 6 {
        '6'
    } else if n == 7 {
        '7'
    } else if n == 8 {
        '8'
    } else if n == 9 {
        '9'
    } else if n == 10 {
        'A'
    } else if n == 11 {
        'B'
    } else if n == 12 {
        'C'
    } else if n == 13 {
        'D'
    } else if n == 14 {
        'E'
    } else {
        'F'
    }
}

/// Two uppercase hexadecimal digits for one byte.
pub open spec fn byte_hex(b: u8) -> Seq<char> {
    seq![hex_digit(b / 16), hex_digit(b % 16)]
}

/// The canonical colon-separated uppercase rendering of a 6-byte address.
pub open spec fn mac_string(b: Seq<u8>) -> Seq<char> {
    byte_hex(b[0]) + seq![':'] + byte_hex(b[1]) + seq![':'] + byte_hex(b[2]) + seq![':'] + byte_hex(
        b[3],
    ) + seq![':'] + byte_hex(b[4]) + seq![':'] + byte_hex(b[5])
}

/// Relies on String::push: appends the given char to the end of the string.
pub assume_specification[ String::push ](s: &mut String, c: char)
    ensures
        final(s)@ == old(s)@.push(c),
;

fn hex_char(n: u8) -> (c: char)
    requires
        n < 16,
    ensures
        c == hex_digit(n),
{
    if n == 0 {
        '0'
    } else if n == 1 {
        '1'
    } else if n == 2 {
        '2'
    } else if n == 3 {
        '3'
    } else if n == 4 {
        '4'
    } else if n == 5 {
        '5'
    } else if n == 6 {
        '6'
    } else if n == 7 {
        '7'
    } else if n == 8 {
        '8'
    } else if n == 9 {
        '9'
    } else if n == 10 {
        'A'
    } else if n == 11 {
        'B'
    } else if n == 12 {
        'C'
    } else if n == 13 {
        'D'
    } else if n == 14 {
        'E'
    } else {
        'F'
    }
}

fn push_byte_hex(s: &mut String, b: u8)
    ensures
        final(s)@ == old(s)@ + byte_hex(b),
{
    let hi = b / 16;
    let lo = b % 16;
    s.push(hex_char(hi));
    s.push(hex_char(lo));
    proof {
        assert(s@ =~= old(s)@ + byte_hex(b));
    }
}

/// Render a 6-byte hardware address in the canonical uppercase colon-hex form.
pub fn render_mac(b: &[u8]) -> (r: String)
    requires
        b@.len() == 6,
    ensures
        r@ == mac_string(b@),
{
    let mut s = String::new();
    push_byte_hex(&mut s, b[0]);
    s.push(':');
    push_byte_hex(&mut s, b[1]);
    s.push(':');
    push_byte_hex(&mut s, b[2]);
    s.push(':');
    push_byte_hex(&mut s, b[3]);
    s.push(':');
    push_byte_hex(&mut s, b[4]);
    s.push(':');
    push_byte_hex(&mut s, b[5]);
    proof {
        assert(s@ =~= mac_string(b@));
    }
    s
}

} // verus!
