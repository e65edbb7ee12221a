//! The text of an IPv6 address: eight groups in lower-case hexadecimal
//! separated by colons, the longest run of zero groups written as `::`.

use vstd::prelude::*;
use vstd::string::StringExecFns;
use crate::comms::{ipv4_string, ipv4_text};
use crate::text::push_char;

verus! {

/// The character of a hexadecimal digit.
pub open spec fn hex_digit_char(d: int) -> char {
    if d == 0 {
        '0'
    } else if d == 1 {
        '1'
    } else if d == 2 {
        '2'
    } else if d == 3 {
        '3'
    } else if d == 4 {
        '4'
    } else if d == 5 {
        '5'
    } else if d == 6 {
        '6'
    } else if d == 7 {
        '7'
    } else if d == 8 {
        '8'
    } else if d == 9 {
        '9'
    } else if d == 10 {
        'a'
    } else if d == 11 {
        'b'
    } else if d == 12 {
        'c'
    } else if d == 13 {
        'd'
    } else if d == 14 {
        'e'
    } else {
        'f'
    }
}

/// The hexadecimal numeral of `n`: lower case, no leading zero but for zero
/// itself.
pub open spec fn hex(n: nat) -> Seq<char>
    decreases n,
{
    if n < 16 {
        seq![hex_digit_char(n as int)]
    } else {
        hex(n / 16).push(hex_digit_char((n % 16) as int))
    }
}

/// The eight groups of an address: each two bytes, the first the higher.
pub open spec fn groups_of(bytes: Seq<u8>) -> Seq<u16> {
    Seq::new(8, |i: int| (bytes[2 * i] * 256 + bytes[2 * i + 1]) as u16)
}

/// How many zero groups follow one another from position `at` on.
pub open spec fn zero_run(groups: Seq<u16>, at: int) -> nat
    decreases groups.len() - at,
{
    if 0 <= at < groups.len() && groups[at] == 0 {
        1 + zero_run(groups, at + 1)
    } else {
        0
    }
}

/// The longest run of zero groups that starts before position `upto`, as its
/// start and its length; of several longest runs the first.
pub open spec fn longest_zero_run(groups: Seq<u16>, upto: int) -> (int, nat)
    decreases upto,
{
    if upto <= 0 {
        (0, 0)
    } else {
        let before = longest_zero_run(groups, upto - 1);
        if zero_run(groups, upto - 1) > before.1 {
            (upto - 1, zero_run(groups, upto - 1))
        } else {
            before
        }
    }
}

/// The hexadecimal numerals of `groups`, separated by colons.
pub open spec fn joined_hex(groups: Seq<u16>) -> Seq<char>
    decreases groups.len(),
{
    if groups.len() == 0 {
        Seq::empty()
    } else if groups.len() == 1 {
        hex(groups[0] as nat)
    } else {
        joined_hex(groups.drop_last()) + seq![':'] + hex(groups.last() as nat)
    }
}

/// Whether groups are those of an IPv4 address mapped into IPv6: five zero
/// groups, then one of all ones.
pub open spec fn is_ipv4_mapped(groups: Seq<u16>) -> bool {
    groups[0] == 0 && groups[1] == 0 && groups[2] == 0 && groups[3] == 0 && groups[4] == 0
        && groups[5] == 0xffff
}

/// The text of an IPv6 address. A mapped IPv4 address is written as
/// `::ffff:` and the dotted address. Otherwise the groups are written in
/// hexadecimal with colons between them, and where two or more zero groups
/// follow one another, the longest such run (the first of several) is
/// written as `::`.
pub open spec fn ipv6_text(address: [u8; 16]) -> Seq<char> {
    let groups = groups_of(address@);
    if is_ipv4_mapped(groups) {
        "::ffff:"@ + ipv4_text([address@[12], address@[13], address@[14], address@[15]])
    } else {
        let run = longest_zero_run(groups, 8);
        if run.1 > 1 {
            joined_hex(groups.subrange(0, run.0)) + "::"@ + joined_hex(
                groups.subrange(run.0 + run.1, 8),
            )
        } else {
            joined_hex(groups)
        }
    }
}

/// The character of the hexadecimal digit `d`.
fn hex_digit_to_char(d: u8) -> (c: char)
    requires
        d < 16,
    ensures
        c == hex_digit_char(d as int),
{
    if d == 0 {
        '0'
    } else if d == 1 {
        '1'
    } else if d == 2 {
        '2'
    } else if d == 3 {
        '3'
    } else if d == 4 {
        '4'
    } else if d == 5 {
        '5'
    } else if d == 6 {
        '6'
    } else if d == 7 {
        '7'
    } else if d == 8 {
        '8'
    } else if d == 9 {
        '9'
    } else if d == 10 {
        'a'
    } else if d == 11 {
        'b'
    } else if d == 12 {
        'c'
    } else if d == 13 {
        'd'
    } else if d == 14 {
        'e'
    } else {
        'f'
    }
}

/// Appends the hexadecimal numeral of `n`.
pub fn push_hex(out: &mut String, n: u16)
    ensures
        final(out)@ == old(out)@ + hex(n as nat),
    decreases n,
{
    if n < 16 {
        push_char(out, hex_digit_to_char(n as u8));
        assert(out@ =~= old(out)@ + hex(n as nat));
    } else {
        push_hex(out, n / 16);
        push_char(out, hex_digit_to_char((n % 16) as u8));
        assert(out@ =~= old(out)@ + hex(n as nat));
    }
}

/// Appends the hexadecimal numerals of the groups from `from` up to `to`,
/// separated by colons.
fn push_joined_hex(out: &mut String, groups: &[u16; 8], from: usize, to: usize)
    requires
        from <= to <= 8,
    ensures
        final(out)@ == old(out)@ + joined_hex(groups@.subrange(from as int, to as int)),
{
    let mut i: usize = from;
    assert(out@ =~= old(out)@ + joined_hex(groups@.subrange(from as int, from as int)));
    while i < to
        invariant
            from <= i <= to <= 8,
            out@ == old(out)@ + joined_hex(groups@.subrange(from as int, i as int)),
        decreases to - i,
    {
        let ghost before = groups@.subrange(from as int, i as int);
        let ghost after = groups@.subrange(from as int, i + 1);
        assert(after.drop_last() =~= before);
        assert(after.last() == groups@[i as int]);
        if i > from {
            push_char(out, ':');
        }
        push_hex(out, groups[i]);
        i += 1;
        assert(out@ =~= old(out)@ + joined_hex(after));
    }
}

/// Writes an IPv6 address as text.
pub fn ipv6_string(address: &[u8; 16]) -> (text: String)
    ensures
        text@ == ipv6_text(*address),
{
    let mut groups: [u16; 8] = [0u16;8];
    let mut g: usize = 0;
    while g < 8
        invariant
            g <= 8,
            forall|k: int|
                0 <= k < g ==> groups@[k] == (address@[2 * k] * 256 + address@[2 * k + 1]) as u16,
        decreases 8 - g,
    {
        groups[g] = address[2 * g] as u16 * 256 + address[2 * g + 1] as u16;
        g += 1;
    }
    assert(groups@ =~= groups_of(address@));
    let mut text = String::new();
    if groups[0] == 0 && groups[1] == 0 && groups[2] == 0 && groups[3] == 0 && groups[4] == 0
        && groups[5] == 0xffff {
        let octets: [u8; 4] = [address[12], address[13], address[14], address[15]];
        text.append("::ffff:");
        text.append(ipv4_string(&octets).as_str());
        assert(octets == [address@[12], address@[13], address@[14], address@[15]]);
        assert(text@ =~= ipv6_text(*address));
        return text;
    }
    let mut runs: [usize; 9] = [0usize;9];
    let mut r: usize = 8;
    while r > 0
        invariant
            r <= 8,
            groups@.len() == 8,
            forall|k: int| r <= k <= 8 ==> runs@[k] == zero_run(groups@, k) && runs@[k] <= 8 - k,
        decreases r,
    {
        r -= 1;
        runs[r] = if groups[r] == 0 { runs[r + 1] + 1 } else { 0 };
    }
    let mut start: usize = 0;
    let mut len: usize = 0;
    let mut i: usize = 0;
    while i < 8
        invariant
            i <= 8,
            groups@.len() == 8,
            forall|k: int| 0 <= k <= 8 ==> runs@[k] == zero_run(groups@, k) && runs@[k] <= 8 - k,
            longest_zero_run(groups@, i as int) == (start as int, len as nat),
            start + len <= 8,
        decreases 8 - i,
    {
        if runs[i] > len {
            start = i;
            len = runs[i];
        }
        i += 1;
    }
    if len > 1 {
        push_joined_hex(&mut text, &groups, 0, start);
        text.append("::");
        push_joined_hex(&mut text, &groups, start + len, 8);
    } else {
        push_joined_hex(&mut text, &groups, 0, 8);
        assert(groups@.subrange(0, 8) =~= groups@);
    }
    assert(text@ =~= ipv6_text(*address));
    text
}

} // verus!
