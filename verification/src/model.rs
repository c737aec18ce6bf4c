//! The mathematical model: spec functions over sequences of characters and of
//! nibble values (half-octets, each in `0..16`) that the contracts of the
//! executable operations are stated against.

use vstd::prelude::*;

verus! {

/// The delimiter characters that may separate the hex digits of an input.
pub open spec fn is_delimiter(c: char) -> bool {
    c == ':' || c == '-' || c == '.' || c == ' '
}

/// The white-space characters removed from the ends of an input before the
/// delimiters are stripped.
pub open spec fn is_space(c: char) -> bool {
    ||| c == '\u{9}'
    ||| c == '\u{A}'
    ||| c == '\u{B}'
    ||| c == '\u{C}'
    ||| c == '\u{D}'
    ||| c == ' '
    ||| c == '\u{85}'
    ||| c == '\u{A0}'
    ||| c == '\u{1680}'
    ||| ('\u{2000}' <= c && c <= '\u{200A}')
    ||| c == '\u{2028}'
    ||| c == '\u{2029}'
    ||| c == '\u{202F}'
    ||| c == '\u{205F}'
    ||| c == '\u{3000}'
}

/// A hexadecimal digit, in either case.
pub open spec fn is_hex_digit(c: char) -> bool {
    ('0' <= c && c <= '9') || ('a' <= c && c <= 'f') || ('A' <= c && c <= 'F')
}

/// The numeric value of a hexadecimal digit, case-insensitively.
pub open spec fn hex_value(c: char) -> u8 {
    if '0' <= c && c <= '9' {
        (c as u32 - 48) as u8
    } else if 'a' <= c && c <= 'f' {
        (c as u32 - 87) as u8
    } else {
        (c as u32 - 55) as u8
    }
}

/// A hexadecimal digit as parsing normalizes it: uppercase digits folded to
/// lowercase, everything else unchanged.
pub open spec fn fold_case(c: char) -> char {
    match c {
        'A' => 'a',
        'B' => 'b',
        'C' => 'c',
        'D' => 'd',
        'E' => 'e',
        'F' => 'f',
        _ => c,
    }
}

/// A canonical hexadecimal digit: lowercase only.
pub open spec fn is_lower_hex_digit(c: char) -> bool {
    ('0' <= c && c <= '9') || ('a' <= c && c <= 'f')
}

/// The lowercase hexadecimal digit for a nibble value.
pub open spec fn hex_char(n: u8) -> char {
    if n == 0 { '0' }
    else if n == 1 { '1' }
    else if n == 2 { '2' }
    else if n == 3 { '3' }
    else if n == 4 { '4' }
    else if n == 5 { '5' }
    else if n == 6 { '6' }
    else if n == 7 { '7' }
    else if n == 8 { '8' }
    else if n == 9 { '9' }
    else if n == 10 { 'a' }
    else if n == 11 { 'b' }
    else if n == 12 { 'c' }
    else if n == 13 { 'd' }
    else if n == 14 { 'e' }
    else { 'f' }
}

/// Each nibble rendered as its lowercase hexadecimal digit.
pub open spec fn hex_chars(nibbles: Seq<u8>) -> Seq<char> {
    nibbles.map_values(|n: u8| hex_char(n))
}

/// A single binary digit.
pub open spec fn bit_char(b: u8) -> char {
    if b == 1 { '1' } else { '0' }
}

/// A nibble rendered as four binary digits, most significant bit first.
pub open spec fn nibble_bits(n: u8) -> Seq<char> {
    seq![bit_char((n / 8) % 2), bit_char((n / 4) % 2), bit_char((n / 2) % 2), bit_char(n % 2)]
}

/// All nibbles rendered as binary digits, in order.
pub open spec fn binary_chars(nibbles: Seq<u8>) -> Seq<char>
    decreases nibbles.len(),
{
    if nibbles.len() == 0 {
        Seq::empty()
    } else {
        nibble_bits(nibbles.first()) + binary_chars(nibbles.drop_first())
    }
}

/// Nibbles rendered as lowercase hex digits in groups of `group`, with
/// `delimiter` between consecutive groups.
pub open spec fn grouped_chars(nibbles: Seq<u8>, group: int, delimiter: Seq<char>) -> Seq<char>
    decreases nibbles.len(),
{
    if group < 1 || nibbles.len() <= group {
        hex_chars(nibbles)
    } else {
        hex_chars(nibbles.take(group)) + delimiter + grouped_chars(
            nibbles.skip(group),
            group,
            delimiter,
        )
    }
}

/// The input with leading white space removed.
pub open spec fn trim_start(s: Seq<char>) -> Seq<char>
    decreases s.len(),
{
    if s.len() > 0 && is_space(s.first()) {
        trim_start(s.drop_first())
    } else {
        s
    }
}

/// The input with trailing white space removed.
pub open spec fn trim_end(s: Seq<char>) -> Seq<char>
    decreases s.len(),
{
    if s.len() > 0 && is_space(s.last()) {
        trim_end(s.drop_last())
    } else {
        s
    }
}

/// The input with white space removed from both ends.
pub open spec fn trimmed(s: Seq<char>) -> Seq<char> {
    trim_end(trim_start(s))
}

/// The input with every delimiter occurrence removed.
pub open spec fn without_delimiters(s: Seq<char>) -> Seq<char> {
    s.filter(|c: char| !is_delimiter(c))
}

/// The input with every occurrence of one character removed.
pub open spec fn without_char(s: Seq<char>, d: char) -> Seq<char> {
    s.filter(|c: char| c != d)
}

/// The normalized digit sequence of an input: trimmed, then every delimiter
/// removed. An input parses exactly when this holds 12 hex digits.
pub open spec fn stripped(s: Seq<char>) -> Seq<char> {
    without_delimiters(trimmed(s))
}

/// The nibble values of a sequence of hex digits.
pub open spec fn nibbles_of(digits: Seq<char>) -> Seq<u8> {
    digits.map_values(|c: char| hex_value(c))
}

/// A well-formed canonical address: exactly 12 nibbles, each below 16.
pub open spec fn valid_nibbles(nibbles: Seq<u8>) -> bool {
    nibbles.len() == 12 && forall|i: int| 0 <= i < nibbles.len() ==> nibbles[i] < 16
}

/// The universal/local bit flipped: the second-least-significant bit of the
/// first octet, which sits in its low nibble.
pub open spec fn flip_ul(n: u8) -> u8 {
    n ^ 2
}

/// The EUI-64 expansion as 16 nibbles: the first octet with its U/L bit
/// flipped, the next two octets, the fixed pair `ff fe`, then the last three
/// octets.
pub open spec fn eui64_nibbles(s: Seq<u8>) -> Seq<u8> {
    seq![
        s[0],
        flip_ul(s[1]),
        s[2],
        s[3],
        s[4],
        s[5],
        15u8,
        15u8,
        15u8,
        14u8,
        s[6],
        s[7],
        s[8],
        s[9],
        s[10],
        s[11],
    ]
}

/// The broadcast address: every nibble is `f`.
pub open spec fn is_broadcast_nibbles(s: Seq<u8>) -> bool {
    forall|i: int| 0 <= i < s.len() ==> s[i] == 15
}

/// A multicast address: the OUI is the fixed prefix `01005e`.
pub open spec fn is_multicast_nibbles(s: Seq<u8>) -> bool {
    s.len() >= 6 && s[0] == 0 && s[1] == 1 && s[2] == 0 && s[3] == 0 && s[4] == 5 && s[5] == 14
}

/// A unicast address: neither broadcast nor multicast.
pub open spec fn is_unicast_nibbles(s: Seq<u8>) -> bool {
    !is_broadcast_nibbles(s) && !is_multicast_nibbles(s)
}

/// The universal/local administration bit of the first octet.
pub open spec fn ul_bit(s: Seq<u8>) -> u8 {
    (s[1] / 2) % 2
}

/// The binary rendering grows by one nibble's four bits at a time.
pub proof fn lemma_binary_chars_take(s: Seq<u8>, i: int)
    requires
        0 <= i < s.len(),
    ensures
        binary_chars(s.take(i + 1)) == binary_chars(s.take(i)) + nibble_bits(s[i]),
    decreases i,
{
    if i == 0 {
        assert(s.take(1).drop_first() =~= Seq::empty());
        assert(s.take(0) =~= Seq::<u8>::empty());
        assert(binary_chars(s.take(1)) =~= binary_chars(s.take(0)) + nibble_bits(s[0]));
    } else {
        lemma_binary_chars_take(s.drop_first(), i - 1);
        assert(s.take(i + 1).drop_first() =~= s.drop_first().take(i));
        assert(s.take(i).drop_first() =~= s.drop_first().take(i - 1));
        assert(binary_chars(s.take(i + 1)) =~= binary_chars(s.take(i)) + nibble_bits(s[i]));
    }
}

/// A grouped rendering splits at any interior group boundary: the part before
/// the boundary, one delimiter, and the grouped rendering of the rest.
pub proof fn lemma_grouped_split(s: Seq<u8>, group: int, delimiter: Seq<char>, i: int)
    requires
        1 <= group,
        0 < i < s.len(),
        i % group == 0,
    ensures
        grouped_chars(s, group, delimiter) == grouped_chars(s.take(i), group, delimiter) + delimiter
            + grouped_chars(s.skip(i), group, delimiter),
    decreases i,
{
    if i == group {
        assert(grouped_chars(s.take(i), group, delimiter) == hex_chars(s.take(group)));
    } else {
        assert(i > group) by {
            if i < group {
                vstd::arithmetic::div_mod::lemma_small_mod(i as nat, group as nat);
            }
        }
        assert((i - group) % group == 0) by {
            vstd::arithmetic::div_mod::lemma_mod_sub_multiples_vanish(i, group);
        }
        lemma_grouped_split(s.skip(group), group, delimiter, i - group);
        assert(s.skip(group).take(i - group) =~= s.take(i).skip(group));
        assert(s.skip(group).skip(i - group) =~= s.skip(i));
        assert(s.take(i).take(group) =~= s.take(group));
        assert(hex_chars(s.take(group)) + (delimiter + grouped_chars(
            s.take(i).skip(group),
            group,
            delimiter,
        )) + delimiter + grouped_chars(s.skip(i), group, delimiter) =~= hex_chars(s.take(group))
            + delimiter + (grouped_chars(s.take(i).skip(group), group, delimiter) + delimiter
            + grouped_chars(s.skip(i), group, delimiter)));
    }
}

/// The EUI-64 nibbles of a well-formed address are 16 valid nibbles.
pub proof fn lemma_eui64_nibbles_valid(s: Seq<u8>)
    requires
        valid_nibbles(s),
    ensures
        eui64_nibbles(s).len() == 16,
        forall|i: int| 0 <= i < 16 ==> eui64_nibbles(s)[i] < 16,
{
    let n = s[1];
    assert(n < 16 ==> (n ^ 2) < 16) by (bit_vector);
    assert forall|i: int| 0 <= i < 16 implies eui64_nibbles(s)[i] < 16 by {
        assert(s[1] < 16);
    }
}

} // verus!
