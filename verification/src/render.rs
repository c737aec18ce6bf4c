//! Formatted renderings of a canonical address: the delimiter styles, octet
//! and bit groupings, OUI and NIC halves, EUI-64 expansion and IPv6
//! link-local text.

use vstd::prelude::*;

use crate::address::MacAddress;
use crate::model::binary_chars;
use crate::model::eui64_nibbles;
use crate::model::grouped_chars;
use crate::model::hex_char;
use crate::model::hex_chars;
use crate::model::lemma_eui64_nibbles_valid;
use crate::model::lemma_grouped_split;
use crate::model::nibble_bits;
use crate::model::valid_nibbles;

verus! {

/// The lowercase hex digit of a nibble, as a borrowed one-character string.
fn hex_digit_str(nibble: u8) -> (r: &'static str)
    requires
        nibble < 16,
    ensures
        r@ == seq![hex_char(nibble)],
{
    let table = "0123456789abcdef";
    proof {
        reveal_strlit("0123456789abcdef");
        assert(table.is_ascii());
    }
    let r = table.substring_ascii(nibble as usize, nibble as usize + 1);
    proof {
        assert(r@ =~= seq![hex_char(nibble)]);
    }
    r
}

/// The four binary digits of a nibble, most significant first, as a borrowed
/// string.
fn nibble_bits_str(nibble: u8) -> (r: &'static str)
    requires
        nibble < 16,
    ensures
        r@ == nibble_bits(nibble),
{
    let table = "0000000100100011010001010110011110001001101010111100110111101111";
    proof {
        reveal_strlit("0000000100100011010001010110011110001001101010111100110111101111");
        assert(table.is_ascii());
    }
    let r = table.substring_ascii(4 * nibble as usize, 4 * nibble as usize + 4);
    proof {
        assert(r@ =~= nibble_bits(nibble));
    }
    r
}

/// Appends the hex digits of `nibbles[from..to]` to `out`.
fn push_hex(out: &mut String, nibbles: &Vec<u8>, from: usize, to: usize)
    requires
        from <= to <= nibbles@.len(),
        forall|i: int| 0 <= i < nibbles@.len() ==> nibbles@[i] < 16,
    ensures
        final(out)@ == old(out)@ + hex_chars(nibbles@.subrange(from as int, to as int)),
{
    let mut j: usize = from;
    proof {
        assert(hex_chars(nibbles@.subrange(from as int, from as int)) =~= Seq::empty());
        assert(out@ =~= old(out)@ + hex_chars(nibbles@.subrange(from as int, from as int)));
    }
    while j < to
        invariant
            from <= j <= to <= nibbles@.len(),
            forall|i: int| 0 <= i < nibbles@.len() ==> nibbles@[i] < 16,
            out@ == old(out)@ + hex_chars(nibbles@.subrange(from as int, j as int)),
        decreases to - j,
    {
        out.append(hex_digit_str(nibbles[j]));
        proof {
            assert(hex_chars(nibbles@.subrange(from as int, j as int + 1)) =~= hex_chars(
                nibbles@.subrange(from as int, j as int),
            ) + seq![hex_char(nibbles@[j as int])]);
        }
        j = j + 1;
    }
}

/// Renders `nibbles` as hex digits in groups of `group`, with `delimiter`
/// between consecutive groups.
fn format_grouped(nibbles: &Vec<u8>, group: usize, delimiter: &str) -> (r: String)
    requires
        1 <= group,
        nibbles@.len() as int % (group as int) == 0,
        forall|i: int| 0 <= i < nibbles@.len() ==> nibbles@[i] < 16,
    ensures
        r@ == grouped_chars(nibbles@, group as int, delimiter@),
{
    let ghost s = nibbles@;
    let ghost g = group as int;
    let mut out = String::new();
    let mut i: usize = 0;
    proof {
        assert(s.take(0) =~= Seq::empty());
    }
    while i < nibbles.len()
        invariant
            i <= s.len(),
            i % group == 0,
            s.len() as int % g == 0,
            1 <= group,
            g == group as int,
            s == nibbles@,
            forall|k: int| 0 <= k < s.len() ==> s[k] < 16,
            out@ == grouped_chars(s.take(i as int), g, delimiter@),
        decreases s.len() - i,
    {
        proof {
            assert(i + group <= s.len()) by {
                assert((s.len() - i) % g == 0) by {
                    vstd::arithmetic::div_mod::lemma_sub_mod_noop(s.len() as int, i as int, g);
                    vstd::arithmetic::div_mod::lemma_small_mod(0, g as nat);
                }
                if s.len() - i < g {
                    vstd::arithmetic::div_mod::lemma_small_mod((s.len() - i) as nat, g as nat);
                }
            }
            assert((i + group) as int % g == 0) by {
                vstd::arithmetic::div_mod::lemma_mod_add_multiples_vanish(i as int, g);
            }
        }
        if i > 0 {
            out.append(delimiter);
        }
        let next = i + group;
        push_hex(&mut out, nibbles, i, next);
        proof {
            let d = delimiter@;
            assert(s.take(next as int).skip(i as int) =~= s.subrange(i as int, next as int));
            if i == 0 {
                assert(s.take(next as int) =~= s.subrange(i as int, next as int));
                assert(grouped_chars(s.take(next as int), g, d) == hex_chars(
                    s.subrange(i as int, next as int),
                ));
            } else {
                lemma_grouped_split(s.take(next as int), g, d, i as int);
                assert(s.take(next as int).take(i as int) =~= s.take(i as int));
                assert(grouped_chars(s.subrange(i as int, next as int), g, d) == hex_chars(
                    s.subrange(i as int, next as int),
                ));
                assert(out@ =~= grouped_chars(s.take(i as int), g, d) + d + grouped_chars(
                    s.take(next as int).skip(i as int),
                    g,
                    d,
                ));
            }
        }
        i = next;
    }
    proof {
        assert(s.take(s.len() as int) =~= s);
    }
    out
}

impl MacAddress {
    /// The bare canonical form: 12 lowercase hex characters, no delimiter,
    /// as in `001122aabbcc`.
    pub fn raw(&self) -> (r: String)
        ensures
            r@ == hex_chars(self@),
    {
        let nibbles = self.eui48_vec();
        let mut out = String::new();
        push_hex(&mut out, nibbles, 0, 12);
        proof {
            assert(nibbles@.subrange(0, 12) =~= nibbles@);
        }
        out
    }

    /// Hyphen-delimited octet pairs, as in `00-11-22-aa-bb-cc`.
    pub fn eui(&self) -> (r: String)
        ensures
            r@ == grouped_chars(self@, 2, seq!['-']),
    {
        proof {
            reveal_strlit("-");
            assert("-"@ =~= seq!['-']);
        }
        format_grouped(self.eui48_vec(), 2, "-")
    }

    /// Colon-delimited octet pairs, as in `00:11:22:aa:bb:cc`.
    pub fn hex(&self) -> (r: String)
        ensures
            r@ == grouped_chars(self@, 2, seq![':']),
    {
        proof {
            reveal_strlit(":");
            assert(":"@ =~= seq![':']);
        }
        format_grouped(self.eui48_vec(), 2, ":")
    }

    /// Dot-delimited groups of four hex characters, as in `0011.22aa.bbcc`.
    pub fn dot(&self) -> (r: String)
        ensures
            r@ == grouped_chars(self@, 4, seq!['.']),
    {
        proof {
            reveal_strlit(".");
            assert("."@ =~= seq!['.']);
        }
        format_grouped(self.eui48_vec(), 4, ".")
    }

    /// The six octets, each as a two-character string, in address order.
    pub fn octets(&self) -> (r: Vec<String>)
        ensures
            r@.len() == 6,
            forall|i: int|
                0 <= i < 6 ==> (#[trigger] r@[i])@ == hex_chars(self@.subrange(2 * i, 2 * i + 2)),
    {
        let nibbles = self.eui48_vec();
        let mut out: Vec<String> = Vec::new();
        let mut k: usize = 0;
        while k < 6
            invariant
                k <= 6,
                nibbles@ == self@,
                valid_nibbles(nibbles@),
                out@.len() == k,
                forall|i: int|
                    0 <= i < k ==> (#[trigger] out@[i])@ == hex_chars(
                        self@.subrange(2 * i, 2 * i + 2),
                    ),
            decreases 6 - k,
        {
            let mut pair = String::new();
            push_hex(&mut pair, nibbles, 2 * k, 2 * k + 2);
            out.push(pair);
            k = k + 1;
        }
        out
    }

    /// The twelve nibbles, each as a four-character binary string, in address
    /// order and most significant bit first.
    pub fn bits(&self) -> (r: Vec<String>)
        ensures
            r@.len() == 12,
            forall|i: int| 0 <= i < 12 ==> (#[trigger] r@[i])@ == nibble_bits(self@[i]),
    {
        let nibbles = self.eui48_vec();
        let mut out: Vec<String> = Vec::new();
        let mut k: usize = 0;
        while k < 12
            invariant
                k <= 12,
                nibbles@ == self@,
                valid_nibbles(nibbles@),
                out@.len() == k,
                forall|i: int| 0 <= i < k ==> (#[trigger] out@[i])@ == nibble_bits(self@[i]),
            decreases 12 - k,
        {
            out.push(String::from_str(nibble_bits_str(nibbles[k])));
            k = k + 1;
        }
        out
    }

    /// All 48 bits as one `0`/`1` string, the concatenation of [`Self::bits`].
    pub fn binary(&self) -> (r: String)
        ensures
            r@ == binary_chars(self@),
    {
        let nibbles = self.eui48_vec();
        let mut out = String::new();
        let mut k: usize = 0;
        proof {
            assert(binary_chars(nibbles@.take(0)) =~= Seq::empty());
        }
        while k < 12
            invariant
                k <= 12,
                nibbles@ == self@,
                valid_nibbles(nibbles@),
                out@ == binary_chars(self@.take(k as int)),
            decreases 12 - k,
        {
            out.append(nibble_bits_str(nibbles[k]));
            proof {
                crate::model::lemma_binary_chars_take(self@, k as int);
            }
            k = k + 1;
        }
        proof {
            assert(self@.take(12) =~= self@);
        }
        out
    }

    /// The Organizationally Unique Identifier: the first six hex characters,
    /// as in `001122`.
    pub fn oui(&self) -> (r: String)
        ensures
            r@ == hex_chars(self@.subrange(0, 6)),
    {
        let mut out = String::new();
        push_hex(&mut out, self.eui48_vec(), 0, 6);
        out
    }

    /// The Network Interface Controller portion: the last six hex characters,
    /// as in `aabbcc`.
    pub fn nic(&self) -> (r: String)
        ensures
            r@ == hex_chars(self@.subrange(6, 12)),
    {
        let mut out = String::new();
        push_hex(&mut out, self.eui48_vec(), 6, 12);
        out
    }

    /// The EUI-64 expansion as hyphen-delimited octet pairs, as in
    /// `02-11-22-ff-fe-aa-bb-cc`: `ff fe` inserted between the OUI and NIC
    /// halves, with the U/L bit of the first octet flipped.
    pub fn eui64(&self) -> (r: String)
        ensures
            r@ == grouped_chars(eui64_nibbles(self@), 2, seq!['-']),
    {
        let nibbles = self.eui64_vec();
        proof {
            lemma_eui64_nibbles_valid(self@);
            reveal_strlit("-");
            assert("-"@ =~= seq!['-']);
        }
        format_grouped(nibbles, 2, "-")
    }

    /// The IPv6 link-local address derived from the EUI-64 expansion, as in
    /// `fe80::0211:22ff:feaa:bbcc`.
    pub fn ipv6_link_local(&self) -> (r: String)
        ensures
            r@ == seq!['f', 'e', '8', '0', ':', ':'] + grouped_chars(
                eui64_nibbles(self@),
                4,
                seq![':'],
            ),
    {
        let nibbles = self.eui64_vec();
        proof {
            lemma_eui64_nibbles_valid(self@);
            reveal_strlit(":");
            assert(":"@ =~= seq![':']);
            reveal_strlit("fe80::");
            assert("fe80::"@ =~= seq!['f', 'e', '8', '0', ':', ':']);
        }
        let mut out = String::from_str("fe80::");
        let tail = format_grouped(nibbles, 4, ":");
        out.append(tail.as_str());
        out
    }

    /// A two-line diagnostic rendering: the EUI-48 and EUI-64 forms.
    pub fn display(&self) -> (r: String)
        ensures
            r@ == "EUI-48: "@ + grouped_chars(self@, 2, seq!['-']) + "\nEUI-64: "@
                + grouped_chars(eui64_nibbles(self@), 2, seq!['-']),
    {
        let mut out = String::from_str("EUI-48: ");
        let first = self.eui();
        out.append(first.as_str());
        out.append("\nEUI-64: ");
        let second = self.eui64();
        out.append(second.as_str());
        proof {
            assert(out@ =~= "EUI-48: "@ + grouped_chars(self@, 2, seq!['-']) + "\nEUI-64: "@
                + grouped_chars(eui64_nibbles(self@), 2, seq!['-']));
        }
        out
    }
}

} // verus!
