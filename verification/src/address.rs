//! The canonical address value and its parser.

use vstd::prelude::*;

use crate::model::eui64_nibbles;
use crate::model::hex_value;
use crate::model::is_hex_digit;
use crate::model::is_space;
use crate::model::nibbles_of;
use crate::model::stripped;
use crate::model::trim_end;
use crate::model::trim_start;
use crate::model::trimmed;
use crate::model::valid_nibbles;
use crate::model::without_delimiters;

verus! {

/// Why an input was rejected. Each variant carries the original input text,
/// untrimmed, for diagnostic display.
#[derive(Debug)]
pub enum MacAddressError {
    /// The input does not hold exactly 12 characters once trimmed and
    /// stripped of delimiters.
    InvalidLength(String),
    /// The input holds 12 characters after normalization, but at least one of
    /// them is not a hexadecimal digit.
    InvalidMac(String),
}

impl MacAddressError {
    /// The diagnostic text for this error.
    pub fn message(&self) -> (r: String)
        ensures
            (match self {
                MacAddressError::InvalidLength(a) => r@ == "address: `"@ + a@
                    + "` is not 12 characters long"@,
                MacAddressError::InvalidMac(a) => r@ == "address: `"@ + a@
                    + "` is not a MAC adddress"@,
            }),
    {
        match self {
            MacAddressError::InvalidLength(a) => {
                let mut out = String::from_str("address: `");
                out.append(a.as_str());
                out.append("` is not 12 characters long");
                proof {
                    assert(out@ =~= "address: `"@ + a@ + "` is not 12 characters long"@);
                }
                out
            },
            MacAddressError::InvalidMac(a) => {
                let mut out = String::from_str("address: `");
                out.append(a.as_str());
                out.append("` is not a MAC adddress");
                proof {
                    assert(out@ =~= "address: `"@ + a@ + "` is not a MAC adddress"@);
                }
                out
            },
        }
    }
}

impl PartialEq for MacAddressError {
    /// Two errors are equal when they are the same kind and carry the same
    /// input text.
    fn eq(&self, other: &Self) -> (r: bool) {
        match (self, other) {
            (MacAddressError::InvalidLength(a), MacAddressError::InvalidLength(b)) => *a == *b,
            (MacAddressError::InvalidMac(a), MacAddressError::InvalidMac(b)) => *a == *b,
            _ => false,
        }
    }
}

impl vstd::std_specs::cmp::PartialEqSpecImpl for MacAddressError {
    open spec fn obeys_eq_spec() -> bool {
        true
    }

    open spec fn eq_spec(&self, other: &Self) -> bool {
        match (self, other) {
            (MacAddressError::InvalidLength(a), MacAddressError::InvalidLength(b)) => a@ == b@,
            (MacAddressError::InvalidMac(a), MacAddressError::InvalidMac(b)) => a@ == b@,
            _ => false,
        }
    }
}

/// A canonical 48-bit MAC address: 12 nibble values, each below 16, together
/// with the 16 nibbles of its EUI-64 expansion. Built only by [`Self::parse`]
/// and immutable afterwards. Its view is the sequence of the 12 nibbles.
#[derive(Debug)]
pub struct MacAddress {
    eui48: Vec<u8>,
    eui64: Vec<u8>,
}

impl View for MacAddress {
    type V = Seq<u8>;

    closed spec fn view(&self) -> Seq<u8> {
        self.eui48@
    }
}

impl PartialEq for MacAddress {
    /// Two addresses are equal exactly when their canonical nibble sequences
    /// are equal; reflexive, symmetric and transitive.
    fn eq(&self, other: &Self) -> (r: bool) {
        proof {
            use_type_invariant(&*self);
            use_type_invariant(&*other);
        }
        let mut k: usize = 0;
        while k < 12
            invariant
                k <= 12,
                valid_nibbles(self.eui48@),
                valid_nibbles(other.eui48@),
                forall|i: int| 0 <= i < k ==> self.eui48@[i] == other.eui48@[i],
            decreases 12 - k,
        {
            if self.eui48[k] != other.eui48[k] {
                return false;
            }
            k = k + 1;
        }
        proof {
            assert(self.eui48@ =~= other.eui48@);
        }
        true
    }
}

impl vstd::std_specs::cmp::PartialEqSpecImpl for MacAddress {
    open spec fn obeys_eq_spec() -> bool {
        true
    }

    open spec fn eq_spec(&self, other: &Self) -> bool {
        self@ == other@
    }
}

impl MacAddress {
    #[verifier::type_invariant]
    spec fn wf(self) -> bool {
        valid_nibbles(self.eui48@) && self.eui64@ == eui64_nibbles(self.eui48@)
    }

    /// The EUI-64 nibbles, for the formatting operations of this crate.
    pub(crate) fn eui64_vec(&self) -> (r: &Vec<u8>)
        ensures
            r@ == eui64_nibbles(self@),
            valid_nibbles(self@),
    {
        proof {
            use_type_invariant(&*self);
        }
        &self.eui64
    }

    /// The canonical nibbles, for the formatting operations of this crate.
    pub(crate) fn eui48_vec(&self) -> (r: &Vec<u8>)
        ensures
            r@ == self@,
            valid_nibbles(r@),
    {
        proof {
            use_type_invariant(&*self);
        }
        &self.eui48
    }

    /// Parse a string into a MAC address. The input may use `:`, `-`, `.` or
    /// spaces as delimiters, anywhere and in any mixture, with surrounding
    /// whitespace and in either case; for example:
    ///  - `00:11:22:aa:bb:cc`
    ///  - `00-11-22-aa-bb-cc`
    ///  - `0011.22aa.bbcc`
    ///  - `001122aabbcc`
    ///  - `00 11 22 AA BB CC`
    ///  - `001122-AABBCC`
    ///
    /// After trimming and delimiter removal the input must hold exactly 12
    /// characters (else `InvalidLength`), all hexadecimal digits (else
    /// `InvalidMac`); the length check comes first. Both errors carry the
    /// original input.
    pub fn parse(address: &str) -> (result: Result<Self, MacAddressError>)
        ensures
            (match result {
                Ok(mac) => {
                    &&& stripped(address@).len() == 12
                    &&& forall|i: int|
                        0 <= i < 12 ==> is_hex_digit(#[trigger] stripped(address@)[i])
                    &&& mac@ == nibbles_of(stripped(address@))
                    &&& valid_nibbles(mac@)
                },
                Err(MacAddressError::InvalidLength(original)) => {
                    &&& original@ == address@
                    &&& stripped(address@).len() != 12
                },
                Err(MacAddressError::InvalidMac(original)) => {
                    &&& original@ == address@
                    &&& stripped(address@).len() == 12
                    &&& exists|i: int|
                        0 <= i < 12 && !is_hex_digit(#[trigger] stripped(address@)[i])
                },
            }),
    {
        let ghost s = address@;
        let total = address.unicode_len();

        // Trim: find the first and last non-whitespace characters.
        proof {
            assert(s.skip(0) =~= s);
        }
        let mut start: usize = 0;
        while start < total && is_space_char(address.get_char(start))
            invariant
                start <= total,
                total == s.len(),
                s == address@,
                trim_start(s) == trim_start(s.skip(start as int)),
            decreases total - start,
        {
            proof {
                assert(s.skip(start as int).drop_first() =~= s.skip(start as int + 1));
            }
            start = start + 1;
        }
        proof {
            assert(trim_start(s) == s.skip(start as int));
        }

        let mut end: usize = total;
        while end > start && is_space_char(address.get_char(end - 1))
            invariant
                start <= end <= total,
                total == s.len(),
                s == address@,
                trim_start(s) == s.skip(start as int),
                trim_end(s.skip(start as int)) == trim_end(s.subrange(start as int, end as int)),
            decreases end,
        {
            proof {
                let sub = s.subrange(start as int, end as int);
                assert(sub.last() == s[end - 1]);
                assert(sub.drop_last() =~= s.subrange(start as int, end as int - 1));
            }
            end = end - 1;
        }
        proof {
            assert(trimmed(s) == s.subrange(start as int, end as int));
        }

        // Remove every delimiter occurrence from the trimmed input.
        let mut cleaned: Vec<char> = Vec::new();
        let mut i: usize = start;
        while i < end
            invariant
                start <= i <= end <= total,
                total == s.len(),
                s == address@,
                trimmed(s) == s.subrange(start as int, end as int),
                cleaned@ == without_delimiters(s.subrange(start as int, i as int)),
            decreases end - i,
        {
            let c = address.get_char(i);
            if !(c == ':' || c == '-' || c == '.' || c == ' ') {
                cleaned.push(c);
            }
            proof {
                let prefix = s.subrange(start as int, i as int);
                assert(s.subrange(start as int, i as int + 1) =~= prefix.push(s[i as int]));
                reveal(Seq::filter);
                assert(prefix.push(s[i as int]).drop_last() =~= prefix);
            }
            i = i + 1;
        }
        proof {
            assert(stripped(s) == cleaned@);
        }

        // Length before content: a wrong count is InvalidLength, whatever the
        // characters are.
        if cleaned.len() != 12 {
            return Err(MacAddressError::InvalidLength(String::from_str(address)));
        }

        // Every remaining character must be a hex digit; collect the nibbles.
        let mut eui48: Vec<u8> = Vec::new();
        let mut j: usize = 0;
        while j < 12
            invariant
                j <= 12,
                cleaned@.len() == 12,
                cleaned@ == stripped(address@),
                forall|k: int| 0 <= k < j ==> is_hex_digit(#[trigger] cleaned@[k]),
                eui48@ == nibbles_of(cleaned@.subrange(0, j as int)),
            decreases 12 - j,
        {
            let c = cleaned[j];
            if '0' <= c && c <= '9' {
                eui48.push((c as u32 - 48) as u8);
            } else if 'a' <= c && c <= 'f' {
                eui48.push((c as u32 - 87) as u8);
            } else if 'A' <= c && c <= 'F' {
                eui48.push((c as u32 - 55) as u8);
            } else {
                return Err(MacAddressError::InvalidMac(String::from_str(address)));
            }
            proof {
                let prefix = cleaned@.subrange(0, j as int);
                assert(cleaned@.subrange(0, j as int + 1) =~= prefix.push(cleaned@[j as int]));
                assert(nibbles_of(prefix.push(cleaned@[j as int])) =~= nibbles_of(prefix).push(
                    hex_value(cleaned@[j as int]),
                ));
            }
            j = j + 1;
        }
        proof {
            assert(cleaned@.subrange(0, 12) =~= cleaned@);
            assert(forall|k: int| 0 <= k < 12 ==> #[trigger] eui48@[k] < 16);
        }

        // Derive the EUI-64 expansion: first three octets, `ff fe`, last
        // three octets, with the U/L bit of the first octet flipped.
        let flipped = flip_ul_exec(eui48[1]);
        let mut eui64: Vec<u8> = Vec::new();
        eui64.push(eui48[0]);
        eui64.push(flipped);
        eui64.push(eui48[2]);
        eui64.push(eui48[3]);
        eui64.push(eui48[4]);
        eui64.push(eui48[5]);
        eui64.push(15);
        eui64.push(15);
        eui64.push(15);
        eui64.push(14);
        eui64.push(eui48[6]);
        eui64.push(eui48[7]);
        eui64.push(eui48[8]);
        eui64.push(eui48[9]);
        eui64.push(eui48[10]);
        eui64.push(eui48[11]);
        proof {
            assert(eui64@ =~= eui64_nibbles(eui48@));
        }

        Ok(MacAddress { eui48, eui64 })
    }
}

/// The universal/local bit flip on the low nibble of the first octet.
fn flip_ul_exec(n: u8) -> (r: u8)
    ensures
        r == crate::model::flip_ul(n),
{
    n ^ 2
}

/// Whether a character is white space, as the model counts it.
fn is_space_char(c: char) -> (r: bool)
    ensures
        r == is_space(c),
{
    c == '\u{9}' || c == '\u{A}' || c == '\u{B}' || c == '\u{C}' || c == '\u{D}' || c == ' ' || c
        == '\u{85}' || c == '\u{A0}' || c == '\u{1680}' || ('\u{2000}' <= c && c <= '\u{200A}') || c
        == '\u{2028}' || c == '\u{2029}' || c == '\u{202F}' || c == '\u{205F}' || c == '\u{3000}'
}

} // verus!
