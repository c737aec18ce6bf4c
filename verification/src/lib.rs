//! Parsing, formatting and classification of 48-bit MAC addresses.
//!
//! A [`MacAddress`] is built by [`MacAddress::parse`] from text in any of the
//! common notations (`00:11:22:aa:bb:cc`, `00-11-22-aa-bb-cc`, `0011.22aa.bbcc`,
//! `001122aabbcc`, mixed delimiters, upper or lower case, surrounding
//! whitespace). Once built, the address is immutable; every other operation is
//! a total query: formatted renderings, octet and bit groupings, the OUI and
//! NIC halves, the EUI-64 expansion and its IPv6 link-local text, and the
//! broadcast / multicast / unicast / universal / local predicates.
//!
//! The mathematical model lives in [`model`]: every public operation is
//! specified against sequences of nibble values (each 0..16), and the general
//! laws relating the operations are proved in [`laws`].

pub mod address;
pub mod classify;
pub mod laws;
pub mod model;
pub mod render;

pub use address::MacAddress;
pub use address::MacAddressError;
