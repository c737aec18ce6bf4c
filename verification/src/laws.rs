//! The general laws of the library, proved once and for all inputs: delimiter
//! and whitespace insensitivity of parsing, case insensitivity, the
//! round-trips between the renderings and the bare form, the partition of the
//! address classes, and the involution of the EUI-64 bit flip.

use vstd::prelude::*;

use crate::model::binary_chars;
use crate::model::eui64_nibbles;
use crate::model::fold_case;
use crate::model::grouped_chars;
use crate::model::hex_char;
use crate::model::hex_chars;
use crate::model::hex_value;
use crate::model::is_broadcast_nibbles;
use crate::model::is_delimiter;
use crate::model::is_hex_digit;
use crate::model::is_lower_hex_digit;
use crate::model::is_multicast_nibbles;
use crate::model::is_space;
use crate::model::is_unicast_nibbles;
use crate::model::nibble_bits;
use crate::model::nibbles_of;
use crate::model::stripped;
use crate::model::trim_end;
use crate::model::trim_start;
use crate::model::trimmed;
use crate::model::ul_bit;
use crate::model::valid_nibbles;
use crate::model::without_char;
use crate::model::without_delimiters;

verus! {

/// A filter that the single element fails leaves nothing.
proof fn lemma_filter_drops_singleton<A>(x: A, pred: spec_fn(A) -> bool)
    requires
        !pred(x),
    ensures
        seq![x].filter(pred) == Seq::<A>::empty(),
{
    reveal_with_fuel(Seq::filter, 2);
    assert(seq![x].drop_last() =~= Seq::<A>::empty());
}

/// Removing a character that does not occur leaves the sequence unchanged.
proof fn lemma_without_char_retains(s: Seq<char>, d: char)
    requires
        forall|i: int| 0 <= i < s.len() ==> s[i] != d,
    ensures
        without_char(s, d) == s,
    decreases s.len(),
{
    reveal(Seq::filter);
    if s.len() > 0 {
        lemma_without_char_retains(s.drop_last(), d);
        assert(s.drop_last().push(s.last()) =~= s);
    }
}

/// Removing a character from the one-character sequence of it leaves nothing.
proof fn lemma_without_char_singleton(d: char)
    ensures
        without_char(seq![d], d) == Seq::<char>::empty(),
{
    reveal_with_fuel(Seq::filter, 2);
    assert(seq![d].drop_last() =~= Seq::<char>::empty());
}

/// Padding an input with a white-space character at either end changes
/// neither the trimmed input nor the digit sequence that parsing sees.
pub proof fn lemma_whitespace_padding(s: Seq<char>, c: char)
    requires
        is_space(c),
    ensures
        trimmed(seq![c] + s) == trimmed(s),
        trimmed(s.push(c)) == trimmed(s),
        stripped(seq![c] + s) == stripped(s),
        stripped(s.push(c)) == stripped(s),
    decreases s.len(),
{
    assert((seq![c] + s).drop_first() =~= s);
    if s.len() == 0 {
        assert(s.push(c).drop_first() =~= s);
    } else if is_space(s.first()) {
        lemma_whitespace_padding(s.drop_first(), c);
        assert(s.push(c).drop_first() =~= s.drop_first().push(c));
        assert(trim_start(s.push(c)) == trim_start(s.drop_first().push(c)));
    } else {
        assert(s.push(c).first() == s.first());
        assert(trim_start(s.push(c)) == s.push(c));
        assert(trim_start(s) == s);
        assert(s.push(c).drop_last() =~= s);
    }
}

/// Inserting a delimiter anywhere in an input with no surrounding white
/// space does not change the digit sequence that parsing sees: every
/// delimiter style, mixed ones included, normalizes to the same digits.
pub proof fn lemma_delimiter_insertion(s: Seq<char>, i: int, d: char)
    requires
        0 <= i <= s.len(),
        is_delimiter(d),
        s.len() == 0 || (!is_space(s.first()) && !is_space(s.last())),
    ensures
        stripped(s.insert(i, d)) == stripped(s),
{
    broadcast use Seq::filter_distributes_over_add;

    let t = s.insert(i, d);
    let keep = |c: char| !is_delimiter(c);
    lemma_filter_drops_singleton(d, keep);
    if s.len() == 0 {
        assert(t =~= seq![d]);
        if is_space(d) {
            assert(t.drop_first() =~= s);
            assert(trimmed(t) == trimmed(s));
        } else {
            assert(trim_start(t) == t);
            assert(trim_end(t) == t);
            assert(without_delimiters(t) == Seq::<char>::empty());
        }
    } else {
        assert(trim_start(s) == s);
        assert(trim_end(s) == s);
        if i == 0 && is_space(d) {
            assert(t =~= seq![d] + s);
            lemma_whitespace_padding(s, d);
        } else if i == s.len() && is_space(d) {
            assert(t =~= s.push(d));
            lemma_whitespace_padding(s, d);
        } else {
            assert(t.first() == (if i == 0 { d } else { s.first() }));
            assert(t.last() == (if i == s.len() { d } else { s.last() }));
            assert(trim_start(t) == t);
            assert(trim_end(t) == t);
            assert(t =~= s.take(i) + seq![d] + s.skip(i));
            assert(without_delimiters(t) == without_delimiters(s.take(i)) + seq![d].filter(keep)
                + without_delimiters(s.skip(i)));
            assert(s.take(i) + s.skip(i) =~= s);
            assert(without_delimiters(s.take(i)) + without_delimiters(s.skip(i))
                == without_delimiters(s));
        }
    }
}

/// Upper- and lowercase spellings of a hex digit carry the same nibble value.
pub proof fn lemma_hex_digit_case_insensitive(c: char)
    requires
        is_hex_digit(c),
    ensures
        is_lower_hex_digit(fold_case(c)),
        hex_value(fold_case(c)) == hex_value(c),
{
}

/// Two digit sequences that differ only in case yield the same canonical
/// nibbles: parsing is case-insensitive.
pub proof fn lemma_case_insensitive(a: Seq<char>, b: Seq<char>)
    requires
        a.len() == b.len(),
        forall|i: int| 0 <= i < a.len() ==> is_hex_digit(#[trigger] a[i]),
        forall|i: int| 0 <= i < a.len() ==> b[i] == fold_case(#[trigger] a[i]),
    ensures
        nibbles_of(a) == nibbles_of(b),
{
    assert forall|i: int| 0 <= i < a.len() implies hex_value(b[i]) == hex_value(a[i]) by {
        lemma_hex_digit_case_insensitive(a[i]);
    }
    assert(nibbles_of(a) =~= nibbles_of(b));
}

/// Rendering nibbles as hex digits and reading them back is the identity,
/// and the rendering is lowercase throughout.
pub proof fn lemma_hex_round_trip(s: Seq<u8>)
    requires
        forall|i: int| 0 <= i < s.len() ==> s[i] < 16,
    ensures
        nibbles_of(hex_chars(s)) == s,
        forall|i: int| 0 <= i < s.len() ==> is_lower_hex_digit(#[trigger] hex_chars(s)[i]),
{
    assert forall|i: int| 0 <= i < s.len() implies hex_value(hex_chars(s)[i]) == s[i]
        && is_lower_hex_digit(hex_chars(s)[i]) by {
        assert(hex_chars(s)[i] == hex_char(s[i]));
    }
    assert(nibbles_of(hex_chars(s)) =~= s);
}

/// A sequence without delimiters is left unchanged by delimiter removal.
proof fn lemma_without_delimiters_retains(s: Seq<char>)
    requires
        forall|i: int| 0 <= i < s.len() ==> !is_delimiter(s[i]),
    ensures
        without_delimiters(s) == s,
    decreases s.len(),
{
    reveal(Seq::filter);
    if s.len() > 0 {
        lemma_without_delimiters_retains(s.drop_last());
        assert(s.drop_last().push(s.last()) =~= s);
    }
}

/// The bare rendering parses back to the address it came from: it needs no
/// trimming or delimiter removal, and its digits read back as the same
/// nibbles.
pub proof fn lemma_raw_reparses(s: Seq<u8>)
    requires
        valid_nibbles(s),
    ensures
        stripped(hex_chars(s)) == hex_chars(s),
        nibbles_of(hex_chars(s)) == s,
{
    let h = hex_chars(s);
    assert forall|i: int|
        0 <= i < h.len() implies !is_space(#[trigger] h[i]) && !is_delimiter(h[i]) by {
        assert(h[i] == hex_char(s[i]));
        assert(s[i] < 16);
    }
    assert(h.first() == h[0]);
    assert(h.last() == h[11]);
    assert(trim_start(h) == h);
    assert(trim_end(h) == h);
    lemma_without_delimiters_retains(h);
    lemma_hex_round_trip(s);
}

/// No hex digit is a delimiter.
proof fn lemma_hex_char_not_delimiter(n: u8, d: char)
    requires
        n < 16,
        is_delimiter(d),
    ensures
        hex_char(n) != d,
{
}

/// Removing the delimiter from a grouped rendering recovers the bare form:
/// `hex()`, `eui()` and `dot()` round-trip to `raw()`.
pub proof fn lemma_grouped_round_trip(s: Seq<u8>, group: int, d: char)
    requires
        1 <= group,
        is_delimiter(d),
        forall|i: int| 0 <= i < s.len() ==> s[i] < 16,
    ensures
        without_char(grouped_chars(s, group, seq![d]), d) == hex_chars(s),
    decreases s.len(),
{
    broadcast use Seq::filter_distributes_over_add;

    assert forall|i: int| 0 <= i < hex_chars(s).len() implies #[trigger] hex_chars(s)[i] != d by {
        lemma_hex_char_not_delimiter(s[i], d);
    }
    if s.len() <= group {
        lemma_without_char_retains(hex_chars(s), d);
    } else {
        let head = hex_chars(s.take(group));
        let tail = grouped_chars(s.skip(group), group, seq![d]);
        lemma_grouped_round_trip(s.skip(group), group, d);
        assert forall|i: int| 0 <= i < head.len() implies #[trigger] head[i] != d by {
            lemma_hex_char_not_delimiter(s.take(group)[i], d);
        }
        lemma_without_char_retains(head, d);
        lemma_without_char_singleton(d);
        assert(grouped_chars(s, group, seq![d]) == head + seq![d] + tail);
        assert(without_char(head + seq![d] + tail, d) == without_char(head + seq![d], d)
            + without_char(tail, d));
        assert(without_char(head + seq![d], d) == without_char(head, d) + without_char(
            seq![d],
            d,
        ));
        assert(head + Seq::<char>::empty() + hex_chars(s.skip(group)) =~= hex_chars(s));
    }
}

/// Broadcast and multicast exclude each other, and unicast is exactly the
/// absence of both: the three classes partition the well-formed addresses.
pub proof fn lemma_classes_partition(s: Seq<u8>)
    requires
        valid_nibbles(s),
    ensures
        !(is_broadcast_nibbles(s) && is_multicast_nibbles(s)),
        is_unicast_nibbles(s) <==> (!is_broadcast_nibbles(s) && !is_multicast_nibbles(s)),
{
    if is_broadcast_nibbles(s) {
        assert(s[1] == 15);
    }
}

/// The universal and local predicates are complementary: the U/L bit is
/// either 0 or 1.
pub proof fn lemma_universal_local_complement(s: Seq<u8>)
    requires
        valid_nibbles(s),
    ensures
        (ul_bit(s) == 0) <==> !(ul_bit(s) == 1),
{
}

/// The U/L bit flip of the EUI-64 derivation is its own inverse: deriving
/// from the address whose first octet already carries the flipped bit
/// recovers the original first octet, and changes nothing else.
pub proof fn lemma_eui64_flip_involutive(s: Seq<u8>)
    requires
        valid_nibbles(s),
    ensures
        eui64_nibbles(s.update(1, eui64_nibbles(s)[1]))[1] == s[1],
        eui64_nibbles(s.update(1, eui64_nibbles(s)[1])) == eui64_nibbles(s).update(1, s[1]),
{
    let n = s[1];
    assert(((n ^ 2) ^ 2) == n) by (bit_vector);
    assert(eui64_nibbles(s.update(1, eui64_nibbles(s)[1])) =~= eui64_nibbles(s).update(1, s[1]));
}

/// The per-nibble bit groups concatenate to the binary rendering; each group
/// holds exactly four binary digits, so the whole is four bits per nibble.
pub proof fn lemma_bits_concat(groups: Seq<Seq<char>>, s: Seq<u8>)
    requires
        groups.len() == s.len(),
        forall|i: int| 0 <= i < s.len() ==> #[trigger] groups[i] == nibble_bits(s[i]),
    ensures
        groups.flatten() == binary_chars(s),
        binary_chars(s).len() == 4 * s.len(),
        forall|i: int| 0 <= i < groups.len() ==> (#[trigger] groups[i]).len() == 4,
    decreases s.len(),
{
    if s.len() == 0 {
        assert(groups =~= Seq::<Seq<char>>::empty());
        assert(groups.flatten() =~= binary_chars(s));
    } else {
        lemma_bits_concat(groups.drop_first(), s.drop_first());
        assert(groups.flatten() == groups.first() + groups.drop_first().flatten());
        assert(groups.first() == nibble_bits(s.first()));
    }
}

/// Consecutive two-character renderings concatenate to the rendering of the
/// whole: the octets of an address join back into its bare form.
pub proof fn lemma_octets_concat(pairs: Seq<Seq<char>>, s: Seq<u8>)
    requires
        s.len() == 2 * pairs.len(),
        forall|i: int|
            0 <= i < pairs.len() ==> #[trigger] pairs[i] == hex_chars(
                s.subrange(2 * i, 2 * i + 2),
            ),
    ensures
        pairs.flatten() == hex_chars(s),
        forall|i: int| 0 <= i < pairs.len() ==> (#[trigger] pairs[i]).len() == 2,
    decreases pairs.len(),
{
    if pairs.len() == 0 {
        assert(pairs.flatten() =~= hex_chars(s));
    } else {
        let rest = s.skip(2);
        assert forall|i: int|
            0 <= i < pairs.drop_first().len() implies #[trigger] pairs.drop_first()[i]
            == hex_chars(rest.subrange(2 * i, 2 * i + 2)) by {
            assert(pairs.drop_first()[i] == pairs[i + 1]);
            assert(rest.subrange(2 * i, 2 * i + 2) =~= s.subrange(2 * (i + 1), 2 * (i + 1) + 2));
        }
        lemma_octets_concat(pairs.drop_first(), rest);
        assert(pairs.flatten() == pairs.first() + pairs.drop_first().flatten());
        assert(pairs.first() == hex_chars(s.subrange(0, 2)));
        assert(hex_chars(s.subrange(0, 2)) + hex_chars(rest) =~= hex_chars(s));
    }
}

} // verus!
