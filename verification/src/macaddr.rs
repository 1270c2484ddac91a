//! Fixed-width hardware address: six raw octets, parsed from colon-hex text
//! and formatted back to the canonical lowercase zero-padded form.

use crate::errors::ParseError;
use crate::text::all_groups_valid;
use crate::text::group_val;
use crate::text::group_values;
use crate::text::hex_pair;
use crate::text::is_radix_digit;
use crate::text::join_with;
use crate::text::lemma_hex_pair_canonical;
use crate::text::lemma_hex_pair_props;
use crate::text::lemma_join_split;
use crate::text::lemma_split_append_nosep;
use crate::text::lemma_split_push_sep;
use crate::text::parse_groups;
use crate::text::push_hex_pair;
use crate::text::split_on;
use crate::text::valid_group;
use vstd::prelude::*;
use vstd::seq_lib::*;
use vstd::string::*;

verus! {

broadcast use vstd::array::group_array_axioms;

/// The number of octets in a hardware address.
pub const MAC_WIDTH: usize = 6;

/// Colon-hex text of exactly six well-formed hexadecimal groups.
pub open spec fn valid_mac_chars(s: Seq<char>) -> bool {
    &&& split_on(s, ':').len() == 6
    &&& all_groups_valid(s, ':', 16)
}

/// The six octet values named by a valid colon-hex text.
pub open spec fn mac_value(s: Seq<char>) -> Seq<u8> {
    group_values(s, ':', 16)
}

/// The canonical text of six octets: two lowercase hexadecimal digits each,
/// joined by colons.
pub open spec fn mac_format_chars(a: Seq<u8>) -> Seq<char> {
    hex_pair(a[0] as nat) + seq![':'] + hex_pair(a[1] as nat) + seq![':'] + hex_pair(a[2] as nat)
        + seq![':'] + hex_pair(a[3] as nat) + seq![':'] + hex_pair(a[4] as nat) + seq![':']
        + hex_pair(a[5] as nat)
}

/// Text already in the canonical form: six groups of exactly two digits,
/// each a decimal digit or a lowercase hexadecimal letter.
pub open spec fn mac_canonical_chars(s: Seq<char>) -> bool {
    &&& split_on(s, ':').len() == 6
    &&& forall|i: int|
        0 <= i < 6 ==> {
            let g = #[trigger] split_on(s, ':')[i];
            g.len() == 2 && (forall|k: int|
                0 <= k < g.len() ==> is_radix_digit(#[trigger] g[k], 10) || ('a' <= g[k] && g[k]
                    <= 'f'))
        }
}

/// A hardware address: six raw octets, compared byte-wise.
#[derive(Debug, Clone, Copy)]
pub struct MacAddress {
    pub address: [u8; 6],
}

impl View for MacAddress {
    type V = Seq<u8>;

    open spec fn view(&self) -> Seq<u8> {
        self.address@
    }
}

impl MacAddress {
    /// The all-zero address.
    pub fn new() -> (r: Self)
        ensures
            r@.len() == 6,
            forall|i: int| 0 <= i < 6 ==> r@[i] == 0u8,
    {
        MacAddress { address: [0u8; 6] }
    }

    /// The raw octets.
    pub fn as_slice(&self) -> (r: &[u8])
        ensures
            r@ == self@,
    {
        self.address.as_slice()
    }

    /// True exactly when every octet is `0xff`.
    pub fn is_broadcast(&self) -> (r: bool)
        ensures
            r == (forall|i: int| 0 <= i < 6 ==> self@[i] == 0xffu8),
    {
        let r = self.address[0] == 0xff && self.address[1] == 0xff && self.address[2] == 0xff
            && self.address[3] == 0xff && self.address[4] == 0xff && self.address[5] == 0xff;
        proof {
            assert(self@ == self.address@);
            if r {
                assert forall|i: int| 0 <= i < 6 implies self@[i] == 0xffu8 by {
                    assert(i == 0 || i == 1 || i == 2 || i == 3 || i == 4 || i == 5);
                }
            } else {
                assert(self@[0] != 0xffu8 || self@[1] != 0xffu8 || self@[2] != 0xffu8 || self@[3]
                    != 0xffu8 || self@[4] != 0xffu8 || self@[5] != 0xffu8);
            }
        }
        r
    }

    /// Reads a colon-hex text of exactly six groups, each a hexadecimal
    /// octet; rejects every other text.
    pub fn from_str(text: &str) -> (r: Result<Self, ParseError>)
        ensures
            r is Ok <==> valid_mac_chars(text@),
            r matches Ok(a) ==> a@ == mac_value(text@),
            r == Err::<Self, ParseError>(ParseError::MalformedGroup) <==> !all_groups_valid(
                text@,
                ':',
                16,
            ),
            r == Err::<Self, ParseError>(ParseError::WrongGroupCount) <==> all_groups_valid(
                text@,
                ':',
                16,
            ) && split_on(text@, ':').len() != 6,
    {
        match parse_groups(text, ':', true) {
            Some(v) => {
                if v.len() == 6 {
                    let address: [u8; 6] = [v[0], v[1], v[2], v[3], v[4], v[5]];
                    proof {
                        assert(address@ =~= mac_value(text@));
                    }
                    Ok(MacAddress { address })
                } else {
                    Err(ParseError::WrongGroupCount)
                }
            },
            None => Err(ParseError::MalformedGroup),
        }
    }

    /// Takes the first six bytes of a slice; rejects a shorter one.
    pub fn from_bytes(bytes: &[u8]) -> (r: Result<Self, ParseError>)
        ensures
            r is Ok <==> bytes@.len() >= 6,
            r matches Ok(a) ==> a@ == bytes@.subrange(0, 6),
            r is Err ==> r == Err::<Self, ParseError>(ParseError::TooFewBytes),
    {
        if bytes.len() < MAC_WIDTH {
            Err(ParseError::TooFewBytes)
        } else {
            let address: [u8; 6] = [bytes[0], bytes[1], bytes[2], bytes[3], bytes[4], bytes[5]];
            proof {
                assert(address@ =~= bytes@.subrange(0, 6));
            }
            Ok(MacAddress { address })
        }
    }

    /// The canonical colon-hex text: zero-padded, lower case.
    pub fn format(&self) -> (r: String)
        ensures
            r@ == mac_format_chars(self@),
    {
        let mut out = String::new();
        push_hex_pair(&mut out, self.address[0]);
        out.append(":");
        push_hex_pair(&mut out, self.address[1]);
        out.append(":");
        push_hex_pair(&mut out, self.address[2]);
        out.append(":");
        push_hex_pair(&mut out, self.address[3]);
        out.append(":");
        push_hex_pair(&mut out, self.address[4]);
        out.append(":");
        push_hex_pair(&mut out, self.address[5]);
        proof {
            reveal_strlit(":");
            assert(out@ =~= mac_format_chars(self@));
        }
        out
    }
}

impl From<[u8; 6]> for MacAddress {
    /// Wraps six octets as given.
    fn from(addr: [u8; 6]) -> (r: Self) {
        MacAddress { address: addr }
    }
}

impl vstd::std_specs::convert::FromSpecImpl<[u8; 6]> for MacAddress {
    open spec fn obeys_from_spec() -> bool {
        true
    }

    open spec fn from_spec(addr: [u8; 6]) -> Self {
        MacAddress { address: addr }
    }
}

impl From<&[u8; 6]> for MacAddress {
    /// Copies six octets out of a borrowed array.
    fn from(addr: &[u8; 6]) -> (r: Self) {
        MacAddress { address: *addr }
    }
}

impl vstd::std_specs::convert::FromSpecImpl<&[u8; 6]> for MacAddress {
    open spec fn obeys_from_spec() -> bool {
        true
    }

    open spec fn from_spec(addr: &[u8; 6]) -> Self {
        MacAddress { address: *addr }
    }
}

impl PartialEq for MacAddress {
    /// Byte-wise equality of the six octets.
    fn eq(&self, other: &Self) -> (r: bool) {
        let r = self.address[0] == other.address[0] && self.address[1] == other.address[1]
            && self.address[2] == other.address[2] && self.address[3] == other.address[3]
            && self.address[4] == other.address[4] && self.address[5] == other.address[5];
        proof {
            if r {
                assert(self@ =~= other@);
            }
        }
        r
    }
}

impl vstd::std_specs::cmp::PartialEqSpecImpl for MacAddress {
    open spec fn obeys_eq_spec() -> bool {
        true
    }

    open spec fn eq_spec(&self, other: &Self) -> bool {
        self@ == other@
    }
}

/// Law: the canonical text of any six octets parses back to exactly those
/// octets, so `parse(format(a)) == a`.
pub proof fn lemma_mac_format_roundtrip(a: Seq<u8>)
    requires
        a.len() == 6,
    ensures
        valid_mac_chars(mac_format_chars(a)),
        mac_value(mac_format_chars(a)) == a,
        mac_canonical_chars(mac_format_chars(a)),
{
    let gs = seq![
        hex_pair(a[0] as nat),
        hex_pair(a[1] as nat),
        hex_pair(a[2] as nat),
        hex_pair(a[3] as nat),
        hex_pair(a[4] as nat),
        hex_pair(a[5] as nat),
    ];
    assert forall|i: int| 0 <= i < 6 implies valid_group(#[trigger] gs[i], 16) && group_val(
        gs[i],
        16,
    ) == a[i] && (forall|k: int|
        0 <= k < gs[i].len() ==> is_radix_digit(#[trigger] gs[i][k], 10) || ('a' <= gs[i][k]
            && gs[i][k] <= 'f')) by {
        lemma_hex_pair_props(a[i] as nat);
        assert forall|k: int| 0 <= k < gs[i].len() implies is_radix_digit(#[trigger] gs[i][k], 10)
            || ('a' <= gs[i][k] && gs[i][k] <= 'f') by {
            assert(is_radix_digit(gs[i][k], 16));
        }
    }
    let t = mac_format_chars(a);
    lemma_split_groups_6(gs, ':');
    assert(t =~= join_6(gs, ':'));
    assert(split_on(t, ':') == gs);
    assert(mac_value(t) =~= a);
}

/// Law: text already in the canonical form is reproduced exactly by
/// formatting its parsed value, so `format(parse(s)) == s` there.
pub proof fn lemma_mac_canonical_format(s: Seq<char>)
    requires
        mac_canonical_chars(s),
    ensures
        valid_mac_chars(s),
        mac_format_chars(mac_value(s)) == s,
{
    let gs = split_on(s, ':');
    assert forall|i: int| 0 <= i < 6 implies valid_group(#[trigger] gs[i], 16) && hex_pair(
        group_val(gs[i], 16),
    ) == gs[i] by {
        lemma_hex_pair_canonical(gs[i]);
        crate::text::lemma_group_val_small(gs[i][0], gs[i][1], 16);
        assert(gs[i] =~= seq![gs[i][0], gs[i][1]]);
        assert forall|k: int| 0 <= k < gs[i].len() implies is_radix_digit(
            #[trigger] gs[i][k],
            16,
        ) by {
            assert(is_radix_digit(gs[i][k], 10) || ('a' <= gs[i][k] && gs[i][k] <= 'f'));
        }
        assert(group_val(gs[i], 16) < 256);
    }
    let a = mac_value(s);
    lemma_join_split(s, ':');
    assert(gs =~= seq![gs[0], gs[1], gs[2], gs[3], gs[4], gs[5]]);
    lemma_join_unfold_6(seq![gs[0], gs[1], gs[2], gs[3], gs[4], gs[5]], ':');
    assert(mac_format_chars(a) =~= join_6(gs, ':'));
    assert(mac_format_chars(a) == s);
}

/// Law: formatting any parsed colon-hex text yields its normalized form —
/// the unique canonical (lowercase, zero-padded) text of the same value.
pub proof fn lemma_mac_format_parse_normalized(s: Seq<char>)
    requires
        valid_mac_chars(s),
    ensures
        ({
            let t = mac_format_chars(mac_value(s));
            &&& mac_canonical_chars(t)
            &&& valid_mac_chars(t)
            &&& mac_value(t) == mac_value(s)
            &&& forall|u: Seq<char>|
                mac_canonical_chars(u) && mac_value(u) == mac_value(s) ==> u == t
        }),
{
    assert(mac_value(s).len() == 6);
    lemma_mac_format_roundtrip(mac_value(s));
    let t = mac_format_chars(mac_value(s));
    assert forall|u: Seq<char>| mac_canonical_chars(u) && mac_value(u) == mac_value(s) implies u
        == t by {
        lemma_mac_canonical_format(u);
    }
}

/// Six separator-free groups joined with the separator.
pub open spec fn join_6(gs: Seq<Seq<char>>, sep: char) -> Seq<char> {
    gs[0] + seq![sep] + gs[1] + seq![sep] + gs[2] + seq![sep] + gs[3] + seq![sep] + gs[4]
        + seq![sep] + gs[5]
}

/// Splitting the join of six separator-free groups yields those groups.
pub proof fn lemma_split_groups_6(gs: Seq<Seq<char>>, sep: char)
    requires
        gs.len() == 6,
        forall|i: int|
            0 <= i < 6 ==> forall|k: int|
                0 <= k < #[trigger] gs[i].len() ==> #[trigger] gs[i][k] != sep,
    ensures
        split_on(join_6(gs, sep), sep) == gs,
{
    let e = Seq::<char>::empty();
    assert(split_on(e, sep) == seq![Seq::<char>::empty()]);
    lemma_split_append_nosep(e, gs[0], sep);
    assert(split_on(e + gs[0], sep) =~~= seq![gs[0]]) by {
        assert(Seq::<char>::empty() + gs[0] =~= gs[0]);
        assert(split_on(e, sep).update(0, split_on(e, sep).last() + gs[0]) =~~= seq![gs[0]]);
    }
    let t0 = gs[0];
    assert(e + gs[0] =~= t0);
    assert(split_on(t0, sep) == seq![gs[0]]);
    lemma_split_push_sep(t0, sep);
    let t0s = t0.push(sep);
    assert(split_on(t0s, sep) =~~= seq![gs[0], e]);
    lemma_split_append_nosep(t0s, gs[1], sep);
    let t1 = t0s + gs[1];
    assert(split_on(t1, sep) =~~= seq![gs[0], gs[1]]) by {
        assert(e + gs[1] =~= gs[1]);
    }
    lemma_split_push_sep(t1, sep);
    let t1s = t1.push(sep);
    assert(split_on(t1s, sep) =~~= seq![gs[0], gs[1], e]);
    lemma_split_append_nosep(t1s, gs[2], sep);
    let t2 = t1s + gs[2];
    assert(split_on(t2, sep) =~~= seq![gs[0], gs[1], gs[2]]) by {
        assert(e + gs[2] =~= gs[2]);
    }
    lemma_split_push_sep(t2, sep);
    let t2s = t2.push(sep);
    assert(split_on(t2s, sep) =~~= seq![gs[0], gs[1], gs[2], e]);
    lemma_split_append_nosep(t2s, gs[3], sep);
    let t3 = t2s + gs[3];
    assert(split_on(t3, sep) =~~= seq![gs[0], gs[1], gs[2], gs[3]]) by {
        assert(e + gs[3] =~= gs[3]);
    }
    lemma_split_push_sep(t3, sep);
    let t3s = t3.push(sep);
    assert(split_on(t3s, sep) =~~= seq![gs[0], gs[1], gs[2], gs[3], e]);
    lemma_split_append_nosep(t3s, gs[4], sep);
    let t4 = t3s + gs[4];
    assert(split_on(t4, sep) =~~= seq![gs[0], gs[1], gs[2], gs[3], gs[4]]) by {
        assert(e + gs[4] =~= gs[4]);
    }
    lemma_split_push_sep(t4, sep);
    let t4s = t4.push(sep);
    assert(split_on(t4s, sep) =~~= seq![gs[0], gs[1], gs[2], gs[3], gs[4], e]);
    lemma_split_append_nosep(t4s, gs[5], sep);
    let t5 = t4s + gs[5];
    assert(split_on(t5, sep) =~~= seq![gs[0], gs[1], gs[2], gs[3], gs[4], gs[5]]) by {
        assert(e + gs[5] =~= gs[5]);
    }
    assert(t5 =~= join_6(gs, sep));
    assert(split_on(join_6(gs, sep), sep) =~~= gs);
}

/// `join_with` of six groups unfolds to their explicit concatenation.
pub proof fn lemma_join_unfold_6(gs: Seq<Seq<char>>, sep: char)
    requires
        gs.len() == 6,
    ensures
        join_with(gs, sep) == join_6(gs, sep),
{
    reveal_with_fuel(join_with, 7);
    assert(gs.drop_last() =~~= seq![gs[0], gs[1], gs[2], gs[3], gs[4]]);
    let g5 = gs.drop_last();
    assert(g5.drop_last() =~~= seq![gs[0], gs[1], gs[2], gs[3]]);
    let g4 = g5.drop_last();
    assert(g4.drop_last() =~~= seq![gs[0], gs[1], gs[2]]);
    let g3 = g4.drop_last();
    assert(g3.drop_last() =~~= seq![gs[0], gs[1]]);
    let g2 = g3.drop_last();
    assert(g2.drop_last() =~~= seq![gs[0]]);
    assert(join_with(seq![gs[0]], sep) == gs[0]);
    assert(join_with(g2, sep) == join_with(seq![gs[0]], sep).push(sep) + gs[1]);
    assert(join_with(gs, sep) =~= join_6(gs, sep));
}

} // verus!
