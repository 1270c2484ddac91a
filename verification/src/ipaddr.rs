//! Fixed-width network address: four raw octets, parsed from dotted-decimal
//! text and formatted back to plain decimal groups.

use crate::errors::ParseError;
use crate::text::all_groups_valid;
use crate::text::dec_chars;
use crate::text::group_val;
use crate::text::group_values;
use crate::text::is_radix_digit;
use crate::text::join_with;
use crate::text::lemma_dec_chars_canonical;
use crate::text::lemma_dec_chars_props;
use crate::text::lemma_join_split;
use crate::text::lemma_split_append_nosep;
use crate::text::lemma_split_push_sep;
use crate::text::parse_groups;
use crate::text::push_dec;
use crate::text::split_on;
use crate::text::valid_group;
use vstd::prelude::*;
use vstd::seq_lib::*;
use vstd::string::*;

verus! {

broadcast use vstd::array::group_array_axioms;

/// The number of octets in a network address.
pub const IP_WIDTH: usize = 4;

/// Dotted-decimal text of exactly four well-formed decimal groups.
pub open spec fn valid_ip_chars(s: Seq<char>) -> bool {
    &&& split_on(s, '.').len() == 4
    &&& all_groups_valid(s, '.', 10)
}

/// The four octet values named by a valid dotted-decimal text.
pub open spec fn ip_value(s: Seq<char>) -> Seq<u8> {
    group_values(s, '.', 10)
}

/// The canonical text of four octets: plain decimal groups joined by dots.
pub open spec fn ip_format_chars(a: Seq<u8>) -> Seq<char> {
    dec_chars(a[0] as nat) + seq!['.'] + dec_chars(a[1] as nat) + seq!['.'] + dec_chars(
        a[2] as nat,
    ) + seq!['.'] + dec_chars(a[3] as nat)
}

/// Text already in the canonical form: four valid groups, none with a
/// leading zero.
pub open spec fn ip_canonical_chars(s: Seq<char>) -> bool {
    &&& valid_ip_chars(s)
    &&& forall|i: int|
        0 <= i < 4 ==> {
            let g = #[trigger] split_on(s, '.')[i];
            g.len() == 1 || g[0] != '0'
        }
}

/// A network address: four raw octets, compared byte-wise.
#[derive(Debug, Clone, Copy)]
pub struct IpAddress {
    pub address: [u8; 4],
}

impl View for IpAddress {
    type V = Seq<u8>;

    open spec fn view(&self) -> Seq<u8> {
        self.address@
    }
}

impl IpAddress {
    /// The all-zero address.
    pub fn new() -> (r: Self)
        ensures
            r@.len() == 4,
            forall|i: int| 0 <= i < 4 ==> r@[i] == 0u8,
    {
        IpAddress { address: [0u8; 4] }
    }

    /// The raw octets.
    pub fn as_slice(&self) -> (r: &[u8])
        ensures
            r@ == self@,
    {
        self.address.as_slice()
    }

    /// True exactly when every octet is `0xff`.
    pub fn is_broadcast(&self) -> (r: bool)
        ensures
            r == (forall|i: int| 0 <= i < 4 ==> self@[i] == 0xffu8),
    {
        let r = self.address[0] == 0xff && self.address[1] == 0xff && self.address[2] == 0xff
            && self.address[3] == 0xff;
        proof {
            assert(self@ == self.address@);
            if r {
                assert forall|i: int| 0 <= i < 4 implies self@[i] == 0xffu8 by {
                    assert(i == 0 || i == 1 || i == 2 || i == 3);
                }
            } else {
                assert(self@[0] != 0xffu8 || self@[1] != 0xffu8 || self@[2] != 0xffu8 || self@[3]
                    != 0xffu8);
            }
        }
        r
    }

    /// Reads a dotted-decimal text of exactly four groups, each an octet in
    /// decimal; rejects every other text.
    pub fn from_str(text: &str) -> (r: Result<Self, ParseError>)
        ensures
            r is Ok <==> valid_ip_chars(text@),
            r matches Ok(a) ==> a@ == ip_value(text@),
            r == Err::<Self, ParseError>(ParseError::MalformedGroup) <==> !all_groups_valid(
                text@,
                '.',
                10,
            ),
            r == Err::<Self, ParseError>(ParseError::WrongGroupCount) <==> all_groups_valid(
                text@,
                '.',
                10,
            ) && split_on(text@, '.').len() != 4,
    {
        match parse_groups(text, '.', false) {
            Some(v) => {
                if v.len() == 4 {
                    let address: [u8; 4] = [v[0], v[1], v[2], v[3]];
                    proof {
                        assert(address@ =~= ip_value(text@));
                    }
                    Ok(IpAddress { address })
                } else {
                    Err(ParseError::WrongGroupCount)
                }
            },
            None => Err(ParseError::MalformedGroup),
        }
    }

    /// Takes the first four bytes of a slice; rejects a shorter one.
    pub fn from_bytes(bytes: &[u8]) -> (r: Result<Self, ParseError>)
        ensures
            r is Ok <==> bytes@.len() >= 4,
            r matches Ok(a) ==> a@ == bytes@.subrange(0, 4),
            r is Err ==> r == Err::<Self, ParseError>(ParseError::TooFewBytes),
    {
        if bytes.len() < IP_WIDTH {
            Err(ParseError::TooFewBytes)
        } else {
            let address: [u8; 4] = [bytes[0], bytes[1], bytes[2], bytes[3]];
            proof {
                assert(address@ =~= bytes@.subrange(0, 4));
            }
            Ok(IpAddress { address })
        }
    }

    /// The canonical dotted-decimal text.
    pub fn format(&self) -> (r: String)
        ensures
            r@ == ip_format_chars(self@),
    {
        let mut out = String::new();
        push_dec(&mut out, self.address[0]);
        out.append(".");
        push_dec(&mut out, self.address[1]);
        out.append(".");
        push_dec(&mut out, self.address[2]);
        out.append(".");
        push_dec(&mut out, self.address[3]);
        proof {
            reveal_strlit(".");
            assert(out@ =~= ip_format_chars(self@));
        }
        out
    }
}

impl From<[u8; 4]> for IpAddress {
    /// Wraps four octets as given.
    fn from(addr: [u8; 4]) -> (r: Self) {
        IpAddress { address: addr }
    }
}

impl vstd::std_specs::convert::FromSpecImpl<[u8; 4]> for IpAddress {
    open spec fn obeys_from_spec() -> bool {
        true
    }

    open spec fn from_spec(addr: [u8; 4]) -> Self {
        IpAddress { address: addr }
    }
}

impl From<&[u8; 4]> for IpAddress {
    /// Copies four octets out of a borrowed array.
    fn from(addr: &[u8; 4]) -> (r: Self) {
        IpAddress { address: *addr }
    }
}

impl vstd::std_specs::convert::FromSpecImpl<&[u8; 4]> for IpAddress {
    open spec fn obeys_from_spec() -> bool {
        true
    }

    open spec fn from_spec(addr: &[u8; 4]) -> Self {
        IpAddress { address: *addr }
    }
}

impl PartialEq for IpAddress {
    /// Byte-wise equality of the four octets.
    fn eq(&self, other: &Self) -> (r: bool) {
        let r = self.address[0] == other.address[0] && self.address[1] == other.address[1]
            && self.address[2] == other.address[2] && self.address[3] == other.address[3];
        proof {
            if r {
                assert(self@ =~= other@);
            }
        }
        r
    }
}

impl vstd::std_specs::cmp::PartialEqSpecImpl for IpAddress {
    open spec fn obeys_eq_spec() -> bool {
        true
    }

    open spec fn eq_spec(&self, other: &Self) -> bool {
        self@ == other@
    }
}

/// Four separator-free groups joined with the separator.
pub open spec fn join_4(gs: Seq<Seq<char>>, sep: char) -> Seq<char> {
    gs[0] + seq![sep] + gs[1] + seq![sep] + gs[2] + seq![sep] + gs[3]
}

/// Splitting the join of four separator-free groups yields those groups.
pub proof fn lemma_split_groups_4(gs: Seq<Seq<char>>, sep: char)
    requires
        gs.len() == 4,
        forall|i: int|
            0 <= i < 4 ==> forall|k: int|
                0 <= k < #[trigger] gs[i].len() ==> #[trigger] gs[i][k] != sep,
    ensures
        split_on(join_4(gs, sep), sep) == gs,
{
    let e = Seq::<char>::empty();
    assert(split_on(e, sep) == seq![Seq::<char>::empty()]);
    lemma_split_append_nosep(e, gs[0], sep);
    let t0 = gs[0];
    assert(e + gs[0] =~= t0);
    assert(split_on(t0, sep) =~~= seq![gs[0]]) by {
        assert(split_on(e, sep).update(0, split_on(e, sep).last() + gs[0]) =~~= seq![gs[0]]);
    }
    lemma_split_push_sep(t0, sep);
    let t0s = t0.push(sep);
    assert(split_on(t0s, sep) =~~= seq![gs[0], e]);
    lemma_split_append_nosep(t0s, gs[1], sep);
    let t1 = t0s + gs[1];
    assert(split_on(t1, sep) =~~= seq![gs[0], gs[1]]) by {
        assert(e + gs[1] =~= gs[1]);
    }
    lemma_split_push_sep(t1, sep);
    let t1s = t1.push(sep);
    assert(split_on(t1s, sep) =~~= seq![gs[0], gs[1], e]);
    lemma_split_append_nosep(t1s, gs[2], sep);
    let t2 = t1s + gs[2];
    assert(split_on(t2, sep) =~~= seq![gs[0], gs[1], gs[2]]) by {
        assert(e + gs[2] =~= gs[2]);
    }
    lemma_split_push_sep(t2, sep);
    let t2s = t2.push(sep);
    assert(split_on(t2s, sep) =~~= seq![gs[0], gs[1], gs[2], e]);
    lemma_split_append_nosep(t2s, gs[3], sep);
    let t3 = t2s + gs[3];
    assert(split_on(t3, sep) =~~= seq![gs[0], gs[1], gs[2], gs[3]]) by {
        assert(e + gs[3] =~= gs[3]);
    }
    assert(t3 =~= join_4(gs, sep));
    assert(split_on(join_4(gs, sep), sep) =~~= gs);
}

/// `join_with` of four groups unfolds to their explicit concatenation.
pub proof fn lemma_join_unfold_4(gs: Seq<Seq<char>>, sep: char)
    requires
        gs.len() == 4,
    ensures
        join_with(gs, sep) == join_4(gs, sep),
{
    reveal_with_fuel(join_with, 5);
    assert(gs.drop_last() =~~= seq![gs[0], gs[1], gs[2]]);
    let g3 = gs.drop_last();
    assert(g3.drop_last() =~~= seq![gs[0], gs[1]]);
    let g2 = g3.drop_last();
    assert(g2.drop_last() =~~= seq![gs[0]]);
    assert(join_with(seq![gs[0]], sep) == gs[0]);
    assert(join_with(g2, sep) == join_with(seq![gs[0]], sep).push(sep) + gs[1]);
    assert(join_with(gs, sep) =~= join_4(gs, sep));
}

/// Law: the canonical text of any four octets parses back to exactly those
/// octets, so `parse(format(a)) == a`.
pub proof fn lemma_ip_format_roundtrip(a: Seq<u8>)
    requires
        a.len() == 4,
    ensures
        valid_ip_chars(ip_format_chars(a)),
        ip_value(ip_format_chars(a)) == a,
        ip_canonical_chars(ip_format_chars(a)),
{
    let gs = seq![
        dec_chars(a[0] as nat),
        dec_chars(a[1] as nat),
        dec_chars(a[2] as nat),
        dec_chars(a[3] as nat),
    ];
    assert forall|i: int| 0 <= i < 4 implies valid_group(#[trigger] gs[i], 10) && group_val(
        gs[i],
        10,
    ) == a[i] && (gs[i].len() == 1 || gs[i][0] != '0') && (forall|k: int|
        0 <= k < gs[i].len() ==> #[trigger] gs[i][k] != '.') by {
        lemma_dec_chars_props(a[i] as nat);
        if (a[i] as nat) >= 1 {
            assert(gs[i][0] != '0');
        } else {
            assert((a[i] as nat) < 10);
            assert(gs[i].len() == 1);
        }
        assert forall|k: int| 0 <= k < gs[i].len() implies #[trigger] gs[i][k] != '.' by {
            assert(is_radix_digit(gs[i][k], 10));
        }
    }
    let t = ip_format_chars(a);
    lemma_split_groups_4(gs, '.');
    assert(t =~= join_4(gs, '.'));
    assert(split_on(t, '.') == gs);
    assert(ip_value(t) =~= a);
}

/// Law: a valid dotted-decimal text whose groups carry no leading zero is
/// reproduced exactly: `format(parse(s)) == s`.
pub proof fn lemma_ip_canonical_format(s: Seq<char>)
    requires
        ip_canonical_chars(s),
    ensures
        ip_format_chars(ip_value(s)) == s,
{
    let gs = split_on(s, '.');
    assert forall|i: int| 0 <= i < 4 implies dec_chars(group_val(#[trigger] gs[i], 10))
        == gs[i] by {
        lemma_dec_chars_canonical(gs[i]);
    }
    let a = ip_value(s);
    lemma_join_split(s, '.');
    assert(gs =~= seq![gs[0], gs[1], gs[2], gs[3]]);
    lemma_join_unfold_4(seq![gs[0], gs[1], gs[2], gs[3]], '.');
    assert(ip_format_chars(a) =~= join_4(gs, '.'));
    assert(ip_format_chars(a) == s);
}

} // verus!
