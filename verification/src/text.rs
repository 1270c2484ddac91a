//! Textual form of addresses: splitting on a separator, digit groups in a
//! radix, and canonical (zero-padded hexadecimal / plain decimal) formatting.

use vstd::arithmetic::div_mod::lemma_fundamental_div_mod_converse;
use vstd::prelude::*;
use vstd::seq_lib::*;
use vstd::string::*;

verus! {

/// Is `c` a digit of the given radix (10 or 16)?  Hexadecimal accepts both
/// cases.
pub open spec fn is_radix_digit(c: char, radix: nat) -> bool {
    ('0' <= c && c <= '9') || (radix == 16 && (('a' <= c && c <= 'f') || ('A' <= c && c
        <= 'F')))
}

/// Numeric value of a digit character; 0 for anything else.
pub open spec fn digit_val(c: char) -> nat {
    if '0' <= c && c <= '9' {
        (c as int - '0' as int) as nat
    } else if 'a' <= c && c <= 'f' {
        (c as int - 'a' as int + 10) as nat
    } else if 'A' <= c && c <= 'F' {
        (c as int - 'A' as int + 10) as nat
    } else {
        0
    }
}

/// Value of a digit string read in the given radix.
pub open spec fn group_val(s: Seq<char>, radix: nat) -> nat
    decreases s.len(),
{
    if s.len() == 0 {
        0
    } else {
        group_val(s.drop_last(), radix) * radix + digit_val(s.last())
    }
}

/// A group is well formed when it is nonempty, consists of digits of the
/// radix, and its value fits in one octet.
pub open spec fn valid_group(s: Seq<char>, radix: nat) -> bool {
    &&& s.len() > 0
    &&& (forall|i: int| 0 <= i < s.len() ==> is_radix_digit(s[i], radix))
    &&& group_val(s, radix) < 256
}

/// The groups of `s` between occurrences of `sep`; always at least one group,
/// and empty groups are kept, as `str::split` does.
pub open spec fn split_on(s: Seq<char>, sep: char) -> Seq<Seq<char>>
    decreases s.len(),
{
    if s.len() == 0 {
        seq![Seq::<char>::empty()]
    } else if s.last() == sep {
        split_on(s.drop_last(), sep).push(Seq::<char>::empty())
    } else {
        let r = split_on(s.drop_last(), sep);
        r.update(r.len() - 1, r.last().push(s.last()))
    }
}

/// The inverse of `split_on`: the groups joined by the separator.
pub open spec fn join_with(gs: Seq<Seq<char>>, sep: char) -> Seq<char>
    decreases gs.len(),
{
    if gs.len() == 0 {
        Seq::empty()
    } else if gs.len() == 1 {
        gs[0]
    } else {
        join_with(gs.drop_last(), sep).push(sep) + gs.last()
    }
}

/// Every group of `s` is a well-formed digit group of the radix.
pub open spec fn all_groups_valid(s: Seq<char>, sep: char, radix: nat) -> bool {
    forall|i: int|
        0 <= i < split_on(s, sep).len() ==> valid_group(#[trigger] split_on(s, sep)[i], radix)
}

/// The octet value of each group of `s`, in order.
pub open spec fn group_values(s: Seq<char>, sep: char, radix: nat) -> Seq<u8> {
    Seq::new(split_on(s, sep).len(), |i: int| group_val(split_on(s, sep)[i], radix) as u8)
}

/// The canonical character for a digit value below 16, lower case.
pub open spec fn digit_char(d: nat) -> char {
    if d == 0 {
        '0'
    } else if d == 1 {
        '1'
    } else if d == 2 {
        '2'
    } else if d == 3 {
        '3'
    } else if d == 4 {
        '4'
    } else if d == 5 {
        '5'
    } else if d == 6 {
        '6'
    } else if d == 7 {
        '7'
    } else if d == 8 {
        '8'
    } else if d == 9 {
        '9'
    } else if d == 10 {
        'a'
    } else if d == 11 {
        'b'
    } else if d == 12 {
        'c'
    } else if d == 13 {
        'd'
    } else if d == 14 {
        'e'
    } else {
        'f'
    }
}

/// Zero-padded two-digit lower-case hexadecimal form of an octet.
pub open spec fn hex_pair(b: nat) -> Seq<char> {
    seq![digit_char(b / 16), digit_char(b % 16)]
}

/// Plain decimal form of a number, no leading zeros.
pub open spec fn dec_chars(n: nat) -> Seq<char>
    decreases n,
{
    if n < 10 {
        seq![digit_char(n)]
    } else {
        dec_chars(n / 10).push(digit_char(n % 10))
    }
}

/// `split_on` yields at least one group.
pub proof fn lemma_split_len_pos(s: Seq<char>, sep: char)
    ensures
        split_on(s, sep).len() >= 1,
    decreases s.len(),
{
    if s.len() == 0 {
    } else {
        lemma_split_len_pos(s.drop_last(), sep);
    }
}

/// Appending the separator closes the current group and opens an empty one.
pub proof fn lemma_split_push_sep(s: Seq<char>, sep: char)
    ensures
        split_on(s.push(sep), sep) == split_on(s, sep).push(Seq::<char>::empty()),
{
    assert(s.push(sep).drop_last() =~= s);
    assert(s.push(sep).last() == sep);
}

/// Appending any other character extends the last group.
pub proof fn lemma_split_push_char(s: Seq<char>, sep: char, c: char)
    requires
        c != sep,
    ensures
        ({
            let r = split_on(s, sep);
            split_on(s.push(c), sep) == r.update(r.len() - 1, r.last().push(c))
        }),
{
    lemma_split_len_pos(s, sep);
    assert(s.push(c).drop_last() =~= s);
    assert(s.push(c).last() == c);
}

/// The value of a digit string never shrinks as more digits are read.
pub proof fn lemma_group_val_prefix(q: Seq<char>, k: int, radix: nat)
    requires
        radix >= 1,
        0 <= k <= q.len(),
    ensures
        group_val(q.subrange(0, k), radix) <= group_val(q, radix),
    decreases q.len() - k,
{
    if k == q.len() {
        assert(q.subrange(0, k) =~= q);
    } else {
        lemma_group_val_prefix(q, k + 1, radix);
        assert(q.subrange(0, k + 1).drop_last() =~= q.subrange(0, k));
        assert(q.subrange(0, k + 1).last() == q[k]);
        let a = group_val(q.subrange(0, k), radix);
        assert(a <= a * radix) by (nonlinear_arith)
            requires
                radix >= 1,
        ;
    }
}

/// While a scan of `s` has consumed only a prefix, every group it has closed
/// is a group of the whole of `s`, and the group it is reading is a prefix of
/// the corresponding whole group.
pub proof fn lemma_split_prefix(s: Seq<char>, sep: char, i: int)
    requires
        0 <= i <= s.len(),
    ensures
        ({
            let gp = split_on(s.subrange(0, i), sep);
            let gf = split_on(s, sep);
            &&& gp.len() <= gf.len()
            &&& (forall|j: int| 0 <= j < gp.len() - 1 ==> gf[j] == #[trigger] gp[j])
            &&& gf[gp.len() - 1].len() >= gp.last().len()
            &&& gp.last() == gf[gp.len() - 1].subrange(0, gp.last().len() as int)
        }),
    decreases s.len() - i,
{
    let gp = split_on(s.subrange(0, i), sep);
    let gf = split_on(s, sep);
    lemma_split_len_pos(s.subrange(0, i), sep);
    if i == s.len() {
        assert(s.subrange(0, i) =~= s);
        assert(gp.last() =~= gf[gp.len() - 1].subrange(0, gp.last().len() as int));
    } else {
        let c = s[i];
        assert(s.subrange(0, i + 1) =~= s.subrange(0, i).push(c));
        lemma_split_prefix(s, sep, i + 1);
        let gp1 = split_on(s.subrange(0, i + 1), sep);
        if c == sep {
            lemma_split_push_sep(s.subrange(0, i), sep);
            assert(gp1 == gp.push(Seq::<char>::empty()));
            assert forall|j: int| 0 <= j < gp.len() - 1 implies gf[j] == #[trigger] gp[j] by {
                assert(gp1[j] == gp[j]);
                assert(gf[j] == gp1[j]);
            }
            assert(gp1[gp.len() - 1] == gp.last());
            assert(gf[gp.len() - 1] == gp1[gp.len() - 1]);
            assert(gp.last() =~= gf[gp.len() - 1].subrange(0, gp.last().len() as int));
        } else {
            lemma_split_push_char(s.subrange(0, i), sep, c);
            assert(gp1 == gp.update(gp.len() - 1, gp.last().push(c)));
            assert forall|j: int| 0 <= j < gp.len() - 1 implies gf[j] == #[trigger] gp[j] by {
                assert(gp1[j] == gp[j]);
                assert(gf[j] == gp1[j]);
            }
            assert(gp1.last() == gp.last().push(c));
            assert(gp1.last() == gf[gp.len() - 1].subrange(0, gp1.last().len() as int));
            assert(gp.last() =~= gf[gp.len() - 1].subrange(0, gp.last().len() as int));
        }
    }
}

/// Classifies a character as a digit of the radix and yields its value.
/// Relied on by both address parsers.
pub fn char_digit(c: char, hex: bool) -> (r: Option<u8>)
    ensures
        r is Some <==> is_radix_digit(c, if hex { 16nat } else { 10nat }),
        r matches Some(d) ==> d == digit_val(c) && d < 16,
{
    if '0' <= c && c <= '9' {
        Some((c as u32 - '0' as u32) as u8)
    } else if hex && 'a' <= c && c <= 'f' {
        Some((c as u32 - 'a' as u32 + 10) as u8)
    } else if hex && 'A' <= c && c <= 'F' {
        Some((c as u32 - 'A' as u32 + 10) as u8)
    } else {
        None
    }
}

/// Character-wise equality of two text slices.
pub fn str_eq(a: &str, b: &str) -> (r: bool)
    ensures
        r == (a@ == b@),
{
    let na = a.unicode_len();
    let nb = b.unicode_len();
    if na != nb {
        return false;
    }
    let mut i: usize = 0;
    while i < na
        invariant
            na == a@.len(),
            na == b@.len(),
            i <= na,
            forall|j: int| 0 <= j < i ==> a@[j] == b@[j],
        decreases na - i,
    {
        if a.get_char(i) != b.get_char(i) {
            return false;
        }
        i = i + 1;
    }
    proof {
        assert(a@ =~= b@);
    }
    true
}

/// Reads `s` as separator-delimited digit groups of the radix and returns
/// the octet value of every group, exactly when all groups are well formed.
pub fn parse_groups(s: &str, sep: char, hex: bool) -> (r: Option<Vec<u8>>)
    ensures
        ({
            let radix: nat = if hex { 16nat } else { 10nat };
            match r {
                Some(v) => {
                    &&& all_groups_valid(s@, sep, radix)
                    &&& v@ == group_values(s@, sep, radix)
                },
                None => !all_groups_valid(s@, sep, radix),
            }
        }),
{
    let ghost radix: nat = if hex { 16nat } else { 10nat };
    let n = s.unicode_len();
    let mut groups: Vec<u8> = Vec::new();
    let mut acc: u16 = 0;
    let mut digits: usize = 0;
    let mut i: usize = 0;
    proof {
        assert(s@.subrange(0, 0) =~= Seq::<char>::empty());
    }
    while i < n
        invariant
            n == s@.len(),
            i <= n,
            digits <= i,
            radix == if hex { 16nat } else { 10nat },
            ({
                let gp = split_on(s@.subrange(0, i as int), sep);
                &&& groups@.len() == gp.len() - 1
                &&& (forall|j: int|
                    0 <= j < gp.len() - 1 ==> valid_group(#[trigger] gp[j], radix) && groups@[j]
                        == group_val(gp[j], radix) as u8)
                &&& gp.last().len() == digits
                &&& (forall|k: int|
                    0 <= k < gp.last().len() ==> is_radix_digit(#[trigger] gp.last()[k], radix))
                &&& group_val(gp.last(), radix) == acc as nat
                &&& acc <= 255
            }),
        decreases n - i,
    {
        let ghost gp = split_on(s@.subrange(0, i as int), sep);
        let ghost gf = split_on(s@, sep);
        proof {
            lemma_split_len_pos(s@.subrange(0, i as int), sep);
        }
        let c = s.get_char(i);
        proof {
            assert(s@.subrange(0, i as int + 1) =~= s@.subrange(0, i as int).push(c));
        }
        if c == sep {
            proof {
                lemma_split_push_sep(s@.subrange(0, i as int), sep);
            }
            if digits == 0 {
                proof {
                    lemma_split_prefix(s@, sep, i as int + 1);
                    let gp1 = split_on(s@.subrange(0, i as int + 1), sep);
                    assert(gp1 == gp.push(Seq::<char>::empty()));
                    assert(gp1[gp.len() - 1] == gp.last());
                    assert(gf[gp.len() - 1] == gp1[gp.len() - 1]);
                    assert(!valid_group(gf[gp.len() - 1], radix));
                }
                return None;
            }
            groups.push(acc as u8);
            acc = 0;
            digits = 0;
        } else {
            proof {
                lemma_split_push_char(s@.subrange(0, i as int), sep, c);
                assert(gp.last().push(c).drop_last() =~= gp.last());
            }
            match char_digit(c, hex) {
                Some(d) => {
                    let radix_u: u16 = if hex {
                        16
                    } else {
                        10
                    };
                    proof {
                        assert(acc as int * radix_u as int <= 4080) by (nonlinear_arith)
                            requires
                                acc <= 255,
                                radix_u <= 16,
                        ;
                    }
                    let v: u16 = acc * radix_u + d as u16;
                    if v > 255 {
                        proof {
                            lemma_split_prefix(s@, sep, i as int + 1);
                            let gp1 = split_on(s@.subrange(0, i as int + 1), sep);
                            assert(gp1.last() == gp.last().push(c));
                            assert(group_val(gp1.last(), radix) == v as nat);
                            lemma_group_val_prefix(
                                gf[gp.len() - 1],
                                gp1.last().len() as int,
                                radix,
                            );
                            assert(!valid_group(gf[gp.len() - 1], radix));
                        }
                        return None;
                    }
                    acc = v;
                    digits = digits + 1;
                }
                None => {
                    proof {
                        lemma_split_prefix(s@, sep, i as int + 1);
                        let gp1 = split_on(s@.subrange(0, i as int + 1), sep);
                        assert(gp1 == gp.update(gp.len() - 1, gp.last().push(c)));
                        assert(gp1.last() == gp.last().push(c));
                        assert(gp1.last() == gf[gp1.len() - 1].subrange(
                            0,
                            gp1.last().len() as int,
                        ));
                        assert(gp1.last()[digits as int] == c);
                        assert(gf[gp.len() - 1][digits as int] == c);
                        assert(!valid_group(gf[gp.len() - 1], radix));
                    }
                    return None;
                }
            }
        }
        i = i + 1;
    }
    proof {
        assert(s@.subrange(0, n as int) =~= s@);
        lemma_split_len_pos(s@, sep);
    }
    if digits == 0 {
        proof {
            let gf = split_on(s@, sep);
            assert(!valid_group(gf[gf.len() - 1], radix));
        }
        return None;
    }
    groups.push(acc as u8);
    proof {
        assert(groups@ =~= group_values(s@, sep, radix));
    }
    Some(groups)
}

/// Appending separator-free text extends the last group and nothing else.
pub proof fn lemma_split_append_nosep(s: Seq<char>, g: Seq<char>, sep: char)
    requires
        forall|k: int| 0 <= k < g.len() ==> g[k] != sep,
    ensures
        ({
            let r = split_on(s, sep);
            split_on(s + g, sep) == r.update(r.len() - 1, r.last() + g)
        }),
    decreases g.len(),
{
    lemma_split_len_pos(s, sep);
    let r = split_on(s, sep);
    if g.len() == 0 {
        assert(s + g =~= s);
        assert(r.last() + g =~= r.last());
        assert(r.update(r.len() - 1, r.last() + g) =~~= r);
    } else {
        let c = g.last();
        lemma_split_append_nosep(s, g.drop_last(), sep);
        assert(s + g =~= (s + g.drop_last()).push(c));
        lemma_split_push_char(s + g.drop_last(), sep, c);
        let r1 = split_on(s + g.drop_last(), sep);
        assert(r1.last() == r.last() + g.drop_last());
        assert((r.last() + g.drop_last()).push(c) =~= r.last() + g);
        assert(r1.update(r1.len() - 1, r1.last().push(c)) =~~= r.update(r.len() - 1, r.last() + g));
    }
}

/// Joining the groups of `s` with the separator yields `s` again.
pub proof fn lemma_join_split(s: Seq<char>, sep: char)
    ensures
        join_with(split_on(s, sep), sep) == s,
    decreases s.len(),
{
    lemma_split_len_pos(s, sep);
    if s.len() == 0 {
    } else {
        lemma_join_split(s.drop_last(), sep);
        let r = split_on(s.drop_last(), sep);
        lemma_split_len_pos(s.drop_last(), sep);
        if s.last() == sep {
            let r1 = split_on(s, sep);
            assert(r1 == r.push(Seq::<char>::empty()));
            assert(r1.drop_last() =~~= r);
            assert(r1.len() >= 2);
            assert(join_with(r1, sep) == join_with(r, sep).push(sep) + Seq::<char>::empty());
            assert(join_with(r1, sep) =~= s);
        } else {
            let c = s.last();
            let r1 = split_on(s, sep);
            assert(r1 == r.update(r.len() - 1, r.last().push(c)));
            if r.len() == 1 {
                assert(r1.len() == 1);
                assert(join_with(r1, sep) == r1[0]);
                assert(r1[0] == r[0].push(c));
                assert(join_with(r, sep) == r[0]);
                assert(join_with(r1, sep) =~= s);
            } else {
                assert(r1.drop_last() =~~= r.drop_last());
                assert(r1.last() == r.last().push(c));
                assert(join_with(r1, sep) == join_with(r.drop_last(), sep).push(sep)
                    + r.last().push(c));
                assert(join_with(r, sep) == join_with(r.drop_last(), sep).push(sep) + r.last());
                assert(join_with(r1, sep) =~= join_with(r, sep).push(c));
                assert(join_with(r1, sep) =~= s);
            }
        }
    }
}

/// Value of the empty digit string, of one digit, and of two digits.
pub proof fn lemma_group_val_small(c1: char, c2: char, radix: nat)
    ensures
        group_val(Seq::<char>::empty(), radix) == 0,
        group_val(seq![c1], radix) == digit_val(c1),
        group_val(seq![c1, c2], radix) == digit_val(c1) * radix + digit_val(c2),
{
    reveal_with_fuel(group_val, 3);
    assert(group_val(Seq::<char>::empty(), radix) == 0);
    assert(seq![c1].drop_last() =~= Seq::<char>::empty());
    assert(seq![c1].last() == c1);
    assert(group_val(seq![c1], radix) == group_val(seq![c1].drop_last(), radix) * radix
        + digit_val(c1));
    assert(group_val(seq![c1], radix) == digit_val(c1));
    assert(seq![c1, c2].drop_last() =~= seq![c1]);
    assert(seq![c1, c2].last() == c2);
    assert(group_val(seq![c1, c2], radix) == group_val(seq![c1, c2].drop_last(), radix) * radix
        + digit_val(c2));
}

/// The canonical digit characters carry their value back, are digits of
/// their radix, and are never an address separator.
pub proof fn lemma_digit_char_props(d: nat)
    requires
        d < 16,
    ensures
        digit_val(digit_char(d)) == d,
        is_radix_digit(digit_char(d), 16),
        d < 10 ==> is_radix_digit(digit_char(d), 10),
        digit_char(d) != ':',
        digit_char(d) != '.',
{
}

/// A decimal digit, or a lower-case hexadecimal one, is the canonical
/// character of its own value.
pub proof fn lemma_digit_char_inverse(c: char)
    requires
        is_radix_digit(c, 10) || ('a' <= c && c <= 'f'),
    ensures
        digit_char(digit_val(c)) == c,
{
}

/// The decimal text of an octet is a well-formed group of its own value,
/// with no leading zero.
pub proof fn lemma_dec_chars_props(n: nat)
    requires
        n < 256,
    ensures
        group_val(dec_chars(n), 10) == n,
        valid_group(dec_chars(n), 10),
        forall|k: int|
            0 <= k < dec_chars(n).len() ==> is_radix_digit(#[trigger] dec_chars(n)[k], 10),
        n >= 1 ==> dec_chars(n)[0] != '0',
        dec_chars(n).len() >= 1,
    decreases n,
{
    if n < 10 {
        lemma_digit_char_props(n);
        lemma_group_val_small(digit_char(n), '0', 10);
        assert(dec_chars(n) == seq![digit_char(n)]);
    } else {
        lemma_dec_chars_props(n / 10);
        lemma_digit_char_props(n % 10);
        let d = dec_chars(n);
        assert(d == dec_chars(n / 10).push(digit_char(n % 10)));
        assert(d.drop_last() =~= dec_chars(n / 10));
        assert(group_val(d, 10) == (n / 10) * 10 + n % 10);
        assert(d[0] == dec_chars(n / 10)[0]);
    }
}

/// The two-digit hexadecimal text of an octet is a well-formed group of its
/// own value.
pub proof fn lemma_hex_pair_props(b: nat)
    requires
        b < 256,
    ensures
        group_val(hex_pair(b), 16) == b,
        valid_group(hex_pair(b), 16),
        forall|k: int| 0 <= k < hex_pair(b).len() ==> is_radix_digit(#[trigger] hex_pair(b)[k], 16),
{
    lemma_digit_char_props(b / 16);
    lemma_digit_char_props(b % 16);
    lemma_group_val_small(digit_char(b / 16), digit_char(b % 16), 16);
    assert(group_val(hex_pair(b), 16) == (b / 16) * 16 + b % 16);
}

/// A nonzero-leading decimal group has a nonzero value.
proof fn lemma_group_val_pos(g: Seq<char>)
    requires
        g.len() >= 1,
        forall|k: int| 0 <= k < g.len() ==> is_radix_digit(#[trigger] g[k], 10),
        g[0] != '0',
    ensures
        group_val(g, 10) >= 1,
    decreases g.len(),
{
    if g.len() == 1 {
        lemma_group_val_small(g[0], '0', 10);
        assert(g =~= seq![g[0]]);
    } else {
        assert(g.drop_last()[0] == g[0]);
        lemma_group_val_pos(g.drop_last());
    }
}

/// A well-formed decimal group without a leading zero is the canonical
/// decimal text of its own value.
pub proof fn lemma_dec_chars_canonical(g: Seq<char>)
    requires
        valid_group(g, 10),
        g.len() == 1 || g[0] != '0',
    ensures
        dec_chars(group_val(g, 10)) == g,
    decreases g.len(),
{
    let n = group_val(g, 10);
    if g.len() == 1 {
        lemma_group_val_small(g[0], '0', 10);
        assert(g =~= seq![g[0]]);
        assert(n == digit_val(g[0]));
        lemma_digit_char_inverse(g[0]);
        assert(dec_chars(n) =~= g);
    } else {
        let front = g.drop_last();
        let d = digit_val(g.last());
        assert(front[0] == g[0]);
        lemma_group_val_pos(front);
        let v = group_val(front, 10);
        assert(v >= 1);
        assert(n == v * 10 + d);
        assert(v < 256) by {
            assert(v <= v * 10) by (nonlinear_arith);
        }
        lemma_fundamental_div_mod_converse(n as int, 10, v as int, d as int);
        assert(n / 10 == v && n % 10 == d);
        lemma_dec_chars_canonical(front);
        lemma_digit_char_inverse(g.last());
        assert(dec_chars(n) == dec_chars(v).push(digit_char(d)));
        assert(dec_chars(n) =~= g);
    }
}

/// A two-digit lower-case hexadecimal group is the canonical hexadecimal
/// text of its own value.
pub proof fn lemma_hex_pair_canonical(g: Seq<char>)
    requires
        g.len() == 2,
        forall|k: int|
            0 <= k < g.len() ==> is_radix_digit(#[trigger] g[k], 10) || ('a' <= g[k] && g[k]
                <= 'f'),
    ensures
        hex_pair(group_val(g, 16)) == g,
{
    let d1 = digit_val(g[0]);
    let d2 = digit_val(g[1]);
    lemma_group_val_small(g[0], g[1], 16);
    assert(g =~= seq![g[0], g[1]]);
    let b = group_val(g, 16);
    assert(b == d1 * 16 + d2);
    assert(d1 < 16 && d2 < 16);
    lemma_fundamental_div_mod_converse(b as int, 16, d1 as int, d2 as int);
    lemma_digit_char_inverse(g[0]);
    lemma_digit_char_inverse(g[1]);
    assert(hex_pair(b) =~= g);
}

/// The canonical text for one digit value, as a slice.
pub fn digit_str(d: u8) -> (r: &'static str)
    requires
        d < 16,
    ensures
        r@ == seq![digit_char(d as nat)],
{
    let r: &'static str = if d == 0 {
        "0"
    } else if d == 1 {
        "1"
    } else if d == 2 {
        "2"
    } else if d == 3 {
        "3"
    } else if d == 4 {
        "4"
    } else if d == 5 {
        "5"
    } else if d == 6 {
        "6"
    } else if d == 7 {
        "7"
    } else if d == 8 {
        "8"
    } else if d == 9 {
        "9"
    } else if d == 10 {
        "a"
    } else if d == 11 {
        "b"
    } else if d == 12 {
        "c"
    } else if d == 13 {
        "d"
    } else if d == 14 {
        "e"
    } else {
        "f"
    };
    proof {
        reveal_strlit("0");
        reveal_strlit("1");
        reveal_strlit("2");
        reveal_strlit("3");
        reveal_strlit("4");
        reveal_strlit("5");
        reveal_strlit("6");
        reveal_strlit("7");
        reveal_strlit("8");
        reveal_strlit("9");
        reveal_strlit("a");
        reveal_strlit("b");
        reveal_strlit("c");
        reveal_strlit("d");
        reveal_strlit("e");
        reveal_strlit("f");
        assert(r@ =~= seq![digit_char(d as nat)]);
    }
    r
}

/// Appends the zero-padded two-digit hexadecimal form of an octet.
pub fn push_hex_pair(out: &mut String, b: u8)
    ensures
        final (out)@ == old(out)@ + hex_pair(b as nat),
{
    out.append(digit_str(b / 16));
    out.append(digit_str(b % 16));
    proof {
        assert(out@ =~= old(out)@ + hex_pair(b as nat));
    }
}

/// Appends the plain decimal form of an octet, without leading zeros.
pub fn push_dec(out: &mut String, b: u8)
    ensures
        final (out)@ == old(out)@ + dec_chars(b as nat),
{
    if b >= 100 {
        out.append(digit_str(b / 100));
        out.append(digit_str((b / 10) % 10));
        out.append(digit_str(b % 10));
        proof {
            reveal_with_fuel(dec_chars, 4);
            assert(b as int / 10 / 10 == b as int / 100) by (nonlinear_arith);
            assert(out@ =~= old(out)@ + dec_chars(b as nat));
        }
    } else if b >= 10 {
        out.append(digit_str(b / 10));
        out.append(digit_str(b % 10));
        proof {
            reveal_with_fuel(dec_chars, 3);
            assert(out@ =~= old(out)@ + dec_chars(b as nat));
        }
    } else {
        out.append(digit_str(b));
        proof {
            reveal_with_fuel(dec_chars, 2);
            assert(out@ =~= old(out)@ + dec_chars(b as nat));
        }
    }
}

} // verus!
