//! The textual form of IP addresses.
//!
//! An IPv4 address is four decimal numbers of at most 255, without leading
//! zeros, between dots. An IPv6 address is eight groups of one to four
//! hexadecimal digits between colons; one `::` may stand for the zero groups
//! that are missing (at least one), and the last two groups may be written as
//! an IPv4 address.

use crate::addr::IpAddr;
use crate::text::{
    all_digits, lemma_sep_positions, number_value, piece, read_number, sep_positions, separators,
    split,
};
use vstd::prelude::*;
use vstd::slice::slice_subrange;

verus! {

/// What `s` spells as one of the four numbers of an IPv4 address.
pub open spec fn octet(s: Seq<char>) -> Option<u8> {
    if 1 <= s.len() <= 3 && all_digits(s, 10) && (s.len() == 1 || s[0] != '0') && number_value(
        s,
        10,
    ) <= 255 {
        Some(number_value(s, 10) as u8)
    } else {
        None
    }
}

/// The address that four octets make, the first the most significant.
pub open spec fn ipv4_of(a: u8, b: u8, c: u8, d: u8) -> u32 {
    (((a as int * 256 + b as int) * 256 + c as int) * 256 + d as int) as u32
}

/// What `s` spells as an IPv4 address.
pub open spec fn ipv4_literal(s: Seq<char>) -> Option<u32> {
    let parts = split(s, '.');
    if parts.len() == 4 && octet(parts[0]) is Some && octet(parts[1]) is Some && octet(
        parts[2],
    ) is Some && octet(parts[3]) is Some {
        Some(ipv4_of(octet(parts[0])->0, octet(parts[1])->0, octet(parts[2])->0, octet(parts[3])->0))
    } else {
        None
    }
}

/// What `s` spells as one group of an IPv6 address.
pub open spec fn hex_group(s: Seq<char>) -> Option<u16> {
    if 1 <= s.len() <= 4 && all_digits(s, 16) {
        Some(number_value(s, 16) as u16)
    } else {
        None
    }
}

/// The groups that `parts` spell, one each; the last of them may be an IPv4
/// address, which gives two groups, where `dotted_tail` allows it.
pub open spec fn groups_of(parts: Seq<Seq<char>>, dotted_tail: bool) -> Option<Seq<u16>>
    decreases parts.len(),
{
    if parts.len() == 0 {
        Some(Seq::empty())
    } else {
        match groups_of(parts.drop_last(), false) {
            None => None,
            Some(front) => match hex_group(parts.last()) {
                Some(group) => Some(front.push(group)),
                None => match ipv4_literal(parts.last()) {
                    Some(v) => if dotted_tail {
                        Some(front.push((v / 65536) as u16).push((v % 65536) as u16))
                    } else {
                        None
                    },
                    None => None,
                },
            },
        }
    }
}

/// The groups that a run of text between colons spells; no group for no text.
pub open spec fn groups_in(s: Seq<char>, dotted_tail: bool) -> Option<Seq<u16>> {
    if s.len() == 0 {
        Some(Seq::empty())
    } else {
        groups_of(split(s, ':'), dotted_tail)
    }
}

/// The first place from `from` on at which two colons stand side by side.
pub open spec fn double_colon_from(s: Seq<char>, from: int) -> Option<int>
    decreases s.len() - from,
{
    if from < 0 || from + 1 >= s.len() {
        None
    } else if s[from] == ':' && s[from + 1] == ':' {
        Some(from)
    } else {
        double_colon_from(s, from + 1)
    }
}

/// The address that eight groups make, the first the most significant.
pub open spec fn ipv6_of(groups: Seq<u16>) -> u128 {
    (((((((groups[0] as int * 65536 + groups[1] as int) * 65536 + groups[2] as int) * 65536
        + groups[3] as int) * 65536 + groups[4] as int) * 65536 + groups[5] as int) * 65536
        + groups[6] as int) * 65536 + groups[7] as int) as u128
}

/// `count` zero groups.
pub open spec fn zero_groups(count: int) -> Seq<u16> {
    Seq::new(count as nat, |i: int| 0u16)
}

/// What `s` spells as an IPv6 address.
pub open spec fn ipv6_literal(s: Seq<char>) -> Option<u128> {
    match double_colon_from(s, 0) {
        None => match groups_of(split(s, ':'), true) {
            Some(groups) => if groups.len() == 8 {
                Some(ipv6_of(groups))
            } else {
                None
            },
            None => None,
        },
        Some(at) => match (groups_in(s.take(at), false), groups_in(s.skip(at + 2), true)) {
            (Some(head), Some(tail)) => if head.len() + tail.len() <= 7 {
                Some(ipv6_of(head + zero_groups(8 - head.len() - tail.len()) + tail))
            } else {
                None
            },
            _ => None,
        },
    }
}

/// What `s` spells as an IP address of either family.
pub open spec fn ip_literal(s: Seq<char>) -> Option<IpAddr> {
    match ipv4_literal(s) {
        Some(v) => Some(IpAddr::V4(v)),
        None => match ipv6_literal(s) {
            Some(v) => Some(IpAddr::V6(v)),
            None => None,
        },
    }
}

/// Up to four hexadecimal digits spell a number below 65536.
proof fn lemma_group_fits(s: Seq<char>)
    requires
        s.len() <= 4,
        all_digits(s, 16),
    ensures
        0 <= number_value(s, 16) <= 0xffff,
        s.len() <= 3 ==> number_value(s, 16) <= 0xfff,
        s.len() <= 2 ==> number_value(s, 16) <= 0xff,
        s.len() <= 1 ==> number_value(s, 16) <= 0xf,
    decreases s.len(),
{
    if s.len() > 0 {
        let front = s.drop_last();
        assert forall|i: int| 0 <= i < front.len() implies crate::text::is_digit(
            #[trigger] front[i],
            16,
        ) by {
            assert(front[i] == s[i]);
        }
        lemma_group_fits(front);
        assert(crate::text::is_digit(s[s.len() - 1], 16));
    }
}

/// Once the parts before the last fail to spell groups, so does the whole.
proof fn lemma_groups_fail(parts: Seq<Seq<char>>, dotted_tail: bool, upto: int)
    requires
        0 <= upto < parts.len(),
        groups_of(parts.take(upto), false) is None,
    ensures
        groups_of(parts, dotted_tail) is None,
    decreases parts.len() - upto,
{
    if upto + 1 < parts.len() {
        assert(parts.take(upto + 1).drop_last() =~= parts.take(upto));
        lemma_groups_fail(parts, dotted_tail, upto + 1);
    } else {
        assert(parts.drop_last() =~= parts.take(upto));
    }
}

/// One of the four numbers of an IPv4 address.
fn read_octet(part: &[char]) -> (value: Option<u8>)
    ensures
        value == octet(part@),
{
    let len = part.len();
    if len < 1 || len > 3 {
        return None;
    }
    if len > 1 && part[0] == '0' {
        return None;
    }
    match read_number(part, 10, 255) {
        Some(n) => Some(n as u8),
        None => None,
    }
}

/// What `text` spells as an IPv4 address, if anything.
pub fn read_ipv4(text: &[char]) -> (address: Option<u32>)
    ensures
        address == ipv4_literal(text@),
{
    let cuts = separators(text, '.');
    if cuts.len() != 3 {
        return None;
    }
    let a = read_octet(piece(text, '.', &cuts, 0));
    let b = read_octet(piece(text, '.', &cuts, 1));
    let c = read_octet(piece(text, '.', &cuts, 2));
    let d = read_octet(piece(text, '.', &cuts, 3));
    match (a, b, c, d) {
        (Some(a), Some(b), Some(c), Some(d)) => {
            let value: u32 = (((a as u32) * 256 + (b as u32)) * 256 + (c as u32)) * 256 + (
            d as u32);
            Some(value)
        },
        _ => None,
    }
}

/// One group of an IPv6 address.
fn read_hex_group(part: &[char]) -> (value: Option<u16>)
    ensures
        value == hex_group(part@),
{
    let len = part.len();
    if len < 1 || len > 4 {
        return None;
    }
    proof {
        if all_digits(part@, 16) {
            lemma_group_fits(part@);
        }
    }
    match read_number(part, 16, 0xffff) {
        Some(n) => Some(n as u16),
        None => None,
    }
}

/// The groups that the parts of `text` between colons spell.
fn read_groups(text: &[char], dotted_tail: bool) -> (groups: Option<Vec<u16>>)
    ensures
        groups is Some <==> groups_in(text@, dotted_tail) is Some,
        groups matches Some(g) ==> groups_in(text@, dotted_tail) == Some(g@),
{
    let mut groups: Vec<u16> = Vec::new();
    if text.len() == 0 {
        return Some(groups);
    }
    let cuts = separators(text, ':');
    let ghost parts = split(text@, ':');
    let last: usize = cuts.len();
    let mut k: usize = 0;
    assert(parts.take(0) =~= Seq::<Seq<char>>::empty());
    while k < last
        invariant
            0 <= k <= last,
            last == cuts@.len(),
            parts == split(text@, ':'),
            parts.len() == last + 1,
            crate::text::same_places(cuts@, sep_positions(text@, ':')),
            groups_of(parts.take(k as int), false) == Some(groups@),
        decreases last - k,
    {
        let part = piece(text, ':', &cuts, k);
        assert(parts.take(k + 1).drop_last() =~= parts.take(k as int));
        assert(parts.take(k + 1).last() == parts[k as int]);
        match read_hex_group(part) {
            Some(group) => {
                groups.push(group);
            },
            None => {
                proof {
                    lemma_groups_fail(parts, dotted_tail, k + 1);
                }
                return None;
            },
        }
        k += 1;
    }
    let part = piece(text, ':', &cuts, last);
    assert(parts.drop_last() =~= parts.take(last as int));
    assert(parts.last() == parts[last as int]);
    match read_hex_group(part) {
        Some(group) => {
            groups.push(group);
            Some(groups)
        },
        None => {
            if !dotted_tail {
                return None;
            }
            match read_ipv4(part) {
                Some(v) => {
                    groups.push((v / 65536) as u16);
                    groups.push((v % 65536) as u16);
                    Some(groups)
                },
                None => None,
            }
        },
    }
}

/// The first place at which two colons stand side by side.
fn find_double_colon(text: &[char]) -> (at: Option<usize>)
    ensures
        at is Some <==> double_colon_from(text@, 0) is Some,
        at matches Some(k) ==> double_colon_from(text@, 0) == Some(k as int) && k + 2
            <= text@.len(),
{
    let len = text.len();
    if len < 2 {
        return None;
    }
    let mut i: usize = 0;
    while i < len - 1
        invariant
            0 <= i < len,
            len == text@.len(),
            double_colon_from(text@, 0) == double_colon_from(text@, i as int),
        decreases len - i,
    {
        if text[i] == ':' && text[i + 1] == ':' {
            return Some(i);
        }
        i += 1;
    }
    None
}

/// The address that eight groups make.
fn join_groups(groups: &Vec<u16>) -> (address: u128)
    requires
        groups@.len() == 8,
    ensures
        address == ipv6_of(groups@),
{
    let g0 = groups[0] as u128;
    let g1 = groups[1] as u128;
    let g2 = groups[2] as u128;
    let g3 = groups[3] as u128;
    let g4 = groups[4] as u128;
    let g5 = groups[5] as u128;
    let g6 = groups[6] as u128;
    let g7 = groups[7] as u128;
    let a1 = g0 * 65536 + g1;
    let a2 = a1 * 65536 + g2;
    let a3 = a2 * 65536 + g3;
    let a4 = a3 * 65536 + g4;
    let a5 = a4 * 65536 + g5;
    let a6 = a5 * 65536 + g6;
    a6 * 65536 + g7
}

/// What `text` spells as an IPv6 address, if anything.
pub fn read_ipv6(text: &[char]) -> (address: Option<u128>)
    ensures
        address == ipv6_literal(text@),
{
    match find_double_colon(text) {
        None => {
            if text.len() == 0 {
                proof {
                    lemma_sep_positions(text@, ':');
                    let parts = split(text@, ':');
                    assert(parts.drop_last() =~= Seq::<Seq<char>>::empty());
                    assert(parts.last() =~= text@);
                    lemma_sep_positions(text@, '.');
                }
                return None;
            }
            match read_groups(text, true) {
                Some(groups) => if groups.len() == 8 {
                    Some(join_groups(&groups))
                } else {
                    None
                },
                None => None,
            }
        },
        Some(at) => {
            let len = text.len();
            let head = read_groups(slice_subrange(text, 0, at), false);
            let tail = read_groups(slice_subrange(text, at + 2, len), true);
            match (head, tail) {
                (Some(head), Some(tail)) => {
                    if head.len() > 7 || tail.len() > 7 - head.len() {
                        return None;
                    }
                    let mut all: Vec<u16> = head;
                    let ghost front = all@;
                    let fill: usize = 8 - all.len() - tail.len();
                    let mut i: usize = 0;
                    while i < fill
                        invariant
                            0 <= i <= fill,
                            all@ == front + zero_groups(i as int),
                        decreases fill - i,
                    {
                        all.push(0);
                        i += 1;
                        assert(all@ =~= front + zero_groups(i as int));
                    }
                    let mut j: usize = 0;
                    while j < tail.len()
                        invariant
                            0 <= j <= tail@.len(),
                            all@ == front + zero_groups(fill as int) + tail@.take(j as int),
                        decreases tail@.len() - j,
                    {
                        all.push(tail[j]);
                        j += 1;
                        assert(all@ =~= front + zero_groups(fill as int) + tail@.take(j as int));
                    }
                    assert(tail@.take(j as int) =~= tail@);
                    Some(join_groups(&all))
                },
                _ => None,
            }
        },
    }
}

/// What `text` spells as an IP address of either family, if anything.
pub fn read_ip(text: &[char]) -> (address: Option<IpAddr>)
    ensures
        address == ip_literal(text@),
{
    match read_ipv4(text) {
        Some(v) => Some(IpAddr::V4(v)),
        None => match read_ipv6(text) {
            Some(v) => Some(IpAddr::V6(v)),
            None => None,
        },
    }
}

} // verus!
