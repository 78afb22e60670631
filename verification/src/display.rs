//! How numbers, addresses and blocks are written.
//!
//! An IPv4 address is written as four decimal numbers between dots. An IPv6
//! address is written as groups of lower-case hexadecimal digits between
//! colons, without leading zeros; the first of its longest runs of zero groups
//! is written as `::` if it is longer than one group, and an address that maps
//! an IPv4 address ends in that address's dotted form.

use crate::addr::{IpAddr, IpNetwork};
use vstd::prelude::*;
use vstd::string::StringExecFns;

verus! {

/// The digits, each at the place of its value.
pub open spec fn digits() -> Seq<char> {
    seq!['0', '1', '2', '3', '4', '5', '6', '7', '8', '9', 'a', 'b', 'c', 'd', 'e', 'f']
}

/// How `n` is written to the base `radix`, without leading zeros.
pub open spec fn number_text(n: int, radix: int) -> Seq<char>
    decreases n,
    via number_text_decreases
{
    if 2 <= radix <= 16 && n >= radix {
        number_text(n / radix, radix).push(digits()[n % radix])
    } else if 0 <= n < 16 {
        seq![digits()[n]]
    } else {
        Seq::empty()
    }
}

#[via_fn]
proof fn number_text_decreases(n: int, radix: int) {
    if 2 <= radix <= 16 && n >= radix {
        assert(0 <= n / radix < n) by (nonlinear_arith)
            requires
                2 <= radix <= n,
        ;
    }
}

/// How `address` is written: its four bytes in decimal, between dots.
pub open spec fn ipv4_text(address: u32) -> Seq<char> {
    number_text(address as int / 0x100_0000, 10) + "."@ + number_text(
        address as int / 0x1_0000 % 256,
        10,
    ) + "."@ + number_text(address as int / 0x100 % 256, 10) + "."@ + number_text(
        address as int % 256,
        10,
    )
}

/// The eight groups of `address`, the most significant first.
pub open spec fn segments(address: u128) -> Seq<u16> {
    seq![
        (address / 0x1_0000_0000_0000_0000_0000_0000_0000) as u16,
        (address / 0x1_0000_0000_0000_0000_0000_0000 % 0x1_0000) as u16,
        (address / 0x1_0000_0000_0000_0000_0000 % 0x1_0000) as u16,
        (address / 0x1_0000_0000_0000_0000 % 0x1_0000) as u16,
        (address / 0x1_0000_0000_0000 % 0x1_0000) as u16,
        (address / 0x1_0000_0000 % 0x1_0000) as u16,
        (address / 0x1_0000 % 0x1_0000) as u16,
        (address % 0x1_0000) as u16,
    ]
}

/// The state of a walk over the first `upto` groups that looks for zero runs:
/// where the longest run seen begins, its length, and the length of the run
/// that ends at the last group seen. A later run takes the place of an earlier
/// one only if it is longer.
pub open spec fn zero_run_scan(groups: Seq<u16>, upto: int) -> (int, int, int)
    decreases upto,
{
    if upto <= 0 {
        (0, 0, 0)
    } else {
        let (start, longest, current) = zero_run_scan(groups, upto - 1);
        if groups[upto - 1] != 0 {
            (start, longest, 0)
        } else if current + 1 > longest {
            (upto - 1 - current, current + 1, current + 1)
        } else {
            (start, longest, current + 1)
        }
    }
}

/// Whether the `len` groups from `start` on are all zero.
pub open spec fn zero_run(groups: Seq<u16>, start: int, len: int) -> bool {
    &&& 0 <= start
    &&& 0 <= len
    &&& start + len <= groups.len()
    &&& forall|k: int| start <= k < start + len ==> #[trigger] groups[k] == 0
}

/// The walk finds the first of the longest runs of zero groups: the run it
/// names is one, no run among the groups seen is longer, and none of the same
/// length begins before it.
pub proof fn lemma_zero_run_scan(groups: Seq<u16>, upto: int)
    requires
        0 <= upto <= groups.len(),
    ensures
        ({
            let (start, longest, current) = zero_run_scan(groups, upto);
            &&& start + longest <= upto
            &&& 0 <= current <= upto
            &&& zero_run(groups, start, longest)
            &&& zero_run(groups, upto - current, current)
            &&& upto - current > 0 ==> groups[upto - current - 1] != 0
            &&& forall|a: int, len: int|
                zero_run(groups, a, len) && a + len <= upto ==> len <= longest && (len
                    == longest && len > 0 ==> start <= a)
        }),
    decreases upto,
{
    if upto > 0 {
        lemma_zero_run_scan(groups, upto - 1);
        let (start0, longest0, current0) = zero_run_scan(groups, upto - 1);
        let (start, longest, current) = zero_run_scan(groups, upto);
        assert forall|a: int, len: int| zero_run(groups, a, len) && a + len <= upto implies len
            <= longest && (len == longest && len > 0 ==> start <= a) by {
            if a + len == upto && len > 0 {
                // the run ends at the last group seen, so that group is zero
                assert(groups[upto - 1] == 0);
                // and it begins no earlier than the run that the walk is in
                if a < upto - current {
                    assert(groups[upto - current - 1] == 0);
                }
                if len > 1 {
                    assert(zero_run(groups, a, len - 1));
                }
            } else if len > 0 {
                assert(zero_run(groups, a, len) && a + len <= upto - 1);
            }
        }
    }
}

/// How `groups` are written one after the other, with colons between them.
pub open spec fn groups_text(groups: Seq<u16>) -> Seq<char>
    decreases groups.len(),
{
    if groups.len() == 0 {
        Seq::empty()
    } else if groups.len() == 1 {
        number_text(groups[0] as int, 16)
    } else {
        groups_text(groups.drop_last()) + ":"@ + number_text(groups.last() as int, 16)
    }
}

/// How `address` is written.
pub open spec fn ipv6_text(address: u128) -> Seq<char> {
    let groups = segments(address);
    if address / 0x1_0000_0000 == 0xffff {
        "::ffff:"@ + ipv4_text((address % 0x1_0000_0000) as u32)
    } else {
        let (start, longest, _) = zero_run_scan(groups, 8);
        if longest > 1 {
            groups_text(groups.take(start)) + "::"@ + groups_text(groups.skip(start + longest))
        } else {
            groups_text(groups)
        }
    }
}

/// How `ip` is written.
pub open spec fn ip_text(ip: IpAddr) -> Seq<char> {
    match ip {
        IpAddr::V4(a) => ipv4_text(a),
        IpAddr::V6(a) => ipv6_text(a),
    }
}

/// How `net` is written: its address, a slash and its prefix length.
pub open spec fn network_text(net: IpNetwork) -> Seq<char> {
    ip_text(net.network_address) + "/"@ + number_text(net.netmask as int, 10)
}

/// The digit of the value `d`, as a text.
fn digit_str(d: u64) -> (s: &'static str)
    requires
        d < 16,
    ensures
        s@ == seq![digits()[d as int]],
{
    let s = match d {
        0 => "0",
        1 => "1",
        2 => "2",
        3 => "3",
        4 => "4",
        5 => "5",
        6 => "6",
        7 => "7",
        8 => "8",
        9 => "9",
        10 => "a",
        11 => "b",
        12 => "c",
        13 => "d",
        14 => "e",
        _ => "f",
    };
    proof {
        reveal_strlit("0");
        reveal_strlit("1");
        reveal_strlit("2");
        reveal_strlit("3");
        reveal_strlit("4");
        reveal_strlit("5");
        reveal_strlit("6");
        reveal_strlit("7");
        reveal_strlit("8");
        reveal_strlit("9");
        reveal_strlit("a");
        reveal_strlit("b");
        reveal_strlit("c");
        reveal_strlit("d");
        reveal_strlit("e");
        reveal_strlit("f");
        assert(s@ =~= seq![digits()[d as int]]);
    }
    s
}

/// Writes `n` to the base `radix` at the end of `out`.
pub fn append_number(out: &mut String, n: u64, radix: u64)
    requires
        radix == 10 || radix == 16,
    ensures
        final(out)@ == old(out)@ + number_text(n as int, radix as int),
    decreases n,
{
    if n >= radix {
        append_number(out, n / radix, radix);
        out.append(digit_str(n % radix));
        assert(old(out)@ + number_text(n as int / radix as int, radix as int) + seq![
            digits()[n as int % radix as int],
        ] =~= old(out)@ + number_text(n as int, radix as int));
    } else {
        out.append(digit_str(n));
    }
}

/// Writes `address` at the end of `out`.
pub fn append_ipv4(out: &mut String, address: u32)
    ensures
        final(out)@ == old(out)@ + ipv4_text(address),
{
    append_number(out, (address / 0x100_0000) as u64, 10);
    out.append(".");
    append_number(out, (address / 0x1_0000 % 256) as u64, 10);
    out.append(".");
    append_number(out, (address / 0x100 % 256) as u64, 10);
    out.append(".");
    append_number(out, (address % 256) as u64, 10);
    assert(final(out)@ =~= old(out)@ + ipv4_text(address));
}

/// The eight groups of `address`.
fn segments_of(address: u128) -> (groups: Vec<u16>)
    ensures
        groups@ == segments(address),
{
    let mut groups: Vec<u16> = Vec::new();
    groups.push((address / 0x1_0000_0000_0000_0000_0000_0000_0000) as u16);
    groups.push((address / 0x1_0000_0000_0000_0000_0000_0000 % 0x1_0000) as u16);
    groups.push((address / 0x1_0000_0000_0000_0000_0000 % 0x1_0000) as u16);
    groups.push((address / 0x1_0000_0000_0000_0000 % 0x1_0000) as u16);
    groups.push((address / 0x1_0000_0000_0000 % 0x1_0000) as u16);
    groups.push((address / 0x1_0000_0000 % 0x1_0000) as u16);
    groups.push((address / 0x1_0000 % 0x1_0000) as u16);
    groups.push((address % 0x1_0000) as u16);
    assert(groups@ =~= segments(address));
    groups
}

/// Writes the groups from `from` up to `to` at the end of `out`, with colons
/// between them.
fn append_groups(out: &mut String, groups: &Vec<u16>, from: usize, to: usize)
    requires
        from <= to <= groups@.len(),
    ensures
        final(out)@ == old(out)@ + groups_text(groups@.subrange(from as int, to as int)),
{
    let mut i: usize = from;
    assert(groups@.subrange(from as int, from as int) =~= Seq::<u16>::empty());
    assert(out@ =~= old(out)@ + groups_text(groups@.subrange(from as int, i as int)));
    while i < to
        invariant
            from <= i <= to <= groups@.len(),
            out@ == old(out)@ + groups_text(groups@.subrange(from as int, i as int)),
        decreases to - i,
    {
        let ghost before = groups@.subrange(from as int, i as int);
        let ghost after = groups@.subrange(from as int, i + 1);
        assert(after.drop_last() =~= before);
        assert(after.last() == groups@[i as int]);
        if i > from {
            out.append(":");
        }
        append_number(out, groups[i] as u64, 16);
        i += 1;
        assert(out@ =~= old(out)@ + groups_text(after));
    }
}

/// Where the first of the longest runs of zero groups begins, and its length.
fn longest_zero_run(groups: &Vec<u16>) -> (run: (usize, usize))
    requires
        groups@.len() == 8,
    ensures
        run.0 == zero_run_scan(groups@, 8).0,
        run.1 == zero_run_scan(groups@, 8).1,
        run.0 + run.1 <= 8,
{
    let mut start: usize = 0;
    let mut longest: usize = 0;
    let mut current: usize = 0;
    let mut i: usize = 0;
    while i < 8
        invariant
            0 <= i <= 8,
            groups@.len() == 8,
            zero_run_scan(groups@, i as int) == (start as int, longest as int, current as int),
            current <= i,
            start + longest <= i,
        decreases 8 - i,
    {
        if groups[i] != 0 {
            current = 0;
        } else if current + 1 > longest {
            start = i - current;
            longest = current + 1;
            current = current + 1;
        } else {
            current = current + 1;
        }
        i += 1;
    }
    (start, longest)
}

/// Writes `address` at the end of `out`.
pub fn append_ipv6(out: &mut String, address: u128)
    ensures
        final(out)@ == old(out)@ + ipv6_text(address),
{
    if address / 0x1_0000_0000 == 0xffff {
        out.append("::ffff:");
        append_ipv4(out, (address % 0x1_0000_0000) as u32);
        assert(final(out)@ =~= old(out)@ + ipv6_text(address));
        return ;
    }
    let groups = segments_of(address);
    let (start, longest) = longest_zero_run(&groups);
    if longest > 1 {
        append_groups(out, &groups, 0, start);
        out.append("::");
        append_groups(out, &groups, start + longest, 8);
        assert(groups@.subrange(0, start as int) =~= groups@.take(start as int));
        assert(groups@.subrange(start + longest, 8) =~= groups@.skip(start + longest));
        assert(final(out)@ =~= old(out)@ + ipv6_text(address));
    } else {
        append_groups(out, &groups, 0, 8);
        assert(groups@.subrange(0, 8) =~= groups@);
    }
}

/// Writes `ip` at the end of `out`.
pub fn append_ip(out: &mut String, ip: IpAddr)
    ensures
        final(out)@ == old(out)@ + ip_text(ip),
{
    match ip {
        IpAddr::V4(a) => append_ipv4(out, a),
        IpAddr::V6(a) => append_ipv6(out, a),
    }
}

impl IpAddr {
    /// The address as it is written.
    pub fn to_string(&self) -> (text: String)
        ensures
            text@ == ip_text(*self),
    {
        let mut out = String::new();
        append_ip(&mut out, *self);
        assert(out@ =~= ip_text(*self));
        out
    }
}

impl IpNetwork {
    /// The block as it is written: its address, a slash and its prefix length.
    pub fn to_string(&self) -> (text: String)
        ensures
            text@ == network_text(*self),
    {
        let mut out = String::new();
        append_ip(&mut out, self.network_address);
        out.append("/");
        append_number(&mut out, self.netmask as u64, 10);
        assert(out@ =~= network_text(*self));
        out
    }
}

} // verus!
