//! Cuts an interval of addresses into CIDR blocks.
//!
//! The blocks are chosen greedily: at each step the widest block that starts at
//! the current address and ends inside the interval, then on from the address
//! behind it. No block is wider than half of the family's address space.

use crate::addr::{
    block_bounds, last_in_block, lemma_block_interval, lemma_host_block, lemma_narrow_block,
    truncate, IpAddr, IpNetwork,
};
use vstd::prelude::*;

verus! {

/// Whether the block of `prefix` bits at `current` starts at `current` and
/// ends at or before `end`.
pub open spec fn fits(current: IpAddr, end: IpAddr, prefix: u8) -> bool {
    &&& truncate(current, prefix) == current
    &&& last_in_block(current, prefix).value() <= end.value()
}

/// The least prefix length, from `prefix` on, whose block at `current` fits;
/// the family's full length if none does before it.
pub open spec fn widest_prefix_from(current: IpAddr, end: IpAddr, prefix: u8) -> u8
    decreases current.bits() - prefix,
{
    if prefix >= current.bits() {
        current.bits()
    } else if fits(current, end, prefix) {
        prefix
    } else {
        widest_prefix_from(current, end, (prefix + 1) as u8)
    }
}

/// The widest block that starts at `current` and ends at or before `end`,
/// among those of a prefix length of at least one.
pub open spec fn widest_block(current: IpAddr, end: IpAddr) -> IpNetwork {
    IpNetwork { network_address: current, netmask: widest_prefix_from(current, end, 1) }
}

/// The blocks that the greedy choice gives for the interval from `current` to
/// `end`: none if the two are of different families or `current` lies behind
/// `end`.
pub open spec fn cidr_cover(current: IpAddr, end: IpAddr) -> Seq<IpNetwork>
    decreases end.value() - current.value(),
    via cidr_cover_decreases
{
    if !current.same_family(end) || current.after(end) {
        Seq::empty()
    } else {
        let block = widest_block(current, end);
        if block.last().value() >= end.value() {
            seq![block]
        } else {
            seq![block] + cidr_cover(block.last().succ(), end)
        }
    }
}

#[via_fn]
proof fn cidr_cover_decreases(current: IpAddr, end: IpAddr) {
    if current.same_family(end) && !current.after(end) {
        lemma_widest_block(current, end);
    }
}

/// Whether `blocks` are well-formed, each begins at its network address, and
/// together they hold exactly the addresses from `start` to `end`, none of
/// them twice.
pub open spec fn exact_cover(blocks: Seq<IpNetwork>, start: IpAddr, end: IpAddr) -> bool {
    &&& forall|i: int| 0 <= i < blocks.len() ==> (#[trigger] blocks[i]).wf()
    &&& forall|i: int, ip: IpAddr|
        0 <= i < blocks.len() && #[trigger] blocks[i].contains(ip) ==> blocks[i].contains(
            blocks[i].network_address,
        ) && blocks[i].network_address.value() <= ip.value()
    &&& forall|ip: IpAddr|
        ip.within(start, end) <==> exists|i: int|
            0 <= i < blocks.len() && #[trigger] blocks[i].contains(ip)
    &&& forall|i: int, j: int, ip: IpAddr|
        0 <= i < j < blocks.len() ==> !(#[trigger] blocks[i].contains(ip)
            && #[trigger] blocks[j].contains(ip))
}

/// Whether `blocks` follow one another without a gap from `start` to `end`,
/// each well-formed and of a prefix length of at least one.
pub open spec fn tiles(blocks: Seq<IpNetwork>, start: IpAddr, end: IpAddr) -> bool {
    &&& blocks.len() >= 1
    &&& blocks[0].network_address == start
    &&& blocks.last().last() == end
    &&& forall|i: int|
        0 <= i < blocks.len() ==> {
            &&& (#[trigger] blocks[i]).wf()
            &&& blocks[i].netmask >= 1
            &&& blocks[i].network_address.same_family(start)
            &&& blocks[i].last().same_family(start)
            &&& blocks[i].network_address.value() <= blocks[i].last().value()
        }
    &&& forall|i: int|
        0 <= i < blocks.len() - 1 ==> (#[trigger] blocks[i + 1]).network_address.value()
            == blocks[i].last().value() + 1
}

/// A block that fits still fits with a longer prefix.
proof fn lemma_fits_narrower(current: IpAddr, end: IpAddr, prefix: u8, longer: u8)
    requires
        1 <= prefix <= longer <= current.bits(),
        fits(current, end, prefix),
    ensures
        fits(current, end, longer),
    decreases longer - prefix,
{
    if prefix < longer {
        lemma_narrow_block(current, prefix);
        lemma_fits_narrower(current, end, (prefix + 1) as u8, longer);
    }
}

/// The search from `from` ends at `prefix` if the block of `prefix` bits fits
/// and the one of a bit less does not.
proof fn lemma_widest_is(current: IpAddr, end: IpAddr, from: u8, prefix: u8)
    requires
        1 <= from <= prefix <= current.bits(),
        fits(current, end, prefix),
        prefix == 1 || !fits(current, end, (prefix - 1) as u8),
    ensures
        widest_prefix_from(current, end, from) == prefix,
    decreases prefix - from,
{
    if from < prefix {
        if fits(current, end, from) {
            lemma_fits_narrower(current, end, from, (prefix - 1) as u8);
        }
        lemma_widest_is(current, end, (from + 1) as u8, prefix);
    }
}

/// The search ends at a prefix length whose block fits.
proof fn lemma_widest_fits(current: IpAddr, end: IpAddr, from: u8)
    requires
        current.same_family(end),
        !current.after(end),
        1 <= from <= current.bits(),
    ensures
        from <= widest_prefix_from(current, end, from) <= current.bits(),
        fits(current, end, widest_prefix_from(current, end, from)),
    decreases current.bits() - from,
{
    if from >= current.bits() {
        lemma_host_block(current);
    } else if !fits(current, end, from) {
        lemma_widest_fits(current, end, (from + 1) as u8);
    }
}

/// The widest block at `current` is well-formed, starts at `current` and ends
/// at or before `end`.
pub proof fn lemma_widest_block(current: IpAddr, end: IpAddr)
    requires
        current.same_family(end),
        !current.after(end),
    ensures
        widest_block(current, end).wf(),
        1 <= widest_block(current, end).netmask,
        current.value() <= widest_block(current, end).last().value() <= end.value(),
        widest_block(current, end).last().same_family(current),
{
    lemma_widest_fits(current, end, 1);
    lemma_narrow_block(current, widest_block(current, end).netmask);
}

/// The greedy blocks of an interval follow one another without a gap from its
/// first address to its last.
pub proof fn lemma_cover_tiles(start: IpAddr, end: IpAddr)
    requires
        start.same_family(end),
        !start.after(end),
    ensures
        tiles(cidr_cover(start, end), start, end),
    decreases end.value() - start.value(),
{
    let block = widest_block(start, end);
    lemma_widest_block(start, end);
    if block.last().value() < end.value() {
        let next = block.last().succ();
        lemma_cover_tiles(next, end);
        let rest = cidr_cover(next, end);
        let all = cidr_cover(start, end);
        assert(all == seq![block] + rest);
        assert(all.last() == rest.last());
        assert forall|i: int| 0 <= i < all.len() - 1 implies (#[trigger] all[i
            + 1]).network_address.value() == all[i].last().value() + 1 by {
            if i > 0 {
                assert(all[i] == rest[i - 1]);
                assert(all[i + 1] == rest[i - 1 + 1]);
            }
        }
        assert forall|i: int| 0 <= i < all.len() implies {
            &&& (#[trigger] all[i]).wf()
            &&& all[i].netmask >= 1
            &&& all[i].network_address.same_family(start)
            &&& all[i].last().same_family(start)
            &&& all[i].network_address.value() <= all[i].last().value()
        } by {
            if i > 0 {
                assert(all[i] == rest[i - 1]);
            }
        }
    } else {
        assert(block.last() == end);
    }
}

/// In a tiling, a later block begins behind the end of an earlier one.
proof fn lemma_tiles_ordered(blocks: Seq<IpNetwork>, start: IpAddr, end: IpAddr, i: int, j: int)
    requires
        tiles(blocks, start, end),
        0 <= i < j < blocks.len(),
    ensures
        blocks[i].last().value() < blocks[j].network_address.value(),
    decreases j - i,
{
    if i + 1 < j {
        lemma_tiles_ordered(blocks, start, end, i, j - 1);
        assert(blocks[j - 1 + 1] == blocks[j]);
    } else {
        assert(blocks[i + 1] == blocks[j]);
    }
}

/// In a tiling, an address of the interval at or behind the start of block
/// `from` lies in that block or a later one.
proof fn lemma_tiles_reach(
    blocks: Seq<IpNetwork>,
    start: IpAddr,
    end: IpAddr,
    ip: IpAddr,
    from: int,
) -> (at: int)
    requires
        tiles(blocks, start, end),
        ip.within(start, end),
        0 <= from < blocks.len(),
        blocks[from].network_address.value() <= ip.value(),
    ensures
        0 <= at < blocks.len(),
        blocks[at].contains(ip),
    decreases blocks.len() - from,
{
    lemma_block_interval(blocks[from], ip);
    if ip.value() <= blocks[from].last().value() {
        from
    } else {
        if from == blocks.len() - 1 {
            assert(blocks[from] == blocks.last());
        }
        assert(blocks[from + 1].network_address.value() == blocks[from].last().value() + 1);
        lemma_tiles_reach(blocks, start, end, ip, from + 1)
    }
}

/// Blocks that tile an interval hold exactly its addresses, each once.
pub proof fn lemma_tiles_cover(blocks: Seq<IpNetwork>, start: IpAddr, end: IpAddr)
    requires
        tiles(blocks, start, end),
        start.same_family(end),
    ensures
        exact_cover(blocks, start, end),
{
    assert forall|ip: IpAddr| ip.within(start, end) implies exists|i: int|
        0 <= i < blocks.len() && #[trigger] blocks[i].contains(ip) by {
        let at = lemma_tiles_reach(blocks, start, end, ip, 0);
        assert(blocks[at].contains(ip));
    }
    assert forall|ip: IpAddr|
        (exists|i: int| 0 <= i < blocks.len() && #[trigger] blocks[i].contains(ip))
        implies ip.within(start, end) by {
        let i = choose|i: int| 0 <= i < blocks.len() && #[trigger] blocks[i].contains(ip);
        lemma_block_interval(blocks[i], ip);
        if 0 < i {
            lemma_tiles_ordered(blocks, start, end, 0, i);
        }
        if i < blocks.len() - 1 {
            lemma_tiles_ordered(blocks, start, end, i, blocks.len() - 1);
        }
        assert(blocks[blocks.len() - 1] == blocks.last());
    }
    assert forall|i: int, ip: IpAddr|
        0 <= i < blocks.len() && #[trigger] blocks[i].contains(ip) implies blocks[i].contains(
        blocks[i].network_address,
    ) && blocks[i].network_address.value() <= ip.value() by {
        lemma_block_interval(blocks[i], ip);
        lemma_block_interval(blocks[i], blocks[i].network_address);
    }
    assert forall|i: int, j: int, ip: IpAddr| 0 <= i < j < blocks.len() implies !(
    #[trigger] blocks[i].contains(ip) && #[trigger] blocks[j].contains(ip)) by {
        lemma_tiles_ordered(blocks, start, end, i, j);
        lemma_block_interval(blocks[i], ip);
        lemma_block_interval(blocks[j], ip);
    }
}

/// The greedy blocks of an interval are disjoint, hold exactly the addresses
/// of the interval, and each starts at its own network address.
pub proof fn lemma_cover_exact(start: IpAddr, end: IpAddr)
    requires
        start.same_family(end),
        !start.after(end),
    ensures
        exact_cover(cidr_cover(start, end), start, end),
{
    lemma_cover_tiles(start, end);
    lemma_tiles_cover(cidr_cover(start, end), start, end);
}

/// The widest block at `current` that ends at or before `end`, with its last
/// address.
fn widest_block_at(current: IpAddr, end: IpAddr) -> (r: (IpNetwork, IpAddr))
    requires
        current.same_family(end),
        !current.after(end),
    ensures
        r.0 == widest_block(current, end),
        r.1 == r.0.last(),
{
    let max: u8 = match current {
        IpAddr::V4(_) => 32,
        IpAddr::V6(_) => 128,
    };
    let (_, host_last) = block_bounds(current, max);
    let mut prefix: u8 = max;
    let mut last: IpAddr = host_last;
    proof {
        lemma_host_block(current);
    }
    while prefix > 1
        invariant
            max == current.bits(),
            current.same_family(end),
            1 <= prefix <= max,
            fits(current, end, prefix),
            last == last_in_block(current, prefix),
        ensures
            prefix == 1 || !fits(current, end, (prefix - 1) as u8),
        decreases prefix,
    {
        let next: u8 = prefix - 1;
        let (first, next_last) = block_bounds(current, next);
        if first != current {
            break ;
        }
        proof {
            lemma_narrow_block(current, next);
        }
        if next_last.is_after(&end) {
            break ;
        }
        prefix = next;
        last = next_last;
    }
    proof {
        lemma_widest_is(current, end, 1, prefix);
    }
    (IpNetwork { network_address: current, netmask: prefix }, last)
}

/// The CIDR blocks that cover the addresses from `start` to `end` exactly, in
/// rising order. The result is empty if `start` lies behind `end` or the two are
/// of different families.
pub fn range_to_cidrs(start: IpAddr, end: IpAddr) -> (blocks: Vec<IpNetwork>)
    ensures
        blocks@ == cidr_cover(start, end),
        start.after(end) || !start.same_family(end) ==> blocks@.len() == 0,
        !start.after(end) && start.same_family(end) ==> exact_cover(blocks@, start, end),
{
    let mut blocks: Vec<IpNetwork> = Vec::new();
    if start.is_after(&end) || start.is_ipv6() != end.is_ipv6() {
        return blocks;
    }
    let mut current = start;
    while !current.is_after(&end)
        invariant_except_break
            current.same_family(end),
            blocks@ + cidr_cover(current, end) == cidr_cover(start, end),
        ensures
            blocks@ == cidr_cover(start, end),
        decreases end.value() - current.value() + 1,
    {
        let (block, last) = widest_block_at(current, end);
        proof {
            lemma_widest_block(current, end);
            assert(blocks@ + (seq![block] + cidr_cover(last.succ(), end)) == (blocks@ + seq![
                block,
            ]) + cidr_cover(last.succ(), end));
        }
        blocks.push(block);
        match last.checked_succ() {
            Some(next) => {
                proof {
                    if last.value() >= end.value() {
                        assert(cidr_cover(next, end) == Seq::<IpNetwork>::empty());
                    }
                }
                current = next;
            },
            None => {
                break ;
            },
        }
    }
    proof {
        lemma_cover_exact(start, end);
    }
    blocks
}

} // verus!
