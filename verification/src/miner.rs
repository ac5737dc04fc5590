//! What the miner builds on, and what a mined block leads to.

use crate::event::NodeEvent;
use crate::hash::Hash32;
use crate::mempool;
use crate::mempool::{Address, EntryView, Mempool};
use crate::relay;
use crate::wire;
use crate::wire::{InvEntry, InvType, Message, MessageType};
use vstd::prelude::*;

verus! {

/// How far ahead of the clock a block may be stamped, in seconds.
pub const MAX_TIME_AHEAD_SECS: u64 = 20;

/// Where and when the next block stands.
#[derive(Clone, Copy, Debug, PartialEq, Eq, Structural)]
pub struct BlockPlan {
    pub height: u32,
    pub timestamp: u64,
    /// The time that the block is assembled against.
    pub previous_timestamp: u64,
}

/// The block after the tip.
pub open spec fn planned(
    tip_height: u32,
    tip_timestamp: u64,
    network_time: u64,
    block_time: u64,
) -> BlockPlan {
    let due = tip_timestamp + block_time;
    let latest = network_time + MAX_TIME_AHEAD_SECS;
    let timestamp = (if due < latest {
        due
    } else {
        latest
    }) as u64;
    BlockPlan {
        height: (tip_height + 1) as u32,
        timestamp,
        previous_timestamp: (if timestamp >= block_time {
            timestamp - block_time
        } else {
            0
        }) as u64,
    }
}

/// The next block follows the tip by one height. It is stamped neither more than one block time
/// after the tip nor more than twenty seconds after the clock, but with one
/// of these two times; and it is assembled against one block time earlier, or against the start of
/// time.
pub proof fn blocks_are_stamped_in_time(
    tip_height: u32,
    tip_timestamp: u64,
    network_time: u64,
    block_time: u64,
)
    requires
        tip_height < u32::MAX,
        tip_timestamp + block_time <= u64::MAX,
        network_time + 20 <= u64::MAX,
    ensures
        ({
            let plan = planned(tip_height, tip_timestamp, network_time, block_time);
            &&& plan.height == tip_height + 1
            &&& plan.timestamp <= tip_timestamp + block_time
            &&& plan.timestamp <= network_time + 20
            &&& plan.timestamp == tip_timestamp + block_time || plan.timestamp == network_time + 20
            &&& plan.previous_timestamp + block_time == plan.timestamp || (plan.previous_timestamp
                == 0 && plan.timestamp < block_time)
        }),
{
}

/// Plans the block after the tip: it is stamped one block time after the tip, but not too far
/// ahead of the clock.
pub fn plan_block(
    tip_height: u32,
    tip_timestamp: u64,
    network_time: u64,
    block_time: u64,
) -> (plan: BlockPlan)
    requires
        tip_height < u32::MAX,
        tip_timestamp + block_time <= u64::MAX,
        network_time + MAX_TIME_AHEAD_SECS <= u64::MAX,
    ensures
        plan.height == tip_height + 1,
        plan.timestamp == if tip_timestamp + block_time < network_time + MAX_TIME_AHEAD_SECS {
            tip_timestamp + block_time
        } else {
            network_time + MAX_TIME_AHEAD_SECS
        },
        plan.previous_timestamp == if plan.timestamp >= block_time {
            plan.timestamp - block_time
        } else {
            0
        },
        plan == planned(tip_height, tip_timestamp, network_time, block_time),
{
    let due: u64 = tip_timestamp + block_time;
    let latest: u64 = network_time + MAX_TIME_AHEAD_SECS;
    let timestamp: u64 = if due < latest {
        due
    } else {
        latest
    };
    BlockPlan {
        height: tip_height + 1,
        timestamp,
        previous_timestamp: if timestamp >= block_time {
            timestamp - block_time
        } else {
            0
        },
    }
}

/// The address that is mined for when none is configured.
pub open spec fn fallback_address(a: Address) -> bool {
    &&& a.0@[0] == 0xDE && a.0@[1] == 0xAD && a.0@[2] == 0xBE && a.0@[3] == 0xEF
    &&& forall|i: int| 4 <= i < 20 ==> a.0@[i] == 0
}

/// The address that is mined for.
pub fn mining_address(configured: Option<Address>) -> (address: Address)
    ensures
        match configured {
            Some(a) => address == a,
            None => fallback_address(address),
        },
{
    match configured {
        Some(address) => address,
        None => {
            let mut bytes: [u8; 20] = [0u8; 20];
            bytes[0] = 0xDE;
            bytes[1] = 0xAD;
            bytes[2] = 0xBE;
            bytes[3] = 0xEF;
            Address(bytes)
        },
    }
}

/// Takes note of a mined block that was applied: its transactions leave the pool, and it is
/// reported and announced.
pub fn on_block_mined(pool: &mut Mempool, hash: Hash32, height: u32, tx_hashes: &[Hash32]) -> (res:
    (NodeEvent, Message))
    requires
        old(pool).wf(),
    ensures
        final(pool).wf(),
        final(pool)@ == old(pool)@.filter(|e: EntryView| !tx_hashes@.contains(e.tx_hash)),
        mempool::filed_by_digest(old(pool)@) ==> mempool::filed_by_digest(final(pool)@),
        res.0 == NodeEvent::BlockMined(hash, height),
        res.1@ == relay::inventory_message(
            MessageType::Inv,
            seq![InvEntry { inv_type: InvType::Block, hash }],
            wire::MAGIC@,
        ),
{
    pool.remove_transactions(tx_hashes);
    (NodeEvent::BlockMined(hash, height), relay::announce(InvType::Block, hash))
}

/// Where no address is configured blocks are mined for the bytes DE AD BE EF and sixteen zeros.
pub proof fn fallback_is_one_address(a: Address, i: int)
    requires
        fallback_address(a),
        0 <= i < 20,
    ensures
        a.0@[i] == if i == 0 {
            222
        } else if i == 1 {
            173
        } else if i == 2 {
            190
        } else if i == 3 {
            239
        } else {
            0int
        },
{
}

} // verus!
