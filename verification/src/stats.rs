//! Counters of what was relayed.

use vstd::prelude::*;

verus! {

/// What was relayed, served and dropped. A counter that has reached its end starts anew.
#[derive(Debug)]
pub struct RelayStats {
    /// Entries that peers have asked for.
    pub getdata_entries: u64,
    /// Blocks that were queued for peers.
    pub block_served: u64,
    /// Blocks that were dropped because a peer's queue was full.
    pub block_dropped: u64,
    /// NotFound replies that were queued for peers.
    pub notfound_served: u64,
    /// NotFound replies that were dropped because a peer's queue was full.
    pub notfound_dropped: u64,
    /// Blocks from peers that were applied.
    pub blocks_applied: u64,
    /// Blocks from peers that were rejected without a cost to their sender.
    pub blocks_rejected_unscored: u64,
    /// Blocks from peers that were rejected at a cost to their sender.
    pub blocks_rejected_scored: u64,
}

/// The counters at one time.
#[derive(Clone, Copy, Debug, PartialEq, Eq, Structural)]
pub struct RelaySnapshot {
    pub getdata_entries: u64,
    pub block_served: u64,
    pub block_dropped: u64,
    pub notfound_served: u64,
    pub notfound_dropped: u64,
    pub blocks_applied: u64,
    pub blocks_rejected_unscored: u64,
    pub blocks_rejected_scored: u64,
}

/// A counter after one more.
pub open spec fn bumped(counter: u64) -> u64 {
    if counter == u64::MAX {
        0
    } else {
        (counter + 1) as u64
    }
}

impl Default for RelaySnapshot {
    fn default() -> (snapshot: Self)
        ensures
            snapshot == (RelaySnapshot {
                getdata_entries: 0,
                block_served: 0,
                block_dropped: 0,
                notfound_served: 0,
                notfound_dropped: 0,
                blocks_applied: 0,
                blocks_rejected_unscored: 0,
                blocks_rejected_scored: 0,
            }),
    {
        RelaySnapshot {
            getdata_entries: 0,
            block_served: 0,
            block_dropped: 0,
            notfound_served: 0,
            notfound_dropped: 0,
            blocks_applied: 0,
            blocks_rejected_unscored: 0,
            blocks_rejected_scored: 0,
        }
    }
}

impl Default for RelayStats {
    fn default() -> (stats: Self)
        ensures
            stats@ == (RelaySnapshot {
                getdata_entries: 0,
                block_served: 0,
                block_dropped: 0,
                notfound_served: 0,
                notfound_dropped: 0,
                blocks_applied: 0,
                blocks_rejected_unscored: 0,
                blocks_rejected_scored: 0,
            }),
    {
        RelayStats {
            getdata_entries: 0,
            block_served: 0,
            block_dropped: 0,
            notfound_served: 0,
            notfound_dropped: 0,
            blocks_applied: 0,
            blocks_rejected_unscored: 0,
            blocks_rejected_scored: 0,
        }
    }
}

impl View for RelayStats {
    type V = RelaySnapshot;

    open spec fn view(&self) -> RelaySnapshot {
        RelaySnapshot {
            getdata_entries: self.getdata_entries,
            block_served: self.block_served,
            block_dropped: self.block_dropped,
            notfound_served: self.notfound_served,
            notfound_dropped: self.notfound_dropped,
            blocks_applied: self.blocks_applied,
            blocks_rejected_unscored: self.blocks_rejected_unscored,
            blocks_rejected_scored: self.blocks_rejected_scored,
        }
    }
}

impl RelayStats {
    /// The counters at this time.
    pub fn snapshot(&self) -> (snapshot: RelaySnapshot)
        ensures
            snapshot == self@,
    {
        RelaySnapshot {
            getdata_entries: self.getdata_entries,
            block_served: self.block_served,
            block_dropped: self.block_dropped,
            notfound_served: self.notfound_served,
            notfound_dropped: self.notfound_dropped,
            blocks_applied: self.blocks_applied,
            blocks_rejected_unscored: self.blocks_rejected_unscored,
            blocks_rejected_scored: self.blocks_rejected_scored,
        }
    }

    /// Counts one more.
    pub fn note_sent(counter: &mut u64)
        ensures
            *final(counter) == bumped(*old(counter)),
    {
        *counter = if *counter == u64::MAX {
            0
        } else {
            *counter + 1
        };
    }

    /// Counts a write as queued or as dropped, never as both.
    pub fn note_write(sent: &mut u64, dropped: &mut u64, queued: bool)
        ensures
            *final(sent) == if queued {
                bumped(*old(sent))
            } else {
                *old(sent)
            },
            *final(dropped) == if queued {
                *old(dropped)
            } else {
                bumped(*old(dropped))
            },
    {
        if queued {
            Self::note_sent(sent);
        } else {
            Self::note_sent(dropped);
        }
    }
}

} // verus!
