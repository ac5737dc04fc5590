//! The records of bans, of peers and of IP addresses together, and their limit.

use crate::addr::{IpAddr, SocketAddr};
use crate::peer::{PeerFilter, PeerInfo, PeerManager, PeersView, MAX_BANNED_RECORDS};
use crate::table;
use crate::time::Instant;
use vstd::prelude::*;

verus! {

/// One record of a ban: that of a peer or that of an IP address.
#[derive(Clone, Copy, Debug, PartialEq, Eq, Structural)]
pub enum BanRecord {
    Peer(SocketAddr),
    Ip(IpAddr),
}

/// When the ban of a peer ends. One that rests on the score alone counts as the oldest.
pub open spec fn peer_ban_end(p: PeerInfo) -> u64 {
    match p.ban_until {
        Some(until) => until.nanos,
        None => 0,
    }
}

fn ban_end_of(p: &PeerInfo) -> (end: u64)
    ensures
        end == peer_ban_end(*p),
{
    match p.ban_until {
        Some(until) => until.nanos,
        None => 0,
    }
}

impl PeersView {
    /// The record is kept: the peer is banned at `now`, or the IP address is on record.
    pub open spec fn has_ban(self, r: BanRecord, now: Instant) -> bool {
        match r {
            BanRecord::Peer(a) => self.peers.contains_key(a) && self.peers[a].banned_at(now),
            BanRecord::Ip(ip) => self.banned_ips.contains_key(ip),
        }
    }

    /// When the ban ends that a record is of.
    pub open spec fn end_of(self, r: BanRecord) -> u64 {
        match r {
            BanRecord::Peer(a) => peer_ban_end(self.peers[a]),
            BanRecord::Ip(ip) => self.banned_ips[ip].nanos,
        }
    }

    /// How many records of bans are kept, of peers and IP addresses together.
    pub open spec fn ban_records(self, now: Instant) -> nat {
        self.count(PeerFilter::Banned(now)) + self.banned_ips.dom().len()
    }

    /// The same without a record.
    pub open spec fn without_ban(self, r: BanRecord) -> PeersView {
        match r {
            BanRecord::Peer(a) => PeersView {
                peers: self.peers.remove(a),
                channels: self.channels.remove(a),
                ..self
            },
            BanRecord::Ip(ip) => PeersView { banned_ips: self.banned_ips.remove(ip), ..self },
        }
    }
}

/// `after` is `before` without `n` records of bans. Of those that were left to choose from, which
/// are all but `spare`, none that stays ends before one that goes.
pub open spec fn first_to_end_dropped(
    before: PeersView,
    after: PeersView,
    now: Instant,
    spare: BanRecord,
    n: nat,
) -> bool {
    let peers = before.peers.dom().difference(after.peers.dom());
    let ips = before.banned_ips.dom().difference(after.banned_ips.dom());
    &&& after == (PeersView {
        peers: before.peers.remove_keys(peers),
        channels: before.channels.remove_keys(peers),
        banned_ips: before.banned_ips.remove_keys(ips),
        ..before
    })
    &&& peers.len() + ips.len() == n
    &&& forall|a: SocketAddr| #[trigger] peers.contains(a) ==> before.peers[a].banned_at(now)
    &&& forall|r: BanRecord, k: BanRecord|
        #![trigger before.has_ban(r, now), after.has_ban(k, now)]
        before.has_ban(r, now) && !after.has_ban(r, now) ==> r != spare && (after.has_ban(k, now)
            && k != spare ==> before.end_of(r) <= before.end_of(k))
}

/// As many records of bans were dropped as there were beyond the limit, those that end first
/// before the others, and `spare` not at all.
pub open spec fn bans_trimmed(
    before: PeersView,
    after: PeersView,
    now: Instant,
    spare: BanRecord,
) -> bool {
    first_to_end_dropped(
        before,
        after,
        now,
        spare,
        if before.ban_records(now) > MAX_BANNED_RECORDS {
            (before.ban_records(now) - MAX_BANNED_RECORDS) as nat
        } else {
            0
        },
    )
}

proof fn lemma_without_ban(v: PeersView, r: BanRecord, now: Instant)
    requires
        v.peers.dom().finite(),
        v.banned_ips.dom().finite(),
        v.has_ban(r, now),
    ensures
        v.without_ban(r).ban_records(now) == v.ban_records(now) - 1,
{
    let after = v.without_ban(r);
    let filter = PeerFilter::Banned(now);
    assert(v.select(filter).finite());
    match r {
        BanRecord::Peer(a) => {
            assert(after.select(filter) =~= v.select(filter).remove(a));
            assert(v.select(filter).contains(a));
        },
        BanRecord::Ip(ip) => {
            assert(after.select(filter) =~= v.select(filter));
            assert(after.banned_ips.dom() =~= v.banned_ips.dom().remove(ip));
        },
    }
}

proof fn lemma_drop_step(
    before: PeersView,
    mid: PeersView,
    now: Instant,
    spare: BanRecord,
    n: nat,
    r: BanRecord,
)
    requires
        before.peers.dom().finite(),
        before.banned_ips.dom().finite(),
        first_to_end_dropped(before, mid, now, spare, n),
        mid.has_ban(r, now),
        r != spare,
        forall|k: BanRecord| #[trigger]
            mid.has_ban(k, now) && k != spare ==> mid.end_of(r) <= mid.end_of(k),
    ensures
        first_to_end_dropped(before, mid.without_ban(r), now, spare, n + 1),
{
    let after = mid.without_ban(r);
    let was_peers = before.peers.dom().difference(mid.peers.dom());
    let was_ips = before.banned_ips.dom().difference(mid.banned_ips.dom());
    let peers = before.peers.dom().difference(after.peers.dom());
    let ips = before.banned_ips.dom().difference(after.banned_ips.dom());
    match r {
        BanRecord::Peer(a) => {
            assert(peers =~= was_peers.insert(a));
            assert(ips =~= was_ips);
        },
        BanRecord::Ip(ip) => {
            assert(peers =~= was_peers);
            assert(ips =~= was_ips.insert(ip));
        },
    }
    assert(after =~= PeersView {
        peers: before.peers.remove_keys(peers),
        channels: before.channels.remove_keys(peers),
        banned_ips: before.banned_ips.remove_keys(ips),
        ..before
    });
    assert forall|d: BanRecord, k: BanRecord|
        #![trigger before.has_ban(d, now), after.has_ban(k, now)]
        before.has_ban(d, now) && !after.has_ban(d, now) implies d != spare && (after.has_ban(k, now)
        && k != spare ==> before.end_of(d) <= before.end_of(k)) by {
        if after.has_ban(k, now) {
            assert(mid.has_ban(k, now));
            assert(before.end_of(k) == mid.end_of(k));
        }
        if mid.has_ban(d, now) {
            assert(d == r);
            assert(before.end_of(d) == mid.end_of(d));
        }
    }
}

/// Dropping the records beyond the limit leaves no more than it allows, and `spare` among them.
pub proof fn trimmed_within_limit(
    before: PeersView,
    after: PeersView,
    now: Instant,
    spare: BanRecord,
)
    requires
        before.peers.dom().finite(),
        before.banned_ips.dom().finite(),
        bans_trimmed(before, after, now, spare),
    ensures
        after.ban_records(now) <= MAX_BANNED_RECORDS,
        after.ban_records(now) <= before.ban_records(now),
        before.has_ban(spare, now) ==> after.has_ban(spare, now),
{
    let filter = PeerFilter::Banned(now);
    let peers = before.peers.dom().difference(after.peers.dom());
    let ips = before.banned_ips.dom().difference(after.banned_ips.dom());
    assert(after.peers.dom() =~= before.peers.dom().difference(peers));
    assert(after.banned_ips.dom() =~= before.banned_ips.dom().difference(ips));
    assert(before.select(filter) =~= after.select(filter) + peers) by {
        assert forall|a: SocketAddr| before.select(filter).contains(a) implies (after.select(
            filter,
        ) + peers).contains(a) by {
            if !peers.contains(a) {
                assert(after.peers.contains_key(a));
            }
        }
    }
    assert(after.select(filter).disjoint(peers));
    vstd::set_lib::lemma_set_disjoint_lens(after.select(filter), peers);
    assert(before.banned_ips.dom() =~= after.banned_ips.dom() + ips);
    vstd::set_lib::lemma_set_disjoint_lens(after.banned_ips.dom(), ips);
    if before.has_ban(spare, now) && !after.has_ban(spare, now) {
        assert(spare != spare);
    }
}

/// A peer that is not banned adds no record.
pub proof fn unbanned_adds_no_record(v: PeersView, addr: SocketAddr, p: PeerInfo, now: Instant)
    requires
        v.peers.dom().finite(),
        !p.banned_at(now),
    ensures
        v.with_peer(addr, p).ban_records(now) <= v.ban_records(now),
{
    let filter = PeerFilter::Banned(now);
    assert(v.select(filter).finite());
    assert(v.with_peer(addr, p).select(filter).subset_of(v.select(filter)));
    vstd::set_lib::lemma_len_subset(v.with_peer(addr, p).select(filter), v.select(filter));
}

/// The records of a manager can be counted.
pub(crate) proof fn lemma_finite(pm: &PeerManager)
    requires
        pm.wf(),
    ensures
        pm@.peers.dom().finite(),
        pm@.banned_ips.dom().finite(),
{
    table::lemma_count(pm.peers.entries@, |p: PeerInfo| true);
    table::lemma_count(pm.banned_ips.entries@, |t: Instant| true);
}

impl PeerManager {
    /// Whether there are more records of bans than the limit allows.
    pub(crate) fn too_many_bans(&self, now: Instant) -> (too_many: bool)
        requires
            self.wf(),
        ensures
            too_many == (self@.ban_records(now) > MAX_BANNED_RECORDS),
    {
        let banned: usize = self.count(PeerFilter::Banned(now));
        let ips: usize = self.banned_ips.len();
        banned > MAX_BANNED_RECORDS || ips > MAX_BANNED_RECORDS || banned + ips
            > MAX_BANNED_RECORDS
    }

    /// The record whose ban ends first, apart from `spare`.
    fn first_to_end(&self, now: Instant, spare: BanRecord) -> (found: Option<BanRecord>)
        requires
            self.wf(),
        ensures
            match found {
                Some(r) => self@.has_ban(r, now) && r != spare && forall|k: BanRecord| #[trigger]
                    self@.has_ban(k, now) && k != spare ==> self@.end_of(r) <= self@.end_of(k),
                None => forall|k: BanRecord| #[trigger] self@.has_ban(k, now) ==> k == spare,
            },
    {
        let mut best: Option<(BanRecord, u64)> = None;
        let mut i: usize = 0;
        while i < self.peers.entries.len()
            invariant
                self.wf(),
                i <= self.peers.entries@.len(),
                best matches Some((r, end)) ==> self@.has_ban(r, now) && r != spare && end
                    == self@.end_of(r),
                forall|j: int|
                    0 <= j < i && (#[trigger] self.peers.entries@[j]).1.banned_at(now)
                        && BanRecord::Peer(self.peers.entries@[j].0) != spare ==> (best matches Some(
                        (_, end),
                    ) && end <= peer_ban_end(self.peers.entries@[j].1)),
            decreases self.peers.entries.len() - i,
        {
            let r: BanRecord = BanRecord::Peer(self.peers.entries[i].0);
            if r != spare && self.peers.entries[i].1.is_banned(now) {
                proof {
                    table::lemma_at(self.peers.entries@, i as int);
                }
                best = sooner(best, r, ban_end_of(&self.peers.entries[i].1));
            }
            i += 1;
        }
        let mut k: usize = 0;
        while k < self.banned_ips.entries.len()
            invariant
                self.wf(),
                k <= self.banned_ips.entries@.len(),
                best matches Some((r, end)) ==> self@.has_ban(r, now) && r != spare && end
                    == self@.end_of(r),
                forall|j: int|
                    0 <= j < self.peers.entries@.len() && (#[trigger] self.peers.entries@[j]).1.banned_at(
                        now,
                    ) && BanRecord::Peer(self.peers.entries@[j].0) != spare ==> (
                    best matches Some((_, end)) && end <= peer_ban_end(self.peers.entries@[j].1)),
                forall|j: int|
                    0 <= j < k && BanRecord::Ip((#[trigger] self.banned_ips.entries@[j]).0) != spare
                        ==> (best matches Some((_, end)) && end
                        <= self.banned_ips.entries@[j].1.nanos),
            decreases self.banned_ips.entries.len() - k,
        {
            let r: BanRecord = BanRecord::Ip(self.banned_ips.entries[k].0);
            if r != spare {
                proof {
                    table::lemma_at(self.banned_ips.entries@, k as int);
                }
                best = sooner(best, r, self.banned_ips.entries[k].1.nanos);
            }
            k += 1;
        }
        proof {
            assert forall|b: BanRecord| #[trigger] self@.has_ban(b, now) && b != spare implies (
            best matches Some((_, end)) && end <= self@.end_of(b)) by {
                match b {
                    BanRecord::Peer(a) => {
                        let j = table::position(self.peers.entries@, a);
                        table::lemma_at(self.peers.entries@, j);
                    },
                    BanRecord::Ip(ip) => {
                        let j = table::position(self.banned_ips.entries@, ip);
                        table::lemma_at(self.banned_ips.entries@, j);
                    },
                }
            }
        }
        match best {
            Some((r, _)) => Some(r),
            None => None,
        }
    }

    /// Drops a record.
    fn drop_ban(&mut self, r: BanRecord)
        requires
            old(self).wf(),
        ensures
            final(self).wf(),
            final(self)@ == old(self)@.without_ban(r),
    {
        match r {
            BanRecord::Peer(a) => {
                self.peers.remove(&a);
                self.channels.remove(&a);
            },
            BanRecord::Ip(ip) => {
                self.banned_ips.remove(&ip);
            },
        }
    }

    /// Drops the records of bans beyond the limit, those that end first before the others, but
    /// not `spare`.
    pub(crate) fn trim_bans(&mut self, now: Instant, spare: BanRecord)
        requires
            old(self).wf(),
        ensures
            final(self).wf(),
            bans_trimmed(old(self)@, final(self)@, now, spare),
            final(self)@.ban_records(now) <= MAX_BANNED_RECORDS,
    {
        let ghost before = self@;
        let ghost mut n: nat = 0;
        proof {
            lemma_finite(self);
            assert(before.peers.dom().difference(before.peers.dom()) =~= Set::empty());
            assert(before.banned_ips.dom().difference(before.banned_ips.dom()) =~= Set::empty());
            assert(before =~= PeersView {
                peers: before.peers.remove_keys(Set::empty()),
                channels: before.channels.remove_keys(Set::empty()),
                banned_ips: before.banned_ips.remove_keys(Set::empty()),
                ..before
            });
        }
        while self.too_many_bans(now)
            invariant
                self.wf(),
                before.peers.dom().finite(),
                before.banned_ips.dom().finite(),
                first_to_end_dropped(before, self@, now, spare, n),
                self@.ban_records(now) + n == before.ban_records(now),
                n > 0 ==> self@.ban_records(now) >= MAX_BANNED_RECORDS,
            decreases self@.ban_records(now),
        {
            proof {
                lemma_finite(self);
            }
            match self.first_to_end(now, spare) {
                Some(r) => {
                    proof {
                        lemma_without_ban(self@, r, now);
                        lemma_drop_step(before, self@, now, spare, n, r);
                        n = n + 1;
                    }
                    self.drop_ban(r);
                },
                None => {
                    proof {
                        lemma_only_spare(self@, now, spare);
                    }
                    return;
                },
            }
        }
    }
}

/// The earlier of two ends.
fn sooner(best: Option<(BanRecord, u64)>, r: BanRecord, end: u64) -> (next: Option<
    (BanRecord, u64),
>)
    ensures
        next matches Some((_, e)) && e <= end && (best matches Some((_, b)) ==> e <= b),
        next == Some((r, end)) || next == best,
{
    match best {
        Some((b, best_end)) => if end < best_end {
            Some((r, end))
        } else {
            Some((b, best_end))
        },
        None => Some((r, end)),
    }
}

proof fn lemma_only_spare(v: PeersView, now: Instant, spare: BanRecord)
    requires
        v.peers.dom().finite(),
        v.banned_ips.dom().finite(),
        forall|k: BanRecord| #[trigger] v.has_ban(k, now) ==> k == spare,
    ensures
        v.ban_records(now) <= 1,
{
    let banned = v.select(PeerFilter::Banned(now));
    let ips = v.banned_ips.dom();
    assert(banned.finite());
    assert forall|a: SocketAddr| banned.contains(a) implies spare == BanRecord::Peer(a) by {
        assert(v.has_ban(BanRecord::Peer(a), now));
    }
    assert forall|ip: IpAddr| ips.contains(ip) implies spare == BanRecord::Ip(ip) by {
        assert(v.has_ban(BanRecord::Ip(ip), now));
    }
    match spare {
        BanRecord::Peer(a) => {
            assert(ips =~= Set::empty());
            assert(banned.subset_of(set![a]));
            vstd::set_lib::lemma_len_subset(banned, set![a]);
        },
        BanRecord::Ip(ip) => {
            assert(banned =~= Set::empty());
            assert(ips.subset_of(set![ip]));
            vstd::set_lib::lemma_len_subset(ips, set![ip]);
        },
    }
}

} // verus!
