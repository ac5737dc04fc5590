//! Finding peers: the configured addresses, and those that the seeds name.

use crate::addr::{IpAddr, SocketAddr};
use crate::config::NetworkConfig;
use crate::peer;
use crate::peer::{PeerManager, PeersView};
use crate::time::Instant;
use vstd::prelude::*;

verus! {

pub const SEED_NODES: [&'static str; 1] = ["seed.chroma.network:8333"];

pub const DNS_SEEDS: [&'static str; 1] = ["seed.chroma.network"];

pub const TESTNET_SEED_NODES: [&'static str; 1] = ["seed-testnet.chroma.network:18333"];

pub const TESTNET_DNS_SEEDS: [&'static str; 1] = ["seed-testnet.chroma.network"];

/// Failures in a row after which a list of seeds is given up.
pub const MAX_SEED_FAILURES: usize = 3;

/// How long a name lookup may take.
pub const DNS_TIMEOUT_SECS: u64 = 3;

/// Finds peers.
pub struct Discovery {
    /// Seeds in a row that could not be looked up.
    pub seed_failures: usize,
    /// The lookups are done by a resolver that the operator has provided, so what it names is
    /// not filtered.
    pub trusted: bool,
}

/// Which list of seeds is being asked.
#[derive(Clone, Copy, Debug, PartialEq, Eq, Structural)]
pub enum Stage {
    Nodes,
    Dns,
    Finished,
}

/// One search for peers.
pub struct Search {
    pub stage: Stage,
    /// Which seed of the list comes next.
    pub index: usize,
    /// The addresses that were found.
    pub found: Vec<SocketAddr>,
}

/// The address of a host on the internet, as far as the address tells: it is no loopback,
/// unspecified, multicast, broadcast, documentation or link-local address.
pub open spec fn routable(ip: IpAddr) -> bool {
    match ip {
        IpAddr::V4(n) => {
            let first = n / 0x100_0000;
            &&& first != 127
            &&& n != 0
            &&& !(224 <= first <= 239)
            &&& n != 0xFFFF_FFFF
            &&& n / 0x100 != 0xC0_00_02
            &&& n / 0x100 != 0xC6_33_64
            &&& n / 0x100 != 0xCB_00_71
            &&& n / 0x1_0000 != 0xA9_FE
        },
        IpAddr::V6(n) => {
            &&& n != 1
            &&& n != 0
            &&& n / 0x100_0000_0000_0000_0000_0000_0000_0000 != 0xFF
        },
    }
}

/// Whether an address that a seed has named is dialled. Private addresses are: nodes run
/// behind address translation.
pub fn is_routable_peer_addr(addr: &SocketAddr) -> (ok: bool)
    ensures
        ok == routable(addr.spec_ip()),
{
    match addr.ip() {
        IpAddr::V4(n) => {
            let first: u32 = n / 0x100_0000;
            let net24: u32 = n / 0x100;
            !(first == 127 || n == 0 || (224 <= first && first <= 239) || n == 0xFFFF_FFFF || net24
                == 0xC0_00_02 || net24 == 0xC6_33_64 || net24 == 0xCB_00_71 || n / 0x1_0000
                == 0xA9_FE)
        },
        IpAddr::V6(n) => !(n == 1 || n == 0 || n / 0x100_0000_0000_0000_0000_0000_0000_0000
            == 0xFF),
    }
}

/// The addresses that pass, those of them that were not on record, in order, and the peers
/// after they were put on record.
pub open spec fn put_on_record(
    v: PeersView,
    addrs: Seq<SocketAddr>,
    unfiltered: bool,
    now: Instant,
) -> (PeersView, Seq<SocketAddr>)
    decreases addrs.len(),
{
    if addrs.len() == 0 {
        (v, Seq::empty())
    } else {
        let (seen, found) = put_on_record(v, addrs.drop_last(), unfiltered, now);
        let a = addrs.last();
        if (unfiltered || routable(a.spec_ip())) && !seen.peers.contains_key(a) {
            (seen.with_peer(a, peer::new_peer(a, seen.limits, now)), found.push(a))
        } else {
            (seen, found)
        }
    }
}

fn record(pm: &mut PeerManager, addrs: &[SocketAddr], unfiltered: bool, now: Instant) -> (found: Vec<
    SocketAddr,
>)
    requires
        old(pm).wf(),
    ensures
        final(pm).wf(),
        (final(pm)@, found@) == put_on_record(old(pm)@, addrs@, unfiltered, now),
{
    let mut found: Vec<SocketAddr> = Vec::new();
    let mut i: usize = 0;
    assert(addrs@.take(0) =~= Seq::empty());
    while i < addrs.len()
        invariant
            pm.wf(),
            i <= addrs@.len(),
            (pm@, found@) == put_on_record(old(pm)@, addrs@.take(i as int), unfiltered, now),
        decreases addrs.len() - i,
    {
        let addr: SocketAddr = addrs[i];
        assert(addrs@.take(i + 1).drop_last() =~= addrs@.take(i as int));
        if (unfiltered || is_routable_peer_addr(&addr)) && pm.get_peer(&addr).is_none() {
            pm.add_peer(addr, now);
            found.push(addr);
        }
        i += 1;
    }
    assert(addrs@.take(i as int) =~= addrs@);
    found
}

/// The seeds of a list, for testnet or for mainnet.
pub open spec fn seed_list(stage: Stage, testnet: bool) -> Seq<&'static str> {
    match stage {
        Stage::Nodes => if testnet {
            TESTNET_SEED_NODES@
        } else {
            SEED_NODES@
        },
        Stage::Dns => if testnet {
            TESTNET_DNS_SEEDS@
        } else {
            DNS_SEEDS@
        },
        Stage::Finished => Seq::empty(),
    }
}

/// The list that comes after a list.
pub open spec fn next_stage(stage: Stage) -> Stage {
    match stage {
        Stage::Nodes => Stage::Dns,
        _ => Stage::Finished,
    }
}

/// Where a search is after a seed was asked, given whether its list is gone on with.
pub open spec fn position_after(stage: Stage, index: int, testnet: bool, go_on: bool) -> (
    Stage,
    int,
) {
    if go_on && index + 1 < seed_list(stage, testnet).len() {
        (stage, index + 1)
    } else {
        (next_stage(stage), 0)
    }
}

impl Default for Discovery {
    fn default() -> (d: Self)
        ensures
            d.seed_failures == 0,
            !d.trusted,
    {
        Self::new()
    }
}

impl Discovery {
    /// Lookups by name, whose answers are filtered.
    pub fn new() -> (d: Self)
        ensures
            d.seed_failures == 0,
            !d.trusted,
    {
        Discovery { seed_failures: 0, trusted: false }
    }

    /// Lookups by a resolver that the operator has provided.
    pub fn with_resolver() -> (d: Self)
        ensures
            d.seed_failures == 0,
            d.trusted,
    {
        Discovery { seed_failures: 0, trusted: true }
    }

    /// Begins a search: the configured addresses are put on record as they are. On regtest no
    /// seed is asked.
    pub fn discover_peers(
        &self,
        pm: &mut PeerManager,
        connect_addrs: &[SocketAddr],
        network: &NetworkConfig,
        now: Instant,
    ) -> (search: Search)
        requires
            old(pm).wf(),
        ensures
            final(pm).wf(),
            (final(pm)@, search.found@) == put_on_record(old(pm)@, connect_addrs@, true, now),
            search.stage == if network.regtest {
                Stage::Finished
            } else {
                Stage::Nodes
            },
            search.index == 0,
            search.wf(network.testnet),
    {
        let found: Vec<SocketAddr> = record(pm, connect_addrs, true, now);
        Search {
            stage: if network.regtest {
                Stage::Finished
            } else {
                Stage::Nodes
            },
            index: 0,
            found,
        }
    }

    /// Takes the answer to the seed that was asked: the addresses it names, or `None` where it
    /// could not be looked up.
    pub fn on_answer(
        &mut self,
        search: &mut Search,
        pm: &mut PeerManager,
        network: &NetworkConfig,
        answer: Option<Vec<SocketAddr>>,
        now: Instant,
    )
        requires
            old(pm).wf(),
            old(search).wf(network.testnet),
            old(search).stage != Stage::Finished,
            old(self).seed_failures < usize::MAX,
        ensures
            final(pm).wf(),
            final(search).wf(network.testnet),
            final(self).trusted == old(self).trusted,
            match answer {
                Some(addrs) => {
                    let (peers, more) = put_on_record(
                        old(pm)@,
                        addrs@,
                        old(self).trusted,
                        now,
                    );
                    &&& final(pm)@ == peers
                    &&& final(search).found@ == old(search).found@ + more
                    &&& final(self).seed_failures == 0
                    &&& (final(search).stage, final(search).index as int) == position_after(
                        old(search).stage,
                        old(search).index as int,
                        network.testnet,
                        true,
                    )
                },
                None => {
                    &&& final(pm)@ == old(pm)@
                    &&& final(search).found@ == old(search).found@
                    &&& final(self).seed_failures == old(self).seed_failures + 1
                    &&& (final(search).stage, final(search).index as int) == position_after(
                        old(search).stage,
                        old(search).index as int,
                        network.testnet,
                        final(self).seed_failures < MAX_SEED_FAILURES,
                    )
                },
            },
    {
        let go_on: bool = match answer {
            Some(addrs) => {
                let mut more: Vec<SocketAddr> = record(pm, addrs.as_slice(), self.trusted, now);
                search.found.append(&mut more);
                self.seed_failures = 0;
                true
            },
            None => {
                self.seed_failures = self.seed_failures + 1;
                self.seed_failures < MAX_SEED_FAILURES
            },
        };
        let seeds: usize = match search.stage {
            Stage::Nodes => if network.testnet {
                TESTNET_SEED_NODES.len()
            } else {
                SEED_NODES.len()
            },
            Stage::Dns => if network.testnet {
                TESTNET_DNS_SEEDS.len()
            } else {
                DNS_SEEDS.len()
            },
            Stage::Finished => 0,
        };
        if go_on && search.index + 1 < seeds {
            search.index = search.index + 1;
        } else {
            search.stage = match search.stage {
                Stage::Nodes => Stage::Dns,
                _ => Stage::Finished,
            };
            search.index = 0;
        }
    }
}

impl Search {
    /// The next seed is one of the list.
    pub open spec fn wf(self, testnet: bool) -> bool {
        self.stage != Stage::Finished ==> self.index < seed_list(self.stage, testnet).len()
    }

    /// The seed to ask next, if there is one.
    pub fn next_seed(&self, network: &NetworkConfig) -> (seed: Option<&'static str>)
        requires
            self.wf(network.testnet),
        ensures
            match seed {
                Some(name) => self.stage != Stage::Finished && name == seed_list(
                    self.stage,
                    network.testnet,
                )[self.index as int],
                None => self.stage == Stage::Finished,
            },
    {
        match self.stage {
            Stage::Nodes => if network.testnet {
                Some(TESTNET_SEED_NODES[self.index])
            } else {
                Some(SEED_NODES[self.index])
            },
            Stage::Dns => if network.testnet {
                Some(TESTNET_DNS_SEEDS[self.index])
            } else {
                Some(DNS_SEEDS[self.index])
            },
            Stage::Finished => None,
        }
    }
}

/// What an untrusted seed names is put on record only if it is routable, and nothing is found
/// that was not named.
pub proof fn untrusted_answers_are_filtered(v: PeersView, addrs: Seq<SocketAddr>, now: Instant)
    ensures
        forall|i: int|
            0 <= i < put_on_record(v, addrs, false, now).1.len() ==> routable(
                (#[trigger] put_on_record(v, addrs, false, now).1[i]).spec_ip(),
            ) && addrs.contains(put_on_record(v, addrs, false, now).1[i]),
    decreases addrs.len(),
{
    if addrs.len() > 0 {
        let front = addrs.drop_last();
        untrusted_answers_are_filtered(v, front, now);
        let before = put_on_record(v, front, false, now).1;
        let found = put_on_record(v, addrs, false, now).1;
        assert forall|i: int| 0 <= i < found.len() implies routable((#[trigger] found[i]).spec_ip())
            && addrs.contains(found[i]) by {
            if i < before.len() {
                assert(found[i] == before[i]);
                assert(front.contains(before[i]));
                let k = choose|k: int| 0 <= k < front.len() && front[k] == before[i];
                assert(addrs[k] == found[i]);
            } else {
                assert(addrs[addrs.len() - 1] == found[i]);
            }
        }
    }
}

/// Configured addresses are never filtered: after a search has begun each of them is on
/// record.
pub proof fn configured_addresses_are_on_record(
    v: PeersView,
    addrs: Seq<SocketAddr>,
    now: Instant,
    i: int,
)
    requires
        0 <= i < addrs.len(),
    ensures
        put_on_record(v, addrs, true, now).0.peers.contains_key(addrs[i]),
    decreases addrs.len(),
{
    let front = addrs.drop_last();
    if i < front.len() {
        configured_addresses_are_on_record(v, front, now, i);
        assert(front[i] == addrs[i]);
    }
}

/// No address is found twice, nor one that was on record already.
pub proof fn found_addresses_are_new(
    v: PeersView,
    addrs: Seq<SocketAddr>,
    unfiltered: bool,
    now: Instant,
)
    ensures
        put_on_record(v, addrs, unfiltered, now).1.no_duplicates(),
        forall|i: int|
            0 <= i < put_on_record(v, addrs, unfiltered, now).1.len() ==> !v.peers.contains_key(
                #[trigger] put_on_record(v, addrs, unfiltered, now).1[i],
            ),
        forall|a: SocketAddr| #[trigger]
            put_on_record(v, addrs, unfiltered, now).0.peers.contains_key(a)
                <==> v.peers.contains_key(a) || put_on_record(
                v,
                addrs,
                unfiltered,
                now,
            ).1.contains(a),
    decreases addrs.len(),
{
    if addrs.len() > 0 {
        let front = addrs.drop_last();
        found_addresses_are_new(v, front, unfiltered, now);
        let (seen, before) = put_on_record(v, front, unfiltered, now);
        let (after, found) = put_on_record(v, addrs, unfiltered, now);
        let a = addrs.last();
        if found.len() > before.len() {
            assert(found == before.push(a));
            assert forall|x: SocketAddr| found.contains(x) <==> before.contains(x) || x == a by {
                if before.contains(x) {
                    let k = choose|k: int| 0 <= k < before.len() && before[k] == x;
                    assert(found[k] == x);
                }
                if x == a {
                    assert(found[before.len() as int] == x);
                }
            }
            assert forall|i: int| 0 <= i < found.len() implies !v.peers.contains_key(
                #[trigger] found[i],
            ) by {
                if i < before.len() {
                    assert(found[i] == before[i]);
                }
            }
        }
    }
}

} // verus!
