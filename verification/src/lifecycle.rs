//! The life of a connection: securing its transport, serving it, closing it.

use crate::addr::SocketAddr;
use crate::connect;
use crate::connect::KeyCheck;
use crate::error;
use crate::error::P2pError;
use crate::event::NodeEvent;
use crate::noise_transport::HandshakeRole;
use crate::peer;
use crate::peer::{PeerManager, PeersView, SCORE_MALFORMED};
use crate::sync::{ChainSyncer, SyncView};
use crate::time::Instant;
use vstd::prelude::*;

verus! {

/// How far a connection is.
#[derive(Clone, Copy, Debug, PartialEq, Eq, Structural)]
pub enum Phase {
    /// Nothing was done for it yet.
    New,
    /// The encrypted handshake is under way.
    Securing,
    /// The transport is settled, and the session may start.
    Settled,
    /// The session runs.
    Serving,
    Closed,
}

/// What is done for a connection next.
pub enum Step {
    /// Run the encrypted handshake in this role.
    Secure(HandshakeRole),
    /// The transport is settled: go on.
    Settle,
    /// Run the session, over the encrypted transport or in the clear.
    Serve { encrypted: bool },
    /// The connection has ended with this result.
    End(Result<(), P2pError>),
}

/// One connection.
pub struct Lifecycle {
    pub addr: SocketAddr,
    /// This node has dialled.
    pub outbound: bool,
    /// The operator has opted out of encryption.
    pub plaintext: bool,
    pub phase: Phase,
    /// The key that the peer has shown in the encrypted handshake.
    pub remote_static: Option<[u8; 32]>,
}

/// The role in the encrypted handshake: the side that dials begins.
pub open spec fn role_of(outbound: bool) -> HandshakeRole {
    if outbound {
        HandshakeRole::Initiator
    } else {
        HandshakeRole::Responder
    }
}

/// Ended without an error.
pub open spec fn ended_well(step: Step) -> bool {
    step matches Step::End(res) && res is Ok
}

/// Ended with a protocol error of the given text.
pub open spec fn ended_with(step: Step, text: Seq<char>) -> bool {
    step matches Step::End(res) && res matches Err(e) && error::is_protocol(e, text)
}

impl Lifecycle {
    /// Without an opt-out the transport is settled only after the peer has shown its key.
    pub open spec fn wf(self) -> bool {
        (self.phase == Phase::Settled || self.phase == Phase::Serving) && !self.plaintext
            ==> self.remote_static is Some
    }

    /// The same at another phase.
    pub open spec fn at(self, phase: Phase) -> Lifecycle {
        Lifecycle { phase, ..self }
    }

    /// The connection was closed: that is reported, and the peers and the sync after it.
    pub open spec fn closed(
        self,
        v: (PeersView, SyncView),
        now: Instant,
        reported: Option<NodeEvent>,
        after: (Lifecycle, PeersView, SyncView),
    ) -> bool {
        &&& reported == Some(NodeEvent::PeerDisconnected(self.addr))
        &&& after == (
            self.at(Phase::Closed),
            v.0.without_connection(self.addr, now),
            connect::sync_given_up(v.1, self.addr),
        )
    }

    /// The start of a connection: what is done next, what is reported, and the connection, the
    /// peers and the sync after it.
    pub open spec fn begun(
        self,
        v: (PeersView, SyncView),
        shutting_down: bool,
        now: Instant,
        step: Step,
        reported: Option<NodeEvent>,
        after: (Lifecycle, PeersView, SyncView),
    ) -> bool {
        if shutting_down {
            ended_well(step) && self.closed(v, now, reported, after)
        } else {
            let phase = if self.plaintext {
                Phase::Settled
            } else {
                Phase::Securing
            };
            &&& if self.plaintext {
                step is Settle
            } else {
                step == Step::Secure(role_of(self.outbound))
            }
            &&& reported is None
            &&& after == (self.at(phase), connect::slot_taken(v.0, self.addr, now), v.1)
        }
    }

    /// The end of the encrypted handshake in which the peer has shown a key: what is done next,
    /// what is reported, and the connection, the peers and the sync after it.
    pub open spec fn secured(
        self,
        v: (PeersView, SyncView),
        name: Seq<char>,
        own_public: Seq<u8>,
        remote: [u8; 32],
        now: Instant,
        step: Step,
        reported: Option<NodeEvent>,
        after: (Lifecycle, PeersView, SyncView),
    ) -> bool {
        if own_public == remote@ {
            &&& ended_with(step, "self-connection detected"@)
            &&& self.closed(v, now, reported, after)
        } else {
            &&& step is Settle
            &&& after.0 == (Lifecycle { remote_static: Some(remote), ..self.at(Phase::Settled) })
            &&& connect::static_key_checked(
                v.0,
                after.1,
                self.addr,
                name,
                own_public,
                remote,
                KeyCheck::Bound(reported),
            )
            &&& after.2 == v.1
        }
    }

    /// What comes after the transport was settled: the session, unless the node is shutting
    /// down.
    pub open spec fn entered(
        self,
        v: (PeersView, SyncView),
        shutting_down: bool,
        now: Instant,
        step: Step,
        reported: Option<NodeEvent>,
        after: (Lifecycle, PeersView, SyncView),
    ) -> bool {
        if shutting_down {
            &&& ended_well(step)
            &&& self.closed(v, now, reported, after)
        } else {
            &&& step == (Step::Serve { encrypted: !self.plaintext })
            &&& reported is None
            &&& after == (self.at(Phase::Serving), v.0, v.1)
        }
    }

    pub fn new(addr: SocketAddr, outbound: bool, plaintext: bool) -> (c: Self)
        ensures
            c.wf(),
            c == (Lifecycle { addr, outbound, plaintext, phase: Phase::New, remote_static: None }),
    {
        Lifecycle { addr, outbound, plaintext, phase: Phase::New, remote_static: None }
    }

    /// Starts the connection: it takes its slot, and its transport is secured unless the
    /// operator has opted out. A node that is shutting down closes it at once. What is done
    /// next, and what is reported.
    pub fn begin(
        &mut self,
        pm: &mut PeerManager,
        syncer: &mut ChainSyncer,
        shutting_down: bool,
        now: Instant,
    ) -> (res: (Step, Option<NodeEvent>))
        requires
            old(self).wf(),
            old(self).phase == Phase::New,
            old(pm).wf(),
        ensures
            final(self).wf(),
            final(pm).wf(),
            old(self).begun(
                (old(pm)@, old(syncer)@),
                shutting_down,
                now,
                res.0,
                res.1,
                (*final(self), final(pm)@, final(syncer)@),
            ),
    {
        if shutting_down {
            let reported: NodeEvent = self.close(pm, syncer, now);
            return (Step::End(Ok(())), Some(reported));
        }
        connect::open_connection(pm, &self.addr, now);
        if self.plaintext {
            self.phase = Phase::Settled;
            return (Step::Settle, None);
        }
        self.phase = Phase::Securing;
        let role: HandshakeRole = if self.outbound {
            HandshakeRole::Initiator
        } else {
            HandshakeRole::Responder
        };
        (Step::Secure(role), None)
    }

    /// Takes the key that the peer has shown in the encrypted handshake. A connection to
    /// ourselves is closed. `name` is how the peer is called.
    pub fn on_secured(
        &mut self,
        pm: &mut PeerManager,
        syncer: &mut ChainSyncer,
        name: &str,
        own_public: &[u8; 32],
        remote: [u8; 32],
        now: Instant,
    ) -> (res: (Step, Option<NodeEvent>))
        requires
            old(self).phase == Phase::Securing,
            old(pm).wf(),
        ensures
            final(self).wf(),
            final(pm).wf(),
            old(self).secured(
                (old(pm)@, old(syncer)@),
                name@,
                own_public@,
                remote,
                now,
                res.0,
                res.1,
                (*final(self), final(pm)@, final(syncer)@),
            ),
    {
        match connect::bind_static_key(pm, &self.addr, name, own_public, remote) {
            KeyCheck::SelfConnection => {
                let reported: NodeEvent = self.close(pm, syncer, now);
                (Step::End(Err(P2pError::protocol("self-connection detected"))), Some(reported))
            },
            KeyCheck::Bound(reported) => {
                self.remote_static = Some(remote);
                self.phase = Phase::Settled;
                (Step::Settle, reported)
            },
        }
    }

    /// Takes note of an encrypted handshake that failed, with its text. It costs the peer, and
    /// the connection is closed: it never goes on in the clear. What is done next, and what is
    /// reported.
    pub fn on_not_secured(
        &mut self,
        pm: &mut PeerManager,
        syncer: &mut ChainSyncer,
        reason: &str,
        now: Instant,
    ) -> (res: (Step, NodeEvent))
        requires
            old(self).phase == Phase::Securing,
            old(pm).wf(),
            peer::clock_fits(now),
        ensures
            *final(self) == old(self).at(Phase::Closed),
            final(pm).wf(),
            connect::handshake_failure_noted(old(pm)@, final(pm)@, old(self).addr, now),
            final(syncer)@ == connect::sync_given_up(old(syncer)@, old(self).addr),
            ended_with(res.0, "noise handshake: "@ + reason@),
            res.1 == NodeEvent::PeerDisconnected(old(self).addr),
    {
        pm.note_handshake_failure(&self.addr, now);
        assert(peer::struck_and_mirrored(old(pm)@, pm@, self.addr, SCORE_MALFORMED, now));
        let reported: NodeEvent = self.close(pm, syncer, now);
        let text: String = error::prefixed("noise handshake: ", reason);
        (Step::End(Err(P2pError::Protocol(text))), reported)
    }

    /// Goes on after the transport was settled: what is done next, and what is reported.
    pub fn enter(
        &mut self,
        pm: &mut PeerManager,
        syncer: &mut ChainSyncer,
        shutting_down: bool,
        now: Instant,
    ) -> (res: (Step, Option<NodeEvent>))
        requires
            old(self).wf(),
            old(self).phase == Phase::Settled,
            old(pm).wf(),
        ensures
            final(self).wf(),
            final(pm).wf(),
            old(self).entered(
                (old(pm)@, old(syncer)@),
                shutting_down,
                now,
                res.0,
                res.1,
                (*final(self), final(pm)@, final(syncer)@),
            ),
    {
        if shutting_down {
            let reported: NodeEvent = self.close(pm, syncer, now);
            return (Step::End(Ok(())), Some(reported));
        }
        self.phase = Phase::Serving;
        (Step::Serve { encrypted: !self.plaintext }, None)
    }

    /// Closes the connection: what is reported.
    pub fn close(&mut self, pm: &mut PeerManager, syncer: &mut ChainSyncer, now: Instant) -> (
        reported: NodeEvent)
        requires
            old(pm).wf(),
        ensures
            *final(self) == old(self).at(Phase::Closed),
            final(pm).wf(),
            final(pm)@ == old(pm)@.without_connection(old(self).addr, now),
            final(syncer)@ == connect::sync_given_up(old(syncer)@, old(self).addr),
            reported == NodeEvent::PeerDisconnected(old(self).addr),
    {
        self.phase = Phase::Closed;
        connect::cleanup_connection(pm, syncer, &self.addr, now)
    }
}

/// Every step that ends a connection closes it: it is reported as disconnected, it holds no slot,
/// and the sync does not go through it. A step that goes on reports no such thing.
pub proof fn every_end_is_reported(
    c: Lifecycle,
    v: (PeersView, SyncView),
    name: Seq<char>,
    own_public: Seq<u8>,
    remote: [u8; 32],
    shutting_down: bool,
    now: Instant,
    step: Step,
    reported: Option<NodeEvent>,
    after: (Lifecycle, PeersView, SyncView),
)
    requires
        c.begun(v, shutting_down, now, step, reported, after) || c.secured(
            v,
            name,
            own_public,
            remote,
            now,
            step,
            reported,
            after,
        ) || c.entered(v, shutting_down, now, step, reported, after),
    ensures
        step is End <==> after.0.phase == Phase::Closed,
        step is End <==> reported == Some(NodeEvent::PeerDisconnected(c.addr)),
        step is End ==> !after.1.tracked_active(c.addr) && !after.1.channels.contains_key(c.addr)
            && after.2.sync_peer != Some(c.addr),
{
}

/// A session in the clear needs the operator's opt-out: without it, whatever the handshake
/// brings, the session either runs encrypted, with a peer that has shown a key which is not our
/// own, or it does not run.
pub proof fn no_plaintext_fallback(
    c: Lifecycle,
    settled: Lifecycle,
    v: (PeersView, SyncView),
    secured_to: (PeersView, SyncView),
    name: Seq<char>,
    own_public: Seq<u8>,
    remote: [u8; 32],
    shutting_down: bool,
    now: Instant,
    first: Step,
    then: Step,
    reported: (Option<NodeEvent>, Option<NodeEvent>),
    after: (Lifecycle, PeersView, SyncView),
)
    requires
        !c.plaintext,
        c.phase == Phase::Securing,
        c.secured(
            v,
            name,
            own_public,
            remote,
            now,
            first,
            reported.0,
            (settled, secured_to.0, secured_to.1),
        ),
        settled.phase == Phase::Settled ==> settled.entered(
            secured_to,
            shutting_down,
            now,
            then,
            reported.1,
            after,
        ),
    ensures
        own_public == remote@ ==> settled.phase == Phase::Closed,
        settled.phase == Phase::Settled && then is Serve ==> then == (Step::Serve {
            encrypted: true,
        }) && own_public != remote@ && settled.remote_static == Some(remote),
{
}

} // verus!
