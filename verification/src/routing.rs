//! Controlled-epidemic routing: which stored bundle to hand to which peer,
//! and in what order.
use vstd::prelude::*;
use crate::types::{BundleId, BundleType, Priority, UserId, group_id_lemmas};
use crate::bundle::{WireBundle, WireBundleView, spec_is_expired};

verus! {

broadcast use group_id_lemmas;

/// What a node knows of a connected peer: who it is, if known, and which
/// bundles it already holds.
#[derive(Clone, Debug)]
pub struct PeerContext {
    pub user_id: Option<UserId>,
    pub known_bundle_ids: Vec<BundleId>,
}

impl PeerContext {
    /// The peer's user, as bytes.
    pub open spec fn user(self) -> Option<Seq<u8>> {
        match self.user_id {
            Some(u) => Some(u@),
            None => None,
        }
    }

    /// The bundles the peer holds, as bytes.
    pub open spec fn known(self) -> Set<Seq<u8>> {
        self.known_bundle_ids@.map_values(|b: BundleId| b@).to_set()
    }

    /// Whether the peer already holds the bundle.
    pub fn knows(&self, bundle_id: &BundleId) -> (r: bool)
        ensures
            r == self.known().contains(bundle_id@),
    {
        let ghost ids = self.known_bundle_ids@.map_values(|b: BundleId| b@);
        let mut i: usize = 0;
        while i < self.known_bundle_ids.len()
            invariant
                i <= self.known_bundle_ids@.len(),
                ids == self.known_bundle_ids@.map_values(|b: BundleId| b@),
                forall|j: int| 0 <= j < i ==> ids[j] != bundle_id@,
            decreases self.known_bundle_ids@.len() - i,
        {
            if self.known_bundle_ids[i] == *bundle_id {
                assert(ids[i as int] == bundle_id@);
                assert(ids.contains(bundle_id@));
                return true;
            }
            i = i + 1;
        }
        assert(!ids.contains(bundle_id@));
        false
    }
}

/// The decision for one bundle and one peer.
#[derive(Clone, Copy, Debug, PartialEq, Eq, Structural)]
pub enum RoutingDecision {
    SendImmediately,
    Offer,
    Skip,
    Drop,
}

/// How many times a bundle may be handed on, by priority (`Bulk` is fixed at 2).
#[derive(Clone, Copy, Debug, PartialEq, Eq, Structural)]
pub struct ControlledEpidemicRouter {
    pub normal_replication_limit: u32,
    pub high_replication_limit: u32,
    pub emergency_replication_limit: u32,
}

impl Default for ControlledEpidemicRouter {
    fn default() -> (r: Self)
        ensures
            r.normal_replication_limit == 6,
            r.high_replication_limit == 12,
            r.emergency_replication_limit == 20,
    {
        ControlledEpidemicRouter {
            normal_replication_limit: 6,
            high_replication_limit: 12,
            emergency_replication_limit: 20,
        }
    }
}

impl ControlledEpidemicRouter {
    pub open spec fn spec_replication_limit(self, priority: Priority) -> u32 {
        match priority {
            Priority::Bulk => 2,
            Priority::Normal => self.normal_replication_limit,
            Priority::High => self.high_replication_limit,
            Priority::Emergency => self.emergency_replication_limit,
        }
    }

    /// The routing rule, in order: expired bundles are dropped; a bundle at
    /// its hop limit, or one the peer already holds, is skipped; the
    /// destination gets it at once; past its replication limit it is
    /// skipped; otherwise it is offered.
    pub open spec fn spec_evaluate(
        self,
        bundle: WireBundleView,
        first_seen_at_ms: i64,
        forward_count: u32,
        peer: PeerContext,
        now_ms: i64,
    ) -> RoutingDecision {
        if spec_is_expired(bundle.immutable.ttl_seconds, now_ms, first_seen_at_ms) {
            RoutingDecision::Drop
        } else if bundle.relay.hop_count >= bundle.immutable.hop_limit {
            RoutingDecision::Skip
        } else if peer.known().contains(bundle.immutable.bundle_id) {
            RoutingDecision::Skip
        } else if peer.user() == Some(bundle.immutable.destination_id) {
            RoutingDecision::SendImmediately
        } else if forward_count >= self.spec_replication_limit(bundle.immutable.priority) {
            RoutingDecision::Skip
        } else {
            RoutingDecision::Offer
        }
    }

    pub fn evaluate(
        &self,
        bundle: &WireBundle,
        first_seen_at_ms: i64,
        forward_count: u32,
        peer: &PeerContext,
        now_ms: i64,
    ) -> (d: RoutingDecision)
        ensures
            d == self.spec_evaluate(bundle@, first_seen_at_ms, forward_count, *peer, now_ms),
    {
        if bundle.is_expired(now_ms, first_seen_at_ms) {
            return RoutingDecision::Drop;
        }
        if bundle.relay.hop_count >= bundle.immutable.hop_limit {
            return RoutingDecision::Skip;
        }
        if peer.knows(&bundle.immutable.bundle_id) {
            return RoutingDecision::Skip;
        }
        if is_destination(peer, &bundle.immutable.destination_id) {
            return RoutingDecision::SendImmediately;
        }
        if forward_count >= self.replication_limit(bundle.immutable.priority) {
            return RoutingDecision::Skip;
        }
        RoutingDecision::Offer
    }

    /// The order of transfers to a peer, highest first: its own bundles,
    /// then delivery acknowledgements, then by priority.
    pub open spec fn spec_transfer_rank(bundle: WireBundleView, peer: PeerContext) -> u8 {
        if peer.user() == Some(bundle.immutable.destination_id) {
            255
        } else if bundle.immutable.bundle_type == BundleType::DeliveryAck {
            250
        } else {
            match bundle.immutable.priority {
                Priority::Emergency => 240,
                Priority::High => 200,
                Priority::Normal => 100,
                Priority::Bulk => 10,
            }
        }
    }

    pub fn transfer_rank(bundle: &WireBundle, peer: &PeerContext) -> (r: u8)
        ensures
            r == Self::spec_transfer_rank(bundle@, *peer),
    {
        if is_destination(peer, &bundle.immutable.destination_id) {
            return 255;
        }
        if bundle.immutable.bundle_type == BundleType::DeliveryAck {
            return 250;
        }
        match bundle.immutable.priority {
            Priority::Emergency => 240,
            Priority::High => 200,
            Priority::Normal => 100,
            Priority::Bulk => 10,
        }
    }

    fn replication_limit(&self, priority: Priority) -> (l: u32)
        ensures
            l == self.spec_replication_limit(priority),
    {
        match priority {
            Priority::Bulk => 2,
            Priority::Normal => self.normal_replication_limit,
            Priority::High => self.high_replication_limit,
            Priority::Emergency => self.emergency_replication_limit,
        }
    }
}

/// Whether the peer is the given user.
fn is_destination(peer: &PeerContext, destination: &UserId) -> (r: bool)
    ensures
        r == (peer.user() == Some(destination@)),
{
    match &peer.user_id {
        Some(u) => *u == *destination,
        None => false,
    }
}

/// The peer holds a bundle with these id bytes.
pub open spec fn peer_holds(peer: PeerContext, id: Seq<u8>) -> bool {
    exists|k: int| 0 <= k < peer.known_bundle_ids.len() && (#[trigger] peer.known_bundle_ids[k])@ == id
}

/// The peer is the user with these id bytes.
pub open spec fn peer_is(peer: PeerContext, user: Seq<u8>) -> bool {
    peer.user_id matches Some(u) && u@ == user
}

/// A bundle whose time to live has passed since it was first seen is dropped.
pub proof fn lemma_expired_bundle_dropped(
    router: ControlledEpidemicRouter,
    b: WireBundleView,
    first_seen_at_ms: i64,
    forward_count: u32,
    peer: PeerContext,
    now_ms: i64,
)
    requires
        now_ms - first_seen_at_ms >= b.immutable.ttl_seconds * 1000,
    ensures
        router.spec_evaluate(b, first_seen_at_ms, forward_count, peer, now_ms) == RoutingDecision::Drop,
{
    crate::bundle::lemma_expired_iff_elapsed(b.immutable.ttl_seconds, now_ms, first_seen_at_ms);
}

/// A live bundle that has used up its hop limit goes to no peer.
pub proof fn lemma_hop_limit_skipped(
    router: ControlledEpidemicRouter,
    b: WireBundleView,
    first_seen_at_ms: i64,
    forward_count: u32,
    peer: PeerContext,
    now_ms: i64,
)
    requires
        now_ms - first_seen_at_ms < b.immutable.ttl_seconds * 1000,
        b.relay.hop_count >= b.immutable.hop_limit,
    ensures
        router.spec_evaluate(b, first_seen_at_ms, forward_count, peer, now_ms) == RoutingDecision::Skip,
{
    crate::bundle::lemma_expired_iff_elapsed(b.immutable.ttl_seconds, now_ms, first_seen_at_ms);
}

/// A live bundle below its hop limit that the peer already holds is
/// skipped, whoever the peer is: it is never sent again, not even to its
/// destination.
pub proof fn lemma_held_bundle_skipped(
    router: ControlledEpidemicRouter,
    b: WireBundleView,
    first_seen_at_ms: i64,
    forward_count: u32,
    peer: PeerContext,
    now_ms: i64,
)
    requires
        now_ms - first_seen_at_ms < b.immutable.ttl_seconds * 1000,
        b.relay.hop_count < b.immutable.hop_limit,
        peer_holds(peer, b.immutable.bundle_id),
    ensures
        router.spec_evaluate(b, first_seen_at_ms, forward_count, peer, now_ms) == RoutingDecision::Skip,
{
    crate::bundle::lemma_expired_iff_elapsed(b.immutable.ttl_seconds, now_ms, first_seen_at_ms);
    let k = choose|k: int| 0 <= k < peer.known_bundle_ids.len() && (#[trigger] peer.known_bundle_ids[k])@
        == b.immutable.bundle_id;
    let ids = peer.known_bundle_ids@.map_values(|x: BundleId| x@);
    assert(ids[k] == b.immutable.bundle_id);
    assert(ids.contains(b.immutable.bundle_id));
}

/// A live bundle below its hop limit, not yet held by the peer, goes at
/// once to its destination, whatever its replication count.
pub proof fn lemma_destination_sent_at_once(
    router: ControlledEpidemicRouter,
    b: WireBundleView,
    first_seen_at_ms: i64,
    forward_count: u32,
    peer: PeerContext,
    now_ms: i64,
)
    requires
        now_ms - first_seen_at_ms < b.immutable.ttl_seconds * 1000,
        b.relay.hop_count < b.immutable.hop_limit,
        !peer_holds(peer, b.immutable.bundle_id),
        peer_is(peer, b.immutable.destination_id),
    ensures
        router.spec_evaluate(b, first_seen_at_ms, forward_count, peer, now_ms)
            == RoutingDecision::SendImmediately,
{
    crate::bundle::lemma_expired_iff_elapsed(b.immutable.ttl_seconds, now_ms, first_seen_at_ms);
    lemma_not_held(peer, b.immutable.bundle_id);
}

/// To any other peer, a live bundle below its hop limit that the peer does
/// not hold is offered while it has been handed on fewer times than its
/// priority's replication limit (2 for bulk, else the router's setting),
/// and skipped from then on.
pub proof fn lemma_replication_limit(
    router: ControlledEpidemicRouter,
    b: WireBundleView,
    first_seen_at_ms: i64,
    forward_count: u32,
    peer: PeerContext,
    now_ms: i64,
)
    requires
        now_ms - first_seen_at_ms < b.immutable.ttl_seconds * 1000,
        b.relay.hop_count < b.immutable.hop_limit,
        !peer_holds(peer, b.immutable.bundle_id),
        !peer_is(peer, b.immutable.destination_id),
    ensures
        ({
            let limit: u32 = match b.immutable.priority {
                Priority::Bulk => 2,
                Priority::Normal => router.normal_replication_limit,
                Priority::High => router.high_replication_limit,
                Priority::Emergency => router.emergency_replication_limit,
            };
            router.spec_evaluate(b, first_seen_at_ms, forward_count, peer, now_ms) == if forward_count
                < limit {
                RoutingDecision::Offer
            } else {
                RoutingDecision::Skip
            }
        }),
{
    crate::bundle::lemma_expired_iff_elapsed(b.immutable.ttl_seconds, now_ms, first_seen_at_ms);
    lemma_not_held(peer, b.immutable.bundle_id);
}

proof fn lemma_not_held(peer: PeerContext, id: Seq<u8>)
    requires
        !peer_holds(peer, id),
    ensures
        !peer.known().contains(id),
{
    let ids = peer.known_bundle_ids@.map_values(|x: BundleId| x@);
    if ids.contains(id) {
        let k = choose|k: int| 0 <= k < ids.len() && ids[k] == id;
        assert(peer.known_bundle_ids[k]@ == id);
    }
}

/// The rank of a bundle for a peer: a bundle addressed to the peer ranks
/// 255 whatever its type or priority; else a delivery acknowledgement 250;
/// else by priority, emergency 240, high 200, normal 100, bulk 10.
pub proof fn lemma_transfer_rank_values(b: WireBundleView, peer: PeerContext)
    ensures
        peer_is(peer, b.immutable.destination_id) ==> ControlledEpidemicRouter::spec_transfer_rank(b, peer)
            == 255,
        !peer_is(peer, b.immutable.destination_id) && b.immutable.bundle_type == BundleType::DeliveryAck
            ==> ControlledEpidemicRouter::spec_transfer_rank(b, peer) == 250,
        !peer_is(peer, b.immutable.destination_id) && b.immutable.bundle_type != BundleType::DeliveryAck
            ==> ControlledEpidemicRouter::spec_transfer_rank(b, peer) == match b.immutable.priority {
            Priority::Emergency => 240u8,
            Priority::High => 200u8,
            Priority::Normal => 100u8,
            Priority::Bulk => 10u8,
        },
{
}

/// Ranks order transfers: the peer's own bundles before everything else,
/// then delivery acknowledgements, then higher priorities first.
pub proof fn lemma_transfer_rank_order(a: WireBundleView, b: WireBundleView, peer: PeerContext)
    ensures
        peer_is(peer, a.immutable.destination_id) && !peer_is(peer, b.immutable.destination_id)
            ==> ControlledEpidemicRouter::spec_transfer_rank(a, peer)
            > ControlledEpidemicRouter::spec_transfer_rank(b, peer),
        !peer_is(peer, a.immutable.destination_id) && !peer_is(peer, b.immutable.destination_id)
            && a.immutable.bundle_type == BundleType::DeliveryAck && b.immutable.bundle_type
            != BundleType::DeliveryAck ==> ControlledEpidemicRouter::spec_transfer_rank(a, peer)
            > ControlledEpidemicRouter::spec_transfer_rank(b, peer),
        !peer_is(peer, a.immutable.destination_id) && !peer_is(peer, b.immutable.destination_id)
            && a.immutable.bundle_type != BundleType::DeliveryAck && b.immutable.bundle_type
            != BundleType::DeliveryAck && a.immutable.priority.spec_code() > b.immutable.priority.spec_code()
            ==> ControlledEpidemicRouter::spec_transfer_rank(a, peer)
            > ControlledEpidemicRouter::spec_transfer_rank(b, peer),
{
}

} // verus!
