//! The event/action core: the native side reports discoveries, links, bytes
//! and clock ticks; the core answers with actions (connect, send, close)
//! and keeps the bundle store.
use vstd::prelude::*;
use crate::types::{BundleId, DiscoveryId, LinkId, UserId, group_id_lemmas};
use crate::error::WireError;
use crate::bundle::WireBundle;
use crate::routing::{ControlledEpidemicRouter, PeerContext, RoutingDecision};
use crate::store::{
    MeshStore, StoreError, StoredBundle, InsertOutcome, StoreView, SqlBundleRow, rows_listed,
    spec_decode_rows, stored_view, spec_insert_outcome, listing_fails, spec_after_insert, spec_after_forward,
    spec_after_tombstone,
};
use crate::crypto::identity::{lex_le, bytes16_le};
use crate::crypto::primitives::CryptoError;
use crate::assoc::{keys_distinct, key_index, assoc_map, assoc_put, assoc_remove, lemma_key_index, lemma_assoc_put, lemma_assoc_remove};
use crate::bundle::{WireBundleView, spec_decode_bundle};

verus! {

broadcast use group_id_lemmas;

/// Tunables of a node.
#[derive(Clone, Debug)]
pub struct MeshConfig {
    pub default_ttl_secs: u32,
    pub default_hop_limit: u16,
    pub relay_quota_bytes: u64,
    pub normal_replication_limit: u32,
    pub high_replication_limit: u32,
    pub emergency_replication_limit: u32,
}

impl Default for MeshConfig {
    /// 72 hours to live, 20 hops, a 250 MiB relay quota, and replication
    /// limits of 6, 12 and 20 for normal, high and emergency bundles.
    fn default() -> (c: Self)
        ensures
            c.default_ttl_secs == 259200,
            c.default_hop_limit == 20,
            c.relay_quota_bytes == 262144000,
            c.normal_replication_limit == 6,
            c.high_replication_limit == 12,
            c.emergency_replication_limit == 20,
    {
        MeshConfig {
            default_ttl_secs: 72 * 60 * 60,
            default_hop_limit: 20,
            relay_quota_bytes: 250 * 1024 * 1024,
            normal_replication_limit: 6,
            high_replication_limit: 12,
            emergency_replication_limit: 20,
        }
    }
}

/// What the native side reports.
#[derive(Clone, Debug)]
pub enum CoreEvent {
    PeerDiscovered { peer_token: Vec<u8>, discovery_id: DiscoveryId },
    PeerLost { peer_token: Vec<u8> },
    LinkOpened { link_id: LinkId, peer_token: Vec<u8> },
    LinkClosed { link_id: LinkId },
    BytesReceived { link_id: LinkId, data: Vec<u8> },
    Tick { now_ms: i64 },
}

/// What the core asks of the native side, or reports to it.
#[derive(Clone, Debug, PartialEq, Eq)]
pub enum CoreAction {
    Connect { peer_token: Vec<u8> },
    SendBytes { link_id: LinkId, data: Vec<u8> },
    CloseLink { link_id: LinkId },
    BundleStored { bundle_id: BundleId },
    BundleDuplicate { bundle_id: BundleId },
    BundleReadyForPeer { link_id: LinkId, bundle_id: BundleId },
    Log { code: String },
}

/// Errors of the core.
#[derive(Debug)]
pub enum CoreError {
    Store(StoreError),
    Wire(WireError),
    UnknownLink(LinkId),
    /// A session frame or step that the handshake state does not allow.
    Session,
    Crypto(CryptoError),
}

// ---------------------------------------------------------------------------
// Transfer order
// ---------------------------------------------------------------------------

/// A bundle to hand to a peer: its transfer rank, when it was first seen,
/// and its id.
pub type Candidate = (u8, i64, BundleId);

/// `a` is announced before `b`: higher rank first, then earlier first-seen.
pub open spec fn goes_before(a: Candidate, b: Candidate) -> bool {
    a.0 > b.0 || (a.0 == b.0 && a.1 < b.1)
}

/// Where `x` is inserted into `sorted`: before the first entry it goes
/// before, so after every entry that ties with it.
pub open spec fn insert_position(sorted: Seq<Candidate>, x: Candidate) -> int
    decreases sorted.len(),
{
    if sorted.len() == 0 || goes_before(x, sorted[0]) {
        0
    } else {
        1 + insert_position(sorted.drop_first(), x)
    }
}

/// The stable sort of candidates by `goes_before`: ties keep their order.
pub open spec fn spec_sort_candidates(s: Seq<Candidate>) -> Seq<Candidate>
    decreases s.len(),
{
    if s.len() == 0 {
        s
    } else {
        let r = spec_sort_candidates(s.drop_last());
        r.insert(insert_position(r, s.last()), s.last())
    }
}

proof fn lemma_insert_position(sorted: Seq<Candidate>, x: Candidate, k: int)
    requires
        0 <= k <= sorted.len(),
        forall|j: int| 0 <= j < k ==> !goes_before(x, #[trigger] sorted[j]),
        k == sorted.len() || goes_before(x, sorted[k]),
    ensures
        insert_position(sorted, x) == k,
    decreases sorted.len(),
{
    if sorted.len() > 0 && k > 0 {
        assert(!goes_before(x, sorted[0]));
        assert forall|j: int| 0 <= j < k - 1 implies !goes_before(x, #[trigger] sorted.drop_first()[j]) by {
            assert(sorted.drop_first()[j] == sorted[j + 1]);
        }
        lemma_insert_position(sorted.drop_first(), x, k - 1);
    }
}

proof fn lemma_insert_position_bounds(sorted: Seq<Candidate>, x: Candidate)
    ensures
        0 <= insert_position(sorted, x) <= sorted.len(),
        forall|j: int| 0 <= j < insert_position(sorted, x) ==> !goes_before(x, #[trigger] sorted[j]),
        insert_position(sorted, x) < sorted.len() ==> goes_before(x, sorted[insert_position(sorted, x)]),
    decreases sorted.len(),
{
    if sorted.len() > 0 && !goes_before(x, sorted[0]) {
        lemma_insert_position_bounds(sorted.drop_first(), x);
        assert forall|j: int| 0 <= j < insert_position(sorted, x) implies !goes_before(x, #[trigger] sorted[j]) by {
            if j > 0 {
                assert(sorted[j] == sorted.drop_first()[j - 1]);
            }
        }
    }
}

/// Sorting keeps every candidate, as many times as it occurs.
pub proof fn lemma_sort_is_permutation(s: Seq<Candidate>)
    ensures
        spec_sort_candidates(s).to_multiset() =~= s.to_multiset(),
        spec_sort_candidates(s).len() == s.len(),
    decreases s.len(),
{
    broadcast use vstd::seq_lib::group_to_multiset_ensures;
    if s.len() > 0 {
        let r = spec_sort_candidates(s.drop_last());
        lemma_sort_is_permutation(s.drop_last());
        lemma_insert_position_bounds(r, s.last());
        let p = insert_position(r, s.last());
        vstd::seq_lib::to_multiset_insert(r, p, s.last());
        vstd::seq_lib::to_multiset_build(s.drop_last(), s.last());
        assert(s =~= s.drop_last().push(s.last()));
    }
}

/// Candidates come out in transfer order: no candidate goes before one
/// announced ahead of it.
pub proof fn lemma_sort_is_sorted(s: Seq<Candidate>)
    ensures
        forall|i: int, j: int|
            0 <= i < j < spec_sort_candidates(s).len() ==> !goes_before(
                #[trigger] spec_sort_candidates(s)[j],
                #[trigger] spec_sort_candidates(s)[i],
            ),
    decreases s.len(),
{
    if s.len() > 0 {
        let r = spec_sort_candidates(s.drop_last());
        let x = s.last();
        lemma_sort_is_sorted(s.drop_last());
        lemma_insert_position_bounds(r, x);
        let p = insert_position(r, x);
        let out = r.insert(p, x);
        assert(out == spec_sort_candidates(s));
        assert forall|i: int, j: int| 0 <= i < j < out.len() implies !goes_before(#[trigger] out[j], #[trigger] out[i]) by {
            if j < p {
                assert(out[i] == r[i] && out[j] == r[j]);
            } else if j == p {
                assert(out[i] == r[i]);
            } else if i == p {
                assert(out[j] == r[j - 1]);
                if p < r.len() {
                    assert(goes_before(x, r[p]));
                    if j - 1 > p {
                        assert(!goes_before(r[j - 1], r[p]));
                    }
                }
            } else if i < p {
                assert(out[i] == r[i] && out[j] == r[j - 1]);
            } else {
                assert(out[i] == r[i - 1] && out[j] == r[j - 1]);
            }
        }
    }
}

/// Where to insert `x`: scans past every entry it does not go before.
fn find_insert_position(sorted: &Vec<Candidate>, x: Candidate) -> (p: usize)
    ensures
        p == insert_position(sorted@, x),
{
    let mut k: usize = 0;
    while k < sorted.len()
        invariant
            k <= sorted@.len(),
            forall|j: int| 0 <= j < k ==> !goes_before(x, #[trigger] sorted@[j]),
        decreases sorted@.len() - k,
    {
        let y = sorted[k];
        if x.0 > y.0 || (x.0 == y.0 && x.1 < y.1) {
            proof { lemma_insert_position(sorted@, x, k as int); }
            return k;
        }
        k = k + 1;
    }
    proof { lemma_insert_position(sorted@, x, k as int); }
    k
}

/// Stable insertion sort of candidates into transfer order.
pub fn sort_candidates(candidates: &Vec<Candidate>) -> (sorted: Vec<Candidate>)
    ensures
        sorted@ == spec_sort_candidates(candidates@),
{
    let mut sorted: Vec<Candidate> = Vec::new();
    let mut i: usize = 0;
    assert(candidates@.take(0) =~= Seq::<Candidate>::empty());
    while i < candidates.len()
        invariant
            i <= candidates@.len(),
            sorted@ == spec_sort_candidates(candidates@.take(i as int)),
        decreases candidates@.len() - i,
    {
        let x = candidates[i];
        let p = find_insert_position(&sorted, x);
        proof {
            lemma_insert_position_bounds(sorted@, x);
            assert(candidates@.take(i + 1).drop_last() =~= candidates@.take(i as int));
            assert(candidates@.take(i + 1).last() == x);
        }
        sorted.insert(p, x);
        i = i + 1;
    }
    assert(candidates@.take(i as int) =~= candidates@);
    sorted
}

// ---------------------------------------------------------------------------
// Planning transfers
// ---------------------------------------------------------------------------

/// The listed bundles that the router would hand to this peer now, in
/// listing order, as candidates.
pub open spec fn spec_link_candidates(
    router: ControlledEpidemicRouter,
    stored: Seq<StoredBundle>,
    peer: PeerContext,
    now_ms: i64,
) -> Seq<Candidate>
    decreases stored.len(),
{
    if stored.len() == 0 {
        Seq::empty()
    } else {
        let prev = spec_link_candidates(router, stored.drop_last(), peer, now_ms);
        let s = stored.last();
        let d = router.spec_evaluate(s.bundle@, s.first_seen_at_ms, s.forward_count, peer, now_ms);
        if d == RoutingDecision::SendImmediately || d == RoutingDecision::Offer {
            prev.push((ControlledEpidemicRouter::spec_transfer_rank(s.bundle@, peer), s.first_seen_at_ms, s.bundle.immutable.bundle_id))
        } else {
            prev
        }
    }
}

/// One `BundleReadyForPeer` per candidate, in order.
pub open spec fn ready_actions(link_id: LinkId, c: Seq<Candidate>) -> Seq<CoreAction> {
    c.map_values(|x: Candidate| CoreAction::BundleReadyForPeer { link_id, bundle_id: x.2 })
}

/// The plan of a tick: link by link, in the order the links are held, the
/// link's candidates in transfer order.
pub open spec fn spec_plan(
    router: ControlledEpidemicRouter,
    stored: Seq<StoredBundle>,
    links: Seq<(LinkId, PeerContext)>,
    now_ms: i64,
) -> Seq<CoreAction>
    decreases links.len(),
{
    if links.len() == 0 {
        Seq::empty()
    } else {
        spec_plan(router, stored, links.drop_last(), now_ms) + ready_actions(
            links.last().0,
            spec_sort_candidates(spec_link_candidates(router, stored, links.last().1, now_ms)),
        )
    }
}

/// The router hands this stored bundle to the peer now: it would send it at
/// once or offer it.
pub open spec fn approved(router: ControlledEpidemicRouter, s: StoredBundle, peer: PeerContext, now_ms: i64) -> bool {
    let d = router.spec_evaluate(s.bundle@, s.first_seen_at_ms, s.forward_count, peer, now_ms);
    d == RoutingDecision::SendImmediately || d == RoutingDecision::Offer
}

/// How many of the stored bundles the router hands to the peer now.
pub open spec fn approved_count(
    router: ControlledEpidemicRouter,
    stored: Seq<StoredBundle>,
    peer: PeerContext,
    now_ms: i64,
) -> nat
    decreases stored.len(),
{
    if stored.len() == 0 {
        0
    } else {
        approved_count(router, stored.drop_last(), peer, now_ms) + if approved(
            router,
            stored.last(),
            peer,
            now_ms,
        ) {
            1nat
        } else {
            0nat
        }
    }
}

/// The number of approved (link, bundle) pairs over the links.
pub open spec fn plan_count(
    router: ControlledEpidemicRouter,
    stored: Seq<StoredBundle>,
    links: Seq<(LinkId, PeerContext)>,
    now_ms: i64,
) -> nat
    decreases links.len(),
{
    if links.len() == 0 {
        0
    } else {
        plan_count(router, stored, links.drop_last(), now_ms) + approved_count(
            router,
            stored,
            links.last().1,
            now_ms,
        )
    }
}

/// Some candidate carries this bundle id.
spec fn lists_id(c: Seq<Candidate>, id: BundleId) -> bool {
    exists|k: int| 0 <= k < c.len() && (#[trigger] c[k]).2 == id
}

/// Some stored bundle with this id is approved for the peer.
spec fn approved_id(
    router: ControlledEpidemicRouter,
    stored: Seq<StoredBundle>,
    peer: PeerContext,
    now_ms: i64,
    id: BundleId,
) -> bool {
    exists|j: int|
        0 <= j < stored.len() && approved(router, #[trigger] stored[j], peer, now_ms)
            && stored[j].bundle.immutable.bundle_id == id
}

/// A peer's candidates are exactly its approved stored bundles.
proof fn lemma_candidates_approved(
    router: ControlledEpidemicRouter,
    stored: Seq<StoredBundle>,
    peer: PeerContext,
    now_ms: i64,
)
    ensures
        ({
            let c = spec_link_candidates(router, stored, peer, now_ms);
            &&& c.len() == approved_count(router, stored, peer, now_ms)
            &&& forall|j: int|
                0 <= j < stored.len() && approved(router, #[trigger] stored[j], peer, now_ms) ==> lists_id(
                    c,
                    stored[j].bundle.immutable.bundle_id,
                )
            &&& forall|k: int| 0 <= k < c.len() ==> approved_id(router, stored, peer, now_ms, (#[trigger] c[k]).2)
        }),
    decreases stored.len(),
{
    if stored.len() > 0 {
        let prev_s = stored.drop_last();
        lemma_candidates_approved(router, prev_s, peer, now_ms);
        let prev = spec_link_candidates(router, prev_s, peer, now_ms);
        let c = spec_link_candidates(router, stored, peer, now_ms);
        let last = stored.last();
        assert forall|j: int|
            0 <= j < stored.len() && approved(router, #[trigger] stored[j], peer, now_ms) implies lists_id(
            c,
            stored[j].bundle.immutable.bundle_id,
        ) by {
            if j == stored.len() - 1 {
                assert(c[c.len() - 1].2 == last.bundle.immutable.bundle_id);
            } else {
                assert(prev_s[j] == stored[j]);
                let k = choose|k: int| 0 <= k < prev.len() && (#[trigger] prev[k]).2 == stored[j].bundle.immutable.bundle_id;
                assert(c[k] == prev[k]);
            }
        }
        assert forall|k: int| 0 <= k < c.len() implies approved_id(router, stored, peer, now_ms, (#[trigger] c[k]).2) by {
            if k < prev.len() {
                assert(c[k] == prev[k]);
                assert(approved_id(router, prev_s, peer, now_ms, prev[k].2));
                let j = choose|j: int|
                    0 <= j < prev_s.len() && approved(router, #[trigger] prev_s[j], peer, now_ms)
                        && prev_s[j].bundle.immutable.bundle_id == prev[k].2;
                assert(stored[j] == prev_s[j]);
            } else {
                assert(stored[stored.len() - 1] == last);
            }
        }
    }
}

/// What a link's actions hold: one per approved stored bundle, for that link.
proof fn lemma_link_actions(
    router: ControlledEpidemicRouter,
    stored: Seq<StoredBundle>,
    link_id: LinkId,
    peer: PeerContext,
    now_ms: i64,
)
    ensures
        ({
            let a = ready_actions(link_id, spec_sort_candidates(spec_link_candidates(router, stored, peer, now_ms)));
            &&& a.len() == approved_count(router, stored, peer, now_ms)
            &&& forall|j: int|
                0 <= j < stored.len() && approved(router, #[trigger] stored[j], peer, now_ms) ==> a.contains(
                    CoreAction::BundleReadyForPeer { link_id, bundle_id: stored[j].bundle.immutable.bundle_id },
                )
            &&& forall|k: int|
                #![trigger a[k]]
                0 <= k < a.len() ==> exists|j: int|
                    0 <= j < stored.len() && approved(router, #[trigger] stored[j], peer, now_ms) && a[k]
                        == CoreAction::BundleReadyForPeer { link_id, bundle_id: stored[j].bundle.immutable.bundle_id }
        }),
{
    broadcast use vstd::seq_lib::group_to_multiset_ensures;
    let c = spec_link_candidates(router, stored, peer, now_ms);
    let sorted = spec_sort_candidates(c);
    let a = ready_actions(link_id, sorted);
    lemma_candidates_approved(router, stored, peer, now_ms);
    lemma_sort_is_permutation(c);
    assert forall|j: int|
        0 <= j < stored.len() && approved(router, #[trigger] stored[j], peer, now_ms) implies a.contains(
        CoreAction::BundleReadyForPeer { link_id, bundle_id: stored[j].bundle.immutable.bundle_id },
    ) by {
        assert(lists_id(c, stored[j].bundle.immutable.bundle_id));
        let k = choose|k: int| 0 <= k < c.len() && (#[trigger] c[k]).2 == stored[j].bundle.immutable.bundle_id;
        assert(c.contains(c[k]));
        assert(c.to_multiset().count(c[k]) > 0);
        assert(sorted.contains(c[k]));
        let k2 = choose|k2: int| 0 <= k2 < sorted.len() && sorted[k2] == c[k];
        assert(a[k2] == CoreAction::BundleReadyForPeer { link_id, bundle_id: sorted[k2].2 });
    }
    assert forall|k: int| #![trigger a[k]] 0 <= k < a.len() implies exists|j: int|
        0 <= j < stored.len() && approved(router, #[trigger] stored[j], peer, now_ms) && a[k]
            == CoreAction::BundleReadyForPeer { link_id, bundle_id: stored[j].bundle.immutable.bundle_id } by {
        assert(a[k] == CoreAction::BundleReadyForPeer { link_id, bundle_id: sorted[k].2 });
        assert(sorted.contains(sorted[k]));
        assert(sorted.to_multiset().count(sorted[k]) > 0);
        assert(c.contains(sorted[k]));
        let k2 = choose|k2: int| 0 <= k2 < c.len() && c[k2] == sorted[k];
        assert(approved_id(router, stored, peer, now_ms, c[k2].2));
    }
}

/// Every open link gets its plan: for every held link and every stored
/// bundle the router would send at once or offer to that link's peer, the
/// tick's plan holds `BundleReadyForPeer` for that link and bundle.
pub proof fn lemma_plan_covers_every_link(
    router: ControlledEpidemicRouter,
    stored: Seq<StoredBundle>,
    links: Seq<(LinkId, PeerContext)>,
    now_ms: i64,
    i: int,
    j: int,
)
    requires
        0 <= i < links.len(),
        0 <= j < stored.len(),
        approved(router, stored[j], links[i].1, now_ms),
    ensures
        spec_plan(router, stored, links, now_ms).contains(
            (CoreAction::BundleReadyForPeer { link_id: links[i].0, bundle_id: stored[j].bundle.immutable.bundle_id }),
        ),
    decreases links.len(),
{
    let x = CoreAction::BundleReadyForPeer { link_id: links[i].0, bundle_id: stored[j].bundle.immutable.bundle_id };
    let before = spec_plan(router, stored, links.drop_last(), now_ms);
    let last = links.last();
    let a = ready_actions(last.0, spec_sort_candidates(spec_link_candidates(router, stored, last.1, now_ms)));
    assert(spec_plan(router, stored, links, now_ms) == before + a);
    if i == links.len() - 1 {
        lemma_link_actions(router, stored, last.0, last.1, now_ms);
        assert(a.contains(x));
        let k = choose|k: int| 0 <= k < a.len() && a[k] == x;
        assert((before + a)[before.len() + k] == x);
    } else {
        assert(links.drop_last()[i] == links[i]);
        lemma_plan_covers_every_link(router, stored, links.drop_last(), now_ms, i, j);
        let k = choose|k: int| 0 <= k < before.len() && before[k] == x;
        assert((before + a)[k] == x);
    }
}

/// Every action of the tick's plan is `BundleReadyForPeer` for a held link
/// and a stored bundle the router would send at once or offer to that
/// link's peer.
pub proof fn lemma_plan_only_approved(
    router: ControlledEpidemicRouter,
    stored: Seq<StoredBundle>,
    links: Seq<(LinkId, PeerContext)>,
    now_ms: i64,
    k: int,
)
    requires
        0 <= k < spec_plan(router, stored, links, now_ms).len(),
    ensures
        (exists|i: int, j: int|
            0 <= i < links.len() && 0 <= j < stored.len() && approved(router, #[trigger] stored[j], #[trigger] links[i].1, now_ms)
                && spec_plan(router, stored, links, now_ms)[k] == (CoreAction::BundleReadyForPeer {
                link_id: links[i].0,
                bundle_id: stored[j].bundle.immutable.bundle_id,
            })),
    decreases links.len(),
{
    let plan = spec_plan(router, stored, links, now_ms);
    let before = spec_plan(router, stored, links.drop_last(), now_ms);
    let i = links.len() - 1;
    let last = links.last();
    let a = ready_actions(last.0, spec_sort_candidates(spec_link_candidates(router, stored, last.1, now_ms)));
    assert(plan == before + a);
    if k < before.len() {
        lemma_plan_only_approved(router, stored, links.drop_last(), now_ms, k);
        let (i0, j0) = choose|i0: int, j0: int|
            0 <= i0 < links.drop_last().len() && 0 <= j0 < stored.len() && approved(router, #[trigger] stored[j0], #[trigger] links.drop_last()[i0].1, now_ms)
                && before[k] == CoreAction::BundleReadyForPeer {
                link_id: links.drop_last()[i0].0,
                bundle_id: stored[j0].bundle.immutable.bundle_id,
            };
        assert(links.drop_last()[i0] == links[i0]);
        assert(plan[k] == before[k]);
    } else {
        lemma_link_actions(router, stored, last.0, last.1, now_ms);
        let k2 = k - before.len();
        assert(plan[k] == a[k2]);
        let j = choose|j: int|
            0 <= j < stored.len() && approved(router, #[trigger] stored[j], last.1, now_ms) && a[k2]
                == CoreAction::BundleReadyForPeer { link_id: last.0, bundle_id: stored[j].bundle.immutable.bundle_id };
        assert(links[i] == last);
    }
}

/// The plan has one action per approved (link, bundle) pair: its length is
/// the sum over the held links of how many stored bundles each peer is
/// handed.
pub proof fn lemma_plan_length(
    router: ControlledEpidemicRouter,
    stored: Seq<StoredBundle>,
    links: Seq<(LinkId, PeerContext)>,
    now_ms: i64,
)
    ensures
        spec_plan(router, stored, links, now_ms).len() == plan_count(router, stored, links, now_ms),
    decreases links.len(),
{
    if links.len() > 0 {
        lemma_plan_length(router, stored, links.drop_last(), now_ms);
        lemma_link_actions(router, stored, links.last().0, links.last().1, now_ms);
    }
}

/// `list` is what listing the store gives: its rows in listing order, decoded.
pub open spec fn store_lists(v: StoreView, list: Seq<StoredBundle>) -> bool {
    exists|rows: Seq<SqlBundleRow>|
        rows_listed(v.bundles, rows) && #[trigger] spec_decode_rows(rows) == Ok::<
            Seq<(WireBundleView, i64, u32)>,
            WireError,
        >(list.map_values(|s: StoredBundle| stored_view(s)))
}

/// The candidates for one peer.
pub fn link_candidates(
    router: &ControlledEpidemicRouter,
    stored: &Vec<StoredBundle>,
    peer: &PeerContext,
    now_ms: i64,
) -> (c: Vec<Candidate>)
    ensures
        c@ == spec_link_candidates(*router, stored@, *peer, now_ms),
{
    let mut c: Vec<Candidate> = Vec::new();
    let mut i: usize = 0;
    assert(stored@.take(0) =~= Seq::<StoredBundle>::empty());
    while i < stored.len()
        invariant
            i <= stored@.len(),
            c@ == spec_link_candidates(*router, stored@.take(i as int), *peer, now_ms),
        decreases stored@.len() - i,
    {
        let s = &stored[i];
        proof {
            assert(stored@.take(i + 1).drop_last() =~= stored@.take(i as int));
            assert(stored@.take(i + 1).last() == stored@[i as int]);
        }
        let d = router.evaluate(&s.bundle, s.first_seen_at_ms, s.forward_count, peer, now_ms);
        if d == RoutingDecision::SendImmediately || d == RoutingDecision::Offer {
            let rank = ControlledEpidemicRouter::transfer_rank(&s.bundle, peer);
            c.push((rank, s.first_seen_at_ms, s.bundle.immutable.bundle_id));
        }
        i = i + 1;
    }
    assert(stored@.take(i as int) =~= stored@);
    c
}

/// Whether two byte strings are equal.
pub fn bytes_eq(a: &[u8], b: &[u8]) -> (r: bool)
    ensures
        r == (a@ == b@),
{
    if a.len() != b.len() {
        return false;
    }
    let mut i: usize = 0;
    while i < a.len()
        invariant
            i <= a@.len(),
            a@.len() == b@.len(),
            forall|j: int| 0 <= j < i ==> a@[j] == b@[j],
        decreases a@.len() - i,
    {
        if a[i] != b[i] {
            return false;
        }
        i = i + 1;
    }
    assert(a@ =~= b@);
    true
}

/// Discovery ids in byte order: `a` strictly before `b`.
pub open spec fn id_lt(a: Seq<u8>, b: Seq<u8>) -> bool {
    lex_le(a, b) && a != b
}

pub open spec fn peer_view(peers: Seq<(Vec<u8>, DiscoveryId)>) -> Seq<(Seq<u8>, DiscoveryId)> {
    peers.map_values(|e: (Vec<u8>, DiscoveryId)| (e.0@, e.1))
}

fn find_peer(peers: &Vec<(Vec<u8>, DiscoveryId)>, token: &[u8]) -> (r: Option<usize>)
    ensures
        r matches Some(i) ==> i < peers@.len(),
        match r {
            Some(i) => i == key_index(peer_view(peers@), token@),
            None => key_index(peer_view(peers@), token@) < 0,
        },
{
    proof { lemma_key_index(peer_view(peers@), token@); }
    let mut i: usize = 0;
    while i < peers.len()
        invariant
            i <= peers@.len(),
            forall|j: int| 0 <= j < i ==> peers@[j].0@ != token@,
        decreases peers@.len() - i,
    {
        if bytes_eq(peers[i].0.as_slice(), token) {
            proof { lemma_first_key(peer_view(peers@), token@, i as int); }
            return Some(i);
        }
        i = i + 1;
    }
    proof {
        if key_index(peer_view(peers@), token@) >= 0 {
            let k = key_index(peer_view(peers@), token@);
            assert(peer_view(peers@)[k].0 == peers@[k].0@);
        }
    }
    None
}

fn find_link(links: &Vec<(LinkId, PeerContext)>, link_id: LinkId) -> (r: Option<usize>)
    ensures
        r matches Some(i) ==> i < links@.len(),
        match r {
            Some(i) => i == key_index(links@, link_id),
            None => key_index(links@, link_id) < 0,
        },
{
    proof { lemma_key_index(links@, link_id); }
    let mut i: usize = 0;
    while i < links.len()
        invariant
            i <= links@.len(),
            forall|j: int| 0 <= j < i ==> links@[j].0 != link_id,
        decreases links@.len() - i,
    {
        if links[i].0 == link_id {
            proof { lemma_first_key(links@, link_id, i as int); }
            return Some(i);
        }
        i = i + 1;
    }
    None
}

pub proof fn lemma_first_key<K, V>(s: Seq<(K, V)>, k: K, i: int)
    requires
        0 <= i < s.len(),
        s[i].0 == k,
        forall|j: int| 0 <= j < i ==> #[trigger] s[j].0 != k,
    ensures
        key_index(s, k) == i,
    decreases s.len(),
{
    if i > 0 {
        assert(s[0].0 != k);
        assert forall|j: int| 0 <= j < i - 1 implies #[trigger] s.drop_first()[j].0 != k by {
            assert(s.drop_first()[j] == s[j + 1]);
        }
        lemma_first_key(s.drop_first(), k, i - 1);
    }
}

// ---------------------------------------------------------------------------
// The core
// ---------------------------------------------------------------------------

/// A node: its store, routing limits, the peers it has discovered and the
/// links it has open.
pub struct MeshCore {
    store: MeshStore,
    router: ControlledEpidemicRouter,
    peers: Vec<(Vec<u8>, DiscoveryId)>,
    links: Vec<(LinkId, PeerContext)>,
    local_discovery_id: DiscoveryId,
    config: MeshConfig,
}

impl MeshCore {
    /// Tokens and link ids are each held once.
    pub closed spec fn wf(self) -> bool {
        &&& keys_distinct(peer_view(self.peers@))
        &&& keys_distinct(self.links@)
    }

    /// What the store holds.
    pub closed spec fn store_view(self) -> StoreView {
        self.store@
    }

    /// The routing limits, taken from the configuration.
    pub closed spec fn router(self) -> ControlledEpidemicRouter {
        self.router
    }

    pub closed spec fn spec_config(self) -> MeshConfig {
        self.config
    }

    pub closed spec fn spec_local_discovery_id(self) -> DiscoveryId {
        self.local_discovery_id
    }

    /// The discovered peers, by token, in the order first discovered.
    pub closed spec fn peer_entries(self) -> Seq<(Seq<u8>, DiscoveryId)> {
        peer_view(self.peers@)
    }

    /// The open links and what is known of each peer, in the order opened.
    pub closed spec fn link_entries(self) -> Seq<(LinkId, PeerContext)> {
        self.links@
    }

    /// The discovered peers as a map from token to discovery id.
    pub open spec fn peers(self) -> Map<Seq<u8>, DiscoveryId> {
        assoc_map(self.peer_entries())
    }

    /// The open links as a map.
    pub open spec fn links(self) -> Map<LinkId, PeerContext> {
        assoc_map(self.link_entries())
    }

    /// Opens a node on the database file at `path`, with a fresh discovery id.
    pub fn open(path: &str, config: MeshConfig) -> (res: Result<Self, CoreError>)
        ensures
            res matches Ok(c) ==> c.wf() && c.peer_entries().len() == 0 && c.link_entries().len() == 0
                && c.spec_config() == config && c.router() == router_of(config),
            res matches Err(e) ==> (e matches CoreError::Store(StoreError::Sqlite(_))),
    {
        match MeshStore::open(path) {
            Ok(store) => Ok(Self::from_store(store, config)),
            Err(e) => Err(CoreError::Store(e)),
        }
    }

    /// A node with a fresh in-memory store.
    pub fn open_in_memory(config: MeshConfig) -> (res: Result<Self, CoreError>)
        ensures
            res matches Ok(c) ==> c.wf() && c.peer_entries().len() == 0 && c.link_entries().len() == 0
                && c.spec_config() == config && c.router() == router_of(config)
                && c.store_view().bundles.dom() == Set::<Seq<u8>>::empty()
                && c.store_view().tombstones.dom() == Set::<Seq<u8>>::empty(),
            res matches Err(e) ==> (e matches CoreError::Store(StoreError::Sqlite(_))),
    {
        match MeshStore::open_in_memory() {
            Ok(store) => Ok(Self::from_store(store, config)),
            Err(e) => Err(CoreError::Store(e)),
        }
    }

    fn from_store(store: MeshStore, config: MeshConfig) -> (c: Self)
        ensures
            c.wf(),
            c.peer_entries().len() == 0,
            c.link_entries().len() == 0,
            c.spec_config() == config,
            c.router() == router_of(config),
            c.store_view() == store@,
    {
        let router = ControlledEpidemicRouter {
            normal_replication_limit: config.normal_replication_limit,
            high_replication_limit: config.high_replication_limit,
            emergency_replication_limit: config.emergency_replication_limit,
        };
        let peers: Vec<(Vec<u8>, DiscoveryId)> = Vec::new();
        let links: Vec<(LinkId, PeerContext)> = Vec::new();
        assert(peer_view(peers@) =~= Seq::<(Seq<u8>, DiscoveryId)>::empty());
        MeshCore { store, router, peers, links, local_discovery_id: DiscoveryId::random(), config }
    }

    /// This node's discovery id.
    pub fn local_discovery_id(&self) -> (d: DiscoveryId)
        ensures
            d == self.spec_local_discovery_id(),
    {
        self.local_discovery_id
    }

    /// Records a discovered peer (replacing what was recorded for its
    /// token); the node with the lower discovery id initiates the link.
    fn on_peer_discovered(&mut self, peer_token: Vec<u8>, discovery_id: DiscoveryId) -> (a: Vec<CoreAction>)
        requires
            old(self).wf(),
        ensures
            final(self).wf(),
            final(self).spec_config() == old(self).spec_config(),
            final(self).peer_entries() == assoc_put(old(self).peer_entries(), peer_token@, discovery_id),
            final(self).link_entries() == old(self).link_entries(),
            final(self).store_view() == old(self).store_view(),
            final(self).router() == old(self).router(),
            final(self).spec_local_discovery_id() == old(self).spec_local_discovery_id(),
            a@ == (if id_lt(old(self).spec_local_discovery_id()@, discovery_id@) {
                seq![CoreAction::Connect { peer_token }]
            } else {
                Seq::<CoreAction>::empty()
            }),
    {
        let found = find_peer(&self.peers, peer_token.as_slice());
        let ghost old_peers = self.peers@;
        proof { lemma_assoc_put(peer_view(old_peers), peer_token@, discovery_id); }
        match found {
            Some(i) => {
                let token = peer_token.clone();
                assert(token@ =~= peer_token@);
                self.peers.set(i, (token, discovery_id));
                assert(peer_view(self.peers@) =~= assoc_put(peer_view(old_peers), peer_token@, discovery_id));
            },
            None => {
                let token = peer_token.clone();
                assert(token@ =~= peer_token@);
                self.peers.push((token, discovery_id));
                assert(peer_view(self.peers@) =~= assoc_put(peer_view(old_peers), peer_token@, discovery_id));
            },
        }
        let lower = bytes16_le(self.local_discovery_id.as_bytes(), discovery_id.as_bytes())
            && !(self.local_discovery_id == discovery_id);
        if lower {
            vec![CoreAction::Connect { peer_token }]
        } else {
            Vec::new()
        }
    }

    fn on_peer_lost(&mut self, peer_token: &Vec<u8>)
        requires
            old(self).wf(),
        ensures
            final(self).wf(),
            final(self).spec_config() == old(self).spec_config(),
            final(self).peer_entries() == assoc_remove(old(self).peer_entries(), peer_token@),
            final(self).link_entries() == old(self).link_entries(),
            final(self).store_view() == old(self).store_view(),
            final(self).router() == old(self).router(),
            final(self).spec_local_discovery_id() == old(self).spec_local_discovery_id(),
    {
        let ghost old_peers = self.peers@;
        proof { lemma_assoc_remove(peer_view(old_peers), peer_token@); }
        if let Some(i) = find_peer(&self.peers, peer_token.as_slice()) {
            self.peers.remove(i);
            assert(peer_view(self.peers@) =~= assoc_remove(peer_view(old_peers), peer_token@));
        }
    }

    fn on_link_opened(&mut self, link_id: LinkId) -> (a: Vec<CoreAction>)
        requires
            old(self).wf(),
        ensures
            final(self).wf(),
            final(self).spec_config() == old(self).spec_config(),
            exists|p: PeerContext|
                p.user_id is None && p.known_bundle_ids@.len() == 0 && final(self).link_entries() == #[trigger] assoc_put(
                    old(self).link_entries(),
                    link_id,
                    p,
                ),
            final(self).peer_entries() == old(self).peer_entries(),
            final(self).store_view() == old(self).store_view(),
            final(self).router() == old(self).router(),
            final(self).spec_local_discovery_id() == old(self).spec_local_discovery_id(),
            a@.len() == 1,
            a@[0] matches CoreAction::Log { code } && code@ == "LINK_OPENED"@,
    {
        let fresh = PeerContext { user_id: None, known_bundle_ids: Vec::new() };
        let ghost p = fresh;
        proof { lemma_assoc_put(self.links@, link_id, fresh); }
        match find_link(&self.links, link_id) {
            Some(i) => {
                self.links.set(i, (link_id, fresh));
            },
            None => {
                self.links.push((link_id, fresh));
            },
        }
        assert(self.links@ =~= assoc_put(old(self).links@, link_id, p));
        assert(p.user_id is None && p.known_bundle_ids@.len() == 0 && self.link_entries() == assoc_put(old(self).link_entries(), link_id, p));
        let code = "LINK_OPENED".to_owned();
        vec![CoreAction::Log { code }]
    }

    fn on_link_closed(&mut self, link_id: LinkId)
        requires
            old(self).wf(),
        ensures
            final(self).wf(),
            final(self).spec_config() == old(self).spec_config(),
            final(self).link_entries() == assoc_remove(old(self).link_entries(), link_id),
            final(self).peer_entries() == old(self).peer_entries(),
            final(self).store_view() == old(self).store_view(),
            final(self).router() == old(self).router(),
            final(self).spec_local_discovery_id() == old(self).spec_local_discovery_id(),
    {
        proof { lemma_assoc_remove(self.links@, link_id); }
        if let Some(i) = find_link(&self.links, link_id) {
            self.links.remove(i);
        }
        assert(self.links@ =~= assoc_remove(old(self).links@, link_id));
    }

    /// Stores a bundle received on a link, with its relay receive time as
    /// the first-seen time.
    fn receive_wire_bundle(&mut self, data: &[u8]) -> (res: Result<Vec<CoreAction>, CoreError>)
        requires
            old(self).wf(),
        ensures
            final(self).wf(),
            final(self).spec_config() == old(self).spec_config(),
            final(self).peer_entries() == old(self).peer_entries(),
            final(self).link_entries() == old(self).link_entries(),
            final(self).router() == old(self).router(),
            final(self).spec_local_discovery_id() == old(self).spec_local_discovery_id(),
            receive_outcome(old(self).store_view(), data@, res, final(self).store_view()),
    {
        let bundle = match WireBundle::decode_cbor(data) {
            Ok(b) => b,
            Err(e) => return Err(CoreError::Wire(e)),
        };
        let bundle_id = bundle.immutable.bundle_id;
        match self.store.insert_bundle(&bundle, bundle.relay.received_at_ms) {
            Ok(InsertOutcome::Inserted) => Ok(vec![CoreAction::BundleStored { bundle_id }]),
            Ok(_) => Ok(vec![CoreAction::BundleDuplicate { bundle_id }]),
            Err(e) => Err(CoreError::Store(e)),
        }
    }

    /// For every open link, the stored bundles the router would hand to that
    /// peer now, in transfer order.
    fn plan_transfers(&self, now_ms: i64) -> (res: Result<Vec<CoreAction>, CoreError>)
        ensures
            res matches Ok(a) ==> exists|list: Seq<StoredBundle>|
                store_lists(self.store_view(), list) && a@ == #[trigger] spec_plan(
                    self.router(),
                    list,
                    self.link_entries(),
                    now_ms,
                ),
            res matches Err(e) ==> (e matches CoreError::Store(StoreError::Sqlite(_))) || (e matches CoreError::Store(StoreError::Wire(w)) && listing_fails(self.store_view(), w)),
    {
        let bundles = match self.store.list_bundles() {
            Ok(b) => b,
            Err(e) => return Err(CoreError::Store(e)),
        };
        let mut actions: Vec<CoreAction> = Vec::new();
        let mut li: usize = 0;
        assert(self.links@.take(0) =~= Seq::<(LinkId, PeerContext)>::empty());
        while li < self.links.len()
            invariant
                li <= self.links@.len(),
                actions@ == spec_plan(self.router, bundles@, self.links@.take(li as int), now_ms),
            decreases self.links@.len() - li,
        {
            let link_id = self.links[li].0;
            let peer = &self.links[li].1;
            let candidates = link_candidates(&self.router, &bundles, peer, now_ms);
            let sorted = sort_candidates(&candidates);
            let ghost before = actions@;
            let mut k: usize = 0;
            while k < sorted.len()
                invariant
                    k <= sorted@.len(),
                    actions@ == before + ready_actions(link_id, sorted@.take(k as int)),
                decreases sorted@.len() - k,
            {
                actions.push(CoreAction::BundleReadyForPeer { link_id, bundle_id: sorted[k].2 });
                assert(ready_actions(link_id, sorted@.take(k + 1)) =~= ready_actions(link_id, sorted@.take(k as int)).push(
                    CoreAction::BundleReadyForPeer { link_id, bundle_id: sorted@[k as int].2 },
                ));
                k = k + 1;
            }
            assert(sorted@.take(k as int) =~= sorted@);
            assert(self.links@.take(li + 1).drop_last() =~= self.links@.take(li as int));
            li = li + 1;
        }
        assert(self.links@.take(li as int) =~= self.links@);
        assert(store_lists(self.store@, bundles@));
        assert(actions@ == spec_plan(self.router(), bundles@, self.link_entries(), now_ms));
        Ok(actions)
    }

    /// Handles one event from the native side.
    pub fn process_event(&mut self, event: CoreEvent) -> (res: Result<Vec<CoreAction>, CoreError>)
        requires
            old(self).wf(),
        ensures
            final(self).wf(),
            final(self).router() == old(self).router(),
            final(self).spec_local_discovery_id() == old(self).spec_local_discovery_id(),
            final(self).spec_config() == old(self).spec_config(),
            match event {
                CoreEvent::PeerDiscovered { peer_token, discovery_id } => {
                    &&& final(self).peer_entries() == assoc_put(old(self).peer_entries(), peer_token@, discovery_id)
                    &&& final(self).peers() == old(self).peers().insert(peer_token@, discovery_id)
                    &&& final(self).link_entries() == old(self).link_entries()
                    &&& final(self).store_view() == old(self).store_view()
                    &&& res matches Ok(a) && a@ == (if id_lt(old(self).spec_local_discovery_id()@, discovery_id@) {
                        seq![CoreAction::Connect { peer_token }]
                    } else {
                        Seq::<CoreAction>::empty()
                    })
                },
                CoreEvent::PeerLost { peer_token } => {
                    &&& final(self).peer_entries() == assoc_remove(old(self).peer_entries(), peer_token@)
                    &&& final(self).peers() == old(self).peers().remove(peer_token@)
                    &&& final(self).link_entries() == old(self).link_entries()
                    &&& final(self).store_view() == old(self).store_view()
                    &&& res matches Ok(a) && a@.len() == 0
                },
                CoreEvent::LinkOpened { link_id, peer_token: _ } => {
                    &&& exists|p: PeerContext|
                        p.user_id is None && p.known_bundle_ids@.len() == 0 && final(self).link_entries()
                            == #[trigger] assoc_put(old(self).link_entries(), link_id, p)
                    &&& final(self).peer_entries() == old(self).peer_entries()
                    &&& final(self).store_view() == old(self).store_view()
                    &&& res matches Ok(a) && a@.len() == 1 && (a@[0] matches CoreAction::Log { code } && code@ == "LINK_OPENED"@)
                },
                CoreEvent::LinkClosed { link_id } => {
                    &&& final(self).link_entries() == assoc_remove(old(self).link_entries(), link_id)
                    &&& final(self).links() == old(self).links().remove(link_id)
                    &&& final(self).peer_entries() == old(self).peer_entries()
                    &&& final(self).store_view() == old(self).store_view()
                    &&& res matches Ok(a) && a@.len() == 0
                },
                CoreEvent::BytesReceived { link_id: _, data } => {
                    &&& final(self).peer_entries() == old(self).peer_entries()
                    &&& final(self).link_entries() == old(self).link_entries()
                    &&& receive_outcome(old(self).store_view(), data@, res, final(self).store_view())
                },
                CoreEvent::Tick { now_ms } => {
                    &&& final(self).peer_entries() == old(self).peer_entries()
                    &&& final(self).link_entries() == old(self).link_entries()
                    &&& final(self).store_view() == old(self).store_view()
                    &&& res matches Ok(a) ==> exists|list: Seq<StoredBundle>|
                        store_lists(old(self).store_view(), list) && a@ == #[trigger] spec_plan(
                            old(self).router(),
                            list,
                            old(self).link_entries(),
                            now_ms,
                        )
                    &&& res matches Err(e) ==> (e matches CoreError::Store(StoreError::Sqlite(_))) || (e matches CoreError::Store(StoreError::Wire(w)) && listing_fails(old(self).store_view(), w))
                },
            },
    {
        proof {
            match &event {
                CoreEvent::PeerDiscovered { peer_token, discovery_id } => {
                    lemma_assoc_put(self.peer_entries(), peer_token@, *discovery_id);
                },
                CoreEvent::PeerLost { peer_token } => {
                    lemma_assoc_remove(self.peer_entries(), peer_token@);
                },
                CoreEvent::LinkClosed { link_id } => {
                    lemma_assoc_remove(self.link_entries(), *link_id);
                },
                _ => {},
            }
        }
        match event {
            CoreEvent::PeerDiscovered { peer_token, discovery_id } => Ok(self.on_peer_discovered(peer_token, discovery_id)),
            CoreEvent::PeerLost { peer_token } => {
                self.on_peer_lost(&peer_token);
                Ok(Vec::new())
            },
            CoreEvent::LinkOpened { link_id, peer_token: _ } => Ok(self.on_link_opened(link_id)),
            CoreEvent::LinkClosed { link_id } => {
                self.on_link_closed(link_id);
                Ok(Vec::new())
            },
            CoreEvent::BytesReceived { link_id: _, data } => self.receive_wire_bundle(data.as_slice()),
            CoreEvent::Tick { now_ms } => self.plan_transfers(now_ms),
        }
    }

    /// Offers a bundle to the store directly.
    pub fn import_bundle(&mut self, bundle: &WireBundle, first_seen_at_ms: i64) -> (res: Result<InsertOutcome, CoreError>)
        requires
            old(self).wf(),
        ensures
            final(self).wf(),
            final(self).spec_config() == old(self).spec_config(),
            final(self).peer_entries() == old(self).peer_entries(),
            final(self).link_entries() == old(self).link_entries(),
            final(self).router() == old(self).router(),
            final(self).spec_local_discovery_id() == old(self).spec_local_discovery_id(),
            match res {
                Ok(o) => o == spec_insert_outcome(old(self).store_view(), bundle@.immutable.bundle_id)
                    && final(self).store_view() == spec_after_insert(old(self).store_view(), bundle@, first_seen_at_ms),
                Err(CoreError::Store(StoreError::Wire(e))) => spec_insert_outcome(old(self).store_view(), bundle@.immutable.bundle_id)
                    == InsertOutcome::Inserted && crate::bundle::spec_validate_shape(bundle@) == Err::<(), WireError>(e)
                    && final(self).store_view() == old(self).store_view(),
                Err(e) => (e matches CoreError::Store(StoreError::Sqlite(_))) && final(self).store_view() == old(self).store_view(),
            },
    {
        match self.store.insert_bundle(bundle, first_seen_at_ms) {
            Ok(o) => Ok(o),
            Err(e) => Err(CoreError::Store(e)),
        }
    }

    /// Records who the peer on a link is and which bundles it holds; an
    /// unknown link is `UnknownLink`.
    pub fn set_peer_inventory(&mut self, link_id: LinkId, user_id: Option<UserId>, bundle_ids: Vec<BundleId>) -> (res: Result<(), CoreError>)
        requires
            old(self).wf(),
        ensures
            final(self).wf(),
            final(self).spec_config() == old(self).spec_config(),
            final(self).peer_entries() == old(self).peer_entries(),
            final(self).store_view() == old(self).store_view(),
            final(self).router() == old(self).router(),
            final(self).spec_local_discovery_id() == old(self).spec_local_discovery_id(),
            key_index(old(self).link_entries(), link_id) < 0 ==> res is Err && res->Err_0 == CoreError::UnknownLink(link_id)
                && final(self).link_entries() == old(self).link_entries(),
            key_index(old(self).link_entries(), link_id) >= 0 ==> res is Ok && final(self).link_entries() == assoc_put(
                old(self).link_entries(),
                link_id,
                PeerContext { user_id, known_bundle_ids: bundle_ids },
            ),
    {
        let ghost peer = PeerContext { user_id, known_bundle_ids: bundle_ids };
        proof { lemma_assoc_put(self.links@, link_id, peer); }
        match find_link(&self.links, link_id) {
            Some(i) => {
                self.links.set(i, (link_id, PeerContext { user_id, known_bundle_ids: bundle_ids }));
                assert(self.links@ =~= assoc_put(old(self).links@, link_id, peer));
                Ok(())
            },
            None => Err(CoreError::UnknownLink(link_id)),
        }
    }

    /// Counts one more hand-off of a stored bundle. It takes `&mut self`
    /// because it writes the store, and that write is what its contract
    /// states.
    pub fn mark_forwarded(&mut self, bundle_id: BundleId) -> (res: Result<(), CoreError>)
        requires
            old(self).wf(),
        ensures
            final(self).wf(),
            final(self).spec_config() == old(self).spec_config(),
            final(self).peer_entries() == old(self).peer_entries(),
            final(self).link_entries() == old(self).link_entries(),
            final(self).router() == old(self).router(),
            final(self).spec_local_discovery_id() == old(self).spec_local_discovery_id(),
            res is Ok ==> final(self).store_view() == spec_after_forward(old(self).store_view(), bundle_id@),
            res matches Err(e) ==> (e matches CoreError::Store(StoreError::Sqlite(_))) && final(self).store_view() == old(self).store_view(),
    {
        match self.store.increment_forward_count(bundle_id) {
            Ok(()) => Ok(()),
            Err(e) => Err(CoreError::Store(e)),
        }
    }

    /// Deletes a bundle, if stored, and tombstones its id.
    pub fn create_tombstone(&mut self, bundle_id: BundleId, reason: i64, created_at_ms: i64, expires_at_ms: i64) -> (res: Result<(), CoreError>)
        requires
            old(self).wf(),
        ensures
            final(self).wf(),
            final(self).spec_config() == old(self).spec_config(),
            final(self).peer_entries() == old(self).peer_entries(),
            final(self).link_entries() == old(self).link_entries(),
            final(self).router() == old(self).router(),
            final(self).spec_local_discovery_id() == old(self).spec_local_discovery_id(),
            res is Ok ==> final(self).store_view() == spec_after_tombstone(
                old(self).store_view(),
                bundle_id@,
                reason,
                created_at_ms,
                expires_at_ms,
            ),
            res matches Err(e) ==> (e matches CoreError::Store(StoreError::Sqlite(_))) && final(self).store_view() == old(self).store_view(),
    {
        match self.store.create_tombstone(bundle_id, reason, created_at_ms, expires_at_ms) {
            Ok(()) => Ok(()),
            Err(e) => Err(CoreError::Store(e)),
        }
    }
} // impl MeshCore

/// The routing limits a configuration sets.
pub open spec fn router_of(config: MeshConfig) -> ControlledEpidemicRouter {
    ControlledEpidemicRouter {
        normal_replication_limit: config.normal_replication_limit,
        high_replication_limit: config.high_replication_limit,
        emergency_replication_limit: config.emergency_replication_limit,
    }
}

/// What receiving bytes on a link does: bytes that do not decode as a
/// bundle are their wire error and change nothing; a bundle is offered to
/// the store with its relay receive time, and the answer is `BundleStored`
/// if it was stored, `BundleDuplicate` if it was held or tombstoned.
pub open spec fn receive_outcome(
    before: StoreView,
    data: Seq<u8>,
    res: Result<Vec<CoreAction>, CoreError>,
    after: StoreView,
) -> bool {
    match spec_decode_bundle(data) {
        Err(e) => res == Err::<Vec<CoreAction>, CoreError>(CoreError::Wire(e)) && after == before,
        Ok(b) => match res {
            Ok(a) => {
                &&& after == spec_after_insert(before, b, b.relay.received_at_ms)
                &&& a@.len() == 1
                &&& if spec_insert_outcome(before, b.immutable.bundle_id) == InsertOutcome::Inserted {
                    a@[0] matches CoreAction::BundleStored { bundle_id } && bundle_id@ == b.immutable.bundle_id
                } else {
                    a@[0] matches CoreAction::BundleDuplicate { bundle_id } && bundle_id@ == b.immutable.bundle_id
                }
            },
            Err(e) => (e matches CoreError::Store(StoreError::Sqlite(_))) && after == before,
        },
    }
}

} // verus!
