use vstd::prelude::*;

verus! {

/// The layout of a version-4 (random) UUID: the high nibble of byte 6 is the
/// version, 4, and the two high bits of byte 8 are the RFC 4122 variant, `10`.
pub open spec fn uuid_v4_layout(bytes: Seq<u8>) -> bool {
    &&& bytes.len() == 16
    &&& bytes[6] / 16 == 4
    &&& bytes[8] / 64 == 2
}

/// Sixteen fresh random bytes, in the layout of a version-4 UUID.
///
/// Calls `uuid::Uuid::new_v4`, which masks random bits into that layout, and
/// hands out its bytes; of the other 122 bits nothing is claimed, since they
/// come from the operating system's random source.
#[verifier::external_body]
fn random_id_bytes() -> (bytes: [u8; 16])
    ensures
        uuid_v4_layout(bytes@),
{
    *uuid::Uuid::new_v4().as_bytes()
}

/// A user identifier: the first 16 bytes of SHA-256 of the user's Ed25519 signing key.
#[derive(Clone, Copy, Debug, Eq, Hash)]
pub struct UserId {
    bytes: [u8; 16],
}

impl UserId {
    /// The sixteen bytes of the identifier.
    pub closed spec fn view(self) -> Seq<u8> {
        self.bytes@
    }

    /// A fresh random identifier: a version-4 UUID.
    pub fn random() -> (id: Self)
        ensures
            uuid_v4_layout(id@),
    {
        UserId { bytes: random_id_bytes() }
    }

    pub fn from_bytes(bytes: [u8; 16]) -> (id: Self)
        ensures
            id@ == bytes@,
    {
        UserId { bytes }
    }

    pub fn as_bytes(&self) -> (b: &[u8; 16])
        ensures
            b@ == self@,
    {
        &self.bytes
    }
}

/// A node identifier.
#[derive(Clone, Copy, Debug, Eq, Hash)]
pub struct NodeId {
    bytes: [u8; 16],
}

impl NodeId {
    /// The sixteen bytes of the identifier.
    pub closed spec fn view(self) -> Seq<u8> {
        self.bytes@
    }

    /// A fresh random identifier: a version-4 UUID.
    pub fn random() -> (id: Self)
        ensures
            uuid_v4_layout(id@),
    {
        NodeId { bytes: random_id_bytes() }
    }

    pub fn from_bytes(bytes: [u8; 16]) -> (id: Self)
        ensures
            id@ == bytes@,
    {
        NodeId { bytes }
    }

    pub fn as_bytes(&self) -> (b: &[u8; 16])
        ensures
            b@ == self@,
    {
        &self.bytes
    }
}

/// A bundle identifier, distinct from message identifiers.
#[derive(Clone, Copy, Debug, Eq, Hash)]
pub struct BundleId {
    bytes: [u8; 16],
}

impl BundleId {
    /// The sixteen bytes of the identifier.
    pub closed spec fn view(self) -> Seq<u8> {
        self.bytes@
    }

    /// A fresh random identifier: a version-4 UUID.
    pub fn random() -> (id: Self)
        ensures
            uuid_v4_layout(id@),
    {
        BundleId { bytes: random_id_bytes() }
    }

    pub fn from_bytes(bytes: [u8; 16]) -> (id: Self)
        ensures
            id@ == bytes@,
    {
        BundleId { bytes }
    }

    pub fn as_bytes(&self) -> (b: &[u8; 16])
        ensures
            b@ == self@,
    {
        &self.bytes
    }
}

/// A message identifier, distinct from bundle identifiers.
#[derive(Clone, Copy, Debug, Eq, Hash)]
pub struct MessageId {
    bytes: [u8; 16],
}

impl MessageId {
    /// The sixteen bytes of the identifier.
    pub closed spec fn view(self) -> Seq<u8> {
        self.bytes@
    }

    /// A fresh random identifier: a version-4 UUID.
    pub fn random() -> (id: Self)
        ensures
            uuid_v4_layout(id@),
    {
        MessageId { bytes: random_id_bytes() }
    }

    pub fn from_bytes(bytes: [u8; 16]) -> (id: Self)
        ensures
            id@ == bytes@,
    {
        MessageId { bytes }
    }

    pub fn as_bytes(&self) -> (b: &[u8; 16])
        ensures
            b@ == self@,
    {
        &self.bytes
    }
}

/// A conversation identifier, derived from the two participants.
#[derive(Clone, Copy, Debug, Eq, Hash)]
pub struct ConversationId {
    bytes: [u8; 16],
}

impl ConversationId {
    /// The sixteen bytes of the identifier.
    pub closed spec fn view(self) -> Seq<u8> {
        self.bytes@
    }

    /// A fresh random identifier: a version-4 UUID.
    pub fn random() -> (id: Self)
        ensures
            uuid_v4_layout(id@),
    {
        ConversationId { bytes: random_id_bytes() }
    }

    pub fn from_bytes(bytes: [u8; 16]) -> (id: Self)
        ensures
            id@ == bytes@,
    {
        ConversationId { bytes }
    }

    pub fn as_bytes(&self) -> (b: &[u8; 16])
        ensures
            b@ == self@,
    {
        &self.bytes
    }
}

/// The identifier a node advertises during discovery.
#[derive(Clone, Copy, Debug, Eq, Hash)]
pub struct DiscoveryId {
    bytes: [u8; 16],
}

impl DiscoveryId {
    /// The sixteen bytes of the identifier.
    pub closed spec fn view(self) -> Seq<u8> {
        self.bytes@
    }

    /// A fresh random identifier: a version-4 UUID.
    pub fn random() -> (id: Self)
        ensures
            uuid_v4_layout(id@),
    {
        DiscoveryId { bytes: random_id_bytes() }
    }

    pub fn from_bytes(bytes: [u8; 16]) -> (id: Self)
        ensures
            id@ == bytes@,
    {
        DiscoveryId { bytes }
    }

    pub fn as_bytes(&self) -> (b: &[u8; 16])
        ensures
            b@ == self@,
    {
        &self.bytes
    }
}

/// Two UserIds are equal exactly when their bytes are; the bytes are sixteen long.
pub broadcast proof fn lemma_user_id_view(a: UserId, b: UserId)
    ensures
        #![trigger a@, b@]
        a@.len() == 16,
        (a@ == b@) == (a == b),
{
    broadcast use vstd::array::group_array_axioms;
    if a@ == b@ {
        assert(a.bytes =~= b.bytes);
    }
}

/// Two NodeIds are equal exactly when their bytes are; the bytes are sixteen long.
pub broadcast proof fn lemma_node_id_view(a: NodeId, b: NodeId)
    ensures
        #![trigger a@, b@]
        a@.len() == 16,
        (a@ == b@) == (a == b),
{
    broadcast use vstd::array::group_array_axioms;
    if a@ == b@ {
        assert(a.bytes =~= b.bytes);
    }
}

/// Two BundleIds are equal exactly when their bytes are; the bytes are sixteen long.
pub broadcast proof fn lemma_bundle_id_view(a: BundleId, b: BundleId)
    ensures
        #![trigger a@, b@]
        a@.len() == 16,
        (a@ == b@) == (a == b),
{
    broadcast use vstd::array::group_array_axioms;
    if a@ == b@ {
        assert(a.bytes =~= b.bytes);
    }
}

/// Two MessageIds are equal exactly when their bytes are; the bytes are sixteen long.
pub broadcast proof fn lemma_message_id_view(a: MessageId, b: MessageId)
    ensures
        #![trigger a@, b@]
        a@.len() == 16,
        (a@ == b@) == (a == b),
{
    broadcast use vstd::array::group_array_axioms;
    if a@ == b@ {
        assert(a.bytes =~= b.bytes);
    }
}

/// Two ConversationIds are equal exactly when their bytes are; the bytes are sixteen long.
pub broadcast proof fn lemma_conversation_id_view(a: ConversationId, b: ConversationId)
    ensures
        #![trigger a@, b@]
        a@.len() == 16,
        (a@ == b@) == (a == b),
{
    broadcast use vstd::array::group_array_axioms;
    if a@ == b@ {
        assert(a.bytes =~= b.bytes);
    }
}

/// Two DiscoveryIds are equal exactly when their bytes are; the bytes are sixteen long.
pub broadcast proof fn lemma_discovery_id_view(a: DiscoveryId, b: DiscoveryId)
    ensures
        #![trigger a@, b@]
        a@.len() == 16,
        (a@ == b@) == (a == b),
{
    broadcast use vstd::array::group_array_axioms;
    if a@ == b@ {
        assert(a.bytes =~= b.bytes);
    }
}

pub broadcast group group_id_lemmas {
    lemma_user_id_view,
    lemma_node_id_view,
    lemma_bundle_id_view,
    lemma_message_id_view,
    lemma_conversation_id_view,
    lemma_discovery_id_view,
}


/// A transport link, numbered by the native side.
#[derive(Clone, Copy, Debug, PartialEq, Eq, Hash, Structural)]
pub struct LinkId(pub u64);

/// The kind of a bundle; its wire code is `code()`.
#[derive(Clone, Copy, Debug, PartialEq, Eq, Structural)]
pub enum BundleType {
    DirectMessage,
    DeliveryAck,
    Control,
}

impl BundleType {
    pub open spec fn spec_code(self) -> u8 {
        match self {
            BundleType::DirectMessage => 0x01,
            BundleType::DeliveryAck => 0x02,
            BundleType::Control => 0x04,
        }
    }

    /// The wire code: `0x01`, `0x02` or `0x04`.
    #[verifier::when_used_as_spec(spec_code)]
    pub fn code(self) -> (c: u8)
        ensures
            c == self.spec_code(),
    {
        match self {
            BundleType::DirectMessage => 0x01,
            BundleType::DeliveryAck => 0x02,
            BundleType::Control => 0x04,
        }
    }
}

/// The bundle type with the given wire code, if any.
pub open spec fn bundle_type_of_code(value: u64) -> Option<BundleType> {
    if value == 0x01 {
        Some(BundleType::DirectMessage)
    } else if value == 0x02 {
        Some(BundleType::DeliveryAck)
    } else if value == 0x04 {
        Some(BundleType::Control)
    } else {
        None
    }
}

/// Delivery priority, ordered from `Bulk` (lowest) to `Emergency` (highest).
#[derive(Clone, Copy, Debug, PartialEq, Eq, PartialOrd, Ord, Structural)]
pub enum Priority {
    Bulk,
    Normal,
    High,
    Emergency,
}

impl Priority {
    pub open spec fn spec_code(self) -> u8 {
        match self {
            Priority::Bulk => 0,
            Priority::Normal => 1,
            Priority::High => 2,
            Priority::Emergency => 3,
        }
    }

    /// The wire code: 0 to 3, in order of urgency.
    #[verifier::when_used_as_spec(spec_code)]
    pub fn code(self) -> (c: u8)
        ensures
            c == self.spec_code(),
    {
        match self {
            Priority::Bulk => 0,
            Priority::Normal => 1,
            Priority::High => 2,
            Priority::Emergency => 3,
        }
    }
}

/// The priority with the given wire code, if any.
pub open spec fn priority_of_code(value: u64) -> Option<Priority> {
    if value == 0 {
        Some(Priority::Bulk)
    } else if value == 1 {
        Some(Priority::Normal)
    } else if value == 2 {
        Some(Priority::High)
    } else if value == 3 {
        Some(Priority::Emergency)
    } else {
        None
    }
}

impl Default for Priority {
    fn default() -> (p: Self)
        ensures
            p == Priority::Normal,
    {
        Priority::Normal
    }
}

/// Where a user message stands in its delivery.
#[derive(Clone, Copy, Debug, PartialEq, Eq, Structural)]
pub enum MessageState {
    Queued,
    Relayed,
    Delivered,
    Failed,
}


/// Whether two 16-byte arrays hold the same bytes.
pub fn bytes16_eq(a: &[u8; 16], b: &[u8; 16]) -> (r: bool)
    ensures
        r == (a@ == b@),
{
    let mut i: usize = 0;
    while i < 16
        invariant
            i <= 16,
            forall|j: int| 0 <= j < i ==> a@[j] == b@[j],
        decreases 16 - i,
    {
        if a[i] != b[i] {
            return false;
        }
        i = i + 1;
    }
    assert(a@ =~= b@);
    true
}

impl PartialEq for UserId {
    fn eq(&self, other: &Self) -> (r: bool) {
        bytes16_eq(&self.bytes, &other.bytes)
    }
}

impl vstd::std_specs::cmp::PartialEqSpecImpl for UserId {
    open spec fn obeys_eq_spec() -> bool {
        true
    }

    open spec fn eq_spec(&self, other: &Self) -> bool {
        self@ == other@
    }
}

impl PartialEq for NodeId {
    fn eq(&self, other: &Self) -> (r: bool) {
        bytes16_eq(&self.bytes, &other.bytes)
    }
}

impl vstd::std_specs::cmp::PartialEqSpecImpl for NodeId {
    open spec fn obeys_eq_spec() -> bool {
        true
    }

    open spec fn eq_spec(&self, other: &Self) -> bool {
        self@ == other@
    }
}

impl PartialEq for BundleId {
    fn eq(&self, other: &Self) -> (r: bool) {
        bytes16_eq(&self.bytes, &other.bytes)
    }
}

impl vstd::std_specs::cmp::PartialEqSpecImpl for BundleId {
    open spec fn obeys_eq_spec() -> bool {
        true
    }

    open spec fn eq_spec(&self, other: &Self) -> bool {
        self@ == other@
    }
}

impl PartialEq for MessageId {
    fn eq(&self, other: &Self) -> (r: bool) {
        bytes16_eq(&self.bytes, &other.bytes)
    }
}

impl vstd::std_specs::cmp::PartialEqSpecImpl for MessageId {
    open spec fn obeys_eq_spec() -> bool {
        true
    }

    open spec fn eq_spec(&self, other: &Self) -> bool {
        self@ == other@
    }
}

impl PartialEq for ConversationId {
    fn eq(&self, other: &Self) -> (r: bool) {
        bytes16_eq(&self.bytes, &other.bytes)
    }
}

impl vstd::std_specs::cmp::PartialEqSpecImpl for ConversationId {
    open spec fn obeys_eq_spec() -> bool {
        true
    }

    open spec fn eq_spec(&self, other: &Self) -> bool {
        self@ == other@
    }
}

impl PartialEq for DiscoveryId {
    fn eq(&self, other: &Self) -> (r: bool) {
        bytes16_eq(&self.bytes, &other.bytes)
    }
}

impl vstd::std_specs::cmp::PartialEqSpecImpl for DiscoveryId {
    open spec fn obeys_eq_spec() -> bool {
        true
    }

    open spec fn eq_spec(&self, other: &Self) -> bool {
        self@ == other@
    }
}

} // verus!
