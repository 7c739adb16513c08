use vstd::prelude::*;
use crate::address::{service_label, ServiceAddress};
use crate::encoding::{blake3_of, bytes_to_vec};
use crate::keys::{ed25519_accepts, ed25519_public_of, ed25519_signature_of, KeyPair, PublicKey};
use crate::node_id::NodeId;
use crate::pow::{le_bytes, u64_le_bytes};
use crate::types::{sat_sub, Timestamp};

verus! {

/// Fewest and most introduction points of a descriptor.
pub const MIN_INTRO_POINTS: usize = 1;

pub const MAX_INTRO_POINTS: usize = 10;

/// Shortest and longest descriptor lifetime, in seconds.
pub const MIN_DESCRIPTOR_TTL_SECS: u64 = 3600;

pub const MAX_DESCRIPTOR_TTL_SECS: u64 = 86400;

/// A 64-byte Ed25519 signature.
#[derive(Debug, Clone, Copy)]
pub struct Signature(pub [u8; 64]);

/// How to reach an introduction point.
#[derive(Debug, Clone)]
pub struct ConnectionInfo {
    pub addresses: Vec<String>,
    pub port: u16,
    pub protocol_version: u8,
}

/// The UTF-8 bytes of each address, one after another.
pub open spec fn address_bytes(addresses: Seq<String>) -> Seq<u8>
    decreases addresses.len(),
{
    if addresses.len() == 0 {
        Seq::empty()
    } else {
        address_bytes(addresses.drop_last()) + vstd::utf8::encode_utf8(addresses.last()@)
    }
}

/// Little-endian bytes of a `u16`.
pub open spec fn le16(x: u16) -> Seq<u8> {
    seq![(x % 256) as u8, (x / 256) as u8]
}

/// A node that agreed, by signature, to introduce clients to one service.
#[derive(Debug, Clone)]
pub struct IntroductionPoint {
    pub node_id: NodeId,
    pub public_key: PublicKey,
    pub connection_info: ConnectionInfo,
    pub auth_signature: Signature,
}

/// What an introduction point signs: the service address, its node id,
/// its key, its addresses, port and protocol version.
pub open spec fn intro_signing_data(service: Seq<u8>, ip: IntroductionPoint) -> Seq<u8> {
    service + ip.node_id.0@ + ip.public_key.bytes@ + address_bytes(ip.connection_info.addresses@) + le16(
        ip.connection_info.port,
    ) + seq![ip.connection_info.protocol_version]
}

/// The introduction point's signature checks against `service`.
pub open spec fn intro_valid(service: Seq<u8>, ip: IntroductionPoint) -> bool {
    ed25519_accepts(ip.public_key.bytes@, intro_signing_data(service, ip), ip.auth_signature.0@)
}

fn append_bytes(out: &mut Vec<u8>, b: &[u8])
    ensures
        final(out)@ == old(out)@ + b@,
{
    let mut tail = bytes_to_vec(b);
    out.append(&mut tail);
}

impl IntroductionPoint {
    /// An unsigned introduction point (zero signature).
    pub fn new(node_id: NodeId, public_key: PublicKey, connection_info: ConnectionInfo) -> (r: IntroductionPoint)
        ensures
            r.node_id == node_id,
            r.public_key == public_key,
            r.connection_info == connection_info,
            r.auth_signature.0@ == Seq::new(64, |i: int| 0u8),
    {
        let r = IntroductionPoint { node_id, public_key, connection_info, auth_signature: Signature([0u8; 64]) };
        assert(r.auth_signature.0@ =~= Seq::new(64, |i: int| 0u8));
        r
    }

    /// The bytes that the introduction point signs for `service_address`.
    pub fn signing_data(&self, service_address: &ServiceAddress) -> (r: Vec<u8>)
        ensures
            r@ == intro_signing_data(service_address.0@, *self),
    {
        let mut data: Vec<u8> = Vec::new();
        append_bytes(&mut data, service_address.as_bytes());
        append_bytes(&mut data, self.node_id.as_bytes());
        append_bytes(&mut data, &self.public_key.bytes);
        let ghost head = data@;
        let addrs = &self.connection_info.addresses;
        let mut i: usize = 0;
        while i < addrs.len()
            invariant
                0 <= i <= addrs@.len(),
                data@ == head + address_bytes(addrs@.subrange(0, i as int)),
            decreases addrs@.len() - i,
        {
            let s: &str = addrs[i].as_str();
            append_bytes(&mut data, s.as_bytes());
            i = i + 1;
            proof {
                assert(addrs@.subrange(0, i as int).drop_last() =~= addrs@.subrange(0, i - 1));
            }
        }
        assert(addrs@.subrange(0, addrs@.len() as int) =~= addrs@);
        let port = self.connection_info.port;
        data.push((port % 256) as u8);
        data.push((port / 256) as u8);
        data.push(self.connection_info.protocol_version);
        assert(data@ =~= intro_signing_data(service_address.0@, *self));
        data
    }

    /// Signs the introduction point's consent for `service_address`.
    pub fn sign(&mut self, service_address: &ServiceAddress, keypair: &KeyPair)
        ensures
            final(self).auth_signature.0@ == ed25519_signature_of(
                keypair.seed(),
                intro_signing_data(service_address.0@, *old(self)),
            ),
            final(self).node_id == old(self).node_id,
            final(self).public_key == old(self).public_key,
            final(self).connection_info == old(self).connection_info,
    {
        let data = self.signing_data(service_address);
        self.auth_signature = Signature(keypair.sign(data.as_slice()));
    }

    /// Whether the signature checks against `service_address`.
    pub fn verify(&self, service_address: &ServiceAddress) -> (r: bool)
        ensures
            r == intro_valid(service_address.0@, *self),
    {
        let data = self.signing_data(service_address);
        self.public_key.verify(data.as_slice(), &self.auth_signature.0)
    }
}

/// A signed record that maps a service address to introduction points.
#[derive(Debug, Clone)]
pub struct ServiceDescriptor {
    pub version: u8,
    pub address: ServiceAddress,
    pub public_key: PublicKey,
    pub introduction_points: Vec<IntroductionPoint>,
    pub created_at: Timestamp,
    /// Lifetime in seconds.
    pub ttl: u64,
    pub signature: Signature,
}

/// The node ids of the introduction points, one after another.
pub open spec fn intro_ids(points: Seq<IntroductionPoint>) -> Seq<u8>
    decreases points.len(),
{
    if points.len() == 0 {
        Seq::empty()
    } else {
        intro_ids(points.drop_last()) + points.last().node_id.0@
    }
}

/// What the service signs: version, address, key, introduction point ids,
/// creation time and lifetime, the two numbers little-endian.
pub open spec fn descriptor_signing_data(d: ServiceDescriptor) -> Seq<u8> {
    seq![d.version] + d.address.0@ + d.public_key.bytes@ + intro_ids(d.introduction_points@) + le_bytes(
        d.created_at.0,
    ) + le_bytes(d.ttl)
}

/// Index of the first introduction point from `i` on whose signature
/// fails against `service`, if any.
pub open spec fn first_bad_from(service: Seq<u8>, pts: Seq<IntroductionPoint>, i: int) -> Option<int>
    decreases pts.len() - i,
{
    if i < 0 || i >= pts.len() {
        None
    } else if !intro_valid(service, pts[i]) {
        Some(i)
    } else {
        first_bad_from(service, pts, i + 1)
    }
}

/// Errors of descriptor validation.
#[derive(Debug, Clone, Copy, PartialEq, Eq, Structural)]
pub enum DescriptorError {
    InvalidSignature,
    Expired,
    InvalidAddress,
    NoIntroductionPoints,
    TooManyIntroductionPoints(usize),
    /// The lifetime in seconds.
    InvalidTTL(u64),
    InvalidIntroPointSignature(usize),
}

impl ServiceDescriptor {
    pub open spec fn signature_valid(&self) -> bool {
        ed25519_accepts(self.public_key.bytes@, descriptor_signing_data(*self), self.signature.0@)
    }

    pub open spec fn address_valid(&self) -> bool {
        self.address.0@ == blake3_of(service_label() + self.public_key.bytes@)
    }

    /// Expired once `ttl` seconds have passed since creation: valid only
    /// while `created_at + ttl > now`.
    pub open spec fn expired_at(&self, now: Timestamp) -> bool {
        sat_sub(now.0 as int, self.created_at.0 as int) >= self.ttl
    }

    /// Index of the first introduction point whose signature fails, if any.
    pub open spec fn first_bad_intro(&self) -> Option<int> {
        first_bad_from(self.address.0@, self.introduction_points@, 0)
    }

    /// The outcome of validation at `now`, checks in order: signature,
    /// address, expiry, number of introduction points, their signatures,
    /// lifetime.
    pub open spec fn validation_at(&self, now: Timestamp) -> Result<(), DescriptorError> {
        let n = self.introduction_points@.len();
        if !self.signature_valid() {
            Err(DescriptorError::InvalidSignature)
        } else if !self.address_valid() {
            Err(DescriptorError::InvalidAddress)
        } else if self.expired_at(now) {
            Err(DescriptorError::Expired)
        } else if n < MIN_INTRO_POINTS {
            Err(DescriptorError::NoIntroductionPoints)
        } else if n > MAX_INTRO_POINTS {
            Err(DescriptorError::TooManyIntroductionPoints(n as usize))
        } else if self.first_bad_intro() is Some {
            Err(DescriptorError::InvalidIntroPointSignature(self.first_bad_intro()->0 as usize))
        } else if self.ttl < MIN_DESCRIPTOR_TTL_SECS || self.ttl > MAX_DESCRIPTOR_TTL_SECS {
            Err(DescriptorError::InvalidTTL(self.ttl))
        } else {
            Ok(())
        }
    }

    /// An unsigned descriptor (zero signature) of version 1, created at `now`.
    pub fn new_at(
        public_key: PublicKey,
        introduction_points: Vec<IntroductionPoint>,
        ttl: u64,
        now: Timestamp,
    ) -> (r: ServiceDescriptor)
        ensures
            r.version == 1,
            r.address_valid(),
            r.public_key == public_key,
            r.introduction_points == introduction_points,
            r.created_at == now,
            r.ttl == ttl,
    {
        let address = ServiceAddress::from_public_key(&public_key);
        ServiceDescriptor {
            version: 1,
            address,
            public_key,
            introduction_points,
            created_at: now,
            ttl,
            signature: Signature([0u8; 64]),
        }
    }

    /// `new_at` at the current time.
    pub fn new(public_key: PublicKey, introduction_points: Vec<IntroductionPoint>, ttl: u64) -> (r: ServiceDescriptor)
        ensures
            r.version == 1,
            r.address_valid(),
            r.public_key == public_key,
            r.introduction_points == introduction_points,
            r.ttl == ttl,
    {
        ServiceDescriptor::new_at(public_key, introduction_points, ttl, Timestamp::now())
    }

    /// The bytes that the service signs.
    pub fn signing_data(&self) -> (r: Vec<u8>)
        ensures
            r@ == descriptor_signing_data(*self),
    {
        let mut data: Vec<u8> = Vec::new();
        data.push(self.version);
        append_bytes(&mut data, self.address.as_bytes());
        append_bytes(&mut data, &self.public_key.bytes);
        let ghost head = data@;
        let pts = &self.introduction_points;
        let mut i: usize = 0;
        while i < pts.len()
            invariant
                0 <= i <= pts@.len(),
                data@ == head + intro_ids(pts@.subrange(0, i as int)),
            decreases pts@.len() - i,
        {
            append_bytes(&mut data, pts[i].node_id.as_bytes());
            i = i + 1;
            proof {
                assert(pts@.subrange(0, i as int).drop_last() =~= pts@.subrange(0, i - 1));
            }
        }
        assert(pts@.subrange(0, pts@.len() as int) =~= pts@);
        let created = u64_le_bytes(self.created_at.0);
        append_bytes(&mut data, created.as_slice());
        let ttl = u64_le_bytes(self.ttl);
        append_bytes(&mut data, ttl.as_slice());
        assert(data@ =~= descriptor_signing_data(*self));
        data
    }

    /// Signs the descriptor with the service's key.
    pub fn sign(&mut self, keypair: &KeyPair)
        ensures
            final(self).signature.0@ == ed25519_signature_of(keypair.seed(), descriptor_signing_data(*old(self))),
            descriptor_signing_data(*final(self)) == descriptor_signing_data(*old(self)),
            final(self).public_key == old(self).public_key,
            final(self).address == old(self).address,
            final(self).introduction_points == old(self).introduction_points,
            final(self).created_at == old(self).created_at,
            final(self).ttl == old(self).ttl,
    {
        let data = self.signing_data();
        self.signature = Signature(keypair.sign(data.as_slice()));
    }

    /// Whether the signature checks under the descriptor's key. A descriptor
    /// signed with the key pair of its public key passes.
    pub fn verify(&self) -> (r: bool)
        ensures
            r == self.signature_valid(),
            forall|seed: Seq<u8>|
                seed.len() == 32 && self.public_key.bytes@ == #[trigger] ed25519_public_of(seed) && self.signature.0@
                    == ed25519_signature_of(seed, descriptor_signing_data(*self)) ==> r,
    {
        let data = self.signing_data();
        self.public_key.verify(data.as_slice(), &self.signature.0)
    }

    pub fn is_expired_at(&self, now: Timestamp) -> (r: bool)
        ensures
            r == self.expired_at(now),
    {
        self.created_at.elapsed_at(now) >= self.ttl
    }

    pub fn is_expired(&self) -> bool {
        self.is_expired_at(Timestamp::now())
    }

    /// Whether the address is that of the public key.
    pub fn verify_address(&self) -> (r: bool)
        ensures
            r == self.address_valid(),
    {
        self.address.verify_public_key(&self.public_key)
    }

    /// Index of the first introduction point whose signature fails.
    fn check_intro_points(&self) -> (r: Option<usize>)
        ensures
            r matches Some(i) ==> self.first_bad_intro() == Some(i as int),
            r is None ==> self.first_bad_intro() is None,
    {
        let pts = &self.introduction_points;
        let mut i: usize = 0;
        while i < pts.len()
            invariant
                0 <= i <= pts@.len(),
                pts@ == self.introduction_points@,
                first_bad_from(self.address.0@, pts@, 0) == first_bad_from(self.address.0@, pts@, i as int),
            decreases pts@.len() - i,
        {
            let ok = pts[i].verify(&self.address);
            if !ok {
                assert(!intro_valid(self.address.0@, pts@[i as int]));
                assert(first_bad_from(self.address.0@, pts@, i as int) == Some(i as int));
                assert(first_bad_from(self.address.0@, pts@, 0) == Some(i as int));
                assert(pts@ == self.introduction_points@);
                assert(self.first_bad_intro() == Some(i as int));
                return Some(i);
            }
            i = i + 1;
        }
        None
    }

    /// Validation at `now`: signature, address, expiry, 1 to 10 introduction
    /// points each signed for this address, and a lifetime of 1 to 24 hours.
    pub fn validate_at(&self, now: Timestamp) -> (r: Result<(), DescriptorError>)
        ensures
            r == self.validation_at(now),
    {
        if !self.verify() {
            return Err(DescriptorError::InvalidSignature);
        }
        if !self.verify_address() {
            return Err(DescriptorError::InvalidAddress);
        }
        if self.is_expired_at(now) {
            return Err(DescriptorError::Expired);
        }
        let n = self.introduction_points.len();
        if n < MIN_INTRO_POINTS {
            return Err(DescriptorError::NoIntroductionPoints);
        }
        if n > MAX_INTRO_POINTS {
            return Err(DescriptorError::TooManyIntroductionPoints(n));
        }
        match self.check_intro_points() {
            Some(i) => {
                return Err(DescriptorError::InvalidIntroPointSignature(i));
            },
            None => {},
        }
        if self.ttl < MIN_DESCRIPTOR_TTL_SECS || self.ttl > MAX_DESCRIPTOR_TTL_SECS {
            return Err(DescriptorError::InvalidTTL(self.ttl));
        }
        Ok(())
    }

    /// `validate_at` at the current time.
    pub fn validate(&self) -> (r: Result<(), DescriptorError>)
        ensures
            exists|now: Timestamp| r == self.validation_at(now),
    {
        let now = Timestamp::now();
        self.validate_at(now)
    }
}

/// A descriptor that passes validation at `now` carries a good signature, the
/// address of its key, is unexpired, has 1 to 10 introduction points, each
/// signed for its address, and a lifetime of 1 to 24 hours.
pub proof fn lemma_valid_descriptor(d: ServiceDescriptor, now: Timestamp)
    requires
        d.validation_at(now) is Ok,
    ensures
        d.signature_valid(),
        d.address_valid(),
        !d.expired_at(now),
        MIN_INTRO_POINTS <= d.introduction_points@.len() <= MAX_INTRO_POINTS,
        forall|i: int| 0 <= i < d.introduction_points@.len() ==> intro_valid(d.address.0@, #[trigger] d.introduction_points@[i]),
        MIN_DESCRIPTOR_TTL_SECS <= d.ttl <= MAX_DESCRIPTOR_TTL_SECS,
{
    lemma_none_bad_from(d.address.0@, d.introduction_points@, 0);
}

/// Where no introduction point from `i` on fails, all from `i` on are valid.
proof fn lemma_none_bad_from(service: Seq<u8>, pts: Seq<IntroductionPoint>, i: int)
    requires
        0 <= i,
        first_bad_from(service, pts, i) is None,
    ensures
        forall|j: int| i <= j < pts.len() ==> intro_valid(service, #[trigger] pts[j]),
    decreases pts.len() - i,
{
    if i < pts.len() {
        lemma_none_bad_from(service, pts, i + 1);
    }
}

/// A descriptor whose lifetime is zero never validates.
pub proof fn lemma_zero_ttl_invalid(d: ServiceDescriptor, now: Timestamp)
    requires
        d.ttl == 0,
    ensures
        d.validation_at(now) is Err,
{
}

} // verus!
