use vstd::prelude::*;
use crate::address::ServiceAddress;
use crate::descriptor::{DescriptorError, ServiceDescriptor};
use crate::node_id::NodeId;
use crate::stats::DirectoryError;
use crate::types::Timestamp;

verus! {

/// Descriptors a node keeps, at most one per service address; each had a
/// good signature and the address of its key when it was stored.
#[derive(Debug)]
pub struct DescriptorCache {
    entries: Vec<ServiceDescriptor>,
}

/// The DHT key of a service: its address read as a node id.
pub fn descriptor_key(address: &ServiceAddress) -> (r: NodeId)
    ensures
        r.0 == address.0,
{
    NodeId(address.0)
}

fn error_text(e: DescriptorError) -> (r: String) {
    match e {
        DescriptorError::InvalidSignature => "invalid signature".to_string(),
        DescriptorError::Expired => "expired".to_string(),
        DescriptorError::InvalidAddress => "address does not match key".to_string(),
        DescriptorError::NoIntroductionPoints => "no introduction points".to_string(),
        DescriptorError::TooManyIntroductionPoints(_) => "too many introduction points".to_string(),
        DescriptorError::InvalidTTL(_) => "invalid lifetime".to_string(),
        DescriptorError::InvalidIntroPointSignature(_) => "invalid introduction point signature".to_string(),
    }
}

impl DescriptorCache {
    pub closed spec fn entry_seq(&self) -> Seq<ServiceDescriptor> {
        self.entries@
    }

    /// One descriptor per address, each signed and bound to its key.
    pub open spec fn wf(&self) -> bool {
        &&& forall|i: int, j: int|
            0 <= i < j < self.entry_seq().len() ==> self.entry_seq()[i].address != self.entry_seq()[j].address
        &&& forall|i: int| 0 <= i < self.entry_seq().len() ==> (#[trigger] self.entry_seq()[i]).signature_valid()
            && self.entry_seq()[i].address_valid()
    }

    pub fn new() -> (r: DescriptorCache)
        ensures
            r.wf(),
            r.entry_seq().len() == 0,
    {
        DescriptorCache { entries: Vec::new() }
    }

    pub fn len(&self) -> (r: usize)
        ensures
            r == self.entry_seq().len(),
    {
        self.entries.len()
    }

    fn position(&self, address: &ServiceAddress) -> (r: Option<usize>)
        ensures
            r matches Some(i) ==> i < self.entries@.len() && self.entries@[i as int].address == *address,
            r is None ==> forall|i: int| 0 <= i < self.entries@.len() ==> self.entries@[i].address != *address,
    {
        let mut i: usize = 0;
        while i < self.entries.len()
            invariant
                0 <= i <= self.entries@.len(),
                forall|j: int| 0 <= j < i ==> self.entries@[j].address != *address,
            decreases self.entries@.len() - i,
        {
            if self.entries[i].address == *address {
                return Some(i);
            }
            i = i + 1;
        }
        None
    }

    /// Keeps a descriptor that validates at `now`, replacing the one for the
    /// same address; one that fails validation is refused and nothing changes.
    pub fn store_descriptor_at(&mut self, descriptor: ServiceDescriptor, now: Timestamp) -> (r: Result<(), DirectoryError>)
        requires
            old(self).wf(),
        ensures
            final(self).wf(),
            descriptor.validation_at(now) is Err ==> r is Err && final(self).entry_seq() == old(self).entry_seq(),
            descriptor.validation_at(now) is Ok ==> r is Ok && final(self).entry_seq().contains(descriptor),
    {
        match descriptor.validate_at(now) {
            Err(e) => Err(DirectoryError::InvalidDescriptor(error_text(e))),
            Ok(()) => {
                proof {
                    crate::descriptor::lemma_valid_descriptor(descriptor, now);
                }
                let ghost before = self.entries@;
                match self.position(&descriptor.address) {
                    Some(i) => {
                        self.entries.set(i, descriptor);
                        proof {
                            assert(self.entries@[i as int] == descriptor);
                            assert forall|a: int, b: int| 0 <= a < b < self.entry_seq().len() implies self.entry_seq()[a].address
                                != self.entry_seq()[b].address by {
                                assert(old(self).entry_seq()[a].address != old(self).entry_seq()[b].address);
                                if a != i && b != i {
                                    assert(self.entry_seq()[a] == before[a]);
                                    assert(self.entry_seq()[b] == before[b]);
                                }
                            }
                            assert forall|a: int| 0 <= a < self.entry_seq().len() implies (#[trigger] self.entry_seq()[a]).signature_valid()
                                && self.entry_seq()[a].address_valid() by {
                                if a != i {
                                    assert(self.entry_seq()[a] == before[a]);
                                    assert(old(self).entry_seq()[a].signature_valid() && old(self).entry_seq()[a].address_valid());
                                }
                            }
                        }
                    },
                    None => {
                        self.entries.push(descriptor);
                        proof {
                            assert(self.entries@[before.len() as int] == descriptor);
                            assert forall|a: int, b: int| 0 <= a < b < self.entry_seq().len() implies self.entry_seq()[a].address
                                != self.entry_seq()[b].address by {
                                if b == before.len() {
                                    assert(before[a].address != descriptor.address);
                                }
                            }
                            assert forall|a: int| 0 <= a < self.entry_seq().len() implies (#[trigger] self.entry_seq()[a]).signature_valid()
                                && self.entry_seq()[a].address_valid() by {
                                if a < before.len() {
                                    assert(self.entry_seq()[a] == before[a]);
                                }
                            }
                        }
                    },
                }
                Ok(())
            },
        }
    }

    /// The cached descriptor of `address`, where it is unexpired at `now`.
    pub fn lookup_at(&self, address: &ServiceAddress, now: Timestamp) -> (r: Option<&ServiceDescriptor>)
        requires
            self.wf(),
        ensures
            r matches Some(d) ==> d.address == *address && !d.expired_at(now) && d.signature_valid() && d.address_valid(),
    {
        match self.position(address) {
            Some(i) => {
                let d = &self.entries[i];
                assert(self.entry_seq()[i as int] == *d);
                if d.is_expired_at(now) {
                    None
                } else {
                    Some(d)
                }
            },
            None => None,
        }
    }

    /// Drops the descriptors expired at `now`.
    pub fn cleanup_expired_at(&mut self, now: Timestamp)
        requires
            old(self).wf(),
        ensures
            final(self).wf(),
            forall|i: int| 0 <= i < final(self).entry_seq().len() ==> !(#[trigger] final(self).entry_seq()[i]).expired_at(now),
    {
        let mut i: usize = 0;
        while i < self.entries.len()
            invariant
                self.wf(),
                0 <= i <= self.entries@.len(),
                forall|j: int| 0 <= j < i ==> !(#[trigger] self.entries@[j]).expired_at(now),
            decreases self.entries@.len() - i,
        {
            if self.entries[i].is_expired_at(now) {
                let ghost before = self.entries@;
                let ghost old_loop = self.entry_seq();
                assert(forall|a: int, b: int| 0 <= a < b < old_loop.len() ==> old_loop[a].address != old_loop[b].address);
                assert(forall|a: int| 0 <= a < old_loop.len() ==> (#[trigger] old_loop[a]).signature_valid() && old_loop[a].address_valid());
                self.entries.remove(i);
                proof {
                    assert forall|a: int| 0 <= a < self.entries@.len() implies self.entries@[a] == before[if a < i { a } else { a + 1 }] by {}
                    assert forall|a: int, b: int| 0 <= a < b < self.entry_seq().len() implies self.entry_seq()[a].address
                        != self.entry_seq()[b].address by {
                        let oa = if a < i { a } else { a + 1 };
                        let ob = if b < i { b } else { b + 1 };
                        assert(before[oa] == old_loop[oa]);
                        assert(old_loop[oa].address != old_loop[ob].address);
                    }
                    assert forall|a: int| 0 <= a < self.entry_seq().len() implies (#[trigger] self.entry_seq()[a]).signature_valid()
                        && self.entry_seq()[a].address_valid() by {
                        let oa = if a < i { a } else { a + 1 };
                        assert(old_loop[oa].signature_valid() && old_loop[oa].address_valid());
                    }
                    assert forall|j: int| 0 <= j < i implies !(#[trigger] self.entries@[j]).expired_at(now) by {
                        assert(self.entries@[j] == before[j]);
                    }
                }
            } else {
                i = i + 1;
            }
        }
    }
}

} // verus!
