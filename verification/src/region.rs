//! The backing bytes of a region and the address they start at.

use vstd::prelude::*;

verus! {

/// The platform could not supply the bytes asked for.
#[derive(Clone, Copy, Debug, PartialEq, Eq, Structural)]
pub struct OutOfMemory;

/// A zero-filled byte buffer of fixed length together with the address of
/// its first byte. Neither changes while the storage lives.
pub struct RegionStorage {
    bytes: Vec<u8>,
    base_address: usize,
}

/// What a `RegionStorage` stands for: where it starts and what it holds.
pub ghost struct RegionView {
    pub base: nat,
    pub bytes: Seq<u8>,
}

impl View for RegionStorage {
    type V = RegionView;

    closed spec fn view(&self) -> RegionView {
        RegionView { base: self.base_address as nat, bytes: self.bytes@ }
    }
}

/// `n` bytes, all zero.
pub open spec fn zeros(n: nat) -> Seq<u8> {
    Seq::new(n, |i: int| 0u8)
}

impl RegionStorage {
    /// The buffer ends within the address space.
    pub open spec fn wf(&self) -> bool {
        self@.base + self@.bytes.len() <= usize::MAX
    }

    /// Makes the storage of a region of `capacity` bytes, all zero. An empty
    /// region needs no memory and is always had. For any other, whether the
    /// bytes can be had is the platform's decision, except that no buffer is
    /// longer than `isize::MAX`; a buffer that would run past the end of the
    /// address space counts as not supplied.
    pub fn create(capacity: usize) -> (res: Result<RegionStorage, OutOfMemory>)
        ensures
            capacity == 0 ==> res is Ok,
            capacity > isize::MAX ==> res is Err,
            res matches Ok(storage) ==> storage.wf() && storage@.bytes == zeros(capacity as nat),
    {
        if capacity > usize::MAX / 2 {
            return Err(OutOfMemory);
        }
        let mut bytes: Vec<u8> = Vec::new();
        if capacity > 0 {
            match bytes.try_reserve(capacity) {
                Ok(_) => {},
                Err(_) => {
                    return Err(OutOfMemory);
                },
            }
            bytes.resize(capacity, 0u8);
        }
        assert(bytes@ =~= zeros(capacity as nat));
        let address = buffer_address(&mut bytes);
        RegionStorage::at(bytes, address)
    }

    /// Joins a buffer with the address it was found at, unless the buffer
    /// would then end beyond the last address.
    pub(crate) fn at(bytes: Vec<u8>, address: usize) -> (res: Result<RegionStorage, OutOfMemory>)
        ensures
            address + bytes@.len() <= usize::MAX <==> res is Ok,
            res matches Ok(storage) ==> storage.wf() && storage@ == (RegionView {
                base: address as nat,
                bytes: bytes@,
            }),
    {
        if bytes.len() > usize::MAX - address {
            Err(OutOfMemory)
        } else {
            Ok(RegionStorage { bytes, base_address: address })
        }
    }

    /// The number of bytes in the region.
    pub fn capacity(&self) -> (n: usize)
        ensures
            n == self@.bytes.len(),
    {
        self.bytes.len()
    }

    /// The address of the region's first byte.
    pub fn base_address(&self) -> (address: usize)
        ensures
            address == self@.base,
    {
        self.base_address
    }

    /// The region's bytes.
    pub fn as_bytes(&self) -> (bytes: &[u8])
        ensures
            bytes@ == self@.bytes,
    {
        self.bytes.as_slice()
    }
}

/// The address at which the buffer of `bytes` starts, as `Vec::as_mut_ptr`
/// gives it. Asking for it leaves the vector's contents as they are; the
/// address itself is the allocator's choice, and nothing is claimed of it.
#[verifier::external_body]
fn buffer_address(bytes: &mut Vec<u8>) -> (address: usize)
    ensures
        final(bytes)@ == old(bytes)@,
{
    bytes.as_mut_ptr() as usize
}

} // verus!
