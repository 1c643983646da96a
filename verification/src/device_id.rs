//! Node addresses.

use vstd::prelude::*;

verus! {

/// Width of a node address on the wire, in bytes.
pub const ID_WIDTH: usize = 24;

/// The address that the radio module's hardware assigns to a node: exactly
/// twenty-four bytes, never changed once known.
#[derive(Clone, Copy, Debug, PartialEq, Eq)]
pub struct DeviceId {
    pub bytes: [u8; 24],
}

impl View for DeviceId {
    type V = Seq<u8>;

    open spec fn view(&self) -> Seq<u8> {
        self.bytes@
    }
}

impl DeviceId {
    /// The address held in `raw`, if `raw` is exactly `ID_WIDTH` bytes long.
    pub fn from_bytes(raw: &[u8]) -> (id: Option<DeviceId>)
        ensures
            id is Some <==> raw@.len() == ID_WIDTH,
            id matches Some(d) ==> d@ == raw@,
    {
        if raw.len() != ID_WIDTH {
            return None;
        }
        assert(raw@.subrange(0, 24) =~= raw@);
        Some(DeviceId::read(raw, 0))
    }

    /// The address that stands in `raw` at index `at`.
    pub fn read(raw: &[u8], at: usize) -> (id: DeviceId)
        requires
            at + ID_WIDTH <= raw@.len(),
        ensures
            id@ == raw@.subrange(at as int, at + ID_WIDTH),
    {
        let mut bytes = [0u8; 24];
        let mut i: usize = 0;
        while i < ID_WIDTH
            invariant
                i <= ID_WIDTH,
                at + ID_WIDTH <= raw.len(),
                forall|j: int| 0 <= j < i ==> bytes@[j] == raw@[at + j],
            decreases ID_WIDTH - i,
        {
            bytes[i] = raw[at + i];
            i += 1;
        }
        let id = DeviceId { bytes };
        assert(id@ =~= raw@.subrange(at as int, at + ID_WIDTH));
        id
    }

    /// Whether two addresses name the same node.
    pub fn same(&self, other: &DeviceId) -> (r: bool)
        ensures
            r == (self@ == other@),
    {
        let mut i: usize = 0;
        while i < ID_WIDTH
            invariant
                i <= ID_WIDTH,
                forall|j: int| 0 <= j < i ==> self@[j] == other@[j],
            decreases ID_WIDTH - i,
        {
            if self.bytes[i] != other.bytes[i] {
                return false;
            }
            i += 1;
        }
        assert(self@ =~= other@);
        true
    }
}

} // verus!
