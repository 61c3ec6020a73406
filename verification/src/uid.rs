//! Time-ordered unique identifiers. A `Uid` is the 16-byte value of a
//! version-7 UUID; its first six bytes carry the creation time in
//! milliseconds since the Unix epoch, which is where a provisioning link's
//! expiry clock starts.

use vstd::prelude::*;

use crate::strutil::copy_bytes;

verus! {

/// The creation time a version-7 identifier carries: its first six bytes,
/// big-endian, in milliseconds since the Unix epoch.
pub open spec fn creation_ms_of(b: Seq<u8>) -> int
    recommends
        b.len() >= 6,
{
    b[0] * 0x100_0000_0000 + b[1] * 0x1_0000_0000 + b[2] * 0x100_0000 + b[3] * 0x1_0000 + b[4]
        * 0x100 + b[5]
}

/// A 16-byte time-ordered identifier.
pub struct Uid {
    bytes: Vec<u8>,
}

impl View for Uid {
    type V = Seq<u8>;

    closed spec fn view(&self) -> Seq<u8> {
        self.bytes@
    }
}

impl Uid {
    /// An identifier is well formed when it holds exactly 16 bytes.
    pub open spec fn wf(&self) -> bool {
        self@.len() == 16
    }

    /// Relies on uuid's `Uuid::now_v7`: a fresh identifier drawn from the
    /// clock and a random counter. Nothing can be promised about the value
    /// beyond its 16-byte size.
    #[verifier::external_body]
    pub fn fresh() -> (r: Uid)
        ensures
            r@.len() == 16,
    {
        Uid { bytes: uuid::Uuid::now_v7().as_bytes().to_vec() }
    }

    /// Wraps exactly 16 bytes as an identifier; any other length is refused.
    pub fn from_bytes(bytes: Vec<u8>) -> (r: Option<Uid>)
        ensures
            bytes@.len() == 16 ==> (r matches Some(u) && u@ == bytes@),
            bytes@.len() != 16 ==> r is None,
    {
        if bytes.len() == 16 {
            Some(Uid { bytes })
        } else {
            None
        }
    }

    /// The identifier's raw bytes.
    pub fn as_bytes(&self) -> (r: &Vec<u8>)
        ensures
            r@ == self@,
    {
        &self.bytes
    }

    /// A fresh copy of the identifier.
    pub fn dup(&self) -> (r: Uid)
        ensures
            r@ == self@,
    {
        Uid { bytes: copy_bytes(&self.bytes) }
    }

    /// The creation time embedded in the identifier's first six bytes.
    pub fn creation_ms(&self) -> (r: u64)
        requires
            self.wf(),
        ensures
            r == creation_ms_of(self@),
    {
        let b = &self.bytes;
        (b[0] as u64) * 0x100_0000_0000 + (b[1] as u64) * 0x1_0000_0000 + (b[2] as u64) * 0x100_0000
            + (b[3] as u64) * 0x1_0000 + (b[4] as u64) * 0x100 + (b[5] as u64)
    }
}

} // verus!
