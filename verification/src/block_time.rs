//! The time of a block, as the host counts it.

use vstd::prelude::*;
use vstd::slice::slice_subrange;

use crate::bytesrepr::{
    le_bytes, le_value, lemma_le_value_bytes, pow256, read_le, write_le, Error, FromBytes, ToBytes,
};

verus! {

/// Number of bytes in an encoded block time.
pub const BLOCKTIME_SER_SIZE: usize = 8;

/// The time of the block that holds the running transaction, as the host counts it.
#[derive(Clone, Copy, Debug, PartialEq, Eq, Structural)]
pub struct BlockTime {
    /// Milliseconds since the epoch.
    pub millis: u64,
}

impl BlockTime {
    /// The block time of the given number of milliseconds.
    pub fn new(millis: u64) -> (r: BlockTime)
        ensures
            r.millis == millis,
    {
        BlockTime { millis }
    }
}

impl DeepView for BlockTime {
    type V = BlockTime;

    open spec fn deep_view(&self) -> BlockTime {
        *self
    }
}

impl ToBytes for BlockTime {
    open spec fn wire(v: BlockTime) -> Seq<u8> {
        le_bytes(v.millis as nat, 8)
    }

    open spec fn fits(v: BlockTime) -> bool {
        true
    }

    fn write_bytes(&self, out: &mut Vec<u8>) -> (ok: bool) {
        write_le(out, self.millis, 8);
        true
    }
}

impl FromBytes for BlockTime {
    open spec fn parse(bytes: Seq<u8>) -> Result<(BlockTime, int), Error> {
        if bytes.len() < 8 {
            Err(Error::EarlyEndOfStream)
        } else {
            Ok((BlockTime { millis: le_value(bytes.take(8)) as u64 }, 8))
        }
    }

    fn from_bytes(bytes: &[u8]) -> (r: Result<(BlockTime, &[u8]), Error>) {
        if bytes.len() < 8 {
            return Err(Error::EarlyEndOfStream);
        }
        let millis = read_le(bytes, 8);
        let rest = slice_subrange(bytes, 8, bytes.len());
        Ok((BlockTime { millis }, rest))
    }

    proof fn lemma_parse_wire(x: BlockTime, rest: Seq<u8>) {
        reveal_with_fuel(pow256, 9);
        lemma_le_value_bytes(x.millis as nat, 8, rest);
    }
}

} // verus!
