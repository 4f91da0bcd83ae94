//! The step of a transaction: a fact that the guest can read and never change.

use vstd::prelude::*;
use vstd::slice::slice_subrange;

use crate::bytesrepr::{Error, FromBytes, ToBytes};

verus! {

/// Number of bytes in an encoded phase.
pub const PHASE_SIZE: usize = 1;

/// The step of a transaction that is being executed.
#[derive(Clone, Copy, Debug, PartialEq, Eq, Structural)]
pub enum Phase {
    /// Code run by the system itself.
    System,
    /// The code that pays for the transaction.
    Payment,
    /// The code that the transaction is about.
    Session,
    /// The code that settles the transaction once the session has run.
    FinalizeDeploy,
}

impl Phase {
    /// The byte that stands for a phase.
    pub open spec fn spec_tag(self) -> u8 {
        match self {
            Phase::System => 0,
            Phase::Payment => 1,
            Phase::Session => 2,
            Phase::FinalizeDeploy => 3,
        }
    }

    /// The byte that stands for a phase.
    pub fn tag(&self) -> (r: u8)
        ensures
            r == self.spec_tag(),
    {
        match self {
            Phase::System => 0,
            Phase::Payment => 1,
            Phase::Session => 2,
            Phase::FinalizeDeploy => 3,
        }
    }
}

impl DeepView for Phase {
    type V = Phase;

    open spec fn deep_view(&self) -> Phase {
        *self
    }
}

impl ToBytes for Phase {
    open spec fn wire(v: Phase) -> Seq<u8> {
        seq![v.spec_tag()]
    }

    open spec fn fits(v: Phase) -> bool {
        true
    }

    fn write_bytes(&self, out: &mut Vec<u8>) -> (ok: bool) {
        out.push(self.tag());
        true
    }
}

impl FromBytes for Phase {
    open spec fn parse(bytes: Seq<u8>) -> Result<(Phase, int), Error> {
        if bytes.len() < 1 {
            Err(Error::EarlyEndOfStream)
        } else if bytes[0] == 0 {
            Ok((Phase::System, 1))
        } else if bytes[0] == 1 {
            Ok((Phase::Payment, 1))
        } else if bytes[0] == 2 {
            Ok((Phase::Session, 1))
        } else if bytes[0] == 3 {
            Ok((Phase::FinalizeDeploy, 1))
        } else {
            Err(Error::FormattingError)
        }
    }

    fn from_bytes(bytes: &[u8]) -> (r: Result<(Phase, &[u8]), Error>) {
        if bytes.len() < 1 {
            return Err(Error::EarlyEndOfStream);
        }
        let rest = slice_subrange(bytes, 1, bytes.len());
        let tag: u8 = bytes[0];
        if tag == 0 {
            Ok((Phase::System, rest))
        } else if tag == 1 {
            Ok((Phase::Payment, rest))
        } else if tag == 2 {
            Ok((Phase::Session, rest))
        } else if tag == 3 {
            Ok((Phase::FinalizeDeploy, rest))
        } else {
            Err(Error::FormattingError)
        }
    }

    proof fn lemma_parse_wire(x: Phase, rest: Seq<u8>) {
    }
}

} // verus!
