//! Common protocol data: parameters, session descriptors, message routing
//! tags, and the structured abort values that replace a phase's output when
//! a check fails.

use vstd::prelude::*;

verus! {

/// Length in bytes of session and signing identifiers.
pub const ID_LEN: usize = 32;

/// Threshold parameters: `t` of `n` parties must cooperate to sign.
#[derive(Clone, Copy, Debug, PartialEq, Eq, Structural)]
pub struct Parameters {
    pub threshold: u8,
    pub share_count: u8,
}

impl Parameters {
    /// Parameters are valid when `2 <= t <= n`.
    pub open spec fn valid(self) -> bool {
        2 <= self.threshold <= self.share_count
    }

    /// Checks `2 <= t <= n`.
    pub fn check(&self) -> (r: bool)
        ensures
            r == self.valid(),
    {
        2 <= self.threshold && self.threshold <= self.share_count
    }
}

/// Data identifying one party's view of one key-generation session.
#[derive(Clone, Debug)]
pub struct SessionData {
    pub parameters: Parameters,
    /// This party's index, in `[1, share_count]`.
    pub party_index: u8,
    /// Fresh 32-byte identifier, unique per key-generation run.
    pub session_id: Vec<u8>,
}

impl SessionData {
    pub open spec fn valid(self) -> bool {
        &&& self.parameters.valid()
        &&& 1 <= self.party_index <= self.parameters.share_count
        &&& self.session_id@.len() == ID_LEN
    }

    /// Checks the session invariant.
    pub fn check(&self) -> (r: bool)
        ensures
            r == self.valid(),
    {
        self.parameters.check() && 1 <= self.party_index
            && self.party_index <= self.parameters.share_count && self.session_id.len() == ID_LEN
    }
}

/// Sender and receiver of a point-to-point message.
#[derive(Clone, Copy, Debug, PartialEq, Eq, Structural)]
pub struct PartiesMessage {
    pub sender: u8,
    pub receiver: u8,
}

/// Data identifying one party's view of one signing session.
#[derive(Clone, Debug)]
pub struct SignData {
    /// Fresh 32-byte identifier; reusing one across sessions is a critical
    /// security violation.
    pub sign_id: Vec<u8>,
    /// The other executing parties, without us: exactly `threshold - 1` of
    /// them, distinct, in range, and not our own index.
    pub counterparties: Vec<u8>,
    /// Digest of the message being signed.
    pub message_hash: [u8; 32],
}

/// The counterparty list names a valid executing quorum for `me` under `p`.
pub open spec fn counterparties_valid(cs: Seq<u8>, p: Parameters, me: u8) -> bool {
    &&& cs.len() == p.threshold - 1
    &&& forall|i: int| 0 <= i < cs.len() ==> 1 <= #[trigger] cs[i] <= p.share_count
    &&& forall|i: int| 0 <= i < cs.len() ==> #[trigger] cs[i] != me
    &&& forall|i: int, j: int| 0 <= i < j < cs.len() ==> cs[i] != cs[j]
}

impl SignData {
    pub open spec fn valid(self, p: Parameters, me: u8) -> bool {
        &&& self.sign_id@.len() == ID_LEN
        &&& counterparties_valid(self.counterparties@, p, me)
    }
}

/// Why a session was aborted. Carries the index of the party whose message
/// failed the check, where one is to blame.
#[derive(Clone, Copy, Debug, PartialEq, Eq, Structural)]
pub enum AbortReason {
    /// The session description itself was malformed: rejected synchronously
    /// before any protocol step, never broadcast.
    InvalidSessionData,
    WrongCounterpartyCount { expected: u8, got: u8 },
    DuplicateCounterparty { index: u8 },
    SelfInCounterparties,
    InvalidPartyIndex { index: u8 },
    /// A message was addressed to somebody else.
    MisroutedMessage { actual_receiver: u8 },
    /// Fewer (or more) messages than executing counterparties.
    WrongMessageCount { expected: u8, got: u8 },
    MissingMessageFromParty { party: u8 },
    /// A received scalar or point was not canonically encoded.
    InvalidEncoding { party: u8 },
    ProofVerificationFailed { counterparty: u8 },
    CommitmentMismatch { counterparty: u8 },
    ZeroShareDecommitFailed { counterparty: u8 },
    ChainCodeCommitmentFailed { party: u8 },
    MultiplicationFailed { counterparty: u8 },
    GammaInconsistency { counterparty: u8 },
    PolynomialInconsistency,
    TrivialPublicKey,
    TrivialKeyShare,
    TrivialInstancePoint { counterparty: u8 },
    ZeroDenominator,
    LagrangeCoefficientFailed,
    /// The randomized proof-of-work search inside the discrete-log prover
    /// was exhausted (astronomically unlikely).
    ProofSearchExhausted,
    SignatureVerificationFailed,
}

/// Terminal protocol failure: the whole session is dropped, never retried.
#[derive(Clone, Copy, Debug, PartialEq, Eq, Structural)]
pub struct Abort {
    /// Index of the party that raised the abort.
    pub index: u8,
    pub reason: AbortReason,
}

impl Abort {
    pub fn new(index: u8, reason: AbortReason) -> (r: Abort)
        ensures
            r == (Abort { index, reason }),
    {
        Abort { index, reason }
    }
}

} // verus!
