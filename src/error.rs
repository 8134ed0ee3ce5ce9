//! Why an oracle operation was refused. A refused operation changes nothing.
use vstd::prelude::*;

verus! {

#[derive(PartialEq, Eq, Structural, Debug, Clone, Copy)]
pub enum OracleError {
    /// Stake on the bonded outcome of a window is locked.
    BondedOutcome,
    /// The account has less staked on the outcome than it asked back.
    InsufficientStake,
    /// The request has no window for that round.
    UnknownRound,
    /// The answer is not one of the request's declared outcomes.
    IncompatibleOutcome,
    /// The outcome is the one that the previous round bonded.
    RepeatedOutcome,
    /// The request is finalized already.
    AlreadyFinalized,
    /// The request is not finalized yet.
    NotFinalized,
    /// The request's settlement time has not come yet.
    SettlementTimeNotPassed,
    /// Only the final arbitrator can finalize this request.
    FinalArbitratorTriggered,
    /// The request was never staked on.
    NoResolutionWindows,
    /// The last window's challenge period is still running.
    ChallengePeriodNotEnded,
    /// The caller is not the request's final arbitrator.
    NotFinalArbitrator,
    /// The final arbitrator has not been invoked for this request.
    FinalArbitratorNotTriggered,
    /// More sources than allowed.
    TooManySources,
    /// The challenge period is below the configured minimum.
    ChallengePeriodTooShort,
    /// The challenge period is above three default challenge periods.
    ChallengePeriodTooLong,
    /// The settlement time lies too far in the future.
    SettlementTimeTooFar,
    /// The outcome list is shorter than two or longer than the maximum.
    InvalidOutcomeCount,
    /// The deposit does not cover the validity bond.
    ValidityBondNotReached,
    /// The deposit did not come from the configured bond token.
    NotBondToken,
    /// The stake did not come from the configured stake token.
    NotStakeToken,
    /// The requestor is not on the whitelist.
    NotWhitelisted,
    /// The total value locked behind a new request could not be fetched.
    TvlUnavailable,
    /// The caller is not the governance account.
    NotGov,
    /// The contract was made without a whitelist.
    NoWhitelist,
    /// No data request has that id.
    UnknownDataRequest,
    /// The account holds fewer tokens than it is to pay.
    InsufficientBalance,
    /// A balance would exceed the largest amount.
    BalanceOverflow,
    /// The request's bond would be zero, or its bonds would not fit in 128 bits.
    BondOutOfRange,
}

} // verus!
