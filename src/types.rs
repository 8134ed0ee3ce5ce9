//! Value types shared by the oracle: outcomes, sources, configuration.
use vstd::prelude::*;

verus! {

/// Raw type for a timestamp in nanoseconds.
pub type Timestamp = u64;

/// Raw type for a duration in nanoseconds.
pub type Duration = u64;

/// An amount of tokens.
pub type Balance = u128;

/// An account name.
pub type AccountId = String;

/// A numeric answer: `value` scaled down by `multiplier`, with its sign.
#[derive(PartialEq, Eq, Structural, Clone, Copy, Debug)]
pub struct AnswerNumberType {
    pub value: u128,
    pub multiplier: u128,
    pub negative: bool,
}

/// The payload of an answer: a number or a text.
pub enum AnswerType {
    Number(AnswerNumberType),
    String(String),
}

/// What an answer stands for.
pub enum AnswerView {
    Number(AnswerNumberType),
    String(Seq<char>),
}

/// What an outcome stands for: an answer, or the verdict that the request
/// itself was invalid.
pub enum OutcomeView {
    Answer(AnswerView),
    Invalid,
}

impl View for AnswerType {
    type V = AnswerView;

    open spec fn view(&self) -> AnswerView {
        match self {
            AnswerType::Number(n) => AnswerView::Number(*n),
            AnswerType::String(s) => AnswerView::String(s@),
        }
    }
}

impl AnswerType {
    /// A copy of this answer.
    pub fn duplicate(&self) -> (r: AnswerType)
        ensures
            r@ == self@,
    {
        match self {
            AnswerType::Number(n) => AnswerType::Number(*n),
            AnswerType::String(s) => AnswerType::String(s.clone()),
        }
    }
}

impl Clone for AnswerType {
    fn clone(&self) -> (r: AnswerType)
        ensures
            r@ == self@,
    {
        self.duplicate()
    }
}

impl PartialEq for AnswerType {
    fn eq(&self, other: &AnswerType) -> (r: bool) {
        match (self, other) {
            (AnswerType::Number(a), AnswerType::Number(b)) => a == b,
            (AnswerType::String(a), AnswerType::String(b)) => a.eq(b),
            _ => false,
        }
    }
}

impl vstd::std_specs::cmp::PartialEqSpecImpl for AnswerType {
    open spec fn obeys_eq_spec() -> bool {
        true
    }

    open spec fn eq_spec(&self, other: &AnswerType) -> bool {
        self@ == other@
    }
}

/// An asserted result of a data request.
pub enum Outcome {
    Answer(AnswerType),
    Invalid,
}

impl View for Outcome {
    type V = OutcomeView;

    open spec fn view(&self) -> OutcomeView {
        match self {
            Outcome::Answer(a) => OutcomeView::Answer(a@),
            Outcome::Invalid => OutcomeView::Invalid,
        }
    }
}

impl Outcome {
    /// A copy of this outcome.
    pub fn duplicate(&self) -> (r: Outcome)
        ensures
            r@ == self@,
    {
        match self {
            Outcome::Answer(a) => Outcome::Answer(a.duplicate()),
            Outcome::Invalid => Outcome::Invalid,
        }
    }
}

impl Clone for Outcome {
    fn clone(&self) -> (r: Outcome)
        ensures
            r@ == self@,
    {
        self.duplicate()
    }
}

impl PartialEq for Outcome {
    fn eq(&self, other: &Outcome) -> (r: bool) {
        match (self, other) {
            (Outcome::Answer(a), Outcome::Answer(b)) => a.eq(b),
            (Outcome::Invalid, Outcome::Invalid) => true,
            _ => false,
        }
    }
}

impl vstd::std_specs::cmp::PartialEqSpecImpl for Outcome {
    open spec fn obeys_eq_spec() -> bool {
        true
    }

    open spec fn eq_spec(&self, other: &Outcome) -> bool {
        self@ == other@
    }
}

/// Where the requested data can be checked: carried along, never read.
pub struct Source {
    pub end_point: String,
    pub source_path: String,
}

/// The configuration snapshot that a data request is bound to.
pub struct OracleConfig {
    pub gov: AccountId,
    /// May decide the outcome once a bond reaches `final_arbitrator_invoke_amount`.
    pub final_arbitrator: AccountId,
    pub bond_token: AccountId,
    pub stake_token: AccountId,
    /// Deposit that a request's creator puts up.
    pub validity_bond: Balance,
    pub max_outcomes: u8,
    /// Challenge period of every round after the first.
    pub default_challenge_window_duration: Duration,
    pub min_initial_challenge_window_duration: Duration,
    /// Bond size at which a window hands the decision to the final arbitrator.
    pub final_arbitrator_invoke_amount: Balance,
    /// Fee on the total value locked, in parts of `PERCENTAGE_DIVISOR`.
    pub resolution_fee_percentage: u16,
}

impl OracleConfig {
    /// A copy of this configuration.
    pub fn duplicate(&self) -> (r: OracleConfig)
        ensures
            r == *self,
    {
        OracleConfig {
            gov: self.gov.clone(),
            final_arbitrator: self.final_arbitrator.clone(),
            bond_token: self.bond_token.clone(),
            stake_token: self.stake_token.clone(),
            validity_bond: self.validity_bond,
            max_outcomes: self.max_outcomes,
            default_challenge_window_duration: self.default_challenge_window_duration,
            min_initial_challenge_window_duration: self.min_initial_challenge_window_duration,
            final_arbitrator_invoke_amount: self.final_arbitrator_invoke_amount,
            resolution_fee_percentage: self.resolution_fee_percentage,
        }
    }
}

impl Clone for OracleConfig {
    fn clone(&self) -> (r: OracleConfig)
        ensures
            r == *self,
    {
        self.duplicate()
    }
}

/// Market figures used to set fees.
pub struct FeeConfig {
    /// Total market cap of the stake token, in the bond token.
    pub flux_market_cap: u128,
    /// Total value staked of all request interfaces, in the bond token.
    pub total_value_staked: u128,
    /// Percentage of the value staked paid to resolvers, in parts of 100 000.
    pub resolution_fee_percentage: u32,
}

/// Running figures for fee calculation.
pub struct FeeStatus {
    pub market_cap: u128,
    pub total_value_secured: u128,
    /// In parts of 100 000.
    pub fee_percentage: u16,
}

impl FeeStatus {
    /// No market cap, nothing secured, the smallest fee.
    pub fn new() -> (r: Self)
        ensures
            r.market_cap == 0,
            r.total_value_secured == 0,
            r.fee_percentage == 1,
    {
        FeeStatus { market_cap: 0, total_value_secured: 0, fee_percentage: 1 }
    }
}

/// Stage of a governance proposal.
pub enum ProposalStatus {
    /// In its voting stage.
    Vote,
    /// Passed.
    Success,
    /// Carried out.
    Executed,
    /// Turned down.
    Rejected,
}

impl ProposalStatus {
    /// Whether the proposal has reached an end (carried out or turned down).
    pub fn is_finished(&self) -> (r: bool)
        ensures
            r == (self is Rejected || self is Executed),
    {
        match self {
            ProposalStatus::Rejected => true,
            ProposalStatus::Executed => true,
            _ => false,
        }
    }
}

/// A contract that may create data requests.
pub struct Requestor {
    pub interface_name: String,
    pub account_id: AccountId,
    pub stake_multiplier: Option<u16>,
    pub code_base_url: Option<String>,
}

impl Requestor {
    /// A requestor that is not on the whitelist: the account and nothing else.
    pub fn new_no_whitelist(account_id: &AccountId) -> (r: Self)
        ensures
            r.interface_name@ == Seq::<char>::empty(),
            r.account_id@ == account_id@,
            r.stake_multiplier is None,
            r.code_base_url is None,
    {
        Requestor {
            interface_name: String::new(),
            account_id: account_id.clone(),
            stake_multiplier: None,
            code_base_url: None,
        }
    }
}

/// What one claim pays, in each of the two tokens.
pub struct ClaimRes {
    pub payment_token_payout: u128,
    pub stake_token_payout: u128,
}

/// A governance vote.
pub enum Vote {
    Yes,
    No,
}

/// A number, or a ratio of two numbers.
pub enum NumOrRatio {
    Number(u64),
    Ratio(u64, u64),
}

/// Arguments of a stake on a data request.
pub struct StakeDataRequestArgs {
    pub id: u64,
    pub outcome: Outcome,
}

/// Arguments of a challenge of a data request.
pub struct ChallengeDataRequestArgs {
    pub id: u64,
    pub answer: Outcome,
}

} // verus!
