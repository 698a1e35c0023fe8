//! The values the contract keeps and exchanges: coins, reward rates, nodes,
//! bonds, delegations, the contract's settings, its errors and its responses.
//! Each type has a view in which text is taken as a sequence of characters.
use vstd::prelude::*;

verus! {

/// The denomination in which bonds and delegations are paid.
pub const DENOM: &'static str = "upunk";

/// A bond (or a delegation) takes part in rewarding only once this many
/// blocks have passed since it was made.
pub const MINIMUM_BLOCK_AGE_FOR_REWARDING: u64 = 17280;

/// How many delegations were read at a time when old delegations were summed.
pub const OLD_DELEGATIONS_CHUNK_SIZE: usize = 500;

/// The number of atomic units in one whole `Decimal`.
pub const DECIMAL_FRACTIONAL: u128 = 1_000_000_000_000_000_000;

/// The text of `DENOM`.
pub open spec fn denom_text() -> Seq<char> {
    DENOM@
}

/// A fixed-point number with eighteen decimal places, held by its atomic units.
#[derive(Clone, Copy, Debug, PartialEq, Eq, Structural)]
pub struct Decimal {
    pub atomics: u128,
}

impl Decimal {
    /// One whole unit.
    pub fn one() -> (d: Decimal)
        ensures
            d.atomics == DECIMAL_FRACTIONAL,
    {
        Decimal { atomics: DECIMAL_FRACTIONAL }
    }

    /// Zero.
    pub fn zero() -> (d: Decimal)
        ensures
            d.atomics == 0,
    {
        Decimal { atomics: 0 }
    }

    /// `x` percent.
    pub fn percent(x: u64) -> (d: Decimal)
        ensures
            d.atomics == x * (DECIMAL_FRACTIONAL / 100),
    {
        assert(x * 10_000_000_000_000_000u128 <= u64::MAX * 10_000_000_000_000_000u128)
            by (nonlinear_arith);
        Decimal { atomics: x as u128 * 10_000_000_000_000_000u128 }
    }
}

/// An amount of one denomination.
#[derive(Clone, Debug, PartialEq, Eq)]
pub struct Coin {
    pub denom: String,
    pub amount: u128,
}

pub struct CoinView {
    pub denom: Seq<char>,
    pub amount: u128,
}

impl View for Coin {
    type V = CoinView;

    open spec fn view(&self) -> CoinView {
        CoinView { denom: self.denom@, amount: self.amount }
    }
}

impl Coin {
    /// A coin of `amount` in `DENOM`.
    pub fn new(amount: u128) -> (c: Coin)
        ensures
            c@ == (CoinView { denom: denom_text(), amount }),
    {
        Coin { denom: String::from_str(DENOM), amount }
    }

    /// A copy of this coin.
    pub fn duplicate(&self) -> (c: Coin)
        ensures
            c@ == self@,
    {
        Coin { denom: self.denom.clone(), amount: self.amount }
    }
}

/// The views of a list of coins.
pub open spec fn coins_view(s: Seq<Coin>) -> Seq<CoinView> {
    s.map_values(|c: Coin| c@)
}

/// The place of a node in the network: gateways, or one of the three mix layers.
#[derive(Clone, Copy, Debug, PartialEq, Eq, Structural)]
pub enum Layer {
    Gateway,
    One,
    Two,
    Three,
}

/// How many nodes were counted into each layer.
#[derive(Clone, Copy, Debug, PartialEq, Eq, Structural)]
pub struct LayerDistribution {
    pub gateways: u64,
    pub layer1: u64,
    pub layer2: u64,
    pub layer3: u64,
}

impl Default for LayerDistribution {
    /// No node counted in any layer.
    fn default() -> (d: LayerDistribution)
        ensures
            d == (LayerDistribution { gateways: 0, layer1: 0, layer2: 0, layer3: 0 }),
    {
        LayerDistribution { gateways: 0, layer1: 0, layer2: 0, layer3: 0 }
    }
}

impl LayerDistribution {
    /// The count of `layer`.
    pub open spec fn count(self, layer: Layer) -> u64 {
        match layer {
            Layer::Gateway => self.gateways,
            Layer::One => self.layer1,
            Layer::Two => self.layer2,
            Layer::Three => self.layer3,
        }
    }

    /// The distribution with the count of `layer` set to `n`.
    pub open spec fn with_count(self, layer: Layer, n: u64) -> LayerDistribution {
        match layer {
            Layer::Gateway => LayerDistribution { gateways: n, ..self },
            Layer::One => LayerDistribution { layer1: n, ..self },
            Layer::Two => LayerDistribution { layer2: n, ..self },
            Layer::Three => LayerDistribution { layer3: n, ..self },
        }
    }

    /// The mix layer that a new mixnode joins: the one with the fewest nodes,
    /// the lowest of them where several tie.
    pub open spec fn spec_fewest(self) -> Layer {
        if self.layer1 <= self.layer2 && self.layer1 <= self.layer3 {
            Layer::One
        } else if self.layer2 <= self.layer3 {
            Layer::Two
        } else {
            Layer::Three
        }
    }

    /// The mix layer with the fewest nodes (the lowest on a tie).
    pub fn choose_with_fewest(&self) -> (l: Layer)
        ensures
            l == self.spec_fewest(),
            l != Layer::Gateway,
            self.count(l) <= self.layer1,
            self.count(l) <= self.layer2,
            self.count(l) <= self.layer3,
    {
        if self.layer1 <= self.layer2 && self.layer1 <= self.layer3 {
            Layer::One
        } else if self.layer2 <= self.layer3 {
            Layer::Two
        } else {
            Layer::Three
        }
    }

    /// Counts one more node into `layer`.
    pub fn increment(&mut self, layer: Layer)
        requires
            old(self).count(layer) < u64::MAX,
        ensures
            *final(self) == old(self).with_count(layer, (old(self).count(layer) + 1) as u64),
    {
        match layer {
            Layer::Gateway => self.gateways = self.gateways + 1,
            Layer::One => self.layer1 = self.layer1 + 1,
            Layer::Two => self.layer2 = self.layer2 + 1,
            Layer::Three => self.layer3 = self.layer3 + 1,
        }
    }

    /// Counts one node fewer in `layer`.
    pub fn decrement(&mut self, layer: Layer)
        requires
            old(self).count(layer) > 0,
        ensures
            *final(self) == old(self).with_count(layer, (old(self).count(layer) - 1) as u64),
    {
        match layer {
            Layer::Gateway => self.gateways = self.gateways - 1,
            Layer::One => self.layer1 = self.layer1 - 1,
            Layer::Two => self.layer2 = self.layer2 - 1,
            Layer::Three => self.layer3 = self.layer3 - 1,
        }
    }
}

/// A mixnode as its operator announces it.
#[derive(Clone, Debug, PartialEq, Eq)]
pub struct MixNode {
    pub host: String,
    pub mix_port: u16,
    pub verloc_port: u16,
    pub http_api_port: u16,
    pub sphinx_key: String,
    pub identity_key: String,
    pub version: String,
}

pub struct MixNodeView {
    pub host: Seq<char>,
    pub mix_port: u16,
    pub verloc_port: u16,
    pub http_api_port: u16,
    pub sphinx_key: Seq<char>,
    pub identity_key: Seq<char>,
    pub version: Seq<char>,
}

impl View for MixNode {
    type V = MixNodeView;

    open spec fn view(&self) -> MixNodeView {
        MixNodeView {
            host: self.host@,
            mix_port: self.mix_port,
            verloc_port: self.verloc_port,
            http_api_port: self.http_api_port,
            sphinx_key: self.sphinx_key@,
            identity_key: self.identity_key@,
            version: self.version@,
        }
    }
}

/// A gateway as its operator announces it.
#[derive(Clone, Debug, PartialEq, Eq)]
pub struct Gateway {
    pub host: String,
    pub mix_port: u16,
    pub clients_port: u16,
    pub location: String,
    pub sphinx_key: String,
    pub identity_key: String,
    pub version: String,
}

pub struct GatewayView {
    pub host: Seq<char>,
    pub mix_port: u16,
    pub clients_port: u16,
    pub location: Seq<char>,
    pub sphinx_key: Seq<char>,
    pub identity_key: Seq<char>,
    pub version: Seq<char>,
}

impl View for Gateway {
    type V = GatewayView;

    open spec fn view(&self) -> GatewayView {
        GatewayView {
            host: self.host@,
            mix_port: self.mix_port,
            clients_port: self.clients_port,
            location: self.location@,
            sphinx_key: self.sphinx_key@,
            identity_key: self.identity_key@,
            version: self.version@,
        }
    }
}

/// A bonded mixnode: what was paid for it, what was delegated to it, who
/// owns it, on which layer it runs and from which block on.
#[derive(Clone, Debug, PartialEq, Eq)]
pub struct MixNodeBond {
    pub bond_amount: Coin,
    pub total_delegation: Coin,
    pub owner: String,
    pub layer: Layer,
    pub block_height: u64,
    pub mix_node: MixNode,
}

pub struct MixNodeBondView {
    pub bond_amount: CoinView,
    pub total_delegation: CoinView,
    pub owner: Seq<char>,
    pub layer: Layer,
    pub block_height: u64,
    pub mix_node: MixNodeView,
}

impl View for MixNodeBond {
    type V = MixNodeBondView;

    open spec fn view(&self) -> MixNodeBondView {
        MixNodeBondView {
            bond_amount: self.bond_amount@,
            total_delegation: self.total_delegation@,
            owner: self.owner@,
            layer: self.layer,
            block_height: self.block_height,
            mix_node: self.mix_node@,
        }
    }
}

/// A bonded gateway.
#[derive(Clone, Debug, PartialEq, Eq)]
pub struct GatewayBond {
    pub bond_amount: Coin,
    pub owner: String,
    pub block_height: u64,
    pub gateway: Gateway,
}

pub struct GatewayBondView {
    pub bond_amount: CoinView,
    pub owner: Seq<char>,
    pub block_height: u64,
    pub gateway: GatewayView,
}

impl View for GatewayBond {
    type V = GatewayBondView;

    open spec fn view(&self) -> GatewayBondView {
        GatewayBondView {
            bond_amount: self.bond_amount@,
            owner: self.owner@,
            block_height: self.block_height,
            gateway: self.gateway@,
        }
    }
}

/// One delegator's stake on one mixnode, and the block at which it was last
/// topped up.
#[derive(Clone, Copy, Debug, PartialEq, Eq, Structural)]
pub struct RawDelegationData {
    pub amount: u128,
    pub block_height: u64,
}

impl View for RawDelegationData {
    type V = RawDelegationData;

    open spec fn view(&self) -> RawDelegationData {
        *self
    }
}

impl RawDelegationData {
    pub fn new(amount: u128, block_height: u64) -> (d: RawDelegationData)
        ensures
            d.amount == amount,
            d.block_height == block_height,
    {
        RawDelegationData { amount, block_height }
    }
}

/// The parameters that the contract's owner may change.
#[derive(Clone, Copy, Debug, PartialEq, Eq, Structural)]
pub struct StateParams {
    pub epoch_length: u32,
    pub minimum_mixnode_bond: u128,
    pub minimum_gateway_bond: u128,
    pub mixnode_bond_reward_rate: Decimal,
    pub mixnode_delegation_reward_rate: Decimal,
    pub mixnode_active_set_size: u32,
}

/// The contract's settings: its owner, the address allowed to reward
/// mixnodes, the parameters and the per-epoch reward rates derived from them.
#[derive(Clone, Debug, PartialEq, Eq)]
pub struct State {
    pub owner: String,
    pub network_monitor_address: String,
    pub params: StateParams,
    pub mixnode_epoch_bond_reward: Decimal,
    pub mixnode_epoch_delegation_reward: Decimal,
}

pub struct StateView {
    pub owner: Seq<char>,
    pub network_monitor_address: Seq<char>,
    pub params: StateParams,
    pub mixnode_epoch_bond_reward: Decimal,
    pub mixnode_epoch_delegation_reward: Decimal,
}

impl View for State {
    type V = StateView;

    open spec fn view(&self) -> StateView {
        StateView {
            owner: self.owner@,
            network_monitor_address: self.network_monitor_address@,
            params: self.params,
            mixnode_epoch_bond_reward: self.mixnode_epoch_bond_reward,
            mixnode_epoch_delegation_reward: self.mixnode_epoch_delegation_reward,
        }
    }
}

/// Why a request was refused.
#[derive(Clone, Debug, PartialEq, Eq)]
pub enum ContractError {
    NoBondFound,
    MultipleDenoms,
    WrongDenom,
    InsufficientMixNodeBond { received: u128, minimum: u128 },
    InsufficientGatewayBond { received: u128, minimum: u128 },
    AlreadyOwnsMixnode,
    AlreadyOwnsGateway,
    DuplicateMixnode { owner: String },
    DuplicateGateway { owner: String },
    NoAssociatedMixNodeBond { owner: String },
    NoAssociatedGatewayBond { owner: String },
    Unauthorized,
    DecreasingMixnodeBondReward,
    DecreasingMixnodeDelegationReward,
    EmptyDelegation,
    MixNodeBondNotFound { identity: String },
    NoMixnodeDelegationFound { identity: String, address: String },
    UnexpectedUptime,
}

pub enum ContractErrorView {
    NoBondFound,
    MultipleDenoms,
    WrongDenom,
    InsufficientMixNodeBond { received: u128, minimum: u128 },
    InsufficientGatewayBond { received: u128, minimum: u128 },
    AlreadyOwnsMixnode,
    AlreadyOwnsGateway,
    DuplicateMixnode { owner: Seq<char> },
    DuplicateGateway { owner: Seq<char> },
    NoAssociatedMixNodeBond { owner: Seq<char> },
    NoAssociatedGatewayBond { owner: Seq<char> },
    Unauthorized,
    DecreasingMixnodeBondReward,
    DecreasingMixnodeDelegationReward,
    EmptyDelegation,
    MixNodeBondNotFound { identity: Seq<char> },
    NoMixnodeDelegationFound { identity: Seq<char>, address: Seq<char> },
    UnexpectedUptime,
}

impl View for ContractError {
    type V = ContractErrorView;

    open spec fn view(&self) -> ContractErrorView {
        match self {
            ContractError::NoBondFound => ContractErrorView::NoBondFound,
            ContractError::MultipleDenoms => ContractErrorView::MultipleDenoms,
            ContractError::WrongDenom => ContractErrorView::WrongDenom,
            ContractError::InsufficientMixNodeBond { received, minimum } => {
                ContractErrorView::InsufficientMixNodeBond { received: *received, minimum: *minimum }
            },
            ContractError::InsufficientGatewayBond { received, minimum } => {
                ContractErrorView::InsufficientGatewayBond { received: *received, minimum: *minimum }
            },
            ContractError::AlreadyOwnsMixnode => ContractErrorView::AlreadyOwnsMixnode,
            ContractError::AlreadyOwnsGateway => ContractErrorView::AlreadyOwnsGateway,
            ContractError::DuplicateMixnode { owner } => ContractErrorView::DuplicateMixnode {
                owner: owner@,
            },
            ContractError::DuplicateGateway { owner } => ContractErrorView::DuplicateGateway {
                owner: owner@,
            },
            ContractError::NoAssociatedMixNodeBond { owner } => {
                ContractErrorView::NoAssociatedMixNodeBond { owner: owner@ }
            },
            ContractError::NoAssociatedGatewayBond { owner } => {
                ContractErrorView::NoAssociatedGatewayBond { owner: owner@ }
            },
            ContractError::Unauthorized => ContractErrorView::Unauthorized,
            ContractError::DecreasingMixnodeBondReward => {
                ContractErrorView::DecreasingMixnodeBondReward
            },
            ContractError::DecreasingMixnodeDelegationReward => {
                ContractErrorView::DecreasingMixnodeDelegationReward
            },
            ContractError::EmptyDelegation => ContractErrorView::EmptyDelegation,
            ContractError::MixNodeBondNotFound { identity } => {
                ContractErrorView::MixNodeBondNotFound { identity: identity@ }
            },
            ContractError::NoMixnodeDelegationFound { identity, address } => {
                ContractErrorView::NoMixnodeDelegationFound {
                    identity: identity@,
                    address: address@,
                }
            },
            ContractError::UnexpectedUptime => ContractErrorView::UnexpectedUptime,
        }
    }
}

/// A key/value pair that a response reports.
#[derive(Clone, Debug, PartialEq, Eq)]
pub struct Attribute {
    pub key: String,
    pub value: String,
}

/// A transfer of funds that a response asks the chain to make.
#[derive(Clone, Debug, PartialEq, Eq)]
pub enum BankMsg {
    Send { to_address: String, amount: Vec<Coin> },
}

pub enum BankMsgView {
    Send { to_address: Seq<char>, amount: Seq<CoinView> },
}

impl View for BankMsg {
    type V = BankMsgView;

    open spec fn view(&self) -> BankMsgView {
        match self {
            BankMsg::Send { to_address, amount } => BankMsgView::Send {
                to_address: to_address@,
                amount: coins_view(amount@),
            },
        }
    }
}

/// What a successful request answers: attributes and transfers.
#[derive(Clone, Debug, PartialEq, Eq)]
pub struct Response {
    pub attributes: Vec<Attribute>,
    pub messages: Vec<BankMsg>,
}

pub struct ResponseView {
    pub attributes: Seq<(Seq<char>, Seq<char>)>,
    pub messages: Seq<BankMsgView>,
}

impl View for Response {
    type V = ResponseView;

    open spec fn view(&self) -> ResponseView {
        ResponseView {
            attributes: self.attributes@.map_values(|a: Attribute| (a.key@, a.value@)),
            messages: self.messages@.map_values(|m: BankMsg| m@),
        }
    }
}

impl Default for Response {
    /// A response with neither attributes nor transfers.
    fn default() -> (r: Response)
        ensures
            r@.attributes == Seq::<(Seq<char>, Seq<char>)>::empty(),
            r@.messages == Seq::<BankMsgView>::empty(),
    {
        Response::new()
    }
}

impl Response {
    /// A response with neither attributes nor transfers.
    pub fn new() -> (r: Response)
        ensures
            r@.attributes == Seq::<(Seq<char>, Seq<char>)>::empty(),
            r@.messages == Seq::<BankMsgView>::empty(),
    {
        let r = Response { attributes: Vec::new(), messages: Vec::new() };
        assert(r@.attributes =~= Seq::<(Seq<char>, Seq<char>)>::empty());
        assert(r@.messages =~= Seq::<BankMsgView>::empty());
        r
    }

    /// Appends the attribute `key` = `value`.
    pub fn add_attribute(&mut self, key: &str, value: String)
        ensures
            final(self)@.attributes == old(self)@.attributes.push((key@, value@)),
            final(self)@.messages == old(self)@.messages,
    {
        let ghost k = key@;
        let ghost v = value@;
        self.attributes.push(Attribute { key: String::from_str(key), value });
        assert(self@.attributes =~= old(self)@.attributes.push((k, v)));
        assert(self@.messages =~= old(self)@.messages);
    }

    /// Appends a transfer.
    pub fn add_message(&mut self, msg: BankMsg)
        ensures
            final(self)@.attributes == old(self)@.attributes,
            final(self)@.messages == old(self)@.messages.push(msg@),
    {
        let ghost m = msg@;
        self.messages.push(msg);
        assert(self@.attributes =~= old(self)@.attributes);
        assert(self@.messages =~= old(self)@.messages.push(m));
    }
}

} // verus!
