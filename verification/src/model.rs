//! The contract's state as a mathematical value, its invariant, and what each
//! request does to it: every request is a function from a state to an answer
//! and a next state.
use vstd::prelude::*;
use crate::store::{bucket, delete, delete_in_bucket, has_key, lookup, put, put_in_bucket, sum_of, unique_keys};
use crate::types::{
    denom_text, BankMsgView, CoinView, ContractErrorView, Decimal, GatewayBondView, GatewayView,
    Layer, LayerDistribution, MixNodeBondView, MixNodeView, RawDelegationData, ResponseView,
    StateParams, StateView, DECIMAL_FRACTIONAL, MINIMUM_BLOCK_AGE_FOR_REWARDING,
};
use crate::rewards::{spec_epoch_reward_rate, spec_mul_decimal, spec_scale_reward_by_uptime};
use crate::text::{bond_text, bool_text, decimal_text};
use crate::validation::{
    spec_delegation_stake_error, spec_gateway_bond_error, spec_mixnode_bond_error,
};

verus! {

/// The whole state of the contract.
pub struct MixnetView {
    /// Settings: owner, network monitor, parameters, per-epoch rates.
    pub state: StateView,
    /// How many nodes were counted into each layer.
    pub layers: LayerDistribution,
    /// Bonded mixnodes by identity.
    pub mixnodes: Seq<(Seq<char>, MixNodeBondView)>,
    /// The identity of the mixnode that each owner bonded.
    pub mixnode_owners: Seq<(Seq<char>, Seq<char>)>,
    /// Bonded gateways by identity.
    pub gateways: Seq<(Seq<char>, GatewayBondView)>,
    /// The identity of the gateway that each owner bonded.
    pub gateway_owners: Seq<(Seq<char>, Seq<char>)>,
    /// For each mixnode identity, the delegations to it by delegator.
    pub mix_delegations: Seq<(Seq<char>, Seq<(Seq<char>, RawDelegationData)>)>,
    /// For each delegator, the identities of the mixnodes it delegated to.
    pub reverse_mix_delegations: Seq<(Seq<char>, Seq<(Seq<char>, ())>)>,
}

/// The amount of a delegation, as a weight.
pub open spec fn delegation_amount() -> spec_fn(RawDelegationData) -> int {
    |d: RawDelegationData| d.amount as int
}

/// One for a bond on layer `l`, zero otherwise.
pub open spec fn on_layer(l: Layer) -> spec_fn(MixNodeBondView) -> int {
    |b: MixNodeBondView| if b.layer == l { 1int } else { 0int }
}

/// The number of bonded mixnodes on layer `l`.
pub open spec fn nodes_on_layer(s: Seq<(Seq<char>, MixNodeBondView)>, l: Layer) -> int {
    sum_of(s, on_layer(l))
}

impl MixnetView {
    /// The delegations made to the mixnode `identity`.
    pub open spec fn delegations_of(self, identity: Seq<char>) -> Seq<(Seq<char>, RawDelegationData)> {
        bucket(self.mix_delegations, identity)
    }

    /// The identities of the mixnodes `delegator` delegated to.
    pub open spec fn delegated_by(self, delegator: Seq<char>) -> Seq<(Seq<char>, ())> {
        bucket(self.reverse_mix_delegations, delegator)
    }

    /// The sum of the delegations made to the mixnode `identity`.
    pub open spec fn delegated_total(self, identity: Seq<char>) -> int {
        sum_of(self.delegations_of(identity), delegation_amount())
    }

    /// The state's invariant.
    pub open spec fn wf(self) -> bool {
        &&& mixnode_records_wf(self.mixnodes, self.mixnode_owners, self.gateway_owners)
        &&& gateway_records_wf(self.gateways, self.gateway_owners)
        &&& layers_wf(self.layers, self.mixnodes, self.gateways)
        &&& delegation_records_wf(self.mix_delegations, self.reverse_mix_delegations)
    }
}

/// Bonded mixnodes and their owners agree: a bond is stored under its node's
/// identity, runs on a mix layer, and its owner is recorded as owning that
/// identity; an owner owns a bonded mixnode, and no gateway.
pub open spec fn mixnode_records_wf(
    mixnodes: Seq<(Seq<char>, MixNodeBondView)>,
    mixnode_owners: Seq<(Seq<char>, Seq<char>)>,
    gateway_owners: Seq<(Seq<char>, Seq<char>)>,
) -> bool {
    &&& unique_keys(mixnodes)
    &&& unique_keys(mixnode_owners)
    &&& forall|identity: Seq<char>|
        #[trigger] lookup(mixnodes, identity) is Some ==> {
            let bond = lookup(mixnodes, identity)->0;
            &&& bond.mix_node.identity_key == identity
            &&& bond.layer != Layer::Gateway
            &&& lookup(mixnode_owners, bond.owner) == Some(identity)
        }
    &&& forall|owner: Seq<char>|
        #[trigger] lookup(mixnode_owners, owner) is Some ==> {
            let identity = lookup(mixnode_owners, owner)->0;
            &&& lookup(mixnodes, identity) is Some
            &&& lookup(mixnodes, identity)->0.owner == owner
            &&& lookup(gateway_owners, owner) is None
        }
}

/// Bonded gateways and their owners agree.
pub open spec fn gateway_records_wf(
    gateways: Seq<(Seq<char>, GatewayBondView)>,
    gateway_owners: Seq<(Seq<char>, Seq<char>)>,
) -> bool {
    &&& unique_keys(gateways)
    &&& unique_keys(gateway_owners)
    &&& forall|identity: Seq<char>|
        #[trigger] lookup(gateways, identity) is Some ==> {
            let bond = lookup(gateways, identity)->0;
            &&& bond.gateway.identity_key == identity
            &&& lookup(gateway_owners, bond.owner) == Some(identity)
        }
    &&& forall|owner: Seq<char>|
        #[trigger] lookup(gateway_owners, owner) is Some ==> {
            let identity = lookup(gateway_owners, owner)->0;
            &&& lookup(gateways, identity) is Some
            &&& lookup(gateways, identity)->0.owner == owner
        }
}

/// No layer counts fewer nodes than it holds.
pub open spec fn layers_wf(
    layers: LayerDistribution,
    mixnodes: Seq<(Seq<char>, MixNodeBondView)>,
    gateways: Seq<(Seq<char>, GatewayBondView)>,
) -> bool {
    &&& layers.layer1 >= nodes_on_layer(mixnodes, Layer::One)
    &&& layers.layer2 >= nodes_on_layer(mixnodes, Layer::Two)
    &&& layers.layer3 >= nodes_on_layer(mixnodes, Layer::Three)
    &&& layers.gateways >= gateways.len()
}

/// Each delegation is recorded both under its mixnode and under its
/// delegator, and no store repeats a key.
pub open spec fn delegation_records_wf(
    mix_delegations: Seq<(Seq<char>, Seq<(Seq<char>, RawDelegationData)>)>,
    reverse_mix_delegations: Seq<(Seq<char>, Seq<(Seq<char>, ())>)>,
) -> bool {
    &&& unique_keys(mix_delegations)
    &&& unique_keys(reverse_mix_delegations)
    &&& forall|identity: Seq<char>| #[trigger] unique_keys(bucket(mix_delegations, identity))
    &&& forall|delegator: Seq<char>| #[trigger] unique_keys(bucket(reverse_mix_delegations, delegator))
    &&& forall|identity: Seq<char>, delegator: Seq<char>|
        #![trigger has_key(bucket(mix_delegations, identity), delegator)]
        #![trigger has_key(bucket(reverse_mix_delegations, delegator), identity)]
        has_key(bucket(mix_delegations, identity), delegator) == has_key(
            bucket(reverse_mix_delegations, delegator),
            identity,
        )
}

/// A response that reports the given attributes and makes no transfer.
pub open spec fn attributes_only(attributes: Seq<(Seq<char>, Seq<char>)>) -> ResponseView {
    ResponseView { attributes, messages: Seq::empty() }
}

/// The answer to a refused request: the error, the state unchanged.
pub open spec fn refused(
    v: MixnetView,
    e: ContractErrorView,
) -> (Result<ResponseView, ContractErrorView>, MixnetView) {
    (Err(e), v)
}

// ---------------------------------------------------------------- mixnodes

/// Why bonding `node` for `sender` with `funds` is refused, if it is.
pub open spec fn add_mixnode_error(
    v: MixnetView,
    sender: Seq<char>,
    funds: Seq<CoinView>,
    node: MixNodeView,
) -> Option<ContractErrorView> {
    if has_key(v.gateway_owners, sender) {
        Some(ContractErrorView::AlreadyOwnsGateway)
    } else if has_key(v.mixnode_owners, sender) && lookup(v.mixnode_owners, sender)->0
        != node.identity_key {
        Some(ContractErrorView::AlreadyOwnsMixnode)
    } else if has_key(v.mixnodes, node.identity_key) && lookup(v.mixnodes, node.identity_key)->0.owner
        != sender {
        Some(
            ContractErrorView::DuplicateMixnode {
                owner: lookup(v.mixnodes, node.identity_key)->0.owner,
            },
        )
    } else {
        spec_mixnode_bond_error(funds, v.state.params.minimum_mixnode_bond)
    }
}

/// The bond that bonding `node` creates.
pub open spec fn new_mixnode_bond(
    v: MixnetView,
    height: u64,
    sender: Seq<char>,
    funds: Seq<CoinView>,
    node: MixNodeView,
) -> MixNodeBondView {
    MixNodeBondView {
        bond_amount: funds[0],
        total_delegation: CoinView {
            denom: denom_text(),
            amount: v.delegated_total(node.identity_key) as u128,
        },
        owner: sender,
        layer: v.layers.spec_fewest(),
        block_height: height,
        mix_node: node,
    }
}

/// Bonding a mixnode does not overflow: where it succeeds, the delegations
/// already made to the node sum to a `u128`, and the chosen layer's count
/// can grow.
pub open spec fn add_mixnode_admissible(
    v: MixnetView,
    sender: Seq<char>,
    funds: Seq<CoinView>,
    node: MixNodeView,
) -> bool {
    add_mixnode_error(v, sender, funds, node) is None ==> {
        &&& v.delegated_total(node.identity_key) <= u128::MAX
        &&& v.layers.count(v.layers.spec_fewest()) < u64::MAX
    }
}

/// Bonding the mixnode `node` by `sender` at block `height`, paying `funds`.
/// A sender that owns a gateway, or owns another mixnode, is refused, and so
/// is a node that someone else bonded; the funds must be a sufficient bond.
/// The node joins the layer with the fewest nodes, carries over what was
/// already delegated to its identity, and the answer says whether the sender
/// had already bonded it.
pub open spec fn spec_try_add_mixnode(
    v: MixnetView,
    height: u64,
    sender: Seq<char>,
    funds: Seq<CoinView>,
    node: MixNodeView,
) -> (Result<ResponseView, ContractErrorView>, MixnetView) {
    match add_mixnode_error(v, sender, funds, node) {
        Some(e) => refused(v, e),
        None => {
            let bond = new_mixnode_bond(v, height, sender, funds, node);
            let was_present = has_key(v.mixnode_owners, sender);
            (
                Ok(attributes_only(seq![("overwritten"@, bool_text(was_present))])),
                MixnetView {
                    mixnodes: put(v.mixnodes, node.identity_key, bond),
                    mixnode_owners: put(v.mixnode_owners, sender, node.identity_key),
                    layers: v.layers.with_count(
                        bond.layer,
                        (v.layers.count(bond.layer) + 1) as u64,
                    ),
                    ..v
                },
            )
        },
    }
}

/// Unbonding the mixnode of `sender`: the bond is removed with its ownership,
/// its layer counts one node fewer, and the bonded funds go back to the
/// sender.  A sender without a mixnode is refused.
pub open spec fn spec_try_remove_mixnode(v: MixnetView, sender: Seq<char>) -> (
    Result<ResponseView, ContractErrorView>,
    MixnetView,
) {
    if !has_key(v.mixnode_owners, sender) {
        refused(v, ContractErrorView::NoAssociatedMixNodeBond { owner: sender })
    } else {
        let identity = lookup(v.mixnode_owners, sender)->0;
        let bond = lookup(v.mixnodes, identity)->0;
        (
            Ok(
                ResponseView {
                    attributes: seq![
                        ("action"@, "unbond"@),
                        (
                            "mixnode_bond"@,
                            bond_text(bond.bond_amount, bond.owner, bond.mix_node.identity_key),
                        ),
                    ],
                    messages: seq![
                        BankMsgView::Send { to_address: sender, amount: seq![bond.bond_amount] },
                    ],
                },
            ),
            MixnetView {
                mixnodes: delete(v.mixnodes, identity),
                mixnode_owners: delete(v.mixnode_owners, sender),
                layers: v.layers.with_count(bond.layer, (v.layers.count(bond.layer) - 1) as u64),
                ..v
            },
        )
    }
}

// ---------------------------------------------------------------- gateways

/// Why bonding `gateway` for `sender` with `funds` is refused, if it is.
pub open spec fn add_gateway_error(
    v: MixnetView,
    sender: Seq<char>,
    funds: Seq<CoinView>,
    gateway: GatewayView,
) -> Option<ContractErrorView> {
    if has_key(v.mixnode_owners, sender) {
        Some(ContractErrorView::AlreadyOwnsMixnode)
    } else if has_key(v.gateway_owners, sender) && lookup(v.gateway_owners, sender)->0
        != gateway.identity_key {
        Some(ContractErrorView::AlreadyOwnsGateway)
    } else if has_key(v.gateways, gateway.identity_key) && lookup(
        v.gateways,
        gateway.identity_key,
    )->0.owner != sender {
        Some(
            ContractErrorView::DuplicateGateway {
                owner: lookup(v.gateways, gateway.identity_key)->0.owner,
            },
        )
    } else {
        spec_gateway_bond_error(funds, v.state.params.minimum_gateway_bond)
    }
}

/// Bonding a gateway does not overflow: where it succeeds, the gateway
/// count can grow.
pub open spec fn add_gateway_admissible(
    v: MixnetView,
    sender: Seq<char>,
    funds: Seq<CoinView>,
    gateway: GatewayView,
) -> bool {
    add_gateway_error(v, sender, funds, gateway) is None ==> v.layers.gateways < u64::MAX
}

/// Bonding the gateway `gateway` by `sender` at block `height`, paying
/// `funds`; refused as for mixnodes, with the roles of mixnodes and gateways
/// swapped.
pub open spec fn spec_try_add_gateway(
    v: MixnetView,
    height: u64,
    sender: Seq<char>,
    funds: Seq<CoinView>,
    gateway: GatewayView,
) -> (Result<ResponseView, ContractErrorView>, MixnetView) {
    match add_gateway_error(v, sender, funds, gateway) {
        Some(e) => refused(v, e),
        None => {
            let bond = GatewayBondView {
                bond_amount: funds[0],
                owner: sender,
                block_height: height,
                gateway,
            };
            let was_present = has_key(v.gateway_owners, sender);
            (
                Ok(attributes_only(seq![("overwritten"@, bool_text(was_present))])),
                MixnetView {
                    gateways: put(v.gateways, gateway.identity_key, bond),
                    gateway_owners: put(v.gateway_owners, sender, gateway.identity_key),
                    layers: LayerDistribution {
                        gateways: (v.layers.gateways + 1) as u64,
                        ..v.layers
                    },
                    ..v
                },
            )
        },
    }
}

/// Unbonding the gateway of `sender`.
pub open spec fn spec_try_remove_gateway(v: MixnetView, sender: Seq<char>) -> (
    Result<ResponseView, ContractErrorView>,
    MixnetView,
) {
    if !has_key(v.gateway_owners, sender) {
        refused(v, ContractErrorView::NoAssociatedGatewayBond { owner: sender })
    } else {
        let identity = lookup(v.gateway_owners, sender)->0;
        let bond = lookup(v.gateways, identity)->0;
        (
            Ok(
                ResponseView {
                    attributes: seq![
                        ("action"@, "unbond"@),
                        ("address"@, sender),
                        (
                            "gateway_bond"@,
                            bond_text(bond.bond_amount, bond.owner, bond.gateway.identity_key),
                        ),
                    ],
                    messages: seq![
                        BankMsgView::Send { to_address: sender, amount: seq![bond.bond_amount] },
                    ],
                },
            ),
            MixnetView {
                gateways: delete(v.gateways, identity),
                gateway_owners: delete(v.gateway_owners, sender),
                layers: LayerDistribution { gateways: (v.layers.gateways - 1) as u64, ..v.layers },
                ..v
            },
        )
    }
}

// ---------------------------------------------------------------- parameters

/// Why changing the parameters to `params` at the request of `sender` is
/// refused, if it is.
pub open spec fn update_state_params_error(
    v: MixnetView,
    sender: Seq<char>,
    params: StateParams,
) -> Option<ContractErrorView> {
    if sender != v.state.owner {
        Some(ContractErrorView::Unauthorized)
    } else if params.mixnode_bond_reward_rate.atomics < DECIMAL_FRACTIONAL {
        Some(ContractErrorView::DecreasingMixnodeBondReward)
    } else if params.mixnode_delegation_reward_rate.atomics < DECIMAL_FRACTIONAL {
        Some(ContractErrorView::DecreasingMixnodeDelegationReward)
    } else {
        None
    }
}

/// Whether the per-epoch bond reward is computed anew: the epoch length or
/// the bond reward rate changes.
pub open spec fn bond_reward_recomputed(old_params: StateParams, params: StateParams) -> bool {
    old_params.epoch_length != params.epoch_length || old_params.mixnode_bond_reward_rate
        != params.mixnode_bond_reward_rate
}

/// Whether the per-epoch delegation reward is computed anew.
pub open spec fn delegation_reward_recomputed(old_params: StateParams, params: StateParams) -> bool {
    old_params.epoch_length != params.epoch_length || old_params.mixnode_delegation_reward_rate
        != params.mixnode_delegation_reward_rate
}

/// Changing the parameters does not overflow: the per-epoch rates that are
/// computed anew fit in a `Decimal`.
pub open spec fn update_state_params_admissible(
    v: MixnetView,
    sender: Seq<char>,
    params: StateParams,
) -> bool {
    update_state_params_error(v, sender, params) is None ==> {
        &&& bond_reward_recomputed(v.state.params, params) ==> spec_epoch_reward_rate(
            params.epoch_length,
            params.mixnode_bond_reward_rate,
        ) <= u128::MAX
        &&& delegation_reward_recomputed(v.state.params, params) ==> spec_epoch_reward_rate(
            params.epoch_length,
            params.mixnode_delegation_reward_rate,
        ) <= u128::MAX
    }
}

/// Changing the parameters: only the owner may, and neither annual reward
/// rate may fall below one.  The per-epoch rates are computed anew from the
/// new parameters where the epoch length or their annual rate changed.
pub open spec fn spec_try_update_state_params(
    v: MixnetView,
    sender: Seq<char>,
    params: StateParams,
) -> (Result<ResponseView, ContractErrorView>, MixnetView) {
    match update_state_params_error(v, sender, params) {
        Some(e) => refused(v, e),
        None => {
            let bond_reward = if bond_reward_recomputed(v.state.params, params) {
                Decimal {
                    atomics: spec_epoch_reward_rate(
                        params.epoch_length,
                        params.mixnode_bond_reward_rate,
                    ) as u128,
                }
            } else {
                v.state.mixnode_epoch_bond_reward
            };
            let delegation_reward = if delegation_reward_recomputed(v.state.params, params) {
                Decimal {
                    atomics: spec_epoch_reward_rate(
                        params.epoch_length,
                        params.mixnode_delegation_reward_rate,
                    ) as u128,
                }
            } else {
                v.state.mixnode_epoch_delegation_reward
            };
            (
                Ok(attributes_only(Seq::empty())),
                MixnetView {
                    state: StateView {
                        params,
                        mixnode_epoch_bond_reward: bond_reward,
                        mixnode_epoch_delegation_reward: delegation_reward,
                        ..v.state
                    },
                    ..v
                },
            )
        },
    }
}

// ---------------------------------------------------------------- rewarding

/// Whether a stake made at `block_height` is old enough to be rewarded at `height`.
pub open spec fn old_enough(block_height: u64, height: u64) -> bool {
    block_height + MINIMUM_BLOCK_AGE_FOR_REWARDING <= height
}

/// What a delegation earns at `height` with the scaled rate `rate`.
pub open spec fn delegation_reward(d: RawDelegationData, rate: Decimal, height: u64) -> int {
    if old_enough(d.block_height, height) {
        spec_mul_decimal(d.amount, rate)
    } else {
        0
    }
}

/// A delegation after rewarding.
pub open spec fn rewarded_delegation(d: RawDelegationData, rate: Decimal, height: u64) -> RawDelegationData {
    RawDelegationData {
        amount: (d.amount + delegation_reward(d, rate, height)) as u128,
        block_height: d.block_height,
    }
}

/// The delegations of a mixnode after rewarding.
pub open spec fn rewarded_delegations(
    s: Seq<(Seq<char>, RawDelegationData)>,
    rate: Decimal,
    height: u64,
) -> Seq<(Seq<char>, RawDelegationData)> {
    s.map_values(
        |e: (Seq<char>, RawDelegationData)| (e.0, rewarded_delegation(e.1, rate, height)),
    )
}

/// What all delegations of a mixnode earn together.
pub open spec fn delegations_reward(
    s: Seq<(Seq<char>, RawDelegationData)>,
    rate: Decimal,
    height: u64,
) -> int {
    sum_of(s, delegation_reward_fn(rate, height))
}

/// No delegation earns a negative reward.
pub proof fn lemma_delegation_reward_nonneg(rate: Decimal, height: u64)
    ensures
        forall|d: RawDelegationData| #[trigger] delegation_reward_fn(rate, height)(d) >= 0,
{
    assert forall|d: RawDelegationData| #[trigger] delegation_reward_fn(rate, height)(d) >= 0 by {
        if old_enough(d.block_height, height) {
            assert((d.amount as int * rate.atomics as int) / (DECIMAL_FRACTIONAL as int) >= 0)
                by (nonlinear_arith);
        }
    }
}

/// `delegation_reward` as a weight.
pub open spec fn delegation_reward_fn(rate: Decimal, height: u64) -> spec_fn(RawDelegationData) -> int {
    |d: RawDelegationData| delegation_reward(d, rate, height)
}

/// Rewarding the delegations of a mixnode does not overflow: no block
/// height overflows when the age is checked, and each rewarded amount and
/// the total reward fit in a `u128`.
pub open spec fn delegations_reward_admissible(
    s: Seq<(Seq<char>, RawDelegationData)>,
    rate: Decimal,
    height: u64,
) -> bool {
    &&& forall|i: int|
        0 <= i < s.len() ==> {
            &&& (#[trigger] s[i]).1.block_height + MINIMUM_BLOCK_AGE_FOR_REWARDING <= u64::MAX
            &&& s[i].1.amount + delegation_reward(s[i].1, rate, height) <= u128::MAX
        }
    &&& delegations_reward(s, rate, height) <= u128::MAX
}

/// What the bond earns at `height` with the scaled rate `rate`.
pub open spec fn bond_reward(bond: MixNodeBondView, rate: Decimal, height: u64) -> int {
    if old_enough(bond.block_height, height) {
        spec_mul_decimal(bond.bond_amount.amount, rate)
    } else {
        0
    }
}

/// A bond after rewarding: its amount grows by `node_reward`, its total
/// delegation by `delegation_reward`.
pub open spec fn rewarded_bond(bond: MixNodeBondView, node_reward: int, delegation_reward: int) -> MixNodeBondView {
    MixNodeBondView {
        bond_amount: CoinView {
            amount: (bond.bond_amount.amount + node_reward) as u128,
            ..bond.bond_amount
        },
        total_delegation: CoinView {
            amount: (bond.total_delegation.amount + delegation_reward) as u128,
            ..bond.total_delegation
        },
        ..bond
    }
}

/// Rewarding does not overflow: where the network monitor rewards a bonded
/// mixnode with an uptime of at most 100, its delegations can be rewarded,
/// its block height plus the minimum age fits in a `u64`, and its bond and
/// total delegation can grow by what they earn.
pub open spec fn reward_mixnode_admissible(
    v: MixnetView,
    height: u64,
    sender: Seq<char>,
    identity: Seq<char>,
    uptime: u32,
) -> bool {
    (sender == v.state.network_monitor_address && 0 < uptime <= 100 && has_key(
        v.mixnodes,
        identity,
    )) ==> {
        let bond = lookup(v.mixnodes, identity)->0;
        let bond_rate = spec_scale_reward_by_uptime(v.state.mixnode_epoch_bond_reward, uptime)->Ok_0;
        let delegation_rate = spec_scale_reward_by_uptime(
            v.state.mixnode_epoch_delegation_reward,
            uptime,
        )->Ok_0;
        let delegations = v.delegations_of(identity);
        &&& delegations_reward_admissible(delegations, delegation_rate, height)
        &&& bond.block_height + MINIMUM_BLOCK_AGE_FOR_REWARDING <= u64::MAX
        &&& bond.bond_amount.amount + bond_reward(bond, bond_rate, height) <= u128::MAX
        &&& old_enough(bond.block_height, height) ==> bond.total_delegation.amount
            + delegations_reward(delegations, delegation_rate, height) <= u128::MAX
    }
}

/// Rewarding the mixnode `identity` for an epoch in which it was up `uptime`
/// percent of the time.  Only the network monitor may reward.  An uptime of
/// zero rewards nobody; an unknown node is reported as not found.  Otherwise
/// both per-epoch rates are scaled by the uptime; every delegation old enough
/// grows by what its amount earns; and where the bond itself is old enough,
/// it grows by what it earns and its total delegation by what the
/// delegations earned.  The answer reports both increases.
pub open spec fn spec_try_reward_mixnode(
    v: MixnetView,
    height: u64,
    sender: Seq<char>,
    identity: Seq<char>,
    uptime: u32,
) -> (Result<ResponseView, ContractErrorView>, MixnetView) {
    if sender != v.state.network_monitor_address {
        refused(v, ContractErrorView::Unauthorized)
    } else if uptime == 0 {
        (
            Ok(
                attributes_only(
                    seq![
                        ("bond increase"@, decimal_text(0)),
                        ("total delegation increase"@, decimal_text(0)),
                    ],
                ),
            ),
            v,
        )
    } else if !has_key(v.mixnodes, identity) {
        (Ok(attributes_only(seq![("result"@, "bond not found"@)])), v)
    } else {
        match spec_scale_reward_by_uptime(v.state.mixnode_epoch_bond_reward, uptime) {
            Err(e) => refused(v, e),
            Ok(bond_rate) => {
                let delegation_rate = spec_scale_reward_by_uptime(
                    v.state.mixnode_epoch_delegation_reward,
                    uptime,
                )->Ok_0;
                let bond = lookup(v.mixnodes, identity)->0;
                let delegations = v.delegations_of(identity);
                let total_delegation_reward = delegations_reward(
                    delegations,
                    delegation_rate,
                    height,
                );
                let node_reward = bond_reward(bond, bond_rate, height);
                let mix_delegations = if has_key(v.mix_delegations, identity) {
                    put(
                        v.mix_delegations,
                        identity,
                        rewarded_delegations(delegations, delegation_rate, height),
                    )
                } else {
                    v.mix_delegations
                };
                let mixnodes = if old_enough(bond.block_height, height) {
                    put(
                        v.mixnodes,
                        identity,
                        rewarded_bond(bond, node_reward, total_delegation_reward),
                    )
                } else {
                    v.mixnodes
                };
                (
                    Ok(
                        attributes_only(
                            seq![
                                ("bond increase"@, decimal_text(node_reward as nat)),
                                (
                                    "total delegation increase"@,
                                    decimal_text(total_delegation_reward as nat),
                                ),
                            ],
                        ),
                    ),
                    MixnetView { mixnodes, mix_delegations, ..v },
                )
            },
        }
    }
}

// ---------------------------------------------------------------- delegations

/// A bond whose total delegation is set to `amount`.
pub open spec fn with_total_delegation(bond: MixNodeBondView, amount: int) -> MixNodeBondView {
    MixNodeBondView {
        total_delegation: CoinView { amount: amount as u128, ..bond.total_delegation },
        ..bond
    }
}

/// Why delegating `funds` to the mixnode `identity` is refused, if it is.
pub open spec fn delegate_error(v: MixnetView, funds: Seq<CoinView>, identity: Seq<char>) -> Option<
    ContractErrorView,
> {
    match spec_delegation_stake_error(funds) {
        Some(e) => Some(e),
        None => if !has_key(v.mixnodes, identity) {
            Some(ContractErrorView::MixNodeBondNotFound { identity })
        } else {
            None
        },
    }
}

/// Delegating does not overflow: where it succeeds, the node's total
/// delegation and the sender's earlier delegation to it can grow by the
/// amount sent.
pub open spec fn delegate_admissible(
    v: MixnetView,
    sender: Seq<char>,
    funds: Seq<CoinView>,
    identity: Seq<char>,
) -> bool {
    delegate_error(v, funds, identity) is None ==> {
        &&& lookup(v.mixnodes, identity)->0.total_delegation.amount + funds[0].amount <= u128::MAX
        &&& has_key(v.delegations_of(identity), sender) ==> lookup(
            v.delegations_of(identity),
            sender,
        )->0.amount + funds[0].amount <= u128::MAX
    }
}

/// Delegating `funds` by `sender` to the bonded mixnode `identity` at block
/// `height`.  The node's total delegation grows by the amount; the sender's
/// delegation to the node grows by it (or starts with it) and is dated to
/// `height`; the delegation is recorded under the sender too.
pub open spec fn spec_try_delegate_to_mixnode(
    v: MixnetView,
    height: u64,
    sender: Seq<char>,
    funds: Seq<CoinView>,
    identity: Seq<char>,
) -> (Result<ResponseView, ContractErrorView>, MixnetView) {
    match delegate_error(v, funds, identity) {
        Some(e) => refused(v, e),
        None => {
            let amount = funds[0].amount;
            let bond = lookup(v.mixnodes, identity)->0;
            let new_amount = match lookup(v.delegations_of(identity), sender) {
                Some(d) => d.amount + amount,
                None => amount as int,
            };
            (
                Ok(attributes_only(Seq::empty())),
                MixnetView {
                    mixnodes: put(
                        v.mixnodes,
                        identity,
                        with_total_delegation(bond, bond.total_delegation.amount + amount),
                    ),
                    mix_delegations: put_in_bucket(
                        v.mix_delegations,
                        identity,
                        sender,
                        RawDelegationData { amount: new_amount as u128, block_height: height },
                    ),
                    reverse_mix_delegations: put_in_bucket(
                        v.reverse_mix_delegations,
                        sender,
                        identity,
                        (),
                    ),
                    ..v
                },
            )
        },
    }
}

/// Undelegating does not underflow: where the sender's delegation exists and
/// the node is still bonded, the node's total delegation covers it.
pub open spec fn remove_delegation_admissible(
    v: MixnetView,
    sender: Seq<char>,
    identity: Seq<char>,
) -> bool {
    (has_key(v.delegations_of(identity), sender) && has_key(v.mixnodes, identity))
        ==> lookup(v.mixnodes, identity)->0.total_delegation.amount >= lookup(
        v.delegations_of(identity),
        sender,
    )->0.amount
}

/// Withdrawing the delegation of `sender` from the mixnode `identity`: the
/// delegation is removed from both records, its amount goes back to the
/// sender, and where the node is still bonded its total delegation shrinks by
/// that amount.  A sender without such a delegation is refused.
pub open spec fn spec_try_remove_delegation_from_mixnode(
    v: MixnetView,
    sender: Seq<char>,
    identity: Seq<char>,
) -> (Result<ResponseView, ContractErrorView>, MixnetView) {
    if !has_key(v.delegations_of(identity), sender) {
        refused(
            v,
            ContractErrorView::NoMixnodeDelegationFound { identity, address: sender },
        )
    } else {
        let delegation = lookup(v.delegations_of(identity), sender)->0;
        let mixnodes = if has_key(v.mixnodes, identity) {
            let bond = lookup(v.mixnodes, identity)->0;
            put(
                v.mixnodes,
                identity,
                with_total_delegation(bond, bond.total_delegation.amount - delegation.amount),
            )
        } else {
            v.mixnodes
        };
        (
            Ok(
                ResponseView {
                    attributes: Seq::empty(),
                    messages: seq![
                        BankMsgView::Send {
                            to_address: sender,
                            amount: seq![CoinView { denom: denom_text(), amount: delegation.amount }],
                        },
                    ],
                },
            ),
            MixnetView {
                mixnodes,
                mix_delegations: delete_in_bucket(v.mix_delegations, identity, sender),
                reverse_mix_delegations: delete_in_bucket(
                    v.reverse_mix_delegations,
                    sender,
                    identity,
                ),
                ..v
            },
        )
    }
}

} // verus!
