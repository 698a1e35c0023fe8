//! The contract's requests: bonding and unbonding mixnodes and gateways,
//! changing the parameters, rewarding mixnodes, delegating and withdrawing
//! delegations.  Each request does to the contract's stores what its
//! counterpart in `model` says, and keeps the state's invariant.
use vstd::prelude::*;
use crate::laws::{
    lemma_add_gateway_keeps_wf, lemma_add_mixnode_keeps_wf, lemma_bonded_gateway_counted,
    lemma_bonded_mixnode_layer_counted, lemma_delegate_keeps_wf, lemma_remove_delegation_keeps_wf,
    lemma_remove_gateway_keeps_wf, lemma_remove_mixnode_keeps_wf, lemma_reward_mixnode_keeps_wf,
    lemma_update_state_params_keeps_wf,
};
use crate::model::{
    add_gateway_admissible, add_mixnode_admissible, delegate_admissible, delegation_amount,
    delegation_reward_fn, delegations_reward, delegations_reward_admissible,
    lemma_delegation_reward_nonneg,
    remove_delegation_admissible, reward_mixnode_admissible, rewarded_delegation,
    rewarded_delegations, spec_try_add_gateway, spec_try_add_mixnode, spec_try_delegate_to_mixnode,
    spec_try_remove_delegation_from_mixnode, spec_try_remove_gateway, spec_try_remove_mixnode,
    spec_try_reward_mixnode, spec_try_update_state_params, update_state_params_admissible,
    MixnetView,
};
use crate::rewards::{
    calculate_epoch_reward_rate, epoch_reward_rate_computable, mul_by_decimal,
    scale_reward_by_uptime, spec_epoch_reward_rate,
};
use crate::store::{
    bucket, has_key, lemma_sum_take, lemma_sum_take_le, put, sum_of, unique_keys,
    KeyedStore,
};
use crate::text::{amount_text, bool_to_string};
use crate::types::{
    coins_view, denom_text, BankMsg, Coin, CoinView, ContractError, ContractErrorView, Decimal,
    Gateway, GatewayBond, LayerDistribution, MixNode, MixNodeBond, RawDelegationData, Response,
    ResponseView, State, StateParams, StateView,
    MINIMUM_BLOCK_AGE_FOR_REWARDING,
};
use crate::validation::{validate_delegation_stake, validate_gateway_bond, validate_mixnode_bond};

verus! {

/// The block a request is executed in.
pub struct Env {
    pub block_height: u64,
}

/// Who sent a request, and the funds sent with it.
pub struct MessageInfo {
    pub sender: String,
    pub funds: Vec<Coin>,
}

/// The contract's stores.
pub struct MixnetContract {
    pub state: State,
    pub layers: LayerDistribution,
    pub mixnodes: KeyedStore<MixNodeBond>,
    pub mixnode_owners: KeyedStore<String>,
    pub gateways: KeyedStore<GatewayBond>,
    pub gateway_owners: KeyedStore<String>,
    pub mix_delegations: KeyedStore<KeyedStore<RawDelegationData>>,
    pub reverse_mix_delegations: KeyedStore<KeyedStore<()>>,
}

impl View for MixnetContract {
    type V = MixnetView;

    open spec fn view(&self) -> MixnetView {
        MixnetView {
            state: self.state@,
            layers: self.layers,
            mixnodes: self.mixnodes@,
            mixnode_owners: self.mixnode_owners@,
            gateways: self.gateways@,
            gateway_owners: self.gateway_owners@,
            mix_delegations: self.mix_delegations@,
            reverse_mix_delegations: self.reverse_mix_delegations@,
        }
    }
}

/// The answer of a request, by views.
pub open spec fn result_view(r: Result<Response, ContractError>) -> Result<
    ResponseView,
    ContractErrorView,
> {
    match r {
        Ok(response) => Ok(response@),
        Err(e) => Err(e@),
    }
}

/// The sum of the delegations in a bucket, in the contract's denomination.
pub fn total_delegations(delegations: &KeyedStore<RawDelegationData>) -> (total: Coin)
    requires
        sum_of(delegations@, delegation_amount()) <= u128::MAX,
    ensures
        total@ == (CoinView {
            denom: denom_text(),
            amount: sum_of(delegations@, delegation_amount()) as u128,
        }),
{
    let ghost s = delegations@;
    let mut total: u128 = 0;
    let mut i: usize = 0;
    while i < delegations.len()
        invariant
            s == delegations@,
            i <= s.len(),
            total == sum_of(s.take(i as int), delegation_amount()),
            sum_of(s, delegation_amount()) <= u128::MAX,
        decreases s.len() - i,
    {
        proof {
            lemma_sum_take(s, i as int, delegation_amount());
            lemma_sum_take_le(s, i as int + 1, delegation_amount());
        }
        total = total + delegations.value_at(i).amount;
        i = i + 1;
    }
    assert(s.take(i as int) =~= s);
    Coin::new(total)
}

/// Rewards the delegations made to the mixnode `mix_identity`: each one
/// made at least the minimum age before `reward_blockstamp` grows by what
/// its amount earns at `scaled_reward_rate`.  Answers the total reward.
pub fn increase_mix_delegated_stakes(
    mix_delegations: &mut KeyedStore<KeyedStore<RawDelegationData>>,
    mix_identity: &String,
    scaled_reward_rate: Decimal,
    reward_blockstamp: u64,
) -> (total: u128)
    requires
        old(mix_delegations).nested_wf(),
        delegations_reward_admissible(
            bucket(old(mix_delegations)@, mix_identity@),
            scaled_reward_rate,
            reward_blockstamp,
        ),
    ensures
        total == delegations_reward(
            bucket(old(mix_delegations)@, mix_identity@),
            scaled_reward_rate,
            reward_blockstamp,
        ),
        final(mix_delegations)@ == (if has_key(old(mix_delegations)@, mix_identity@) {
            put(
                old(mix_delegations)@,
                mix_identity@,
                rewarded_delegations(
                    bucket(old(mix_delegations)@, mix_identity@),
                    scaled_reward_rate,
                    reward_blockstamp,
                ),
            )
        } else {
            old(mix_delegations)@
        }),
        final(mix_delegations).nested_wf(),
{
    let ghost rate = scaled_reward_rate;
    let ghost height = reward_blockstamp;
    let ghost f = delegation_reward_fn(rate, height);
    match mix_delegations.find(mix_identity) {
        None => 0,
        Some(i) => {
            let (key, mut delegations) = mix_delegations.take_at(i);
            let ghost s = delegations@;
            assert(s == bucket(old(mix_delegations)@, mix_identity@));
            proof {
                lemma_delegation_reward_nonneg(rate, height);
            }
            let mut total: u128 = 0;
            let mut j: usize = 0;
            while j < delegations.len()
                invariant
                    delegations@.len() == s.len(),
                    j <= s.len(),
                    forall|k: int|
                        0 <= k < j ==> #[trigger] delegations@[k] == (
                            s[k].0,
                            rewarded_delegation(s[k].1, rate, height),
                        ),
                    forall|k: int| j <= k < s.len() ==> #[trigger] delegations@[k] == s[k],
                    total == sum_of(s.take(j as int), f),
                    delegations_reward_admissible(s, rate, height),
                    forall|d: RawDelegationData| #[trigger] f(d) >= 0,
                    rate == scaled_reward_rate,
                    height == reward_blockstamp,
                    f == delegation_reward_fn(rate, height),
                decreases s.len() - j,
            {
                let d = *delegations.value_at(j);
                assert(d == s[j as int].1);
                proof {
                    lemma_sum_take(s, j as int, f);
                    lemma_sum_take_le(s, j as int + 1, f);
                }
                if d.block_height + MINIMUM_BLOCK_AGE_FOR_REWARDING <= reward_blockstamp {
                    let reward = mul_by_decimal(d.amount, scaled_reward_rate);
                    delegations.set_value_at(
                        j,
                        RawDelegationData::new(d.amount + reward, d.block_height),
                    );
                    total = total + reward;
                }
                j = j + 1;
            }
            assert(s.take(j as int) =~= s);
            assert(delegations@ =~= rewarded_delegations(s, rate, height));
            proof {
                crate::store::lemma_same_keys(s, delegations@);
            }
            mix_delegations.put_back_at(i, key, delegations);
            assert(mix_delegations@ =~= old(mix_delegations)@.update(
                i as int,
                (mix_identity@, rewarded_delegations(s, rate, height)),
            ));
            proof {
                crate::store::lemma_put(
                    old(mix_delegations)@,
                    mix_identity@,
                    rewarded_delegations(s, rate, height),
                );
                assert forall|k: Seq<char>| #[trigger]
                    unique_keys(bucket(mix_delegations@, k)) by {
                    if k != mix_identity@ {
                        assert(bucket(mix_delegations@, k) == bucket(old(mix_delegations)@, k));
                    }
                }
            }
            total
        },
    }
}

impl MixnetContract {
    /// A contract owned by `owner`, rewarded by `network_monitor_address`,
    /// with the parameters `params` and nothing bonded or delegated yet.  The
    /// per-epoch reward rates are derived from the annual ones.
    pub fn new(owner: String, network_monitor_address: String, params: StateParams) -> (c: Self)
        requires
            epoch_reward_rate_computable(params.epoch_length, params.mixnode_bond_reward_rate),
            epoch_reward_rate_computable(
                params.epoch_length,
                params.mixnode_delegation_reward_rate,
            ),
        ensures
            c@.state == (StateView {
                owner: owner@,
                network_monitor_address: network_monitor_address@,
                params,
                mixnode_epoch_bond_reward: Decimal {
                    atomics: spec_epoch_reward_rate(
                        params.epoch_length,
                        params.mixnode_bond_reward_rate,
                    ) as u128,
                },
                mixnode_epoch_delegation_reward: Decimal {
                    atomics: spec_epoch_reward_rate(
                        params.epoch_length,
                        params.mixnode_delegation_reward_rate,
                    ) as u128,
                },
            }),
            c@.layers == (LayerDistribution { gateways: 0, layer1: 0, layer2: 0, layer3: 0 }),
            c@.mixnodes.len() == 0,
            c@.mixnode_owners.len() == 0,
            c@.gateways.len() == 0,
            c@.gateway_owners.len() == 0,
            c@.mix_delegations.len() == 0,
            c@.reverse_mix_delegations.len() == 0,
            c@.wf(),
    {
        let mixnode_epoch_bond_reward = calculate_epoch_reward_rate(
            params.epoch_length,
            params.mixnode_bond_reward_rate,
        );
        let mixnode_epoch_delegation_reward = calculate_epoch_reward_rate(
            params.epoch_length,
            params.mixnode_delegation_reward_rate,
        );
        let c = MixnetContract {
            state: State {
                owner,
                network_monitor_address,
                params,
                mixnode_epoch_bond_reward,
                mixnode_epoch_delegation_reward,
            },
            layers: LayerDistribution { gateways: 0, layer1: 0, layer2: 0, layer3: 0 },
            mixnodes: KeyedStore::new(),
            mixnode_owners: KeyedStore::new(),
            gateways: KeyedStore::new(),
            gateway_owners: KeyedStore::new(),
            mix_delegations: KeyedStore::new(),
            reverse_mix_delegations: KeyedStore::new(),
        };
        assert forall|k: Seq<char>| #[trigger] unique_keys(bucket(c.mix_delegations@, k)) by {}
        assert forall|k: Seq<char>| #[trigger] unique_keys(bucket(c.reverse_mix_delegations@, k)) by {}
        c
    }

    /// The invariant of the stores, read from the state's invariant.
    proof fn lemma_stores_wf(&self)
        requires
            self@.wf(),
        ensures
            self.mixnodes.wf(),
            self.mixnode_owners.wf(),
            self.gateways.wf(),
            self.gateway_owners.wf(),
            self.mix_delegations.nested_wf(),
            self.reverse_mix_delegations.nested_wf(),
    {
    }

    /// Bonds the mixnode `mix_node` for the sender, paying the funds sent:
    /// see `spec_try_add_mixnode`.
    pub fn try_add_mixnode(&mut self, env: &Env, info: &MessageInfo, mix_node: MixNode) -> (r:
        Result<Response, ContractError>)
        requires
            old(self)@.wf(),
            add_mixnode_admissible(old(self)@, info.sender@, coins_view(info.funds@), mix_node@),
        ensures
            (result_view(r), final(self)@) == spec_try_add_mixnode(
                old(self)@,
                env.block_height,
                info.sender@,
                coins_view(info.funds@),
                mix_node@,
            ),
            final(self)@.wf(),
    {
        proof {
            self.lemma_stores_wf();
            lemma_add_mixnode_keeps_wf(
                self@,
                env.block_height,
                info.sender@,
                coins_view(info.funds@),
                mix_node@,
            );
        }
        // whoever owns a gateway bonds no mixnode
        if self.gateway_owners.contains_key(&info.sender) {
            return Err(ContractError::AlreadyOwnsGateway);
        }
        // whoever owns a mixnode bonds no other one
        let mut was_present = false;
        match self.mixnode_owners.get(&info.sender) {
            Some(existing_node) => {
                if !(*existing_node == mix_node.identity_key) {
                    return Err(ContractError::AlreadyOwnsMixnode);
                }
                was_present = true;
            },
            None => {},
        }
        // nobody bonds a node that someone else bonded
        match self.mixnodes.get(&mix_node.identity_key) {
            Some(existing_bond) => {
                if !(existing_bond.owner == info.sender) {
                    return Err(ContractError::DuplicateMixnode { owner: existing_bond.owner.clone() });
                }
            },
            None => {},
        }
        let minimum_bond = self.state.params.minimum_mixnode_bond;
        match validate_mixnode_bond(info.funds.as_slice(), minimum_bond) {
            Ok(()) => {},
            Err(e) => {
                return Err(e);
            },
        }
        let layer = self.layers.choose_with_fewest();
        // what was delegated to this identity before stays with it
        let total_delegation = match self.mix_delegations.get(&mix_node.identity_key) {
            Some(delegations) => total_delegations(delegations),
            None => Coin::new(0),
        };
        let identity = mix_node.identity_key.clone();
        let bond = MixNodeBond {
            bond_amount: info.funds[0].duplicate(),
            total_delegation,
            owner: info.sender.clone(),
            layer,
            block_height: env.block_height,
            mix_node,
        };
        self.mixnodes.insert(identity.clone(), bond);
        self.mixnode_owners.insert(info.sender.clone(), identity);
        self.layers.increment(layer);
        let mut response = Response::new();
        response.add_attribute("overwritten", bool_to_string(was_present));
        Ok(response)
    }

    /// Unbonds the sender's mixnode and sends its bond back: see
    /// `spec_try_remove_mixnode`.
    pub fn try_remove_mixnode(&mut self, info: &MessageInfo) -> (r: Result<Response, ContractError>)
        requires
            old(self)@.wf(),
        ensures
            (result_view(r), final(self)@) == spec_try_remove_mixnode(old(self)@, info.sender@),
            final(self)@.wf(),
    {
        proof {
            self.lemma_stores_wf();
            lemma_remove_mixnode_keeps_wf(self@, info.sender@);
        }
        let mix_identity = match self.mixnode_owners.get(&info.sender) {
            Some(identity) => identity.clone(),
            None => {
                return Err(ContractError::NoAssociatedMixNodeBond { owner: info.sender.clone() });
            },
        };
        proof {
            lemma_bonded_mixnode_layer_counted(self@, mix_identity@);
        }
        // the owner's identity names a bonded mixnode
        let mixnode_bond = match self.mixnodes.remove(&mix_identity) {
            Some(bond) => bond,
            None => {
                assert(false);
                return Err(ContractError::NoAssociatedMixNodeBond { owner: info.sender.clone() });
            },
        };
        let refund = vec![mixnode_bond.bond_amount.duplicate()];
        assert(coins_view(refund@) =~= seq![mixnode_bond.bond_amount@]);
        let return_tokens = BankMsg::Send { to_address: info.sender.clone(), amount: refund };
        self.mixnode_owners.remove(&info.sender);
        self.layers.decrement(mixnode_bond.layer);
        let mut response = Response::new();
        response.add_attribute("action", String::from_str("unbond"));
        response.add_attribute("mixnode_bond", mixnode_bond.to_string());
        response.add_message(return_tokens);
        let ghost expected = spec_try_remove_mixnode(old(self)@, info.sender@);
        assert(response@.attributes =~= expected.0->Ok_0.attributes);
        assert(response@.messages =~= expected.0->Ok_0.messages);
        Ok(response)
    }

    /// Bonds the gateway `gateway` for the sender, paying the funds sent:
    /// see `spec_try_add_gateway`.
    pub fn try_add_gateway(&mut self, env: &Env, info: &MessageInfo, gateway: Gateway) -> (r:
        Result<Response, ContractError>)
        requires
            old(self)@.wf(),
            add_gateway_admissible(old(self)@, info.sender@, coins_view(info.funds@), gateway@),
        ensures
            (result_view(r), final(self)@) == spec_try_add_gateway(
                old(self)@,
                env.block_height,
                info.sender@,
                coins_view(info.funds@),
                gateway@,
            ),
            final(self)@.wf(),
    {
        proof {
            self.lemma_stores_wf();
            lemma_add_gateway_keeps_wf(
                self@,
                env.block_height,
                info.sender@,
                coins_view(info.funds@),
                gateway@,
            );
        }
        // whoever owns a mixnode bonds no gateway
        if self.mixnode_owners.contains_key(&info.sender) {
            return Err(ContractError::AlreadyOwnsMixnode);
        }
        // whoever owns a gateway bonds no other one
        let mut was_present = false;
        match self.gateway_owners.get(&info.sender) {
            Some(existing_node) => {
                if !(*existing_node == gateway.identity_key) {
                    return Err(ContractError::AlreadyOwnsGateway);
                }
                was_present = true;
            },
            None => {},
        }
        // nobody bonds a gateway that someone else bonded
        match self.gateways.get(&gateway.identity_key) {
            Some(existing_bond) => {
                if !(existing_bond.owner == info.sender) {
                    return Err(ContractError::DuplicateGateway { owner: existing_bond.owner.clone() });
                }
            },
            None => {},
        }
        let minimum_bond = self.state.params.minimum_gateway_bond;
        match validate_gateway_bond(info.funds.as_slice(), minimum_bond) {
            Ok(()) => {},
            Err(e) => {
                return Err(e);
            },
        }
        let identity = gateway.identity_key.clone();
        let bond = GatewayBond {
            bond_amount: info.funds[0].duplicate(),
            owner: info.sender.clone(),
            block_height: env.block_height,
            gateway,
        };
        self.gateways.insert(identity.clone(), bond);
        self.gateway_owners.insert(info.sender.clone(), identity);
        self.layers.increment(crate::types::Layer::Gateway);
        let mut response = Response::new();
        response.add_attribute("overwritten", bool_to_string(was_present));
        Ok(response)
    }

    /// Unbonds the sender's gateway and sends its bond back: see
    /// `spec_try_remove_gateway`.
    pub fn try_remove_gateway(&mut self, info: &MessageInfo) -> (r: Result<Response, ContractError>)
        requires
            old(self)@.wf(),
        ensures
            (result_view(r), final(self)@) == spec_try_remove_gateway(old(self)@, info.sender@),
            final(self)@.wf(),
    {
        proof {
            self.lemma_stores_wf();
            lemma_remove_gateway_keeps_wf(self@, info.sender@);
        }
        let gateway_identity = match self.gateway_owners.get(&info.sender) {
            Some(identity) => identity.clone(),
            None => {
                return Err(ContractError::NoAssociatedGatewayBond { owner: info.sender.clone() });
            },
        };
        proof {
            lemma_bonded_gateway_counted(self@, gateway_identity@);
        }
        // the owner's identity names a bonded gateway
        let gateway_bond = match self.gateways.remove(&gateway_identity) {
            Some(bond) => bond,
            None => {
                assert(false);
                return Err(ContractError::NoAssociatedGatewayBond { owner: info.sender.clone() });
            },
        };
        let refund = vec![gateway_bond.bond_amount.duplicate()];
        assert(coins_view(refund@) =~= seq![gateway_bond.bond_amount@]);
        let return_tokens = BankMsg::Send { to_address: info.sender.clone(), amount: refund };
        self.gateway_owners.remove(&info.sender);
        self.layers.decrement(crate::types::Layer::Gateway);
        let mut response = Response::new();
        response.add_attribute("action", String::from_str("unbond"));
        response.add_attribute("address", info.sender.clone());
        response.add_attribute("gateway_bond", gateway_bond.to_string());
        response.add_message(return_tokens);
        let ghost expected = spec_try_remove_gateway(old(self)@, info.sender@);
        assert(response@.attributes =~= expected.0->Ok_0.attributes);
        assert(response@.messages =~= expected.0->Ok_0.messages);
        Ok(response)
    }

    /// Changes the parameters at the owner's request: see
    /// `spec_try_update_state_params`.
    pub fn try_update_state_params(&mut self, info: &MessageInfo, params: StateParams) -> (r:
        Result<Response, ContractError>)
        requires
            old(self)@.wf(),
            update_state_params_admissible(old(self)@, info.sender@, params),
        ensures
            (result_view(r), final(self)@) == spec_try_update_state_params(
                old(self)@,
                info.sender@,
                params,
            ),
            final(self)@.wf(),
    {
        proof {
            lemma_update_state_params_keeps_wf(self@, info.sender@, params);
        }
        // only the owner changes the parameters
        if !(info.sender == self.state.owner) {
            return Err(ContractError::Unauthorized);
        }
        if params.mixnode_bond_reward_rate.atomics < Decimal::one().atomics {
            return Err(ContractError::DecreasingMixnodeBondReward);
        }
        if params.mixnode_delegation_reward_rate.atomics < Decimal::one().atomics {
            return Err(ContractError::DecreasingMixnodeDelegationReward);
        }
        if self.state.params.epoch_length != params.epoch_length {
            // a new epoch length changes both per-epoch rates
            self.state.mixnode_epoch_bond_reward = calculate_epoch_reward_rate(
                params.epoch_length,
                params.mixnode_bond_reward_rate,
            );
            self.state.mixnode_epoch_delegation_reward = calculate_epoch_reward_rate(
                params.epoch_length,
                params.mixnode_delegation_reward_rate,
            );
        } else {
            // a changed annual rate changes its per-epoch rate
            if self.state.params.mixnode_bond_reward_rate != params.mixnode_bond_reward_rate {
                self.state.mixnode_epoch_bond_reward = calculate_epoch_reward_rate(
                    params.epoch_length,
                    params.mixnode_bond_reward_rate,
                );
            }
            if self.state.params.mixnode_delegation_reward_rate
                != params.mixnode_delegation_reward_rate {
                self.state.mixnode_epoch_delegation_reward = calculate_epoch_reward_rate(
                    params.epoch_length,
                    params.mixnode_delegation_reward_rate,
                );
            }
        }
        self.state.params = params;
        Ok(Response::new())
    }
    /// Rewards the mixnode `mix_identity` and its delegators for an epoch in
    /// which it was up `uptime` percent of the time: see
    /// `spec_try_reward_mixnode`.
    pub fn try_reward_mixnode(
        &mut self,
        env: &Env,
        info: &MessageInfo,
        mix_identity: String,
        uptime: u32,
    ) -> (r: Result<Response, ContractError>)
        requires
            old(self)@.wf(),
            reward_mixnode_admissible(
                old(self)@,
                env.block_height,
                info.sender@,
                mix_identity@,
                uptime,
            ),
        ensures
            (result_view(r), final(self)@) == spec_try_reward_mixnode(
                old(self)@,
                env.block_height,
                info.sender@,
                mix_identity@,
                uptime,
            ),
            final(self)@.wf(),
    {
        proof {
            self.lemma_stores_wf();
            lemma_reward_mixnode_keeps_wf(
                self@,
                env.block_height,
                info.sender@,
                mix_identity@,
                uptime,
            );
        }
        // only the network monitor rewards
        if !(info.sender == self.state.network_monitor_address) {
            return Err(ContractError::Unauthorized);
        }
        // nothing is earned without uptime
        if uptime == 0 {
            let mut response = Response::new();
            response.add_attribute("bond increase", amount_text(0));
            response.add_attribute("total delegation increase", amount_text(0));
            let ghost expected = spec_try_reward_mixnode(
                old(self)@,
                env.block_height,
                info.sender@,
                mix_identity@,
                uptime,
            );
            assert(response@.attributes =~= expected.0->Ok_0.attributes);
            return Ok(response);
        }
        let index = match self.mixnodes.find(&mix_identity) {
            Some(i) => i,
            None => {
                let mut response = Response::new();
                response.add_attribute("result", String::from_str("bond not found"));
                let ghost expected = spec_try_reward_mixnode(
                    old(self)@,
                    env.block_height,
                    info.sender@,
                    mix_identity@,
                    uptime,
                );
                assert(response@.attributes =~= expected.0->Ok_0.attributes);
                return Ok(response);
            },
        };
        let bond_reward_rate = self.state.mixnode_epoch_bond_reward;
        let delegation_reward_rate = self.state.mixnode_epoch_delegation_reward;
        let bond_scaled_reward_rate = match scale_reward_by_uptime(bond_reward_rate, uptime) {
            Ok(rate) => rate,
            Err(e) => {
                return Err(e);
            },
        };
        let delegation_scaled_reward_rate = match scale_reward_by_uptime(
            delegation_reward_rate,
            uptime,
        ) {
            Ok(rate) => rate,
            Err(e) => {
                return Err(e);
            },
        };
        let mut node_reward: u128 = 0;
        let total_delegation_reward = increase_mix_delegated_stakes(
            &mut self.mix_delegations,
            &mix_identity,
            delegation_scaled_reward_rate,
            env.block_height,
        );
        // the bond itself is rewarded once it is old enough
        if self.mixnodes.value_at(index).block_height + MINIMUM_BLOCK_AGE_FOR_REWARDING
            <= env.block_height {
            let (key, mut current_bond) = self.mixnodes.take_at(index);
            node_reward = mul_by_decimal(current_bond.bond_amount.amount, bond_scaled_reward_rate);
            current_bond.bond_amount.amount = current_bond.bond_amount.amount + node_reward;
            current_bond.total_delegation.amount = current_bond.total_delegation.amount
                + total_delegation_reward;
            let ghost rewarded = current_bond@;
            self.mixnodes.put_back_at(index, key, current_bond);
            assert(self.mixnodes@ =~= old(self).mixnodes@.update(
                index as int,
                (mix_identity@, rewarded),
            ));
        }
        let mut response = Response::new();
        response.add_attribute("bond increase", amount_text(node_reward));
        response.add_attribute("total delegation increase", amount_text(total_delegation_reward));
        let ghost expected = spec_try_reward_mixnode(
            old(self)@,
            env.block_height,
            info.sender@,
            mix_identity@,
            uptime,
        );
        assert(response@.attributes =~= expected.0->Ok_0.attributes);
        Ok(response)
    }

    /// Delegates the funds sent to the mixnode `mix_identity`: see
    /// `spec_try_delegate_to_mixnode`.
    pub fn try_delegate_to_mixnode(&mut self, env: &Env, info: &MessageInfo, mix_identity: String) -> (r:
        Result<Response, ContractError>)
        requires
            old(self)@.wf(),
            delegate_admissible(old(self)@, info.sender@, coins_view(info.funds@), mix_identity@),
        ensures
            (result_view(r), final(self)@) == spec_try_delegate_to_mixnode(
                old(self)@,
                env.block_height,
                info.sender@,
                coins_view(info.funds@),
                mix_identity@,
            ),
            final(self)@.wf(),
    {
        proof {
            self.lemma_stores_wf();
            lemma_delegate_keeps_wf(
                self@,
                env.block_height,
                info.sender@,
                coins_view(info.funds@),
                mix_identity@,
            );
        }
        match validate_delegation_stake(info.funds.as_slice()) {
            Ok(()) => {},
            Err(e) => {
                return Err(e);
            },
        }
        // only a bonded mixnode takes delegations
        let index = match self.mixnodes.find(&mix_identity) {
            Some(i) => i,
            None => {
                return Err(ContractError::MixNodeBondNotFound { identity: mix_identity });
            },
        };
        let amount = info.funds[0].amount;
        let (key, mut current_bond) = self.mixnodes.take_at(index);
        current_bond.total_delegation.amount = current_bond.total_delegation.amount + amount;
        let ghost updated = current_bond@;
        self.mixnodes.put_back_at(index, key, current_bond);
        assert(self.mixnodes@ =~= old(self).mixnodes@.update(
            index as int,
            (mix_identity@, updated),
        ));
        // an earlier delegation grows; the delegation is dated anew
        let new_amount = match self.mix_delegations.get_in_bucket(&mix_identity, &info.sender) {
            Some(existing_delegation) => existing_delegation.amount + amount,
            None => amount,
        };
        self.mix_delegations.insert_in_bucket(
            mix_identity.clone(),
            info.sender.clone(),
            RawDelegationData::new(new_amount, env.block_height),
        );
        self.reverse_mix_delegations.insert_in_bucket(info.sender.clone(), mix_identity, ());
        Ok(Response::new())
    }

    /// Withdraws the sender's delegation from the mixnode `mix_identity` and
    /// sends it back: see `spec_try_remove_delegation_from_mixnode`.
    pub fn try_remove_delegation_from_mixnode(&mut self, info: &MessageInfo, mix_identity: String) -> (r:
        Result<Response, ContractError>)
        requires
            old(self)@.wf(),
            remove_delegation_admissible(old(self)@, info.sender@, mix_identity@),
        ensures
            (result_view(r), final(self)@) == spec_try_remove_delegation_from_mixnode(
                old(self)@,
                info.sender@,
                mix_identity@,
            ),
            final(self)@.wf(),
    {
        proof {
            self.lemma_stores_wf();
            lemma_remove_delegation_keeps_wf(self@, info.sender@, mix_identity@);
        }
        let delegation = match self.mix_delegations.remove_in_bucket(&mix_identity, &info.sender) {
            Some(delegation) => delegation,
            None => {
                return Err(
                    ContractError::NoMixnodeDelegationFound {
                        identity: mix_identity,
                        address: info.sender.clone(),
                    },
                );
            },
        };
        assert(has_key(bucket(old(self)@.reverse_mix_delegations, info.sender@), mix_identity@));
        self.reverse_mix_delegations.remove_in_bucket(&info.sender, &mix_identity);
        let refund = vec![Coin::new(delegation.amount)];
        assert(coins_view(refund@) =~= seq![CoinView { denom: denom_text(), amount: delegation.amount }]);
        let return_tokens = BankMsg::Send { to_address: info.sender.clone(), amount: refund };
        // a node that is still bonded loses the delegation from its total
        match self.mixnodes.find(&mix_identity) {
            Some(index) => {
                let (key, mut existing_bond) = self.mixnodes.take_at(index);
                existing_bond.total_delegation.amount = existing_bond.total_delegation.amount
                    - delegation.amount;
                let ghost updated = existing_bond@;
                self.mixnodes.put_back_at(index, key, existing_bond);
                assert(self.mixnodes@ =~= old(self).mixnodes@.update(
                    index as int,
                    (mix_identity@, updated),
                ));
            },
            None => {},
        }
        let mut response = Response::new();
        response.add_message(return_tokens);
        let ghost expected = spec_try_remove_delegation_from_mixnode(
            old(self)@,
            info.sender@,
            mix_identity@,
        );
        assert(response@.messages =~= expected.0->Ok_0.messages);
        Ok(response)
    }
}

} // verus!
