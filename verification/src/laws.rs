//! What holds of the contract across requests: every request keeps the
//! state's invariant, and requests undo one another where the contract says
//! they should.
use vstd::prelude::*;
use crate::store::{
    delete, has_key, lemma_delete, lemma_put, lemma_sum_delete, lemma_sum_nonneg, lemma_sum_put,
    lookup, put, sum_of, unique_keys,
};
use crate::model::{
    add_gateway_admissible, add_gateway_error, add_mixnode_admissible, add_mixnode_error,
    delegate_admissible, delegate_error, delegation_records_wf, delegations_reward,
    gateway_records_wf, layers_wf,
    mixnode_records_wf, new_mixnode_bond, nodes_on_layer, on_layer, rewarded_delegations,
    spec_try_add_gateway, spec_try_add_mixnode, spec_try_delegate_to_mixnode,
    spec_try_remove_delegation_from_mixnode, spec_try_remove_gateway, spec_try_remove_mixnode,
    spec_try_reward_mixnode, spec_try_update_state_params, MixnetView, old_enough, bond_reward,
    rewarded_bond, with_total_delegation, delegation_amount, delegation_reward,
    remove_delegation_admissible, reward_mixnode_admissible, attributes_only,
};
use crate::text::decimal_text;
use crate::rewards::spec_scale_reward_by_uptime;
use crate::store::{
    bucket, delete_in_bucket, lemma_delete_in_bucket, lemma_put_in_bucket, lemma_same_keys,
    put_in_bucket,
};
use crate::types::{
    denom_text, BankMsgView, CoinView, ContractErrorView, GatewayBondView, GatewayView, Layer,
    MixNodeBondView,
    MixNodeView, ResponseView,
    Decimal, RawDelegationData, StateParams,
};

verus! {

/// Bonding a mixnode keeps the state's invariant.
pub proof fn lemma_add_mixnode_keeps_wf(
    v: MixnetView,
    height: u64,
    sender: Seq<char>,
    funds: Seq<CoinView>,
    node: MixNodeView,
)
    requires
        v.wf(),
        add_mixnode_admissible(v, sender, funds, node),
    ensures
        spec_try_add_mixnode(v, height, sender, funds, node).1.wf(),
{
    if add_mixnode_error(v, sender, funds, node) is None {
        let w = spec_try_add_mixnode(v, height, sender, funds, node).1;
        let bond = new_mixnode_bond(v, height, sender, funds, node);
        let id = node.identity_key;
        lemma_put(v.mixnodes, id, bond);
        lemma_put(v.mixnode_owners, sender, id);
        assert forall|l: Layer| l != Layer::Gateway implies w.layers.count(l) >= nodes_on_layer(
            w.mixnodes,
            l,
        ) by {
            lemma_sum_put(v.mixnodes, id, bond, on_layer(l));
        }
        assert(w.layers.count(Layer::One) >= nodes_on_layer(w.mixnodes, Layer::One));
        assert(w.layers.count(Layer::Two) >= nodes_on_layer(w.mixnodes, Layer::Two));
        assert(w.layers.count(Layer::Three) >= nodes_on_layer(w.mixnodes, Layer::Three));
        assert(layers_wf(w.layers, w.mixnodes, w.gateways));
        assert forall|identity: Seq<char>| #[trigger] lookup(w.mixnodes, identity) is Some implies {
            let b = lookup(w.mixnodes, identity)->0;
            &&& b.mix_node.identity_key == identity
            &&& b.layer != Layer::Gateway
            &&& lookup(w.mixnode_owners, b.owner) == Some(identity)
        } by {
            if identity != id {
                let b = lookup(v.mixnodes, identity)->0;
                assert(lookup(v.mixnode_owners, b.owner) == Some(identity));
                if b.owner == sender {
                    assert(false);
                }
            }
        }
        assert forall|owner: Seq<char>| #[trigger] lookup(w.mixnode_owners, owner) is Some implies {
            let identity = lookup(w.mixnode_owners, owner)->0;
            &&& lookup(w.mixnodes, identity) is Some
            &&& lookup(w.mixnodes, identity)->0.owner == owner
            &&& lookup(w.gateway_owners, owner) is None
        } by {
            if owner != sender {
                let identity = lookup(v.mixnode_owners, owner)->0;
                assert(lookup(v.mixnodes, identity)->0.owner == owner);
                if identity == id {
                    assert(false);
                }
            }
        }
        assert(mixnode_records_wf(w.mixnodes, w.mixnode_owners, w.gateway_owners));
    }
}

/// A bonded mixnode's layer counts at least one node, so unbonding it never
/// takes a layer count below zero.
pub proof fn lemma_bonded_mixnode_layer_counted(v: MixnetView, identity: Seq<char>)
    requires
        v.wf(),
        has_key(v.mixnodes, identity),
    ensures
        v.layers.count(lookup(v.mixnodes, identity)->0.layer) >= 1,
{
    let bond = lookup(v.mixnodes, identity)->0;
    let l = bond.layer;
    lemma_sum_delete(v.mixnodes, identity, on_layer(l));
    lemma_sum_nonneg(delete(v.mixnodes, identity), on_layer(l));
    assert(lookup(v.mixnodes, identity) is Some);
}

/// A bonded gateway is counted, so unbonding it never takes the gateway
/// count below zero.
pub proof fn lemma_bonded_gateway_counted(v: MixnetView, identity: Seq<char>)
    requires
        v.wf(),
        has_key(v.gateways, identity),
    ensures
        v.layers.gateways >= 1,
{
    lemma_delete(v.gateways, identity);
}

/// Unbonding a mixnode keeps the state's invariant.
pub proof fn lemma_remove_mixnode_keeps_wf(v: MixnetView, sender: Seq<char>)
    requires
        v.wf(),
    ensures
        spec_try_remove_mixnode(v, sender).1.wf(),
{
    if has_key(v.mixnode_owners, sender) {
        let w = spec_try_remove_mixnode(v, sender).1;
        let id = lookup(v.mixnode_owners, sender)->0;
        let bond = lookup(v.mixnodes, id)->0;
        assert(lookup(v.mixnode_owners, sender) is Some);
        lemma_bonded_mixnode_layer_counted(v, id);
        lemma_delete(v.mixnodes, id);
        lemma_delete(v.mixnode_owners, sender);
        assert forall|l: Layer| l != Layer::Gateway implies w.layers.count(l) >= nodes_on_layer(
            w.mixnodes,
            l,
        ) by {
            lemma_sum_delete(v.mixnodes, id, on_layer(l));
        }
        assert(w.layers.count(Layer::One) >= nodes_on_layer(w.mixnodes, Layer::One));
        assert(w.layers.count(Layer::Two) >= nodes_on_layer(w.mixnodes, Layer::Two));
        assert(w.layers.count(Layer::Three) >= nodes_on_layer(w.mixnodes, Layer::Three));
        assert(layers_wf(w.layers, w.mixnodes, w.gateways));
        assert forall|identity: Seq<char>| #[trigger] lookup(w.mixnodes, identity) is Some implies {
            let b = lookup(w.mixnodes, identity)->0;
            &&& b.mix_node.identity_key == identity
            &&& b.layer != Layer::Gateway
            &&& lookup(w.mixnode_owners, b.owner) == Some(identity)
        } by {
            let b = lookup(v.mixnodes, identity)->0;
            assert(lookup(v.mixnodes, identity) is Some);
            assert(lookup(v.mixnode_owners, b.owner) == Some(identity));
            if b.owner == sender {
                assert(false);
            }
        }
        assert forall|owner: Seq<char>| #[trigger] lookup(w.mixnode_owners, owner) is Some implies {
            let identity = lookup(w.mixnode_owners, owner)->0;
            &&& lookup(w.mixnodes, identity) is Some
            &&& lookup(w.mixnodes, identity)->0.owner == owner
            &&& lookup(w.gateway_owners, owner) is None
        } by {
            let identity = lookup(v.mixnode_owners, owner)->0;
            assert(lookup(v.mixnode_owners, owner) is Some);
            assert(lookup(v.mixnodes, identity)->0.owner == owner);
            if identity == id {
                assert(false);
            }
        }
        assert(mixnode_records_wf(w.mixnodes, w.mixnode_owners, w.gateway_owners));
    }
}

/// Bonding a gateway keeps the state's invariant.
pub proof fn lemma_add_gateway_keeps_wf(
    v: MixnetView,
    height: u64,
    sender: Seq<char>,
    funds: Seq<CoinView>,
    gateway: GatewayView,
)
    requires
        v.wf(),
        add_gateway_admissible(v, sender, funds, gateway),
    ensures
        spec_try_add_gateway(v, height, sender, funds, gateway).1.wf(),
{
    if add_gateway_error(v, sender, funds, gateway) is None {
        let w = spec_try_add_gateway(v, height, sender, funds, gateway).1;
        let id = gateway.identity_key;
        let bond = GatewayBondView { bond_amount: funds[0], owner: sender, block_height: height, gateway };
        lemma_put(v.gateways, id, bond);
        lemma_put(v.gateway_owners, sender, id);
        assert(layers_wf(w.layers, w.mixnodes, w.gateways));
        assert forall|identity: Seq<char>| #[trigger] lookup(w.gateways, identity) is Some implies {
            let b = lookup(w.gateways, identity)->0;
            &&& b.gateway.identity_key == identity
            &&& lookup(w.gateway_owners, b.owner) == Some(identity)
        } by {
            if identity != id {
                let b = lookup(v.gateways, identity)->0;
                assert(lookup(v.gateway_owners, b.owner) == Some(identity));
                if b.owner == sender {
                    assert(false);
                }
            }
        }
        assert forall|owner: Seq<char>| #[trigger] lookup(w.gateway_owners, owner) is Some implies {
            let identity = lookup(w.gateway_owners, owner)->0;
            &&& lookup(w.gateways, identity) is Some
            &&& lookup(w.gateways, identity)->0.owner == owner
        } by {
            if owner != sender {
                let identity = lookup(v.gateway_owners, owner)->0;
                assert(lookup(v.gateways, identity)->0.owner == owner);
                if identity == id {
                    assert(false);
                }
            }
        }
        assert(gateway_records_wf(w.gateways, w.gateway_owners));
        assert forall|owner: Seq<char>| #[trigger] lookup(w.mixnode_owners, owner) is Some implies {
            let identity = lookup(w.mixnode_owners, owner)->0;
            &&& lookup(w.mixnodes, identity) is Some
            &&& lookup(w.mixnodes, identity)->0.owner == owner
            &&& lookup(w.gateway_owners, owner) is None
        } by {
            assert(lookup(v.mixnode_owners, owner) is Some);
        }
        assert(mixnode_records_wf(w.mixnodes, w.mixnode_owners, w.gateway_owners));
    }
}

/// Unbonding a gateway keeps the state's invariant.
pub proof fn lemma_remove_gateway_keeps_wf(v: MixnetView, sender: Seq<char>)
    requires
        v.wf(),
    ensures
        spec_try_remove_gateway(v, sender).1.wf(),
{
    if has_key(v.gateway_owners, sender) {
        let w = spec_try_remove_gateway(v, sender).1;
        let id = lookup(v.gateway_owners, sender)->0;
        assert(lookup(v.gateway_owners, sender) is Some);
        lemma_bonded_gateway_counted(v, id);
        lemma_delete(v.gateways, id);
        lemma_delete(v.gateway_owners, sender);
        assert(layers_wf(w.layers, w.mixnodes, w.gateways));
        assert forall|identity: Seq<char>| #[trigger] lookup(w.gateways, identity) is Some implies {
            let b = lookup(w.gateways, identity)->0;
            &&& b.gateway.identity_key == identity
            &&& lookup(w.gateway_owners, b.owner) == Some(identity)
        } by {
            let b = lookup(v.gateways, identity)->0;
            assert(lookup(v.gateways, identity) is Some);
            assert(lookup(v.gateway_owners, b.owner) == Some(identity));
            if b.owner == sender {
                assert(false);
            }
        }
        assert forall|owner: Seq<char>| #[trigger] lookup(w.gateway_owners, owner) is Some implies {
            let identity = lookup(w.gateway_owners, owner)->0;
            &&& lookup(w.gateways, identity) is Some
            &&& lookup(w.gateways, identity)->0.owner == owner
        } by {
            let identity = lookup(v.gateway_owners, owner)->0;
            assert(lookup(v.gateway_owners, owner) is Some);
            assert(lookup(v.gateways, identity)->0.owner == owner);
            if identity == id {
                assert(false);
            }
        }
        assert(gateway_records_wf(w.gateways, w.gateway_owners));
        assert forall|owner: Seq<char>| #[trigger] lookup(w.mixnode_owners, owner) is Some implies {
            let identity = lookup(w.mixnode_owners, owner)->0;
            &&& lookup(w.mixnodes, identity) is Some
            &&& lookup(w.mixnodes, identity)->0.owner == owner
            &&& lookup(w.gateway_owners, owner) is None
        } by {
            assert(lookup(v.mixnode_owners, owner) is Some);
        }
        assert(mixnode_records_wf(w.mixnodes, w.mixnode_owners, w.gateway_owners));
    }
}

/// Changing the parameters keeps the state's invariant.
pub proof fn lemma_update_state_params_keeps_wf(v: MixnetView, sender: Seq<char>, params: StateParams)
    requires
        v.wf(),
    ensures
        spec_try_update_state_params(v, sender, params).1.wf(),
{
}

/// Replacing a bond by one with the same identity, owner and layer keeps the
/// records of mixnodes, their owners and the layer counts in agreement.
proof fn lemma_bond_amounts_changed(v: MixnetView, identity: Seq<char>, bond: MixNodeBondView)
    requires
        v.wf(),
        has_key(v.mixnodes, identity),
        bond.mix_node.identity_key == lookup(v.mixnodes, identity)->0.mix_node.identity_key,
        bond.owner == lookup(v.mixnodes, identity)->0.owner,
        bond.layer == lookup(v.mixnodes, identity)->0.layer,
    ensures
        mixnode_records_wf(put(v.mixnodes, identity, bond), v.mixnode_owners, v.gateway_owners),
        layers_wf(v.layers, put(v.mixnodes, identity, bond), v.gateways),
{
    let m = put(v.mixnodes, identity, bond);
    assert(lookup(v.mixnodes, identity) is Some);
    lemma_put(v.mixnodes, identity, bond);
    assert forall|l: Layer| l != Layer::Gateway implies v.layers.count(l) >= nodes_on_layer(m, l) by {
        lemma_sum_put(v.mixnodes, identity, bond, on_layer(l));
    }
    assert(v.layers.count(Layer::One) >= nodes_on_layer(m, Layer::One));
    assert(v.layers.count(Layer::Two) >= nodes_on_layer(m, Layer::Two));
    assert(v.layers.count(Layer::Three) >= nodes_on_layer(m, Layer::Three));
    assert forall|owner: Seq<char>| #[trigger] lookup(v.mixnode_owners, owner) is Some implies {
        let id = lookup(v.mixnode_owners, owner)->0;
        &&& lookup(m, id) is Some
        &&& lookup(m, id)->0.owner == owner
        &&& lookup(v.gateway_owners, owner) is None
    } by {
        let id = lookup(v.mixnode_owners, owner)->0;
        assert(lookup(v.mixnodes, id)->0.owner == owner);
    }
}

/// Changing the values of an existing bucket, keeping its keys, keeps the
/// delegation records in agreement.
proof fn lemma_bucket_values_changed(
    md: Seq<(Seq<char>, Seq<(Seq<char>, RawDelegationData)>)>,
    rv: Seq<(Seq<char>, Seq<(Seq<char>, ())>)>,
    k: Seq<char>,
    nb: Seq<(Seq<char>, RawDelegationData)>,
)
    requires
        delegation_records_wf(md, rv),
        has_key(md, k),
        nb.len() == bucket(md, k).len(),
        forall|i: int| 0 <= i < nb.len() ==> #[trigger] nb[i].0 == bucket(md, k)[i].0,
    ensures
        delegation_records_wf(put(md, k, nb), rv),
{
    let t = put(md, k, nb);
    lemma_put(md, k, nb);
    assert(unique_keys(bucket(md, k)));
    lemma_same_keys(bucket(md, k), nb);
    assert(bucket(t, k) == nb);
    assert forall|kk: Seq<char>| #[trigger] unique_keys(bucket(t, kk)) by {
        if kk != k {
            assert(bucket(t, kk) == bucket(md, kk));
        }
    }
    assert forall|identity: Seq<char>, delegator: Seq<char>|
        #![trigger has_key(bucket(t, identity), delegator)]
        #![trigger has_key(bucket(rv, delegator), identity)]
        has_key(bucket(t, identity), delegator) == has_key(bucket(rv, delegator), identity) by {
        if identity != k {
            assert(bucket(t, identity) == bucket(md, identity));
        }
        assert(has_key(bucket(md, identity), delegator) == has_key(bucket(rv, delegator), identity));
    }
}

/// Rewarding a mixnode keeps the state's invariant.
pub proof fn lemma_reward_mixnode_keeps_wf(
    v: MixnetView,
    height: u64,
    sender: Seq<char>,
    identity: Seq<char>,
    uptime: u32,
)
    requires
        v.wf(),
    ensures
        spec_try_reward_mixnode(v, height, sender, identity, uptime).1.wf(),
{
    if sender == v.state.network_monitor_address && uptime != 0 && has_key(v.mixnodes, identity)
        && uptime <= 100 {
        let bond = lookup(v.mixnodes, identity)->0;
        let bond_rate = spec_scale_reward_by_uptime(v.state.mixnode_epoch_bond_reward, uptime)->Ok_0;
        let delegation_rate = spec_scale_reward_by_uptime(
            v.state.mixnode_epoch_delegation_reward,
            uptime,
        )->Ok_0;
        let delegations = v.delegations_of(identity);
        if old_enough(bond.block_height, height) {
            lemma_bond_amounts_changed(
                v,
                identity,
                rewarded_bond(
                    bond,
                    bond_reward(bond, bond_rate, height),
                    delegations_reward(delegations, delegation_rate, height),
                ),
            );
        }
        if has_key(v.mix_delegations, identity) {
            lemma_bucket_values_changed(
                v.mix_delegations,
                v.reverse_mix_delegations,
                identity,
                rewarded_delegations(delegations, delegation_rate, height),
            );
        }
    }
}

/// Delegating keeps the state's invariant.
pub proof fn lemma_delegate_keeps_wf(
    v: MixnetView,
    height: u64,
    sender: Seq<char>,
    funds: Seq<CoinView>,
    identity: Seq<char>,
)
    requires
        v.wf(),
    ensures
        spec_try_delegate_to_mixnode(v, height, sender, funds, identity).1.wf(),
{
    if delegate_error(v, funds, identity) is None {
        let bond = lookup(v.mixnodes, identity)->0;
        lemma_bond_amounts_changed(
            v,
            identity,
            with_total_delegation(bond, bond.total_delegation.amount + funds[0].amount),
        );
        let new_amount = match lookup(v.delegations_of(identity), sender) {
            Some(d) => d.amount + funds[0].amount,
            None => funds[0].amount as int,
        };
        let d = RawDelegationData { amount: new_amount as u128, block_height: height };
        lemma_put_in_bucket(v.mix_delegations, identity, sender, d);
        lemma_put_in_bucket(v.reverse_mix_delegations, sender, identity, ());
    }
}

/// Withdrawing a delegation keeps the state's invariant.
pub proof fn lemma_remove_delegation_keeps_wf(v: MixnetView, sender: Seq<char>, identity: Seq<char>)
    requires
        v.wf(),
    ensures
        spec_try_remove_delegation_from_mixnode(v, sender, identity).1.wf(),
{
    if has_key(v.delegations_of(identity), sender) {
        let delegation = lookup(v.delegations_of(identity), sender)->0;
        if has_key(v.mixnodes, identity) {
            let bond = lookup(v.mixnodes, identity)->0;
            lemma_bond_amounts_changed(
                v,
                identity,
                with_total_delegation(bond, bond.total_delegation.amount - delegation.amount),
            );
        }
        lemma_delete_in_bucket(v.mix_delegations, identity, sender);
        lemma_delete_in_bucket(v.reverse_mix_delegations, sender, identity);
    }
}

/// Bonding a mixnode by a sender that owned none, and then unbonding it,
/// leaves the whole state as it was, and the unbonding sends the bonded
/// funds back to the sender.
pub proof fn lemma_unbond_undoes_bond(
    v: MixnetView,
    height: u64,
    sender: Seq<char>,
    funds: Seq<CoinView>,
    node: MixNodeView,
)
    requires
        v.wf(),
        add_mixnode_admissible(v, sender, funds, node),
        add_mixnode_error(v, sender, funds, node) is None,
        !has_key(v.mixnode_owners, sender),
    ensures
        spec_try_remove_mixnode(spec_try_add_mixnode(v, height, sender, funds, node).1, sender).1
            == v,
        spec_try_remove_mixnode(
            spec_try_add_mixnode(v, height, sender, funds, node).1,
            sender,
        ).0->Ok_0.messages == seq![BankMsgView::Send { to_address: sender, amount: seq![funds[0]] }],
{
    let w = spec_try_add_mixnode(v, height, sender, funds, node).1;
    let x = spec_try_remove_mixnode(w, sender).1;
    let id = node.identity_key;
    let bond = new_mixnode_bond(v, height, sender, funds, node);
    assert(!has_key(v.mixnodes, id));
    lemma_put(v.mixnodes, id, bond);
    lemma_put(v.mixnode_owners, sender, id);
    assert(w.mixnodes == v.mixnodes.push((id, bond)));
    assert(w.mixnode_owners == v.mixnode_owners.push((sender, id)));
    crate::store::lemma_key_pos(w.mixnodes, v.mixnodes.len() as int);
    crate::store::lemma_key_pos(w.mixnode_owners, v.mixnode_owners.len() as int);
    assert(x.mixnodes =~= v.mixnodes);
    assert(x.mixnode_owners =~= v.mixnode_owners);
    assert(x.layers == v.layers);
}

/// Delegating to a mixnode by a sender that had not delegated to it, and
/// then withdrawing, leaves the bonds and what every bucket of delegations
/// holds as they were, and the withdrawal sends the delegated amount back.
pub proof fn lemma_undelegate_undoes_delegate(
    v: MixnetView,
    height: u64,
    sender: Seq<char>,
    funds: Seq<CoinView>,
    identity: Seq<char>,
)
    requires
        v.wf(),
        delegate_admissible(v, sender, funds, identity),
        delegate_error(v, funds, identity) is None,
        !has_key(v.delegations_of(identity), sender),
    ensures
        ({
            let w = spec_try_delegate_to_mixnode(v, height, sender, funds, identity).1;
            let (r, x) = spec_try_remove_delegation_from_mixnode(w, sender, identity);
            &&& x.mixnodes == v.mixnodes
            &&& forall|i: Seq<char>| #[trigger] x.delegations_of(i) == v.delegations_of(i)
            &&& forall|d: Seq<char>| #[trigger] x.delegated_by(d) == v.delegated_by(d)
            &&& r->Ok_0.messages == seq![
                BankMsgView::Send {
                    to_address: sender,
                    amount: seq![CoinView { denom: denom_text(), amount: funds[0].amount }],
                },
            ]
        }),
{
    let w = spec_try_delegate_to_mixnode(v, height, sender, funds, identity).1;
    let x = spec_try_remove_delegation_from_mixnode(w, sender, identity).1;
    let bond = lookup(v.mixnodes, identity)->0;
    let d = RawDelegationData { amount: funds[0].amount, block_height: height };
    lemma_put_in_bucket(v.mix_delegations, identity, sender, d);
    lemma_put_in_bucket(v.reverse_mix_delegations, sender, identity, ());
    assert(has_key(v.mixnodes, identity));
    let bumped = with_total_delegation(bond, bond.total_delegation.amount + funds[0].amount);
    lemma_put(v.mixnodes, identity, bumped);
    assert(lookup(w.mixnodes, identity) == Some(bumped));
    let restored = with_total_delegation(bumped, bumped.total_delegation.amount - funds[0].amount);
    assert(restored == bond);
    lemma_put(w.mixnodes, identity, bond);
    let p = crate::store::key_pos(v.mixnodes, identity);
    assert(0 <= p < v.mixnodes.len() && v.mixnodes[p].0 == identity);
    crate::store::lemma_key_pos(v.mixnodes, p);
    assert(w.mixnodes == v.mixnodes.update(p, (identity, bumped)));
    crate::store::lemma_key_pos(w.mixnodes, p);
    assert(x.mixnodes =~= v.mixnodes);
    assert forall|i: Seq<char>| #[trigger] x.delegations_of(i) == v.delegations_of(i) by {
        lemma_delete_in_bucket_after_put(v.mix_delegations, identity, sender, d, i);
    }
    assert forall|dd: Seq<char>| #[trigger] x.delegated_by(dd) == v.delegated_by(dd) by {
        assert(!has_key(v.delegated_by(sender), identity));
        lemma_delete_in_bucket_after_put(v.reverse_mix_delegations, sender, identity, (), dd);
    }
}

/// Storing a new entry in a bucket and deleting it again leaves every
/// bucket holding what it held.
proof fn lemma_delete_in_bucket_after_put<V>(
    s: Seq<(Seq<char>, Seq<(Seq<char>, V)>)>,
    k: Seq<char>,
    k2: Seq<char>,
    x: V,
    kk: Seq<char>,
)
    requires
        unique_keys(s),
        forall|j: Seq<char>| #[trigger] unique_keys(bucket(s, j)),
        !has_key(bucket(s, k), k2),
    ensures
        bucket(delete_in_bucket(put_in_bucket(s, k, k2, x), k, k2), kk) == bucket(s, kk),
{
    let b = bucket(s, k);
    let t = put_in_bucket(s, k, k2, x);
    lemma_put(b, k2, x);
    lemma_put(s, k, put(b, k2, x));
    assert(has_key(t, k));
    assert(bucket(t, k) == b.push((k2, x)));
    lemma_put(t, k, delete(b.push((k2, x)), k2));
    crate::store::lemma_key_pos(b.push((k2, x)), b.len() as int);
    assert(delete(b.push((k2, x)), k2) =~= b);
    if kk != k {
        assert(bucket(delete_in_bucket(t, k, k2), kk) == bucket(t, kk));
    }
}

/// Every bonded mixnode's total delegation is the sum of the delegations
/// made to it.
pub open spec fn totals_consistent(v: MixnetView) -> bool {
    forall|identity: Seq<char>|
        #[trigger] lookup(v.mixnodes, identity) is Some ==> lookup(
            v.mixnodes,
            identity,
        )->0.total_delegation.amount == v.delegated_total(identity)
}

/// Bonding a mixnode keeps every total delegation equal to the sum of the
/// node's delegations: the new bond carries over what was delegated before.
pub proof fn lemma_add_mixnode_keeps_totals(
    v: MixnetView,
    height: u64,
    sender: Seq<char>,
    funds: Seq<CoinView>,
    node: MixNodeView,
)
    requires
        v.wf(),
        totals_consistent(v),
        add_mixnode_admissible(v, sender, funds, node),
    ensures
        totals_consistent(spec_try_add_mixnode(v, height, sender, funds, node).1),
{
    if add_mixnode_error(v, sender, funds, node) is None {
        let bond = new_mixnode_bond(v, height, sender, funds, node);
        lemma_put(v.mixnodes, node.identity_key, bond);
        lemma_sum_nonneg(v.delegations_of(node.identity_key), delegation_amount());
    }
}

/// Unbonding a mixnode keeps every total delegation equal to the sum of the
/// node's delegations.
pub proof fn lemma_remove_mixnode_keeps_totals(v: MixnetView, sender: Seq<char>)
    requires
        v.wf(),
        totals_consistent(v),
    ensures
        totals_consistent(spec_try_remove_mixnode(v, sender).1),
{
    if has_key(v.mixnode_owners, sender) {
        lemma_delete(v.mixnodes, lookup(v.mixnode_owners, sender)->0);
    }
}

/// Bonding or unbonding a gateway, and changing the parameters, leave every
/// total delegation and every delegation as they were.
pub proof fn lemma_gateways_and_params_keep_totals(
    v: MixnetView,
    height: u64,
    sender: Seq<char>,
    funds: Seq<CoinView>,
    gateway: GatewayView,
    params: StateParams,
)
    requires
        totals_consistent(v),
    ensures
        totals_consistent(spec_try_add_gateway(v, height, sender, funds, gateway).1),
        totals_consistent(spec_try_remove_gateway(v, sender).1),
        totals_consistent(spec_try_update_state_params(v, sender, params).1),
{
}

/// Delegating keeps every total delegation equal to the sum of the node's
/// delegations: both grow by the amount delegated.
pub proof fn lemma_delegate_keeps_totals(
    v: MixnetView,
    height: u64,
    sender: Seq<char>,
    funds: Seq<CoinView>,
    identity: Seq<char>,
)
    requires
        v.wf(),
        totals_consistent(v),
        delegate_admissible(v, sender, funds, identity),
    ensures
        totals_consistent(spec_try_delegate_to_mixnode(v, height, sender, funds, identity).1),
{
    if delegate_error(v, funds, identity) is None {
        let w = spec_try_delegate_to_mixnode(v, height, sender, funds, identity).1;
        let bond = lookup(v.mixnodes, identity)->0;
        let new_amount = match lookup(v.delegations_of(identity), sender) {
            Some(d) => d.amount + funds[0].amount,
            None => funds[0].amount as int,
        };
        let d = RawDelegationData { amount: new_amount as u128, block_height: height };
        assert(lookup(v.mixnodes, identity) is Some);
        lemma_put(v.mixnodes, identity, with_total_delegation(bond, bond.total_delegation.amount + funds[0].amount));
        lemma_put_in_bucket(v.mix_delegations, identity, sender, d);
        lemma_put(v.mix_delegations, identity, put(v.delegations_of(identity), sender, d));
        lemma_sum_put(v.delegations_of(identity), sender, d, delegation_amount());
        assert forall|i: Seq<char>| #[trigger] lookup(w.mixnodes, i) is Some implies lookup(
            w.mixnodes,
            i,
        )->0.total_delegation.amount == w.delegated_total(i) by {
            if i != identity {
                assert(w.delegations_of(i) == v.delegations_of(i));
            }
        }
    }
}

/// Withdrawing a delegation keeps every total delegation equal to the sum of
/// the node's delegations: both shrink by the amount withdrawn.
pub proof fn lemma_remove_delegation_keeps_totals(v: MixnetView, sender: Seq<char>, identity: Seq<char>)
    requires
        v.wf(),
        totals_consistent(v),
        remove_delegation_admissible(v, sender, identity),
    ensures
        totals_consistent(spec_try_remove_delegation_from_mixnode(v, sender, identity).1),
{
    if has_key(v.delegations_of(identity), sender) {
        let w = spec_try_remove_delegation_from_mixnode(v, sender, identity).1;
        let delegation = lookup(v.delegations_of(identity), sender)->0;
        if has_key(v.mixnodes, identity) {
            let bond = lookup(v.mixnodes, identity)->0;
            lemma_put(
                v.mixnodes,
                identity,
                with_total_delegation(bond, bond.total_delegation.amount - delegation.amount),
            );
        }
        assert(has_key(v.mix_delegations, identity));
        lemma_put(v.mix_delegations, identity, delete(v.delegations_of(identity), sender));
        lemma_sum_delete(v.delegations_of(identity), sender, delegation_amount());
        assert forall|i: Seq<char>| #[trigger] lookup(w.mixnodes, i) is Some implies lookup(
            w.mixnodes,
            i,
        )->0.total_delegation.amount == w.delegated_total(i) by {
            if i != identity {
                assert(w.delegations_of(i) == v.delegations_of(i));
            }
        }
    }
}

/// The delegations of a mixnode after rewarding sum to what they summed to
/// before plus what they earned.
proof fn lemma_rewarded_sum(s: Seq<(Seq<char>, RawDelegationData)>, rate: Decimal, height: u64)
    requires
        forall|i: int|
            0 <= i < s.len() ==> (#[trigger] s[i]).1.amount + delegation_reward(s[i].1, rate, height)
                <= u128::MAX,
    ensures
        sum_of(rewarded_delegations(s, rate, height), delegation_amount()) == sum_of(
            s,
            delegation_amount(),
        ) + delegations_reward(s, rate, height),
    decreases s.len(),
{
    if s.len() > 0 {
        let t = s.drop_last();
        assert(rewarded_delegations(s, rate, height).drop_last() =~= rewarded_delegations(t, rate, height));
        assert(s[s.len() - 1] == s.last());
        lemma_rewarded_sum(t, rate, height);
    } else {
        assert(rewarded_delegations(s, rate, height) =~= s);
    }
}

/// Rewarding keeps every total delegation equal to the sum of the node's
/// delegations, where the rewarded bond is old enough to be rewarded itself
/// or its delegations earn nothing.  (A node bonded anew after delegations
/// to it were made can be too young while they are not: then the
/// delegations grow and its total does not.)
pub proof fn lemma_reward_mixnode_keeps_totals(
    v: MixnetView,
    height: u64,
    sender: Seq<char>,
    identity: Seq<char>,
    uptime: u32,
)
    requires
        v.wf(),
        totals_consistent(v),
        reward_mixnode_admissible(v, height, sender, identity, uptime),
        has_key(v.mixnodes, identity) && 0 < uptime <= 100 ==> {
            ||| old_enough(lookup(v.mixnodes, identity)->0.block_height, height)
            ||| delegations_reward(
                v.delegations_of(identity),
                spec_scale_reward_by_uptime(v.state.mixnode_epoch_delegation_reward, uptime)->Ok_0,
                height,
            ) == 0
        },
    ensures
        totals_consistent(spec_try_reward_mixnode(v, height, sender, identity, uptime).1),
{
    if sender == v.state.network_monitor_address && uptime != 0 && has_key(v.mixnodes, identity)
        && uptime <= 100 {
        let w = spec_try_reward_mixnode(v, height, sender, identity, uptime).1;
        let bond = lookup(v.mixnodes, identity)->0;
        let bond_rate = spec_scale_reward_by_uptime(v.state.mixnode_epoch_bond_reward, uptime)->Ok_0;
        let delegation_rate = spec_scale_reward_by_uptime(
            v.state.mixnode_epoch_delegation_reward,
            uptime,
        )->Ok_0;
        let delegations = v.delegations_of(identity);
        let total = delegations_reward(delegations, delegation_rate, height);
        assert(lookup(v.mixnodes, identity) is Some);
        if old_enough(bond.block_height, height) {
            lemma_put(
                v.mixnodes,
                identity,
                rewarded_bond(bond, bond_reward(bond, bond_rate, height), total),
            );
        }
        lemma_rewarded_sum(delegations, delegation_rate, height);
        crate::model::lemma_delegation_reward_nonneg(delegation_rate, height);
        lemma_sum_nonneg(delegations, crate::model::delegation_reward_fn(delegation_rate, height));
        if has_key(v.mix_delegations, identity) {
            lemma_put(
                v.mix_delegations,
                identity,
                rewarded_delegations(delegations, delegation_rate, height),
            );
        } else {
            assert(rewarded_delegations(delegations, delegation_rate, height) =~= delegations);
        }
        assert forall|i: Seq<char>| #[trigger] lookup(w.mixnodes, i) is Some implies lookup(
            w.mixnodes,
            i,
        )->0.total_delegation.amount == w.delegated_total(i) by {
            if i != identity {
                assert(w.delegations_of(i) == v.delegations_of(i));
            } else {
                assert(w.delegations_of(i) == rewarded_delegations(delegations, delegation_rate, height));
                assert(v.delegated_total(i) == bond.total_delegation.amount);
                if old_enough(bond.block_height, height) {
                    assert(lookup(w.mixnodes, i)->0.total_delegation.amount == bond.total_delegation.amount + total);
                } else {
                    assert(total == 0);
                    assert(lookup(w.mixnodes, i)->0.total_delegation.amount == bond.total_delegation.amount);
                }
            }
        }
    }
}

/// A refused request changes nothing.
pub proof fn lemma_refused_requests_change_nothing(
    v: MixnetView,
    height: u64,
    sender: Seq<char>,
    funds: Seq<CoinView>,
    node: MixNodeView,
    gateway: GatewayView,
    params: StateParams,
    identity: Seq<char>,
    uptime: u32,
)
    ensures
        spec_try_add_mixnode(v, height, sender, funds, node).0 is Err ==> spec_try_add_mixnode(
            v,
            height,
            sender,
            funds,
            node,
        ).1 == v,
        spec_try_remove_mixnode(v, sender).0 is Err ==> spec_try_remove_mixnode(v, sender).1 == v,
        spec_try_add_gateway(v, height, sender, funds, gateway).0 is Err ==> spec_try_add_gateway(
            v,
            height,
            sender,
            funds,
            gateway,
        ).1 == v,
        spec_try_remove_gateway(v, sender).0 is Err ==> spec_try_remove_gateway(v, sender).1 == v,
        spec_try_update_state_params(v, sender, params).0 is Err ==> spec_try_update_state_params(
            v,
            sender,
            params,
        ).1 == v,
        spec_try_reward_mixnode(v, height, sender, identity, uptime).0 is Err
            ==> spec_try_reward_mixnode(v, height, sender, identity, uptime).1 == v,
        spec_try_delegate_to_mixnode(v, height, sender, funds, identity).0 is Err
            ==> spec_try_delegate_to_mixnode(v, height, sender, funds, identity).1 == v,
        spec_try_remove_delegation_from_mixnode(v, sender, identity).0 is Err
            ==> spec_try_remove_delegation_from_mixnode(v, sender, identity).1 == v,
{
}

/// Rewarding a node that was never up rewards nobody: the state stays as it
/// was and both reported increases are zero.
pub proof fn lemma_zero_uptime_rewards_nobody(
    v: MixnetView,
    height: u64,
    identity: Seq<char>,
)
    ensures
        spec_try_reward_mixnode(v, height, v.state.network_monitor_address, identity, 0).1 == v,
        spec_try_reward_mixnode(v, height, v.state.network_monitor_address, identity, 0).0
            == Ok::<ResponseView, ContractErrorView>(
            attributes_only(
                seq![
                    ("bond increase"@, decimal_text(0)),
                    ("total delegation increase"@, decimal_text(0)),
                ],
            ),
        ),
{
}

/// A node that was up all the time earns the whole per-epoch rate, and a
/// node up some of the time never earns more than it.
pub proof fn lemma_uptime_scaling(reward: Decimal, uptime: u32)
    requires
        uptime <= 100,
    ensures
        spec_scale_reward_by_uptime(reward, 100) == Ok::<Decimal, ContractErrorView>(reward),
        spec_scale_reward_by_uptime(reward, uptime)->Ok_0.atomics <= reward.atomics,
{
    assert((reward.atomics as int * uptime as int) / 100 <= reward.atomics) by (nonlinear_arith)
        requires
            uptime <= 100,
    ;
}

/// Delegating touches no other delegation: every other delegator's
/// delegation to every node, and the sender's delegations to other nodes,
/// stay as they were.
pub proof fn lemma_delegate_touches_no_other_delegation(
    v: MixnetView,
    height: u64,
    sender: Seq<char>,
    funds: Seq<CoinView>,
    identity: Seq<char>,
)
    requires
        v.wf(),
    ensures
        forall|i: Seq<char>, d: Seq<char>|
            !(i == identity && d == sender) ==> #[trigger] lookup(
                spec_try_delegate_to_mixnode(v, height, sender, funds, identity).1.delegations_of(i),
                d,
            ) == lookup(v.delegations_of(i), d),
{
    if delegate_error(v, funds, identity) is None {
        let new_amount = match lookup(v.delegations_of(identity), sender) {
            Some(d) => d.amount + funds[0].amount,
            None => funds[0].amount as int,
        };
        let d = RawDelegationData { amount: new_amount as u128, block_height: height };
        lemma_put_in_bucket(v.mix_delegations, identity, sender, d);
    }
}

/// Changing the parameters succeeds exactly for the owner with neither
/// annual rate below one; it then installs the new parameters, and each
/// per-epoch rate is either recomputed from its own new annual rate and the
/// new epoch length (the annual gain times the share of a 8760-hour year,
/// rounded down), where the epoch length or that annual rate changed, or
/// kept as it was.  Nothing else changes.
pub proof fn lemma_update_state_params_rates(v: MixnetView, sender: Seq<char>, params: StateParams)
    requires
        crate::model::update_state_params_admissible(v, sender, params),
    ensures
        ({
            let (r, w) = spec_try_update_state_params(v, sender, params);
            let old_params = v.state.params;
            &&& r is Ok <==> (sender == v.state.owner && params.mixnode_bond_reward_rate.atomics
                >= 1_000_000_000_000_000_000u128 && params.mixnode_delegation_reward_rate.atomics
                >= 1_000_000_000_000_000_000u128)
            &&& r is Ok ==> {
                &&& w.state.params == params
                &&& w.state.owner == v.state.owner
                &&& w.state.network_monitor_address == v.state.network_monitor_address
                &&& w.mixnodes == v.mixnodes
                &&& w.gateways == v.gateways
                &&& w.mix_delegations == v.mix_delegations
                &&& w.state.mixnode_epoch_bond_reward.atomics == (if old_params.epoch_length
                    != params.epoch_length || old_params.mixnode_bond_reward_rate
                    != params.mixnode_bond_reward_rate {
                    ((params.mixnode_bond_reward_rate.atomics - 1_000_000_000_000_000_000int)
                        * params.epoch_length) / 8760
                } else {
                    v.state.mixnode_epoch_bond_reward.atomics as int
                })
                &&& w.state.mixnode_epoch_delegation_reward.atomics == (if old_params.epoch_length
                    != params.epoch_length || old_params.mixnode_delegation_reward_rate
                    != params.mixnode_delegation_reward_rate {
                    ((params.mixnode_delegation_reward_rate.atomics - 1_000_000_000_000_000_000int)
                        * params.epoch_length) / 8760
                } else {
                    v.state.mixnode_epoch_delegation_reward.atomics as int
                })
            }
        }),
{
    let b = params.mixnode_bond_reward_rate.atomics - 1_000_000_000_000_000_000int;
    let d = params.mixnode_delegation_reward_rate.atomics - 1_000_000_000_000_000_000int;
    let e = params.epoch_length as int;
    if b >= 0 {
        assert((b * e) / 8760 >= 0) by (nonlinear_arith)
            requires
                b >= 0,
                e >= 0,
        ;
    }
    if d >= 0 {
        assert((d * e) / 8760 >= 0) by (nonlinear_arith)
            requires
                d >= 0,
                e >= 0,
        ;
    }
}

/// A successful bonding of a mixnode stores, under the node's identity, a
/// bond of exactly the one coin sent, in the contract's denomination and at
/// least the minimum, owned by the sender, dated to the block of the request,
/// carrying the node as announced and, as its total delegation, the sum of
/// the delegations already made to that identity; and records the sender as
/// its owner.
pub proof fn lemma_add_mixnode_stores_bond(
    v: MixnetView,
    height: u64,
    sender: Seq<char>,
    funds: Seq<CoinView>,
    node: MixNodeView,
)
    requires
        v.wf(),
        add_mixnode_admissible(v, sender, funds, node),
    ensures
        ({
            let (r, w) = spec_try_add_mixnode(v, height, sender, funds, node);
            r is Ok ==> {
                &&& funds.len() == 1
                &&& funds[0].denom == denom_text()
                &&& funds[0].amount >= v.state.params.minimum_mixnode_bond
                &&& lookup(w.mixnodes, node.identity_key) is Some
                &&& lookup(w.mixnodes, node.identity_key)->0.bond_amount == funds[0]
                &&& lookup(w.mixnodes, node.identity_key)->0.owner == sender
                &&& lookup(w.mixnodes, node.identity_key)->0.block_height == height
                &&& lookup(w.mixnodes, node.identity_key)->0.mix_node == node
                &&& lookup(w.mixnodes, node.identity_key)->0.total_delegation.denom == denom_text()
                &&& lookup(w.mixnodes, node.identity_key)->0.total_delegation.amount == sum_of(
                    bucket(v.mix_delegations, node.identity_key),
                    |d: RawDelegationData| d.amount as int,
                )
                &&& lookup(w.mixnode_owners, sender) == Some(node.identity_key)
            }
        }),
{
    if add_mixnode_error(v, sender, funds, node) is None {
        let bond = new_mixnode_bond(v, height, sender, funds, node);
        lemma_put(v.mixnodes, node.identity_key, bond);
        lemma_put(v.mixnode_owners, sender, node.identity_key);
        lemma_sum_nonneg(v.delegations_of(node.identity_key), delegation_amount());
        assert(delegation_amount() =~= |d: RawDelegationData| d.amount as int);
    }
}

/// A successful bonding of a gateway stores, under the gateway's identity, a
/// bond of exactly the one coin sent, in the contract's denomination and at
/// least the minimum, owned by the sender, dated to the block of the request
/// and carrying the gateway as announced; and records the sender as its owner.
pub proof fn lemma_add_gateway_stores_bond(
    v: MixnetView,
    height: u64,
    sender: Seq<char>,
    funds: Seq<CoinView>,
    gateway: GatewayView,
)
    requires
        v.wf(),
    ensures
        ({
            let (r, w) = spec_try_add_gateway(v, height, sender, funds, gateway);
            r is Ok ==> {
                &&& funds.len() == 1
                &&& funds[0].denom == denom_text()
                &&& funds[0].amount >= v.state.params.minimum_gateway_bond
                &&& lookup(w.gateways, gateway.identity_key) is Some
                &&& lookup(w.gateways, gateway.identity_key)->0.bond_amount == funds[0]
                &&& lookup(w.gateways, gateway.identity_key)->0.owner == sender
                &&& lookup(w.gateways, gateway.identity_key)->0.block_height == height
                &&& lookup(w.gateways, gateway.identity_key)->0.gateway == gateway
                &&& lookup(w.gateway_owners, sender) == Some(gateway.identity_key)
            }
        }),
{
    if add_gateway_error(v, sender, funds, gateway) is None {
        let bond = GatewayBondView { bond_amount: funds[0], owner: sender, block_height: height, gateway };
        lemma_put(v.gateways, gateway.identity_key, bond);
        lemma_put(v.gateway_owners, sender, gateway.identity_key);
    }
}

/// Unbonding a gateway succeeds exactly for a sender that owns one; it then
/// sends the sender exactly the bond stored for that gateway, and forgets
/// both the bond and the ownership.
pub proof fn lemma_remove_gateway_refunds_bond(v: MixnetView, sender: Seq<char>)
    requires
        v.wf(),
    ensures
        ({
            let (r, w) = spec_try_remove_gateway(v, sender);
            let identity = lookup(v.gateway_owners, sender)->0;
            &&& r is Ok <==> lookup(v.gateway_owners, sender) is Some
            &&& r is Ok ==> {
                &&& r->Ok_0.messages == seq![
                    BankMsgView::Send {
                        to_address: sender,
                        amount: seq![lookup(v.gateways, identity)->0.bond_amount],
                    },
                ]
                &&& lookup(w.gateways, identity) is None
                &&& lookup(w.gateway_owners, sender) is None
            }
        }),
{
    if has_key(v.gateway_owners, sender) {
        let identity = lookup(v.gateway_owners, sender)->0;
        lemma_delete(v.gateways, identity);
        lemma_delete(v.gateway_owners, sender);
    }
}

/// Unbonding a mixnode succeeds exactly for a sender that owns one; it then
/// sends the sender exactly the bond stored for that node, and forgets both
/// the bond and the ownership.
pub proof fn lemma_remove_mixnode_refunds_bond(v: MixnetView, sender: Seq<char>)
    requires
        v.wf(),
    ensures
        ({
            let (r, w) = spec_try_remove_mixnode(v, sender);
            let identity = lookup(v.mixnode_owners, sender)->0;
            &&& r is Ok <==> lookup(v.mixnode_owners, sender) is Some
            &&& r is Ok ==> {
                &&& r->Ok_0.messages == seq![
                    BankMsgView::Send {
                        to_address: sender,
                        amount: seq![lookup(v.mixnodes, identity)->0.bond_amount],
                    },
                ]
                &&& lookup(w.mixnodes, identity) is None
                &&& lookup(w.mixnode_owners, sender) is None
            }
        }),
{
    if has_key(v.mixnode_owners, sender) {
        let identity = lookup(v.mixnode_owners, sender)->0;
        lemma_delete(v.mixnodes, identity);
        lemma_delete(v.mixnode_owners, sender);
    }
}

/// Bonding a gateway by a sender that owned none, and then unbonding it,
/// refunds exactly the funds sent and leaves the whole state as it was.
pub proof fn lemma_gateway_unbond_refunds_funds(
    v: MixnetView,
    height: u64,
    sender: Seq<char>,
    funds: Seq<CoinView>,
    gateway: GatewayView,
)
    requires
        v.wf(),
        add_gateway_admissible(v, sender, funds, gateway),
        add_gateway_error(v, sender, funds, gateway) is None,
        lookup(v.gateway_owners, sender) is None,
    ensures
        spec_try_remove_gateway(spec_try_add_gateway(v, height, sender, funds, gateway).1, sender).1
            == v,
        spec_try_remove_gateway(
            spec_try_add_gateway(v, height, sender, funds, gateway).1,
            sender,
        ).0->Ok_0.messages == seq![BankMsgView::Send { to_address: sender, amount: seq![funds[0]] }],
{
    let w = spec_try_add_gateway(v, height, sender, funds, gateway).1;
    let x = spec_try_remove_gateway(w, sender).1;
    let id = gateway.identity_key;
    let bond = GatewayBondView { bond_amount: funds[0], owner: sender, block_height: height, gateway };
    assert(!has_key(v.gateway_owners, sender));
    assert(!has_key(v.gateways, id));
    lemma_put(v.gateways, id, bond);
    lemma_put(v.gateway_owners, sender, id);
    assert(w.gateways == v.gateways.push((id, bond)));
    assert(w.gateway_owners == v.gateway_owners.push((sender, id)));
    crate::store::lemma_key_pos(w.gateways, v.gateways.len() as int);
    crate::store::lemma_key_pos(w.gateway_owners, v.gateway_owners.len() as int);
    assert(x.gateways =~= v.gateways);
    assert(x.gateway_owners =~= v.gateway_owners);
    assert(x.layers == v.layers);
}

} // verus!
