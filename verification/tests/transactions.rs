use mixnet_contracts::rewards::{calculate_epoch_reward_rate, scale_reward_by_uptime};
use mixnet_contracts::store::KeyedStore;
use mixnet_contracts::transactions::{total_delegations, Env, MessageInfo, MixnetContract};
use mixnet_contracts::types::{
    Attribute, BankMsg, Coin, ContractError, Decimal, Gateway, GatewayBond, Layer,
    LayerDistribution, MixNode, MixNodeBond, RawDelegationData, Response, StateParams, DENOM,
    MINIMUM_BLOCK_AGE_FOR_REWARDING, OLD_DELEGATIONS_CHUNK_SIZE,
};
use mixnet_contracts::validation::{
    validate_delegation_stake, validate_gateway_bond, validate_mixnode_bond,
};

// ------------------------------------------------------------------ fixtures

const INITIAL_MIXNODE_BOND: u128 = 100_000000;
const INITIAL_GATEWAY_BOND: u128 = 100_000000;
const INITIAL_MIXNODE_BOND_REWARD_RATE: u64 = 110;
const INITIAL_MIXNODE_DELEGATION_REWARD_RATE: u64 = 110;
const INITIAL_DEFAULT_EPOCH_LENGTH: u32 = 720;
const INITIAL_MIXNODE_ACTIVE_SET_SIZE: u32 = 100;
const NETWORK_MONITOR_ADDRESS: &str = "network-monitor";
const DELEGATION_PAGE_DEFAULT_LIMIT: u32 = 500;

fn mock_env() -> Env {
    Env { block_height: 12_345 }
}

fn mock_info(sender: &str, funds: &[Coin]) -> MessageInfo {
    MessageInfo { sender: sender.to_string(), funds: funds.to_vec() }
}

fn coin(amount: u128, denom: &str) -> Coin {
    Coin { denom: denom.to_string(), amount }
}

fn coins(amount: u128, denom: &str) -> Vec<Coin> {
    vec![coin(amount, denom)]
}

fn attr(key: &str, value: impl ToString) -> Attribute {
    Attribute { key: key.to_string(), value: value.to_string() }
}

fn default_params() -> StateParams {
    StateParams {
        epoch_length: INITIAL_DEFAULT_EPOCH_LENGTH,
        minimum_mixnode_bond: INITIAL_MIXNODE_BOND,
        minimum_gateway_bond: INITIAL_GATEWAY_BOND,
        mixnode_bond_reward_rate: Decimal::percent(INITIAL_MIXNODE_BOND_REWARD_RATE),
        mixnode_delegation_reward_rate: Decimal::percent(INITIAL_MIXNODE_DELEGATION_REWARD_RATE),
        mixnode_active_set_size: INITIAL_MIXNODE_ACTIVE_SET_SIZE,
    }
}

fn init_contract() -> MixnetContract {
    MixnetContract::new("creator".to_string(), NETWORK_MONITOR_ADDRESS.to_string(), default_params())
}

fn good_mixnode_bond() -> Vec<Coin> {
    coins(INITIAL_MIXNODE_BOND, DENOM)
}

fn good_gateway_bond() -> Vec<Coin> {
    coins(INITIAL_GATEWAY_BOND, DENOM)
}

fn mix_node_fixture() -> MixNode {
    MixNode {
        host: "mix.node.org".to_string(),
        mix_port: 1789,
        verloc_port: 1790,
        http_api_port: 8000,
        sphinx_key: "sphinx".to_string(),
        identity_key: "identity".to_string(),
        version: "0.10.0".to_string(),
    }
}

fn gateway_fixture() -> Gateway {
    Gateway {
        host: "1.1.1.1".to_string(),
        mix_port: 1789,
        clients_port: 9000,
        location: "Sweden".to_string(),
        sphinx_key: "sphinx".to_string(),
        identity_key: "identity".to_string(),
        version: "0.10.0".to_string(),
    }
}

fn raw_delegation_fixture(amount: u128) -> RawDelegationData {
    RawDelegationData::new(amount, 42)
}

fn add_mixnode(sender: &str, stake: Vec<Coin>, c: &mut MixnetContract) -> String {
    let key = format!("{}mixnode", sender);
    c.try_add_mixnode(
        &mock_env(),
        &mock_info(sender, &stake),
        MixNode { identity_key: key.clone(), ..mix_node_fixture() },
    )
    .unwrap();
    key
}

fn add_gateway(sender: &str, stake: Vec<Coin>, c: &mut MixnetContract) -> String {
    let key = format!("{}gateway", sender);
    c.try_add_gateway(
        &mock_env(),
        &mock_info(sender, &stake),
        Gateway { identity_key: key.clone(), ..gateway_fixture() },
    )
    .unwrap();
    key
}

fn get_mix_nodes(c: &MixnetContract) -> Vec<MixNodeBond> {
    (0..c.mixnodes.len()).map(|i| c.mixnodes.value_at(i).clone()).collect()
}

fn get_gateways(c: &MixnetContract) -> Vec<GatewayBond> {
    (0..c.gateways.len()).map(|i| c.gateways.value_at(i).clone()).collect()
}

fn mixnode_owner_of(c: &MixnetContract, owner: &str) -> Option<String> {
    c.mixnode_owners.get(&owner.to_string()).cloned()
}

fn gateway_owner_of(c: &MixnetContract, owner: &str) -> Option<String> {
    c.gateway_owners.get(&owner.to_string()).cloned()
}

fn mixnode_bond(c: &MixnetContract, identity: &str) -> Option<MixNodeBond> {
    c.mixnodes.get(&identity.to_string()).cloned()
}

fn read_mixnode_bond(c: &MixnetContract, identity: &str) -> u128 {
    mixnode_bond(c, identity).unwrap().bond_amount.amount
}

fn read_mixnode_delegation(c: &MixnetContract, identity: &str) -> u128 {
    mixnode_bond(c, identity).unwrap().total_delegation.amount
}

fn delegation_of(c: &MixnetContract, identity: &str, delegator: &str) -> Option<RawDelegationData> {
    c.mix_delegations.get_in_bucket(&identity.to_string(), &delegator.to_string()).cloned()
}

fn reverse_delegation_exists(c: &MixnetContract, delegator: &str, identity: &str) -> bool {
    c.reverse_mix_delegations.get_in_bucket(&delegator.to_string(), &identity.to_string()).is_some()
}

fn save_mix_delegation(c: &mut MixnetContract, identity: &str, delegator: &str, d: RawDelegationData) {
    c.mix_delegations.insert_in_bucket(identity.to_string(), delegator.to_string(), d);
}

/// `Uint128 * Decimal`, as the rewards are computed.
fn mul(amount: u128, rate: Decimal) -> u128 {
    (cosmwasm_std::Uint128::new(amount) * cosmwasm_std::Decimal::raw(rate.atomics)).u128()
}

fn epoch_bond_reward_rate(c: &MixnetContract) -> Decimal {
    c.state.mixnode_epoch_bond_reward
}

fn epoch_delegation_reward_rate(c: &MixnetContract) -> Decimal {
    c.state.mixnode_epoch_delegation_reward
}

// ------------------------------------------------------------------ tests

#[test]
fn validating_mixnode_bond() {
    // you must send SOME funds
    let result = validate_mixnode_bond(&[], INITIAL_MIXNODE_BOND);
    assert_eq!(result, Err(ContractError::NoBondFound));

    // you must send at least 100 coins...
    let mut bond = good_mixnode_bond();
    bond[0].amount = INITIAL_MIXNODE_BOND.checked_sub(1).unwrap();
    let result = validate_mixnode_bond(&bond, INITIAL_MIXNODE_BOND);
    assert_eq!(
        result,
        Err(ContractError::InsufficientMixNodeBond {
            received: INITIAL_MIXNODE_BOND - 1,
            minimum: INITIAL_MIXNODE_BOND,
        })
    );

    // more than that is still fine
    let mut bond = good_mixnode_bond();
    bond[0].amount = INITIAL_MIXNODE_BOND + 1;
    let result = validate_mixnode_bond(&bond, INITIAL_MIXNODE_BOND);
    assert!(result.is_ok());

    // it must be sent in the defined denom!
    let mut bond = good_mixnode_bond();
    bond[0].denom = "baddenom".to_string();
    let result = validate_mixnode_bond(&bond, INITIAL_MIXNODE_BOND);
    assert_eq!(result, Err(ContractError::WrongDenom {}));

    let mut bond = good_mixnode_bond();
    bond[0].denom = "foomp".to_string();
    let result = validate_mixnode_bond(&bond, INITIAL_MIXNODE_BOND);
    assert_eq!(result, Err(ContractError::WrongDenom {}));
}

#[test]
fn mixnode_add() {
    let mut c = init_contract();

    // if we don't send enough funds
    let insufficient_bond = INITIAL_MIXNODE_BOND - 1;
    let info = mock_info("anyone", &coins(insufficient_bond, DENOM));
    let node = MixNode { identity_key: "anyonesmixnode".into(), ..mix_node_fixture() };

    // we are informed that we didn't send enough funds
    let result = c.try_add_mixnode(&mock_env(), &info, node);
    assert_eq!(
        result,
        Err(ContractError::InsufficientMixNodeBond {
            received: insufficient_bond,
            minimum: INITIAL_MIXNODE_BOND,
        })
    );

    // no mixnode was inserted into the topology
    assert_eq!(0, get_mix_nodes(&c).len());

    // if we send enough funds
    let info = mock_info("anyone", &good_mixnode_bond());
    let node = MixNode { identity_key: "anyonesmixnode".into(), ..mix_node_fixture() };

    // we get back a message telling us everything was OK
    let execute_response = c.try_add_mixnode(&mock_env(), &info, node);
    assert!(execute_response.is_ok());

    // we can query topology and the new node is there
    let nodes = get_mix_nodes(&c);
    assert_eq!(1, nodes.len());
    assert_eq!(
        MixNode { identity_key: "anyonesmixnode".into(), ..mix_node_fixture() },
        nodes[0].mix_node
    );

    // if there was already a mixnode bonded by particular user
    let info = mock_info("foomper", &good_mixnode_bond());
    let node = MixNode { identity_key: "foompermixnode".into(), ..mix_node_fixture() };
    let execute_response = c.try_add_mixnode(&mock_env(), &info, node).unwrap();
    assert_eq!(execute_response.attributes[0], attr("overwritten", false.to_string()));

    let info = mock_info("foomper", &good_mixnode_bond());
    let node = MixNode { identity_key: "foompermixnode".into(), ..mix_node_fixture() };

    // we get a log message about it
    let execute_response = c.try_add_mixnode(&mock_env(), &info, node).unwrap();
    assert_eq!(execute_response.attributes[0], attr("overwritten", true.to_string()));

    // bonding fails if the user already owns a gateway
    let info = mock_info("gateway-owner", &good_gateway_bond());
    let gateway = Gateway { identity_key: "ownersgateway".into(), ..gateway_fixture() };
    c.try_add_gateway(&mock_env(), &info, gateway).unwrap();

    let info = mock_info("gateway-owner", &good_mixnode_bond());
    let node = MixNode { identity_key: "ownersmixnode".into(), ..mix_node_fixture() };
    let execute_response = c.try_add_mixnode(&mock_env(), &info, node);
    assert_eq!(execute_response, Err(ContractError::AlreadyOwnsGateway));

    // but after he unbonds it, it's all fine again
    let info = mock_info("gateway-owner", &[]);
    c.try_remove_gateway(&info).unwrap();

    let info = mock_info("gateway-owner", &good_mixnode_bond());
    let node = MixNode { identity_key: "ownersmixnode".into(), ..mix_node_fixture() };
    let execute_response = c.try_add_mixnode(&mock_env(), &info, node);
    assert!(execute_response.is_ok());
}

#[test]
fn adding_mixnode_without_existing_owner() {
    let mut c = init_contract();

    let info = mock_info("mix-owner", &good_mixnode_bond());
    let node = MixNode { identity_key: "myAwesomeMixnode".to_string(), ..mix_node_fixture() };

    // before the execution the node had no associated owner
    assert!(mixnode_owner_of(&c, "myAwesomeMixnode").is_none());

    // it's all fine, owner is saved
    let execute_response = c.try_add_mixnode(&mock_env(), &info, node);
    assert!(execute_response.is_ok());

    assert_eq!(Some("myAwesomeMixnode".to_string()), mixnode_owner_of(&c, "mix-owner"));
}

#[test]
fn adding_mixnode_with_existing_owner() {
    let mut c = init_contract();

    let info = mock_info("mix-owner", &good_mixnode_bond());
    let node = MixNode { identity_key: "myAwesomeMixnode".to_string(), ..mix_node_fixture() };
    c.try_add_mixnode(&mock_env(), &info, node).unwrap();

    // request fails giving the existing owner address in the message
    let info = mock_info("mix-owner-pretender", &good_mixnode_bond());
    let node = MixNode { identity_key: "myAwesomeMixnode".to_string(), ..mix_node_fixture() };
    let execute_response = c.try_add_mixnode(&mock_env(), &info, node);
    assert_eq!(
        Err(ContractError::DuplicateMixnode { owner: "mix-owner".to_string() }),
        execute_response
    );
}

#[test]
fn adding_mixnode_with_existing_unchanged_owner() {
    let mut c = init_contract();

    let info = mock_info("mix-owner", &good_mixnode_bond());
    let node = MixNode {
        identity_key: "myAwesomeMixnode".to_string(),
        host: "1.1.1.1:1789".into(),
        ..mix_node_fixture()
    };
    c.try_add_mixnode(&mock_env(), &info, node).unwrap();

    let info = mock_info("mix-owner", &good_mixnode_bond());
    let node = MixNode {
        identity_key: "myAwesomeMixnode".to_string(),
        host: "2.2.2.2:1789".into(),
        ..mix_node_fixture()
    };
    assert!(c.try_add_mixnode(&mock_env(), &info, node).is_ok());

    // make sure the host information was updated
    assert_eq!(
        "2.2.2.2:1789".to_string(),
        mixnode_bond(&c, "myAwesomeMixnode").unwrap().mix_node.host
    );
}

#[test]
fn adding_mixnode_updates_layer_distribution() {
    let mut c = init_contract();

    assert_eq!(LayerDistribution::default(), c.layers);

    let info = mock_info("mix-owner", &good_mixnode_bond());
    let node = MixNode { identity_key: "mix1".to_string(), ..mix_node_fixture() };
    c.try_add_mixnode(&mock_env(), &info, node).unwrap();
    assert_eq!(LayerDistribution { layer1: 1, ..Default::default() }, c.layers);
}

#[test]
fn mixnode_remove() {
    let mut c = init_contract();

    // try un-registering when no nodes exist yet
    let info = mock_info("anyone", &[]);
    let result = c.try_remove_mixnode(&info);

    // we're told that there is no node for our address
    assert_eq!(
        result,
        Err(ContractError::NoAssociatedMixNodeBond { owner: "anyone".to_string() })
    );

    // let's add a node owned by bob
    add_mixnode("bob", good_mixnode_bond(), &mut c);

    // attempt to un-register fred's node, which doesn't exist
    let info = mock_info("fred", &[]);
    let result = c.try_remove_mixnode(&info);
    assert_eq!(
        result,
        Err(ContractError::NoAssociatedMixNodeBond { owner: "fred".to_string() })
    );

    // bob's node is still there
    let nodes = get_mix_nodes(&c);
    assert_eq!(1, nodes.len());
    assert_eq!("bob", nodes[0].owner);

    // add a node owned by fred
    let info = mock_info("fred", &good_mixnode_bond());
    c.try_add_mixnode(
        &mock_env(),
        &info,
        MixNode { identity_key: "fredsmixnode".to_string(), ..mix_node_fixture() },
    )
    .unwrap();

    // let's make sure we now have 2 nodes:
    assert_eq!(2, get_mix_nodes(&c).len());

    // un-register fred's node
    let info = mock_info("fred", &[]);
    let remove_fred = c.try_remove_mixnode(&info).unwrap();

    // we should see log messages come back showing an unbond message
    let expected_attributes = vec![
        attr("action", "unbond"),
        attr(
            "mixnode_bond",
            format!(
                "amount: {} {}, owner: fred, identity: fredsmixnode",
                INITIAL_MIXNODE_BOND, DENOM
            ),
        ),
    ];

    // we should see a funds transfer from the contract back to fred
    let expected_message =
        BankMsg::Send { to_address: info.sender.clone(), amount: good_mixnode_bond() };

    // run the executer and check that we got back the correct results
    let expected = Response { attributes: expected_attributes, messages: vec![expected_message] };

    assert_eq!(remove_fred, expected);

    // only 1 node now exists, owned by bob:
    let mix_node_bonds = get_mix_nodes(&c);
    assert_eq!(1, mix_node_bonds.len());
    assert_eq!("bob", mix_node_bonds[0].owner);
}

#[test]
fn removing_mixnode_clears_ownership() {
    let mut c = init_contract();

    let info = mock_info("mix-owner", &good_mixnode_bond());
    let node = MixNode { identity_key: "myAwesomeMixnode".to_string(), ..mix_node_fixture() };
    c.try_add_mixnode(&mock_env(), &info, node).unwrap();
    assert_eq!(Some("myAwesomeMixnode".to_string()), mixnode_owner_of(&c, "mix-owner"));

    let info = mock_info("mix-owner", &[]);
    assert!(c.try_remove_mixnode(&info).is_ok());

    assert!(mixnode_owner_of(&c, "mix-owner").is_none());

    // and since it's removed, it can be reclaimed
    let info = mock_info("mix-owner", &good_mixnode_bond());
    let node = MixNode { identity_key: "myAwesomeMixnode".to_string(), ..mix_node_fixture() };
    assert!(c.try_add_mixnode(&mock_env(), &info, node).is_ok());
    assert_eq!(Some("myAwesomeMixnode".to_string()), mixnode_owner_of(&c, "mix-owner"));
}

#[test]
fn validating_gateway_bond() {
    // you must send SOME funds
    let result = validate_gateway_bond(&[], INITIAL_GATEWAY_BOND);
    assert_eq!(result, Err(ContractError::NoBondFound));

    // you must send at least 100 coins...
    let mut bond = good_gateway_bond();
    bond[0].amount = INITIAL_GATEWAY_BOND.checked_sub(1).unwrap();
    let result = validate_gateway_bond(&bond, INITIAL_GATEWAY_BOND);
    assert_eq!(
        result,
        Err(ContractError::InsufficientGatewayBond {
            received: INITIAL_GATEWAY_BOND - 1,
            minimum: INITIAL_GATEWAY_BOND,
        })
    );

    // more than that is still fine
    let mut bond = good_gateway_bond();
    bond[0].amount = INITIAL_GATEWAY_BOND + 1;
    let result = validate_gateway_bond(&bond, INITIAL_GATEWAY_BOND);
    assert!(result.is_ok());

    // it must be sent in the defined denom!
    let mut bond = good_gateway_bond();
    bond[0].denom = "baddenom".to_string();
    let result = validate_gateway_bond(&bond, INITIAL_GATEWAY_BOND);
    assert_eq!(result, Err(ContractError::WrongDenom {}));

    let mut bond = good_gateway_bond();
    bond[0].denom = "foomp".to_string();
    let result = validate_gateway_bond(&bond, INITIAL_GATEWAY_BOND);
    assert_eq!(result, Err(ContractError::WrongDenom {}));
}

#[test]
fn gateway_add() {
    let mut c = init_contract();

    // if we fail validation (by say not sending enough funds
    let insufficient_bond = INITIAL_GATEWAY_BOND - 1;
    let info = mock_info("anyone", &coins(insufficient_bond, DENOM));

    // we are informed that we didn't send enough funds
    let result = c.try_add_gateway(&mock_env(), &info, gateway_fixture());
    assert_eq!(
        result,
        Err(ContractError::InsufficientGatewayBond {
            received: insufficient_bond,
            minimum: INITIAL_GATEWAY_BOND,
        })
    );

    // make sure no gateway was inserted into the topology
    assert_eq!(0, get_gateways(&c).len());

    // if we send enough funds
    let info = mock_info("anyone", &good_gateway_bond());
    let gateway = Gateway { identity_key: "anyonesgateway".into(), ..gateway_fixture() };

    // we get back a message telling us everything was OK
    let execute_response = c.try_add_gateway(&mock_env(), &info, gateway);
    assert!(execute_response.is_ok());

    // we can query topology and the new node is there
    let nodes = get_gateways(&c);
    assert_eq!(1, nodes.len());
    assert_eq!(
        Gateway { identity_key: "anyonesgateway".into(), ..gateway_fixture() },
        nodes[0].gateway
    );

    // if there was already a gateway bonded by particular user
    let info = mock_info("foomper", &good_gateway_bond());
    let gateway = Gateway { identity_key: "foompersgateway".into(), ..gateway_fixture() };
    let execute_response = c.try_add_gateway(&mock_env(), &info, gateway).unwrap();
    assert_eq!(execute_response.attributes[0], attr("overwritten", false.to_string()));

    let info = mock_info("foomper", &good_gateway_bond());
    let gateway = Gateway { identity_key: "foompersgateway".into(), ..gateway_fixture() };

    // we get a log message about it
    let execute_response = c.try_add_gateway(&mock_env(), &info, gateway).unwrap();
    assert_eq!(execute_response.attributes[0], attr("overwritten", true.to_string()));

    // bonding fails if the user already owns a mixnode
    let info = mock_info("mixnode-owner", &good_mixnode_bond());
    let node = MixNode { identity_key: "ownersmix".into(), ..mix_node_fixture() };
    c.try_add_mixnode(&mock_env(), &info, node).unwrap();

    let info = mock_info("mixnode-owner", &good_gateway_bond());
    let execute_response = c.try_add_gateway(&mock_env(), &info, gateway_fixture());
    assert_eq!(execute_response, Err(ContractError::AlreadyOwnsMixnode));

    // but after he unbonds it, it's all fine again
    let info = mock_info("mixnode-owner", &[]);
    c.try_remove_mixnode(&info).unwrap();

    let info = mock_info("mixnode-owner", &good_gateway_bond());
    let execute_response = c.try_add_gateway(&mock_env(), &info, gateway_fixture());
    assert!(execute_response.is_ok());
}

#[test]
fn adding_gateway_without_existing_owner() {
    let mut c = init_contract();

    let info = mock_info("gateway-owner", &good_gateway_bond());
    let gateway = Gateway { identity_key: "myAwesomeGateway".to_string(), ..gateway_fixture() };

    // before the execution the node had no associated owner
    assert!(gateway_owner_of(&c, "gateway-owner").is_none());

    // it's all fine, owner is saved
    let execute_response = c.try_add_gateway(&mock_env(), &info, gateway);
    assert!(execute_response.is_ok());

    assert_eq!(Some("myAwesomeGateway".to_string()), gateway_owner_of(&c, "gateway-owner"));
}

#[test]
fn adding_gateway_with_existing_owner() {
    let mut c = init_contract();

    let info = mock_info("gateway-owner", &good_gateway_bond());
    let gateway = Gateway { identity_key: "myAwesomeGateway".to_string(), ..gateway_fixture() };
    c.try_add_gateway(&mock_env(), &info, gateway).unwrap();

    // request fails giving the existing owner address in the message
    let info = mock_info("gateway-owner-pretender", &good_gateway_bond());
    let gateway = Gateway { identity_key: "myAwesomeGateway".to_string(), ..gateway_fixture() };
    let execute_response = c.try_add_gateway(&mock_env(), &info, gateway);
    assert_eq!(
        Err(ContractError::DuplicateGateway { owner: "gateway-owner".to_string() }),
        execute_response
    );
}

#[test]
fn adding_gateway_with_existing_unchanged_owner() {
    let mut c = init_contract();

    let info = mock_info("gateway-owner", &good_gateway_bond());
    let gateway = Gateway {
        identity_key: "myAwesomeGateway".to_string(),
        host: "1.1.1.1".into(),
        ..gateway_fixture()
    };
    c.try_add_gateway(&mock_env(), &info, gateway).unwrap();

    let info = mock_info("gateway-owner", &good_gateway_bond());
    let gateway = Gateway {
        identity_key: "myAwesomeGateway".to_string(),
        host: "2.2.2.2".into(),
        ..gateway_fixture()
    };
    assert!(c.try_add_gateway(&mock_env(), &info, gateway).is_ok());

    // make sure the host information was updated
    assert_eq!(
        "2.2.2.2".to_string(),
        c.gateways.get(&"myAwesomeGateway".to_string()).unwrap().gateway.host
    );
}

#[test]
fn gateway_remove() {
    let mut c = init_contract();

    // try unbond when no nodes exist yet
    let info = mock_info("anyone", &[]);
    let result = c.try_remove_gateway(&info);

    // we're told that there is no node for our address
    assert_eq!(
        result,
        Err(ContractError::NoAssociatedGatewayBond { owner: "anyone".to_string() })
    );

    // let's add a node owned by bob
    add_gateway("bob", good_gateway_bond(), &mut c);

    // attempt to unbond fred's node, which doesn't exist
    let info = mock_info("fred", &[]);
    let result = c.try_remove_gateway(&info);
    assert_eq!(
        result,
        Err(ContractError::NoAssociatedGatewayBond { owner: "fred".to_string() })
    );

    // bob's node is still there
    let nodes = get_gateways(&c);
    assert_eq!(1, nodes.len());

    let first_node = &nodes[0];
    assert_eq!("bob", first_node.owner);

    // add a node owned by fred
    let info = mock_info("fred", &good_gateway_bond());
    c.try_add_gateway(
        &mock_env(),
        &info,
        Gateway { identity_key: "fredsgateway".into(), ..gateway_fixture() },
    )
    .unwrap();

    // let's make sure we now have 2 nodes:
    assert_eq!(2, get_gateways(&c).len());

    // unbond fred's node
    let info = mock_info("fred", &[]);
    let remove_fred = c.try_remove_gateway(&info).unwrap();

    // we should see log messages come back showing an unbond message
    let expected_attributes = vec![
        attr("action", "unbond"),
        attr("address", "fred"),
        attr(
            "gateway_bond",
            format!(
                "amount: {} {}, owner: fred, identity: fredsgateway",
                INITIAL_GATEWAY_BOND, DENOM
            ),
        ),
    ];

    // we should see a funds transfer from the contract back to fred
    let expected_message =
        BankMsg::Send { to_address: info.sender.clone(), amount: good_mixnode_bond() };

    // run the executer and check that we got back the correct results
    let expected = Response { attributes: expected_attributes, messages: vec![expected_message] };

    assert_eq!(remove_fred, expected);

    // only 1 node now exists, owned by bob:
    let gateway_bonds = get_gateways(&c);
    assert_eq!(1, gateway_bonds.len());
    assert_eq!("bob", gateway_bonds[0].owner);
}

#[test]
fn removing_gateway_clears_ownership() {
    let mut c = init_contract();

    let info = mock_info("gateway-owner", &good_mixnode_bond());
    let gateway = Gateway { identity_key: "myAwesomeGateway".to_string(), ..gateway_fixture() };
    c.try_add_gateway(&mock_env(), &info, gateway).unwrap();
    assert_eq!(Some("myAwesomeGateway".to_string()), gateway_owner_of(&c, "gateway-owner"));

    let info = mock_info("gateway-owner", &[]);
    assert!(c.try_remove_gateway(&info).is_ok());

    assert!(gateway_owner_of(&c, "gateway-owner").is_none());

    // and since it's removed, it can be reclaimed
    let info = mock_info("gateway-owner", &good_mixnode_bond());
    let gateway = Gateway { identity_key: "myAwesomeGateway".to_string(), ..gateway_fixture() };
    assert!(c.try_add_gateway(&mock_env(), &info, gateway).is_ok());
    assert_eq!(Some("myAwesomeGateway".to_string()), gateway_owner_of(&c, "gateway-owner"));
}

#[test]
fn updating_state_params() {
    let mut c = init_contract();

    let new_params = StateParams {
        epoch_length: INITIAL_DEFAULT_EPOCH_LENGTH,
        minimum_mixnode_bond: INITIAL_MIXNODE_BOND,
        minimum_gateway_bond: INITIAL_GATEWAY_BOND,
        mixnode_bond_reward_rate: Decimal::percent(INITIAL_MIXNODE_BOND_REWARD_RATE),
        mixnode_delegation_reward_rate: Decimal::percent(INITIAL_MIXNODE_DELEGATION_REWARD_RATE),
        mixnode_active_set_size: 42, // change something
    };

    // cannot be updated from non-owner account
    let info = mock_info("not-the-creator", &[]);
    let res = c.try_update_state_params(&info, new_params);
    assert_eq!(res, Err(ContractError::Unauthorized));

    // but works fine from the creator account
    let info = mock_info("creator", &[]);
    let res = c.try_update_state_params(&info, new_params);
    assert_eq!(res, Ok(Response::default()));

    // and the state is actually updated
    let current_state = c.state.clone();
    assert_eq!(current_state.params, new_params);

    // mixnode_epoch_rewards are recalculated if annual reward  is changed
    let current_mix_bond_reward_rate = epoch_bond_reward_rate(&c);
    let current_mix_delegation_reward_rate = epoch_delegation_reward_rate(&c);
    let new_mixnode_bond_reward_rate = Decimal::percent(120);
    let new_mixnode_delegation_reward_rate = Decimal::percent(120);

    // sanity check to make sure we are actually updating the values (in case we changed defaults at some point)
    assert_ne!(new_mixnode_bond_reward_rate, current_mix_bond_reward_rate);
    assert_ne!(new_mixnode_delegation_reward_rate, current_mix_delegation_reward_rate);

    let mut new_params = current_state.params;
    new_params.mixnode_bond_reward_rate = new_mixnode_bond_reward_rate;
    new_params.mixnode_delegation_reward_rate = new_mixnode_delegation_reward_rate;

    let info = mock_info("creator", &[]);
    c.try_update_state_params(&info, new_params).unwrap();

    let new_state = c.state.clone();
    let expected_bond =
        calculate_epoch_reward_rate(new_params.epoch_length, new_mixnode_bond_reward_rate);
    let expected_delegation =
        calculate_epoch_reward_rate(new_params.epoch_length, new_mixnode_delegation_reward_rate);
    assert_eq!(expected_bond, new_state.mixnode_epoch_bond_reward);
    assert_eq!(expected_delegation, new_state.mixnode_epoch_delegation_reward);

    // mixnode_epoch_rewards is updated on epoch length change
    let new_epoch_length = 42;
    // sanity check to make sure we are actually updating the value (in case we changed defaults at some point)
    assert_ne!(new_epoch_length, current_state.params.epoch_length);
    let mut new_params = current_state.params;
    new_params.epoch_length = new_epoch_length;

    let info = mock_info("creator", &[]);
    c.try_update_state_params(&info, new_params).unwrap();

    let new_state = c.state.clone();
    let expected_mixnode_bond =
        calculate_epoch_reward_rate(new_epoch_length, new_params.mixnode_bond_reward_rate);
    let expected_mixnode_delegation =
        calculate_epoch_reward_rate(new_epoch_length, new_params.mixnode_delegation_reward_rate);
    assert_eq!(expected_mixnode_bond, new_state.mixnode_epoch_bond_reward);
    assert_eq!(expected_mixnode_delegation, new_state.mixnode_epoch_delegation_reward);
}

#[test]
fn rewarding_mixnode() {
    let mut c = init_contract();
    let mut env = mock_env();
    let network_monitor_address = c.state.network_monitor_address.clone();

    let node_owner = "node-owner".to_string();
    let node_identity = "nodeidentity".to_string();

    // errors out if executed by somebody else than network monitor
    let info = mock_info("not-the-monitor", &[]);
    let res = c.try_reward_mixnode(&env, &info, node_identity.clone(), 100);
    assert_eq!(res, Err(ContractError::Unauthorized));

    // returns bond not found attribute if the target owner hasn't bonded any mixnodes
    let info = mock_info(&network_monitor_address, &[]);
    let res = c.try_reward_mixnode(&env, &info, node_identity.clone(), 100).unwrap();
    assert_eq!(vec![attr("result", "bond not found")], res.attributes);

    let initial_bond = 100_000000;
    let initial_delegation = 200_000000;
    let mixnode_bond = MixNodeBond {
        bond_amount: coin(initial_bond, DENOM),
        total_delegation: coin(initial_delegation, DENOM),
        owner: node_owner.clone(),
        layer: Layer::One,
        block_height: env.block_height,
        mix_node: MixNode { identity_key: node_identity.clone(), ..mix_node_fixture() },
    };

    c.mixnodes.insert(node_identity.clone(), mixnode_bond);
    save_mix_delegation(
        &mut c,
        &node_identity,
        "delegator",
        RawDelegationData::new(initial_delegation, env.block_height),
    );

    env.block_height += 2 * MINIMUM_BLOCK_AGE_FOR_REWARDING;

    let bond_reward_rate = epoch_bond_reward_rate(&c);
    let delegation_reward_rate = epoch_delegation_reward_rate(&c);
    let expected_bond_reward = mul(initial_bond, bond_reward_rate);
    let expected_delegation_reward = mul(initial_delegation, delegation_reward_rate);

    // the node's bond and delegations are correctly increased and scaled by uptime
    // if node was 100% up, it will get full epoch reward
    let expected_bond = expected_bond_reward + initial_bond;
    let expected_delegation = expected_delegation_reward + initial_delegation;

    let info = mock_info(&network_monitor_address, &[]);
    let res = c.try_reward_mixnode(&env, &info, node_identity.clone(), 100).unwrap();

    assert_eq!(expected_bond, read_mixnode_bond(&c, &node_identity));
    assert_eq!(expected_delegation, read_mixnode_delegation(&c, &node_identity));

    assert_eq!(
        vec![
            attr("bond increase", expected_bond_reward),
            attr("total delegation increase", expected_delegation_reward),
        ],
        res.attributes
    );

    // if node was 20% up, it will get 1/5th of epoch reward
    let scaled_bond_reward = scale_reward_by_uptime(bond_reward_rate, 20).unwrap();
    let scaled_delegation_reward = scale_reward_by_uptime(delegation_reward_rate, 20).unwrap();
    let expected_bond_reward = mul(expected_bond, scaled_bond_reward);
    let expected_delegation_reward = mul(expected_delegation, scaled_delegation_reward);
    let expected_bond = expected_bond_reward + expected_bond;
    let expected_delegation = expected_delegation_reward + expected_delegation;

    let info = mock_info(&network_monitor_address, &[]);
    let res = c.try_reward_mixnode(&env, &info, node_identity.clone(), 20).unwrap();

    assert_eq!(expected_bond, read_mixnode_bond(&c, &node_identity));
    assert_eq!(expected_delegation, read_mixnode_delegation(&c, &node_identity));

    assert_eq!(
        vec![
            attr("bond increase", expected_bond_reward),
            attr("total delegation increase", expected_delegation_reward),
        ],
        res.attributes
    );
}

#[test]
fn rewarding_mixnode_blockstamp_based() {
    let mut c = init_contract();
    let mut env = mock_env();
    let network_monitor_address = c.state.network_monitor_address.clone();

    let node_owner = "node-owner".to_string();
    let node_identity = "nodeidentity".to_string();

    let initial_bond = 100_000000;
    let initial_delegation = 200_000000;
    let mixnode_bond = MixNodeBond {
        bond_amount: coin(initial_bond, DENOM),
        total_delegation: coin(initial_delegation, DENOM),
        owner: node_owner.clone(),
        layer: Layer::One,
        block_height: env.block_height,
        mix_node: MixNode { identity_key: node_identity.clone(), ..mix_node_fixture() },
    };

    c.mixnodes.insert(node_identity.clone(), mixnode_bond);

    // delegation happens later, but not later enough
    env.block_height += MINIMUM_BLOCK_AGE_FOR_REWARDING - 1;

    save_mix_delegation(
        &mut c,
        &node_identity,
        "delegator",
        RawDelegationData::new(initial_delegation, env.block_height),
    );

    let bond_reward_rate = epoch_bond_reward_rate(&c);
    let delegation_reward_rate = epoch_delegation_reward_rate(&c);
    let scaled_bond_reward = scale_reward_by_uptime(bond_reward_rate, 100).unwrap();
    let scaled_delegation_reward = scale_reward_by_uptime(delegation_reward_rate, 100).unwrap();

    // no reward is due
    let expected_bond_reward = 0;
    let expected_delegation_reward = 0;
    let expected_bond = expected_bond_reward + initial_bond;
    let expected_delegation = expected_delegation_reward + initial_delegation;

    let info = mock_info(&network_monitor_address, &[]);
    let res = c.try_reward_mixnode(&env, &info, node_identity.clone(), 100).unwrap();

    assert_eq!(expected_bond, read_mixnode_bond(&c, &node_identity));
    assert_eq!(expected_delegation, read_mixnode_delegation(&c, &node_identity));

    assert_eq!(
        vec![
            attr("bond increase", expected_bond_reward),
            attr("total delegation increase", expected_delegation_reward),
        ],
        res.attributes
    );

    // reward can happen now, but only for bonded node
    env.block_height += 1;
    let expected_bond_reward = mul(expected_bond, scaled_bond_reward);
    let expected_delegation_reward = 0;
    let expected_bond = expected_bond_reward + expected_bond;
    let expected_delegation = expected_delegation_reward + expected_delegation;

    let info = mock_info(&network_monitor_address, &[]);
    let res = c.try_reward_mixnode(&env, &info, node_identity.clone(), 100).unwrap();

    assert_eq!(expected_bond, read_mixnode_bond(&c, &node_identity));
    assert_eq!(expected_delegation, read_mixnode_delegation(&c, &node_identity));

    assert_eq!(
        vec![
            attr("bond increase", expected_bond_reward),
            attr("total delegation increase", expected_delegation_reward),
        ],
        res.attributes
    );

    // reward happens now, both for node owner and delegators
    env.block_height += MINIMUM_BLOCK_AGE_FOR_REWARDING - 1;
    let expected_bond_reward = mul(expected_bond, scaled_bond_reward);
    let expected_delegation_reward = mul(expected_delegation, scaled_delegation_reward);
    let expected_bond = expected_bond_reward + expected_bond;
    let expected_delegation = expected_delegation_reward + expected_delegation;

    let info = mock_info(&network_monitor_address, &[]);
    let res = c.try_reward_mixnode(&env, &info, node_identity.clone(), 100).unwrap();

    assert_eq!(expected_bond, read_mixnode_bond(&c, &node_identity));
    assert_eq!(expected_delegation, read_mixnode_delegation(&c, &node_identity));

    assert_eq!(
        vec![
            attr("bond increase", expected_bond_reward),
            attr("total delegation increase", expected_delegation_reward),
        ],
        res.attributes
    );
}

#[test]
fn stake_cant_be_empty() {
    assert_eq!(Err(ContractError::EmptyDelegation), validate_delegation_stake(&[]))
}

#[test]
fn stake_must_have_single_coin_type() {
    assert_eq!(
        Err(ContractError::MultipleDenoms),
        validate_delegation_stake(&[coin(123, DENOM), coin(123, "BTC"), coin(123, "DOGE")])
    )
}

#[test]
fn stake_coin_must_be_of_correct_type() {
    assert_eq!(Err(ContractError::WrongDenom {}), validate_delegation_stake(&[coin(123, "DOGE")]))
}

#[test]
fn stake_coin_must_have_value_greater_than_zero() {
    assert_eq!(Err(ContractError::EmptyDelegation), validate_delegation_stake(&[coin(0, DENOM)]))
}

#[test]
fn stake_can_have_any_positive_value() {
    // this might change in the future, but right now an arbitrary (positive) value can be delegated
    assert!(validate_delegation_stake(&[coin(1, DENOM)]).is_ok());
    assert!(validate_delegation_stake(&[coin(123, DENOM)]).is_ok());
    assert!(validate_delegation_stake(&[coin(10000000000, DENOM)]).is_ok());
}

#[test]
fn fails_if_node_doesnt_exist() {
    let mut c = init_contract();
    assert_eq!(
        Err(ContractError::MixNodeBondNotFound { identity: "non-existent-mix-identity".into() }),
        c.try_delegate_to_mixnode(
            &mock_env(),
            &mock_info("sender", &coins(123, DENOM)),
            "non-existent-mix-identity".into()
        )
    );
}

#[test]
fn succeeds_for_existing_node() {
    let mut c = init_contract();
    let mixnode_owner = "bob";
    let identity = add_mixnode(mixnode_owner, good_mixnode_bond(), &mut c);
    let delegation_owner = "sender";

    let delegation = coin(123, DENOM);
    assert!(c
        .try_delegate_to_mixnode(
            &mock_env(),
            &mock_info(delegation_owner, &vec![delegation.clone()]),
            identity.clone()
        )
        .is_ok());

    assert_eq!(
        Some(RawDelegationData::new(delegation.amount, mock_env().block_height)),
        delegation_of(&c, &identity, delegation_owner)
    );
    assert!(reverse_delegation_exists(&c, delegation_owner, &identity));

    // node's "total_delegation" is increased
    assert_eq!(delegation, mixnode_bond(&c, &identity).unwrap().total_delegation)
}

#[test]
fn fails_if_node_unbonded() {
    let mut c = init_contract();

    let mixnode_owner = "bob";
    let identity = add_mixnode(mixnode_owner, good_mixnode_bond(), &mut c);
    let delegation_owner = "sender";

    c.try_remove_mixnode(&mock_info(mixnode_owner, &[])).unwrap();

    assert_eq!(
        Err(ContractError::MixNodeBondNotFound { identity: identity.clone() }),
        c.try_delegate_to_mixnode(
            &mock_env(),
            &mock_info(delegation_owner, &coins(123, DENOM)),
            identity
        )
    );
}

#[test]
fn succeeds_if_node_rebonded() {
    let mut c = init_contract();

    let mixnode_owner = "bob";
    add_mixnode(mixnode_owner, good_mixnode_bond(), &mut c);
    c.try_remove_mixnode(&mock_info(mixnode_owner, &[])).unwrap();
    let identity = add_mixnode(mixnode_owner, good_mixnode_bond(), &mut c);
    let delegation = coin(123, DENOM);
    let delegation_owner = "sender";

    assert!(c
        .try_delegate_to_mixnode(
            &mock_env(),
            &mock_info(delegation_owner, &vec![delegation.clone()]),
            identity.clone()
        )
        .is_ok());

    assert_eq!(
        Some(RawDelegationData::new(delegation.amount, mock_env().block_height)),
        delegation_of(&c, &identity, delegation_owner)
    );
    assert!(reverse_delegation_exists(&c, delegation_owner, &identity));

    // node's "total_delegation" is increased
    assert_eq!(delegation, mixnode_bond(&c, &identity).unwrap().total_delegation)
}

#[test]
fn is_possible_for_an_already_delegated_node() {
    let mut c = init_contract();
    let mixnode_owner = "bob";
    let identity = add_mixnode(mixnode_owner, good_mixnode_bond(), &mut c);
    let delegation_owner = "sender";

    let delegation1 = coin(100, DENOM);
    let delegation2 = coin(50, DENOM);

    c.try_delegate_to_mixnode(
        &mock_env(),
        &mock_info(delegation_owner, &vec![delegation1.clone()]),
        identity.clone(),
    )
    .unwrap();

    c.try_delegate_to_mixnode(
        &mock_env(),
        &mock_info(delegation_owner, &vec![delegation2.clone()]),
        identity.clone(),
    )
    .unwrap();

    assert_eq!(
        Some(RawDelegationData::new(
            delegation1.amount + delegation2.amount,
            mock_env().block_height
        )),
        delegation_of(&c, &identity, delegation_owner)
    );
    assert!(reverse_delegation_exists(&c, delegation_owner, &identity));

    // node's "total_delegation" is sum of both
    assert_eq!(
        delegation1.amount + delegation2.amount,
        mixnode_bond(&c, &identity).unwrap().total_delegation.amount
    )
}

#[test]
fn block_height_is_updated_on_new_delegation() {
    let mut c = init_contract();
    let mixnode_owner = "bob";
    let identity = add_mixnode(mixnode_owner, good_mixnode_bond(), &mut c);
    let delegation_owner = "sender";
    let delegation = coin(100, DENOM);

    let env1 = mock_env();
    let mut env2 = mock_env();
    let initial_height = env1.block_height;
    let updated_height = initial_height + 42;
    // second env has grown in block height
    env2.block_height = updated_height;

    c.try_delegate_to_mixnode(
        &env1,
        &mock_info(delegation_owner, &vec![delegation.clone()]),
        identity.clone(),
    )
    .unwrap();

    assert_eq!(
        Some(RawDelegationData::new(delegation.amount, initial_height)),
        delegation_of(&c, &identity, delegation_owner)
    );

    c.try_delegate_to_mixnode(
        &env2,
        &mock_info(delegation_owner, &vec![delegation.clone()]),
        identity.clone(),
    )
    .unwrap();

    assert_eq!(
        Some(RawDelegationData::new(delegation.amount + delegation.amount, updated_height)),
        delegation_of(&c, &identity, delegation_owner)
    );
}

#[test]
fn block_height_is_not_updated_on_different_delegator() {
    let mut c = init_contract();
    let mixnode_owner = "bob";
    let identity = add_mixnode(mixnode_owner, good_mixnode_bond(), &mut c);
    let delegation_owner1 = "sender1";
    let delegation_owner2 = "sender2";
    let delegation1 = coin(100, DENOM);
    let delegation2 = coin(120, DENOM);

    let env1 = mock_env();
    let mut env2 = mock_env();
    let initial_height = env1.block_height;
    let second_height = initial_height + 42;
    // second env has grown in block height
    env2.block_height = second_height;

    c.try_delegate_to_mixnode(
        &env1,
        &mock_info(delegation_owner1, &vec![delegation1.clone()]),
        identity.clone(),
    )
    .unwrap();

    assert_eq!(
        Some(RawDelegationData::new(delegation1.amount, initial_height)),
        delegation_of(&c, &identity, delegation_owner1)
    );

    c.try_delegate_to_mixnode(
        &env2,
        &mock_info(delegation_owner2, &vec![delegation2.clone()]),
        identity.clone(),
    )
    .unwrap();

    assert_eq!(
        Some(RawDelegationData::new(delegation1.amount, initial_height)),
        delegation_of(&c, &identity, delegation_owner1)
    );
    assert_eq!(
        Some(RawDelegationData::new(delegation2.amount, second_height)),
        delegation_of(&c, &identity, delegation_owner2)
    );
}

#[test]
fn is_disallowed_for_already_delegated_node_if_it_unbonded() {
    let mut c = init_contract();

    let mixnode_owner = "bob";
    let identity = add_mixnode(mixnode_owner, good_mixnode_bond(), &mut c);
    let delegation_owner = "sender";

    c.try_delegate_to_mixnode(
        &mock_env(),
        &mock_info(delegation_owner, &coins(100, DENOM)),
        identity.clone(),
    )
    .unwrap();

    c.try_remove_mixnode(&mock_info(mixnode_owner, &[])).unwrap();

    assert_eq!(
        Err(ContractError::MixNodeBondNotFound { identity: identity.clone() }),
        c.try_delegate_to_mixnode(
            &mock_env(),
            &mock_info(delegation_owner, &coins(50, DENOM)),
            identity
        )
    );
}

#[test]
fn is_allowed_for_multiple_nodes() {
    let mut c = init_contract();
    let mixnode_owner1 = "bob";
    let mixnode_owner2 = "fred";
    let identity1 = add_mixnode(mixnode_owner1, good_mixnode_bond(), &mut c);
    let identity2 = add_mixnode(mixnode_owner2, good_mixnode_bond(), &mut c);
    let delegation_owner = "sender";

    assert!(c
        .try_delegate_to_mixnode(
            &mock_env(),
            &mock_info(delegation_owner, &coins(123, DENOM)),
            identity1.clone()
        )
        .is_ok());

    assert!(c
        .try_delegate_to_mixnode(
            &mock_env(),
            &mock_info(delegation_owner, &coins(42, DENOM)),
            identity2.clone()
        )
        .is_ok());

    assert_eq!(
        Some(RawDelegationData::new(123, mock_env().block_height)),
        delegation_of(&c, &identity1, delegation_owner)
    );
    assert!(reverse_delegation_exists(&c, delegation_owner, &identity1));

    assert_eq!(
        Some(RawDelegationData::new(42, mock_env().block_height)),
        delegation_of(&c, &identity2, delegation_owner)
    );
    assert!(reverse_delegation_exists(&c, delegation_owner, &identity2));
}

#[test]
fn is_allowed_by_multiple_users() {
    let mut c = init_contract();
    let mixnode_owner = "bob";
    let identity = add_mixnode(mixnode_owner, good_mixnode_bond(), &mut c);

    let delegation1 = coin(123, DENOM);
    let delegation2 = coin(234, DENOM);

    assert!(c
        .try_delegate_to_mixnode(
            &mock_env(),
            &mock_info("sender1", &vec![delegation1.clone()]),
            identity.clone()
        )
        .is_ok());

    assert!(c
        .try_delegate_to_mixnode(
            &mock_env(),
            &mock_info("sender2", &vec![delegation2.clone()]),
            identity.clone()
        )
        .is_ok());

    // node's "total_delegation" is sum of both
    assert_eq!(
        delegation1.amount + delegation2.amount,
        mixnode_bond(&c, &identity).unwrap().total_delegation.amount
    )
}

#[test]
fn delegation_is_not_removed_if_node_unbonded() {
    let mut c = init_contract();

    let mixnode_owner = "bob";
    let identity = add_mixnode(mixnode_owner, good_mixnode_bond(), &mut c);
    let delegation_owner = "sender";

    c.try_delegate_to_mixnode(
        &mock_env(),
        &mock_info(delegation_owner, &coins(100, DENOM)),
        identity.clone(),
    )
    .unwrap();

    c.try_remove_mixnode(&mock_info(mixnode_owner, &[])).unwrap();

    assert_eq!(
        Some(RawDelegationData::new(100, mock_env().block_height)),
        delegation_of(&c, &identity, delegation_owner)
    );
    assert!(reverse_delegation_exists(&c, delegation_owner, &identity));
}

#[test]
fn fails_if_delegation_never_existed() {
    let mut c = init_contract();

    let mixnode_owner = "bob";
    let identity = add_mixnode(mixnode_owner, good_mixnode_bond(), &mut c);
    let delegation_owner = "sender";

    assert_eq!(
        Err(ContractError::NoMixnodeDelegationFound {
            identity: identity.clone(),
            address: delegation_owner.to_string(),
        }),
        c.try_remove_delegation_from_mixnode(&mock_info(delegation_owner, &[]), identity)
    );
}

#[test]
fn succeeds_if_delegation_existed() {
    let mut c = init_contract();

    let mixnode_owner = "bob";
    let identity = add_mixnode(mixnode_owner, good_mixnode_bond(), &mut c);
    let delegation_owner = "sender";

    c.try_delegate_to_mixnode(
        &mock_env(),
        &mock_info(delegation_owner, &coins(100, DENOM)),
        identity.clone(),
    )
    .unwrap();

    assert_eq!(
        Ok(Response {
            attributes: vec![],
            messages: vec![BankMsg::Send {
                to_address: delegation_owner.to_string(),
                amount: coins(100, DENOM),
            }],
        }),
        c.try_remove_delegation_from_mixnode(&mock_info(delegation_owner, &[]), identity.clone())
    );

    assert!(delegation_of(&c, &identity, delegation_owner).is_none());
    assert!(!reverse_delegation_exists(&c, delegation_owner, &identity));

    // and total delegation is cleared
    assert_eq!(0, mixnode_bond(&c, &identity).unwrap().total_delegation.amount)
}

#[test]
fn succeeds_if_delegation_existed_even_if_node_unbonded() {
    let mut c = init_contract();

    let mixnode_owner = "bob";
    let identity = add_mixnode(mixnode_owner, good_mixnode_bond(), &mut c);
    let delegation_owner = "sender";

    c.try_delegate_to_mixnode(
        &mock_env(),
        &mock_info(delegation_owner, &coins(100, DENOM)),
        identity.clone(),
    )
    .unwrap();

    c.try_remove_mixnode(&mock_info(mixnode_owner, &[])).unwrap();

    assert_eq!(
        Ok(Response {
            attributes: vec![],
            messages: vec![BankMsg::Send {
                to_address: delegation_owner.to_string(),
                amount: coins(100, DENOM),
            }],
        }),
        c.try_remove_delegation_from_mixnode(&mock_info(delegation_owner, &[]), identity.clone())
    );

    assert!(delegation_of(&c, &identity, delegation_owner).is_none());
    assert!(!reverse_delegation_exists(&c, delegation_owner, &identity));
}

#[test]
fn total_delegation_is_preserved_if_only_some_undelegate() {
    let mut c = init_contract();
    let mixnode_owner = "bob";
    let identity = add_mixnode(mixnode_owner, good_mixnode_bond(), &mut c);
    let delegation_owner1 = "sender1";
    let delegation_owner2 = "sender2";

    let delegation1 = coin(123, DENOM);
    let delegation2 = coin(234, DENOM);

    assert!(c
        .try_delegate_to_mixnode(
            &mock_env(),
            &mock_info(delegation_owner1, &vec![delegation1.clone()]),
            identity.clone()
        )
        .is_ok());

    assert!(c
        .try_delegate_to_mixnode(
            &mock_env(),
            &mock_info(delegation_owner2, &vec![delegation2.clone()]),
            identity.clone()
        )
        .is_ok());

    // sender1 undelegates
    c.try_remove_delegation_from_mixnode(&mock_info(delegation_owner1, &[]), identity.clone())
        .unwrap();

    // but total delegation should still equal to what sender2 sent
    assert_eq!(delegation2, mixnode_bond(&c, &identity).unwrap().total_delegation)
}

#[test]
fn delegators_on_mix_node_reward_rate() {
    let mut c = init_contract();
    let mut env = mock_env();
    let network_monitor_address = c.state.network_monitor_address.clone();

    let initial_mix_bond = 100_000000;
    let initial_delegation1 = 50000; // will see single digits rewards
    let initial_delegation2 = 100; // won't see any rewards due to such a small delegation
    let initial_delegation3 = 100000_000000; // will see big proper rewards

    let node_owner = "node-owner";
    let identity = add_mixnode(node_owner, good_mixnode_bond(), &mut c);

    save_mix_delegation(
        &mut c,
        &identity,
        "delegator1",
        RawDelegationData::new(initial_delegation1, env.block_height),
    );
    save_mix_delegation(
        &mut c,
        &identity,
        "delegator2",
        RawDelegationData::new(initial_delegation2, env.block_height),
    );
    save_mix_delegation(
        &mut c,
        &identity,
        "delegator3",
        RawDelegationData::new(initial_delegation3, env.block_height),
    );

    env.block_height += 2 * MINIMUM_BLOCK_AGE_FOR_REWARDING;

    let bond_reward = epoch_bond_reward_rate(&c);
    let delegation_reward = epoch_delegation_reward_rate(&c);

    // the node's bond and delegations are correctly increased and scaled by uptime
    // if node was 100% up, it will get full epoch reward
    let expected_mix_reward = mul(initial_mix_bond, bond_reward);
    let expected_delegation1_reward = mul(initial_delegation1, delegation_reward);
    let expected_delegation2_reward = mul(initial_delegation2, delegation_reward);
    let expected_delegation3_reward = mul(initial_delegation3, delegation_reward);

    let expected_bond = expected_mix_reward + initial_mix_bond;
    let expected_delegation1 = expected_delegation1_reward + initial_delegation1;
    let expected_delegation2 = expected_delegation2_reward + initial_delegation2;
    let expected_delegation3 = expected_delegation3_reward + initial_delegation3;

    let info = mock_info(&network_monitor_address, &[]);
    let res = c.try_reward_mixnode(&env, &info, identity.clone(), 100).unwrap();

    assert_eq!(expected_bond, read_mixnode_bond(&c, &identity));
    assert_eq!(expected_delegation1, delegation_of(&c, &identity, "delegator1").unwrap().amount);
    assert_eq!(expected_delegation2, delegation_of(&c, &identity, "delegator2").unwrap().amount);
    assert_eq!(expected_delegation3, delegation_of(&c, &identity, "delegator3").unwrap().amount);

    assert_eq!(
        vec![
            attr("bond increase", expected_mix_reward),
            attr(
                "total delegation increase",
                expected_delegation1_reward
                    + expected_delegation2_reward
                    + expected_delegation3_reward
            ),
        ],
        res.attributes
    );

    // if node was 20% up, it will get 1/5th of epoch reward
    let scaled_bond_reward = scale_reward_by_uptime(bond_reward, 20).unwrap();
    let scaled_delegation_reward = scale_reward_by_uptime(delegation_reward, 20).unwrap();

    let expected_mix_reward = mul(expected_bond, scaled_bond_reward);
    let expected_delegation1_reward = mul(expected_delegation1, scaled_delegation_reward);
    let expected_delegation2_reward = mul(expected_delegation2, scaled_delegation_reward);
    let expected_delegation3_reward = mul(expected_delegation3, scaled_delegation_reward);

    let expected_bond = expected_mix_reward + expected_bond;
    let expected_delegation1 = expected_delegation1_reward + expected_delegation1;
    let expected_delegation2 = expected_delegation2_reward + expected_delegation2;
    let expected_delegation3 = expected_delegation3_reward + expected_delegation3;

    let info = mock_info(&network_monitor_address, &[]);
    let res = c.try_reward_mixnode(&env, &info, identity.clone(), 20).unwrap();

    assert_eq!(expected_bond, read_mixnode_bond(&c, &identity));
    assert_eq!(expected_delegation1, delegation_of(&c, &identity, "delegator1").unwrap().amount);
    assert_eq!(expected_delegation2, delegation_of(&c, &identity, "delegator2").unwrap().amount);
    assert_eq!(expected_delegation3, delegation_of(&c, &identity, "delegator3").unwrap().amount);

    assert_eq!(
        vec![
            attr("bond increase", expected_mix_reward),
            attr(
                "total delegation increase",
                expected_delegation1_reward
                    + expected_delegation2_reward
                    + expected_delegation3_reward
            ),
        ],
        res.attributes
    );

    // if the node was 0% up, nobody will get any rewards
    let info = mock_info(&network_monitor_address, &[]);
    let res = c.try_reward_mixnode(&env, &info, identity.clone(), 0).unwrap();

    assert_eq!(expected_bond, read_mixnode_bond(&c, &identity));
    assert_eq!(expected_delegation1, delegation_of(&c, &identity, "delegator1").unwrap().amount);
    assert_eq!(expected_delegation2, delegation_of(&c, &identity, "delegator2").unwrap().amount);
    assert_eq!(expected_delegation3, delegation_of(&c, &identity, "delegator3").unwrap().amount);

    assert_eq!(
        vec![attr("bond increase", 0u128), attr("total delegation increase", 0u128)],
        res.attributes
    );
}

#[test]
fn multiple_page_delegations() {
    let mut c = init_contract();
    let node_identity = "foo".to_string();

    for i in 0..DELEGATION_PAGE_DEFAULT_LIMIT * 10 {
        let address = format!("address{}", i);
        save_mix_delegation(&mut c, &node_identity, &address, raw_delegation_fixture(42));
    }
    let mut mix_delegations = 0;
    for i in 0..c.mix_delegations.len() {
        mix_delegations += c.mix_delegations.value_at(i).len();
    }
    assert_eq!(DELEGATION_PAGE_DEFAULT_LIMIT * 10, mix_delegations as u32);
}

#[test]
fn when_there_werent_any() {
    let c = init_contract();

    let node_identity = "nodeidentity".to_string();

    let old_delegations = match c.mix_delegations.get(&node_identity) {
        Some(bucket) => total_delegations(bucket),
        None => total_delegations(&KeyedStore::new()),
    };

    assert_eq!(Coin::new(0), old_delegations);
}

#[test]
fn when_some_existed() {
    let num_delegations = vec![
        1,
        5,
        OLD_DELEGATIONS_CHUNK_SIZE - 1,
        OLD_DELEGATIONS_CHUNK_SIZE,
        OLD_DELEGATIONS_CHUNK_SIZE + 1,
        OLD_DELEGATIONS_CHUNK_SIZE * 3,
        OLD_DELEGATIONS_CHUNK_SIZE * 3 + 1,
    ];

    for delegations in num_delegations {
        let mut c = init_contract();

        let node_identity = "nodeidentity".to_string();

        // delegate some stake
        for i in 1..=delegations {
            let delegator = format!("delegator{}", i);
            let delegation = raw_delegation_fixture(i as u128);
            save_mix_delegation(&mut c, &node_identity, &delegator, delegation);
        }

        let old_delegations = total_delegations(c.mix_delegations.get(&node_identity).unwrap());

        let total_delegation = (1..=delegations as u128).into_iter().sum();
        assert_eq!(Coin::new(total_delegation), old_delegations);
    }
}

#[test]
fn choose_layer_mix_node() {
    let mut c = init_contract();
    for owner in ["alice", "bob"] {
        c.try_add_mixnode(
            &mock_env(),
            &mock_info(owner, &good_mixnode_bond()),
            MixNode { identity_key: owner.to_string(), ..mix_node_fixture() },
        )
        .unwrap();
    }
    let bonded_mix_nodes = get_mix_nodes(&c);
    let alice_node = bonded_mix_nodes.get(0).unwrap().clone();
    let bob_node = bonded_mix_nodes.get(1).unwrap().clone();
    assert_eq!(alice_node.mix_node.identity_key, "alice");
    assert_eq!(alice_node.layer, Layer::One);
    assert_eq!(bob_node.mix_node.identity_key, "bob");
    assert_eq!(bob_node.layer, Layer::Two);
}
