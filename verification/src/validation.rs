//! Checks on the funds sent with a request: a bond must be one coin of the
//! contract's denomination, at least the minimum; a delegation must be one
//! coin of that denomination, more than nothing.
use vstd::prelude::*;
use crate::types::{coins_view, denom_text, Coin, CoinView, ContractError, ContractErrorView, DENOM};

verus! {

/// Why the funds sent to bond a mixnode are refused, if they are.
pub open spec fn spec_mixnode_bond_error(bond: Seq<CoinView>, minimum_bond: u128) -> Option<
    ContractErrorView,
> {
    if bond.len() == 0 {
        Some(ContractErrorView::NoBondFound)
    } else if bond.len() > 1 {
        Some(ContractErrorView::MultipleDenoms)
    } else if bond[0].denom != denom_text() {
        Some(ContractErrorView::WrongDenom)
    } else if bond[0].amount < minimum_bond {
        Some(
            ContractErrorView::InsufficientMixNodeBond {
                received: bond[0].amount,
                minimum: minimum_bond,
            },
        )
    } else {
        None
    }
}

/// Why the funds sent to bond a gateway are refused, if they are.
pub open spec fn spec_gateway_bond_error(bond: Seq<CoinView>, minimum_bond: u128) -> Option<
    ContractErrorView,
> {
    if bond.len() == 0 {
        Some(ContractErrorView::NoBondFound)
    } else if bond.len() > 1 {
        Some(ContractErrorView::MultipleDenoms)
    } else if bond[0].denom != denom_text() {
        Some(ContractErrorView::WrongDenom)
    } else if bond[0].amount < minimum_bond {
        Some(
            ContractErrorView::InsufficientGatewayBond {
                received: bond[0].amount,
                minimum: minimum_bond,
            },
        )
    } else {
        None
    }
}

/// Why the funds sent as a delegation are refused, if they are.
pub open spec fn spec_delegation_stake_error(delegation: Seq<CoinView>) -> Option<ContractErrorView> {
    if delegation.len() == 0 {
        Some(ContractErrorView::EmptyDelegation)
    } else if delegation.len() > 1 {
        Some(ContractErrorView::MultipleDenoms)
    } else if delegation[0].denom != denom_text() {
        Some(ContractErrorView::WrongDenom)
    } else if delegation[0].amount == 0 {
        Some(ContractErrorView::EmptyDelegation)
    } else {
        None
    }
}

/// Whether `coin` is of the contract's denomination.
fn is_contract_denom(coin: &Coin) -> (b: bool)
    ensures
        b == (coin.denom@ == denom_text()),
{
    let denom = String::from_str(DENOM);
    coin.denom == denom
}

/// Checks the funds sent to bond a mixnode against `minimum_bond`.
pub fn validate_mixnode_bond(bond: &[Coin], minimum_bond: u128) -> (r: Result<(), ContractError>)
    ensures
        match r {
            Ok(()) => spec_mixnode_bond_error(coins_view(bond@), minimum_bond) is None,
            Err(e) => spec_mixnode_bond_error(coins_view(bond@), minimum_bond) == Some(e@),
        },
{
    if bond.len() == 0 {
        return Err(ContractError::NoBondFound);
    }
    if bond.len() > 1 {
        return Err(ContractError::MultipleDenoms);
    }
    if !is_contract_denom(&bond[0]) {
        return Err(ContractError::WrongDenom);
    }
    if bond[0].amount < minimum_bond {
        return Err(
            ContractError::InsufficientMixNodeBond {
                received: bond[0].amount,
                minimum: minimum_bond,
            },
        );
    }
    Ok(())
}

/// Checks the funds sent to bond a gateway against `minimum_bond`.
pub fn validate_gateway_bond(bond: &[Coin], minimum_bond: u128) -> (r: Result<(), ContractError>)
    ensures
        match r {
            Ok(()) => spec_gateway_bond_error(coins_view(bond@), minimum_bond) is None,
            Err(e) => spec_gateway_bond_error(coins_view(bond@), minimum_bond) == Some(e@),
        },
{
    if bond.len() == 0 {
        return Err(ContractError::NoBondFound);
    }
    if bond.len() > 1 {
        return Err(ContractError::MultipleDenoms);
    }
    if !is_contract_denom(&bond[0]) {
        return Err(ContractError::WrongDenom);
    }
    if bond[0].amount < minimum_bond {
        return Err(
            ContractError::InsufficientGatewayBond {
                received: bond[0].amount,
                minimum: minimum_bond,
            },
        );
    }
    Ok(())
}

/// Checks the funds sent as a delegation.
pub fn validate_delegation_stake(delegation: &[Coin]) -> (r: Result<(), ContractError>)
    ensures
        match r {
            Ok(()) => spec_delegation_stake_error(coins_view(delegation@)) is None,
            Err(e) => spec_delegation_stake_error(coins_view(delegation@)) == Some(e@),
        },
{
    if delegation.len() == 0 {
        return Err(ContractError::EmptyDelegation);
    }
    if delegation.len() > 1 {
        return Err(ContractError::MultipleDenoms);
    }
    if !is_contract_denom(&delegation[0]) {
        return Err(ContractError::WrongDenom);
    }
    if delegation[0].amount == 0 {
        return Err(ContractError::EmptyDelegation);
    }
    Ok(())
}

} // verus!
