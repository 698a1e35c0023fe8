//! The text that responses carry: amounts in decimal, flags, and the
//! one-line descriptions of bonds.
use vstd::prelude::*;
use crate::types::{CoinView, GatewayBond, MixNodeBond};

verus! {

/// The character of a decimal digit.
pub open spec fn digit_char(d: int) -> char {
    (d + 48) as char
}

/// The decimal digits of `n`, most significant first, without leading zeros.
pub open spec fn decimal_text(n: nat) -> Seq<char>
    decreases n,
{
    if n < 10 {
        seq![digit_char(n as int)]
    } else {
        decimal_text(n / 10).push(digit_char((n % 10) as int))
    }
}

/// `Display` of cosmwasm_std's `Uint128`, whose source writes the inner
/// `u128` with std's integer formatting: its decimal digits, no sign, no
/// padding.
#[verifier::external_body]
pub(crate) fn amount_text(n: u128) -> (s: String)
    ensures
        s@ == decimal_text(n as nat),
{
    cosmwasm_std::Uint128::new(n).to_string()
}

/// The text of a flag.
pub open spec fn bool_text(b: bool) -> Seq<char> {
    if b {
        "true"@
    } else {
        "false"@
    }
}

/// Writes a flag as `true` or `false`.
pub fn bool_to_string(b: bool) -> (s: String)
    ensures
        s@ == bool_text(b),
{
    if b {
        String::from_str("true")
    } else {
        String::from_str("false")
    }
}

/// The description of a bond: its amount and denomination, its owner and
/// the identity of the bonded node.
pub open spec fn bond_text(amount: CoinView, owner: Seq<char>, identity: Seq<char>) -> Seq<char> {
    "amount: "@ + decimal_text(amount.amount as nat) + " "@ + amount.denom + ", owner: "@ + owner
        + ", identity: "@ + identity
}

/// Writes the description of a bond.
fn describe_bond(amount: u128, denom: &String, owner: &String, identity: &String) -> (s: String)
    ensures
        s@ == bond_text(CoinView { denom: denom@, amount }, owner@, identity@),
{
    let mut s = String::from_str("amount: ");
    s.append(amount_text(amount).as_str());
    s.append(" ");
    s.append(denom.as_str());
    s.append(", owner: ");
    s.append(owner.as_str());
    s.append(", identity: ");
    s.append(identity.as_str());
    s
}

impl MixNodeBond {
    /// `amount: <amount> <denom>, owner: <owner>, identity: <identity>`.
    pub fn to_string(&self) -> (s: String)
        ensures
            s@ == bond_text(self.bond_amount@, self.owner@, self.mix_node.identity_key@),
    {
        describe_bond(
            self.bond_amount.amount,
            &self.bond_amount.denom,
            &self.owner,
            &self.mix_node.identity_key,
        )
    }
}

impl GatewayBond {
    /// `amount: <amount> <denom>, owner: <owner>, identity: <identity>`.
    pub fn to_string(&self) -> (s: String)
        ensures
            s@ == bond_text(self.bond_amount@, self.owner@, self.gateway.identity_key@),
    {
        describe_bond(
            self.bond_amount.amount,
            &self.bond_amount.denom,
            &self.owner,
            &self.gateway.identity_key,
        )
    }
}

} // verus!
