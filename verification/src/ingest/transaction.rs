//! Normalization of native-asset transaction rows.

use vstd::prelude::*;

use crate::amount::{scaled_mul, Amount, UNIT_LIMIT};
use crate::token::{lower, Token as TokenDesc, TokenV};
use crate::transfer::{Transfer, TransferDirection, TransferV};

verus! {

/// The fixed descriptor of the native asset.
pub open spec fn eth_token_v() -> TokenV {
    TokenV {
        asset: "ETH"@,
        symbol: "ETH"@,
        stable_usd_value: Option::None,
        address: "ETH"@,
        is_usd: false,
        is_debt: false,
    }
}

/// Builds the descriptor of the native asset.
pub fn eth_token() -> (r: TokenDesc)
    ensures
        r@ == eth_token_v(),
{
    TokenDesc {
        asset: "ETH".to_owned(),
        symbol: "ETH".to_owned(),
        stable_usd_value: None,
        address: "ETH".to_owned(),
        is_usd: false,
        is_debt: false,
    }
}

/// Mathematical image of a native-asset transaction row.
pub struct TxRowV {
    pub txhash: Seq<char>,
    pub datetime_utc: Seq<char>,
    pub from: Seq<char>,
    pub to: Seq<char>,
    pub value_in_eth: Option<int>,
    pub value_out_eth: Option<int>,
    pub historical_price_eth: Option<int>,
}

/// A native-asset transaction row, with its numeric fields already parsed;
/// a field that could not be parsed is absent.
pub struct Transaction {
    /// Hash of the transaction.
    pub txhash: String,
    /// ISO8601 timestamp of the transaction.
    pub datetime_utc: String,
    /// Sending address.
    pub from: String,
    /// Receiving address.
    pub to: String,
    /// Native value received by the observed address.
    pub value_in_eth: Option<Amount>,
    /// Native value sent by the observed address.
    pub value_out_eth: Option<Amount>,
    /// Historical USD price of one native unit.
    pub historical_price_eth: Option<Amount>,
}

impl View for Transaction {
    type V = TxRowV;

    open spec fn view(&self) -> TxRowV {
        TxRowV {
            txhash: self.txhash@,
            datetime_utc: self.datetime_utc@,
            from: self.from@,
            to: self.to@,
            value_in_eth: match self.value_in_eth {
                Some(v) => Some(v@),
                None => None,
            },
            value_out_eth: match self.value_out_eth {
                Some(v) => Some(v@),
                None => None,
            },
            historical_price_eth: match self.historical_price_eth {
                Some(v) => Some(v@),
                None => None,
            },
        }
    }
}

/// An absent parsed value counts as zero.
pub open spec fn or_zero(v: Option<int>) -> int {
    match v {
        Option::Some(x) => x,
        Option::None => 0,
    }
}

/// The transfer a transaction row normalizes to: the incoming native value
/// when positive, else the outgoing one, else a zero movement; its USD value
/// is the moved value at the row's historical price, signed like the
/// movement, and absent without a price or a movement.
pub open spec fn normalize_tx_spec(address: Seq<char>, row: TxRowV) -> TransferV {
    let in_eth = or_zero(row.value_in_eth);
    let out_eth = or_zero(row.value_out_eth);
    let value = if in_eth > 0 {
        in_eth
    } else if out_eth > 0 {
        -out_eth
    } else {
        0
    };
    let usd_value = if in_eth > 0 || out_eth > 0 {
        match row.historical_price_eth {
            Option::Some(p) => Option::Some(scaled_mul(value, p)),
            Option::None => Option::None,
        }
    } else {
        Option::None
    };
    TransferV {
        transfer_id: row.txhash,
        datetime: row.datetime_utc,
        token: eth_token_v(),
        value: value,
        usd_value: usd_value,
        counterparty: seq![
            if lower(row.from) == lower(address) {
                row.to
            } else {
                row.from
            },
        ],
    }
}

/// Normalizes one native-asset transaction row relative to the observed
/// address.
pub fn normalize_tx_row(address: &String, row: &Transaction) -> (t: Transfer)
    requires
        match row@.value_in_eth {
            Option::Some(v) => 0 <= v <= UNIT_LIMIT,
            Option::None => true,
        },
        match row@.value_out_eth {
            Option::Some(v) => 0 <= v <= UNIT_LIMIT,
            Option::None => true,
        },
        match row@.historical_price_eth {
            Option::Some(p) => -UNIT_LIMIT <= p <= UNIT_LIMIT,
            Option::None => true,
        },
    ensures
        t@ == normalize_tx_spec(address@, row@),
{
    let in_eth = match row.value_in_eth {
        Some(v) => v,
        None => Amount::zero(),
    };
    let out_eth = match row.value_out_eth {
        Some(v) => v,
        None => Amount::zero(),
    };
    let moved = in_eth.is_positive() || out_eth.is_positive();
    let value = if in_eth.is_positive() {
        in_eth
    } else if out_eth.is_positive() {
        out_eth.neg()
    } else {
        Amount::zero()
    };
    let usd_value: Option<Amount> = if moved {
        match row.historical_price_eth {
            Some(p) => {
                proof {
                    crate::amount::lemma_mul_in_range(value@, p@);
                }
                Some(value.mul_scaled(&p))
            },
            None => None,
        }
    } else {
        None
    };
    let outgoing = crate::token::str_eq_ignore_ascii_case(row.from.as_str(), address.as_str());
    let mut counterparty: Vec<String> = Vec::new();
    if outgoing {
        counterparty.push(row.to.clone());
    } else {
        counterparty.push(row.from.clone());
    }
    proof {
        assert(counterparty.deep_view() =~= normalize_tx_spec(address@, row@).counterparty);
    }
    Transfer {
        transfer_id: row.txhash.clone(),
        datetime: row.datetime_utc.clone(),
        token: eth_token(),
        value,
        usd_value,
        counterparty,
    }
}

} // verus!
