//! Normalization of internal-transaction rows.

use vstd::prelude::*;

use crate::amount::{scaled_mul, Amount, UNIT_LIMIT};
use crate::ingest::transaction::{eth_token, eth_token_v, or_zero};
use crate::token::lower;
use crate::transfer::{Transfer, TransferV};

verus! {

/// Mathematical image of an internal-transaction row.
pub struct InternalRowV {
    pub transaction_hash: Seq<char>,
    pub datetime_utc: Seq<char>,
    pub from: Seq<char>,
    pub tx_to: Seq<char>,
    pub value_in_eth: Option<int>,
    pub value_out_eth: Option<int>,
    pub historical_price_eth: Option<int>,
}

/// An internal-transaction row, with its numeric fields already parsed; a
/// field that could not be parsed is absent.
pub struct Internal {
    /// Hash of the parent transaction.
    pub transaction_hash: String,
    /// ISO8601 timestamp of the transaction.
    pub datetime_utc: String,
    /// Sending address.
    pub from: String,
    /// Receiving address.
    pub tx_to: String,
    /// Native value received by the observed address.
    pub value_in_eth: Option<Amount>,
    /// Native value sent by the observed address.
    pub value_out_eth: Option<Amount>,
    /// Historical USD price of one native unit.
    pub historical_price_eth: Option<Amount>,
}

impl View for Internal {
    type V = InternalRowV;

    open spec fn view(&self) -> InternalRowV {
        InternalRowV {
            transaction_hash: self.transaction_hash@,
            datetime_utc: self.datetime_utc@,
            from: self.from@,
            tx_to: self.tx_to@,
            value_in_eth: match self.value_in_eth {
                Some(v) => Some(v@),
                None => None,
            },
            value_out_eth: match self.value_out_eth {
                Some(v) => Some(v@),
                None => None,
            },
            historical_price_eth: match self.historical_price_eth {
                Some(v) => Some(v@),
                None => None,
            },
        }
    }
}

/// The transfer an internal-transaction row normalizes to: outgoing with
/// the sent value when the row's sender is the observed address (ignoring
/// ASCII case), else incoming with the received value; an absent value
/// moves nothing.  The USD value is the moved value at the row's historical
/// price, signed like the movement, and absent without a price.
pub open spec fn normalize_internal_spec(address: Seq<char>, row: InternalRowV) -> TransferV {
    let outgoing = lower(row.from) == lower(address);
    let value = if outgoing {
        -or_zero(row.value_out_eth)
    } else {
        or_zero(row.value_in_eth)
    };
    let usd_value = match row.historical_price_eth {
        Option::Some(p) => Option::Some(scaled_mul(value, p)),
        Option::None => Option::None,
    };
    TransferV {
        transfer_id: row.transaction_hash,
        datetime: row.datetime_utc,
        token: eth_token_v(),
        value: value,
        usd_value: usd_value,
        counterparty: seq![
            if outgoing {
                row.tx_to
            } else {
                row.from
            },
        ],
    }
}

/// Normalizes one internal-transaction row relative to the observed address.
pub fn normalize_internal_row(address: &String, row: &Internal) -> (t: Transfer)
    requires
        match row@.value_in_eth {
            Option::Some(v) => 0 <= v <= UNIT_LIMIT,
            Option::None => true,
        },
        match row@.value_out_eth {
            Option::Some(v) => 0 <= v <= UNIT_LIMIT,
            Option::None => true,
        },
        match row@.historical_price_eth {
            Option::Some(p) => -UNIT_LIMIT <= p <= UNIT_LIMIT,
            Option::None => true,
        },
    ensures
        t@ == normalize_internal_spec(address@, row@),
{
    let outgoing = crate::token::str_eq_ignore_ascii_case(row.from.as_str(), address.as_str());
    let value = if outgoing {
        match row.value_out_eth {
            Some(v) => v.neg(),
            None => Amount::zero(),
        }
    } else {
        match row.value_in_eth {
            Some(v) => v,
            None => Amount::zero(),
        }
    };
    let usd_value: Option<Amount> = match row.historical_price_eth {
        Some(p) => {
            proof {
                crate::amount::lemma_mul_in_range(value@, p@);
            }
            Some(value.mul_scaled(&p))
        },
        None => None,
    };
    let mut counterparty: Vec<String> = Vec::new();
    if outgoing {
        counterparty.push(row.tx_to.clone());
    } else {
        counterparty.push(row.from.clone());
    }
    proof {
        assert(counterparty.deep_view() =~= normalize_internal_spec(address@, row@).counterparty);
    }
    Transfer {
        transfer_id: row.transaction_hash.clone(),
        datetime: row.datetime_utc.clone(),
        token: eth_token(),
        value,
        usd_value,
        counterparty,
    }
}

} // verus!
