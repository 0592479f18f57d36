//! Normalization of token-transfer rows.

use vstd::prelude::*;

use crate::amount::{abs_int, scaled_mul, Amount, UNIT_LIMIT};
use crate::token::{
    lower, meta_match_index, resolve_token, resolved_token_v, unknown_token_v, TokenMeta, TokenV,
};
use crate::transfer::{Transfer, TransferV};

verus! {

/// Mathematical image of a token-transfer row.
pub struct TokenRowV {
    pub transaction_hash: Seq<char>,
    pub datetime_utc: Seq<char>,
    pub from: Seq<char>,
    pub to: Seq<char>,
    pub token_value: int,
    pub usd_value_day_of_tx: Option<int>,
    pub contract_address: Seq<char>,
}

/// A token transfer row, with its numeric fields already parsed.
pub struct Token {
    /// Hash of the transaction the transfer belongs to.
    pub transaction_hash: String,
    /// ISO8601 timestamp of the transfer.
    pub datetime_utc: String,
    /// Sending address.
    pub from: String,
    /// Receiving address.
    pub to: String,
    /// Unsigned quantity of token moved.
    pub token_value: Amount,
    /// USD value of the transfer on the day of the transaction, if it
    /// could be parsed.
    pub usd_value_day_of_tx: Option<Amount>,
    /// Contract address of the token.
    pub contract_address: String,
}

impl View for Token {
    type V = TokenRowV;

    open spec fn view(&self) -> TokenRowV {
        TokenRowV {
            transaction_hash: self.transaction_hash@,
            datetime_utc: self.datetime_utc@,
            from: self.from@,
            to: self.to@,
            token_value: self.token_value@,
            usd_value_day_of_tx: match self.usd_value_day_of_tx {
                Some(u) => Some(u@),
                None => None,
            },
            contract_address: self.contract_address@,
        }
    }
}

/// The token a row's contract address resolves to.
pub open spec fn row_token(row: TokenRowV, table: Seq<(String, TokenMeta)>) -> TokenV {
    if meta_match_index(table, row.contract_address) == -1 {
        unknown_token_v(row.contract_address)
    } else {
        resolved_token_v(row.contract_address, table[meta_match_index(table, row.contract_address)].1@)
    }
}

/// The transfer a token-transfer row normalizes to, for the observed
/// address: outgoing when the row's sender is that address (ignoring ASCII
/// case), with the counterparty on the other side.  The USD value carries
/// the sign of the movement; a statically priced token is valued at
/// `value * price` instead of the row's USD column.
pub open spec fn normalize_token_spec(
    address: Seq<char>,
    row: TokenRowV,
    table: Seq<(String, TokenMeta)>,
) -> TransferV {
    let token = row_token(row, table);
    let outgoing = lower(row.from) == lower(address);
    let value = if outgoing {
        -row.token_value
    } else {
        row.token_value
    };
    let usd_value = match token.stable_usd_value {
        Option::Some(p) => Option::Some(scaled_mul(value, p)),
        Option::None => match row.usd_value_day_of_tx {
            Option::Some(u) => Option::Some(
                if outgoing {
                    -abs_int(u)
                } else {
                    abs_int(u)
                },
            ),
            Option::None => Option::None,
        },
    };
    TransferV {
        transfer_id: row.transaction_hash,
        datetime: row.datetime_utc,
        token: token,
        value: value,
        usd_value: usd_value,
        counterparty: seq![
            if outgoing {
                row.to
            } else {
                row.from
            },
        ],
    }
}

/// Every metadata entry carries an in-range price.
pub open spec fn table_in_range(table: Seq<(String, TokenMeta)>) -> bool {
    forall|i: int|
        0 <= i < table.len() ==> match (#[trigger] table[i].1).stable_usd_value {
            Some(p) => -UNIT_LIMIT <= p@ <= UNIT_LIMIT,
            None => true,
        }
}

/// Checks that every metadata price is in range; an out-of-range price is a
/// fatal configuration error for the caller.
pub fn token_table_in_range(table: &Vec<(String, TokenMeta)>) -> (r: bool)
    ensures
        r == table_in_range(table@),
{
    let n = table.len();
    let mut i: usize = 0;
    while i < n
        invariant
            i <= n,
            forall|q: int|
                0 <= q < i ==> match (#[trigger] table@[q].1).stable_usd_value {
                    Some(p) => -UNIT_LIMIT <= p@ <= UNIT_LIMIT,
                    None => true,
                },
        decreases n - i,
    {
        match table[i].1.stable_usd_value {
            Some(p) => {
                if p.units < -UNIT_LIMIT || p.units > UNIT_LIMIT {
                    return false;
                }
            },
            None => {},
        }
        i += 1;
    }
    true
}

/// Normalizes one token-transfer row relative to the observed address.
pub fn normalize_token_row(
    address: &String,
    row: &Token,
    table: &Vec<(String, TokenMeta)>,
) -> (t: Transfer)
    requires
        0 <= row@.token_value <= UNIT_LIMIT,
        match row@.usd_value_day_of_tx {
            Option::Some(u) => -UNIT_LIMIT <= u <= UNIT_LIMIT,
            Option::None => true,
        },
        table_in_range(table@),
    ensures
        t@ == normalize_token_spec(address@, row@, table@),
{
    let token = resolve_token(&row.contract_address, table);
    proof {
        if meta_match_index(table@, row@.contract_address) != -1 {
            let i = meta_match_index(table@, row@.contract_address);
            assert(match table@[i].1.stable_usd_value {
                Some(p) => -UNIT_LIMIT <= p@ <= UNIT_LIMIT,
                None => true,
            });
        }
    }
    let outgoing = crate::token::str_eq_ignore_ascii_case(row.from.as_str(), address.as_str());
    let value = if outgoing {
        row.token_value.neg()
    } else {
        row.token_value
    };
    let usd_value: Option<Amount> = match token.stable_usd_value {
        Some(p) => {
            proof {
                crate::amount::lemma_mul_in_range(value@, p@);
            }
            Some(value.mul_scaled(&p))
        },
        None => match row.usd_value_day_of_tx {
            Some(u) => {
                let m = u.abs();
                Some(
                    if outgoing {
                        m.neg()
                    } else {
                        m
                    },
                )
            },
            None => None,
        },
    };
    let mut counterparty: Vec<String> = Vec::new();
    if outgoing {
        counterparty.push(row.to.clone());
    } else {
        counterparty.push(row.from.clone());
    }
    proof {
        assert(counterparty.deep_view() =~= normalize_token_spec(
            address@,
            row@,
            table@,
        ).counterparty);
    }
    Transfer {
        transfer_id: row.transaction_hash.clone(),
        datetime: row.datetime_utc.clone(),
        token,
        value,
        usd_value,
        counterparty,
    }
}

} // verus!
